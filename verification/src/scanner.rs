//! The principal scanner: resolving a hashed bearer secret to an
//! `(account, calendar)` pair by walking the directory's principal listing
//! and inspecting each data entry for a verifying share-link token. The scan
//! short-circuits on the first match, and every failed resolution reports
//! the one `NotFound` condition, whatever stage ruled the secret out.

use vstd::prelude::*;
use crate::codec::has_share_prefix;
use crate::codec::decode;
use crate::codec::parse_meta;
use crate::codec::spec_decode;
use crate::codec::spec_parse_meta;
use crate::model::Principal;
use crate::model::PrincipalData;
use crate::model::PrincipalKind;
use crate::model::ShareError;
use crate::text::count_char;
use crate::text::str_eq;

verus! {

/// The calendar identifier one data entry yields for a hashed secret: the
/// entry must hold a share-link token, the token must decode, its hash part
/// must equal the hashed secret, and its meta part must parse.
pub open spec fn entry_result(hashed: Seq<char>, e: PrincipalData) -> Option<Seq<char>> {
    match e {
        PrincipalData::CalendarShareLink(t) => match spec_decode(t@) {
            Some(p) => if p.1 == hashed {
                spec_parse_meta(p.0)
            } else {
                None
            },
            None => None,
        },
        PrincipalData::Other(_) => None,
    }
}

/// Whether one data entry verifies against the hashed secret.
pub open spec fn entry_matches(hashed: Seq<char>, e: PrincipalData) -> bool {
    entry_result(hashed, e) is Some
}

/// The first matching entry of a data list, scanned front to back.
pub open spec fn spec_scan_entries(hashed: Seq<char>, es: Seq<PrincipalData>) -> Option<
    Seq<char>,
>
    decreases es.len(),
{
    if es.len() == 0 {
        None
    } else if entry_matches(hashed, es[0]) {
        entry_result(hashed, es[0])
    } else {
        spec_scan_entries(hashed, es.drop_first())
    }
}

/// What one principal yields: its account id paired with the calendar
/// identifier of its first matching entry. Principals of other kinds never
/// participate.
pub open spec fn principal_result(hashed: Seq<char>, p: Principal) -> Option<(u32, Seq<char>)> {
    if p.kind is Individual {
        match spec_scan_entries(hashed, p.data@) {
            Some(cal) => Some((p.id, cal)),
            None => None,
        }
    } else {
        None
    }
}

/// The first principal with a verifying entry, in listing order.
pub open spec fn spec_resolve(hashed: Seq<char>, ps: Seq<Principal>) -> Option<(u32, Seq<char>)>
    decreases ps.len(),
{
    if ps.len() == 0 {
        None
    } else if principal_result(hashed, ps[0]) is Some {
        principal_result(hashed, ps[0])
    } else {
        spec_resolve(hashed, ps.drop_first())
    }
}

proof fn lemma_scan_entries_skip(hashed: Seq<char>, es: Seq<PrincipalData>, i: int)
    requires
        0 <= i <= es.len(),
        forall|k: int| 0 <= k < i ==> entry_result(hashed, #[trigger] es[k]) is None,
    ensures
        spec_scan_entries(hashed, es) == spec_scan_entries(
            hashed,
            es.subrange(i, es.len() as int),
        ),
    decreases i,
{
    if i == 0 {
        assert(es.subrange(0, es.len() as int) =~= es);
    } else {
        assert(forall|k: int|
            0 <= k < i - 1 ==> es.drop_first()[k] == es[k + 1]);
        lemma_scan_entries_skip(hashed, es.drop_first(), i - 1);
        assert(es.drop_first().subrange(i - 1, es.drop_first().len() as int) =~= es.subrange(
            i,
            es.len() as int,
        ));
    }
}

proof fn lemma_resolve_skip(hashed: Seq<char>, ps: Seq<Principal>, i: int)
    requires
        0 <= i <= ps.len(),
        forall|k: int| 0 <= k < i ==> principal_result(hashed, #[trigger] ps[k]) is None,
    ensures
        spec_resolve(hashed, ps) == spec_resolve(hashed, ps.subrange(i, ps.len() as int)),
    decreases i,
{
    if i == 0 {
        assert(ps.subrange(0, ps.len() as int) =~= ps);
    } else {
        assert(forall|k: int|
            0 <= k < i - 1 ==> ps.drop_first()[k] == ps[k + 1]);
        lemma_resolve_skip(hashed, ps.drop_first(), i - 1);
        assert(ps.drop_first().subrange(i - 1, ps.drop_first().len() as int) =~= ps.subrange(
            i,
            ps.len() as int,
        ));
    }
}

/// Checks one data entry against the hashed secret: decode the token, hold
/// its hash part against the secret's hash, then parse the meta part. Every
/// malformed or non-verifying entry is silently skipped, never an error.
fn check_entry(hashed_secret: &str, entry: &PrincipalData) -> (r: Option<String>)
    ensures
        (match r {
            Some(cal) => entry_result(hashed_secret@, *entry) == Some(cal@),
            None => entry_result(hashed_secret@, *entry) is None,
        }),
{
    match entry {
        PrincipalData::CalendarShareLink(t) => {
            match decode(t.as_str()) {
                Some(p) => {
                    if str_eq(p.1.as_str(), hashed_secret) {
                        parse_meta(p.0.as_str())
                    } else {
                        None
                    }
                },
                None => None,
            }
        },
        PrincipalData::Other(_) => None,
    }
}

/// Scans one principal's data entries front to back for a verifying token.
fn scan_entries(hashed_secret: &str, entries: &Vec<PrincipalData>) -> (r: Option<String>)
    ensures
        (match r {
            Some(cal) => spec_scan_entries(hashed_secret@, entries@) == Some(cal@),
            None => spec_scan_entries(hashed_secret@, entries@) is None,
        }),
{
    let n = entries.len();
    let mut j: usize = 0;
    while j < n
        invariant
            j <= n,
            n == entries@.len(),
            forall|k: int|
                0 <= k < j ==> entry_result(hashed_secret@, #[trigger] entries@[k]) is None,
        decreases n - j,
    {
        match check_entry(hashed_secret, &entries[j]) {
            Some(cal) => {
                proof {
                    lemma_scan_entries_skip(hashed_secret@, entries@, j as int);
                    assert(entries@.subrange(j as int, n as int)[0] == entries@[j as int]);
                }
                return Some(cal);
            },
            None => {},
        }
        j = j + 1;
    }
    proof {
        lemma_scan_entries_skip(hashed_secret@, entries@, n as int);
        assert(entries@.subrange(n as int, n as int) =~= Seq::<PrincipalData>::empty());
        assert(spec_scan_entries(hashed_secret@, Seq::<PrincipalData>::empty()) is None);
    }
    None
}

/// Resolves a hashed bearer secret against the principal listing: the first
/// individual principal holding a verifying share-link token wins, and both
/// scans stop there. When no principal yields a match the one `NotFound`
/// error comes back, the same whether no token was found, a token failed
/// hash verification, or a verifying token's meta part was malformed.
pub fn resolve(hashed_secret: &str, principals: &Vec<Principal>) -> (r: Result<
    (u32, String),
    ShareError,
>)
    ensures
        (match r {
            Ok(ok) => spec_resolve(hashed_secret@, principals@) == Some((ok.0, ok.1@)),
            Err(e) => spec_resolve(hashed_secret@, principals@) is None && e
                == ShareError::NotFound,
        }),
{
    let n = principals.len();
    let mut i: usize = 0;
    while i < n
        invariant
            i <= n,
            n == principals@.len(),
            forall|k: int|
                0 <= k < i ==> principal_result(hashed_secret@, #[trigger] principals@[k]) is None,
        decreases n - i,
    {
        let p = &principals[i];
        let is_individual = match p.kind {
            PrincipalKind::Individual => true,
            PrincipalKind::Other => false,
        };
        if is_individual {
            match scan_entries(hashed_secret, &p.data) {
                Some(cal) => {
                    proof {
                        lemma_resolve_skip(hashed_secret@, principals@, i as int);
                        assert(principals@.subrange(i as int, n as int)[0] == principals@[i as int]);
                    }
                    return Ok((p.id, cal));
                },
                None => {},
            }
        }
        i = i + 1;
    }
    proof {
        lemma_resolve_skip(hashed_secret@, principals@, n as int);
        assert(principals@.subrange(n as int, n as int) =~= Seq::<Principal>::empty());
        assert(spec_resolve(hashed_secret@, Seq::<Principal>::empty()) is None);
    }
    Err(ShareError::NotFound)
}

/// A token without the `$cal$` prefix never matches, whatever its hash
/// content.
pub proof fn lemma_no_prefix_never_matches(hashed: Seq<char>, e: PrincipalData)
    requires
        (match e {
            PrincipalData::CalendarShareLink(t) => !has_share_prefix(t@),
            PrincipalData::Other(_) => true,
        }),
    ensures
        !entry_matches(hashed, e),
{
}

/// A token whose meta part has fewer than three `|`-delimited fields is
/// ignored even when its hash part verifies against the hashed secret.
pub proof fn lemma_short_meta_ignored(hashed: Seq<char>, e: PrincipalData, meta: Seq<char>)
    requires
        (match e {
            PrincipalData::CalendarShareLink(t) => spec_decode(t@) == Some((meta, hashed)),
            PrincipalData::Other(_) => false,
        }),
        count_char(meta, '|') < 2,
    ensures
        !entry_matches(hashed, e),
{
}

/// With two principals of which only the second holds a verifying entry,
/// resolution yields the second principal's account id and the calendar
/// identifier of that entry.
pub proof fn lemma_second_principal_wins(
    hashed: Seq<char>,
    first: Principal,
    second: Principal,
    cal: Seq<char>,
)
    requires
        principal_result(hashed, first) is None,
        second.kind is Individual,
        spec_scan_entries(hashed, second.data@) == Some(cal),
    ensures
        spec_resolve(hashed, seq![first, second]) == Some((second.id, cal)),
{
    let ps = seq![first, second];
    assert(ps[0] == first);
    assert(ps.drop_first() =~= seq![second]);
    assert(seq![second][0] == second);
    assert(spec_resolve(hashed, seq![second]) == principal_result(hashed, second));
}

} // verus!
