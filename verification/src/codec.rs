//! The share-secret codec: the compact textual token `$cal$<meta>$<hash>`
//! that a principal's data carries for each published calendar share link.
//! `meta` is a `|`-delimited field list whose first field is the calendar
//! identifier; `hash` is the verification hash of the bearer secret.

use vstd::prelude::*;
use vstd::string::StrSliceExecFns;
use vstd::string::StringExecFns;
use crate::text::count_char;
use crate::text::count_char_in;
use crate::text::find_char;
use crate::text::lemma_contains_concat;
use crate::text::lemma_count_char_concat;
use crate::text::lemma_count_char_zero;

verus! {

/// The literal `$cal$` that opens every share-link token.
pub open spec fn share_prefix() -> Seq<char> {
    seq!['$', 'c', 'a', 'l', '$']
}

/// Whether `t` opens with the share-link prefix.
pub open spec fn has_share_prefix(t: Seq<char>) -> bool {
    t.len() >= 5 && t.subrange(0, 5) == share_prefix()
}

/// What `decode` returns: for a token with the prefix and a `$` in the
/// remainder, the meta part before the first such `$` and the hash after it;
/// nothing otherwise.
pub open spec fn spec_decode(t: Seq<char>) -> Option<(Seq<char>, Seq<char>)> {
    if has_share_prefix(t) {
        let rest = t.subrange(5, t.len() as int);
        match rest.index_of_first('$') {
            Some(i) => Some((rest.subrange(0, i), rest.subrange(i + 1, rest.len() as int))),
            None => None,
        }
    } else {
        None
    }
}

/// What `parse_meta` returns: the first `|`-delimited field of `m`, provided
/// `m` has at least three fields — that is, at least two separators; fewer
/// fields mean the token is ignored.
pub open spec fn spec_parse_meta(m: Seq<char>) -> Option<Seq<char>> {
    if count_char(m, '|') >= 2 {
        match m.index_of_first('|') {
            Some(i) => Some(m.subrange(0, i)),
            None => None,  // two separators guarantee an occurrence
        }
    } else {
        None
    }
}

/// The `|`-prefixed concatenation of the extra meta fields.
pub open spec fn spec_joined_fields(extras: Seq<Seq<char>>) -> Seq<char>
    decreases extras.len(),
{
    if extras.len() == 0 {
        Seq::empty()
    } else {
        seq!['|'] + extras[0] + spec_joined_fields(extras.drop_first())
    }
}

/// The meta part of an encoded token: the calendar identifier followed by
/// the extra fields, `|`-delimited.
pub open spec fn spec_meta_of(cal: Seq<char>, extras: Seq<Seq<char>>) -> Seq<char> {
    cal + spec_joined_fields(extras)
}

/// What `encode` produces: `$cal$<cal>|<extras...>$<hash>`.
pub open spec fn spec_encode(cal: Seq<char>, extras: Seq<Seq<char>>, hash: Seq<char>) -> Seq<
    char,
> {
    share_prefix() + spec_meta_of(cal, extras) + seq!['$'] + hash
}

/// Strips the `$cal$` prefix and splits the remainder on its first `$` into
/// the meta part and the verification hash. A token without the prefix or
/// without a remaining `$` is simply not a share-link token. The hash is
/// not validated here.
pub fn decode(token: &str) -> (r: Option<(String, String)>)
    ensures
        (match r {
            Some(p) => spec_decode(token@) == Some((p.0@, p.1@)),
            None => spec_decode(token@) is None,
        }),
{
    let len = token.unicode_len();
    if len < 5 {
        return None;
    }
    if token.get_char(0) != '$' || token.get_char(1) != 'c' || token.get_char(2) != 'a'
        || token.get_char(3) != 'l' || token.get_char(4) != '$' {
        proof {
            if has_share_prefix(token@) {
                assert(forall|k: int|
                    0 <= k < 5 ==> token@.subrange(0, 5)[k] == token@[k]);
                assert(false);
            }
        }
        return None;
    }
    proof {
        assert(token@.subrange(0, 5) =~= share_prefix());
    }
    let rest = token.substring_char(5, len);
    let rest_len = rest.unicode_len();
    match find_char(rest, '$') {
        Some(i) => {
            proof {
                rest@.index_of_first_ensures('$');
                assert(rest@.contains('$'));
            }
            let meta = rest.substring_char(0, i);
            let hash = rest.substring_char(i + 1, rest_len);
            Some((String::from_str(meta), String::from_str(hash)))
        },
        None => {
            proof {
                rest@.index_of_first_ensures('$');
            }
            None
        },
    }
}

/// Splits `meta` on `|` and returns the first field — the calendar
/// identifier — provided there are at least three fields; the later fields
/// are reserved and not consumed here.
pub fn parse_meta(meta: &str) -> (r: Option<String>)
    ensures
        (match r {
            Some(c) => spec_parse_meta(meta@) == Some(c@),
            None => spec_parse_meta(meta@) is None,
        }),
{
    let separators = count_char_in(meta, '|');
    if separators < 2 {
        return None;
    }
    match find_char(meta, '|') {
        Some(i) => {
            proof {
                meta@.index_of_first_ensures('|');
                assert(meta@.contains('|'));
            }
            Some(String::from_str(meta.substring_char(0, i)))
        },
        None => {
            proof {
                lemma_count_char_zero(meta@, '|');
                assert(false);
            }
            None
        },
    }
}

/// Builds the token for one calendar and its extra meta fields; `hash` is
/// the verification hash of the bearer secret, opaque to this crate.
pub fn encode(calendar_id: &str, extra_fields: &Vec<String>, hash: &str) -> (r: String)
    ensures
        r@ == spec_encode(calendar_id@, extra_fields.deep_view(), hash@),
{
    let mut s = String::from_str("$cal$");
    proof {
        reveal_strlit("$cal$");
        assert("$cal$"@ =~= share_prefix());
    }
    s.append(calendar_id);
    let n = extra_fields.len();
    let mut j: usize = 0;
    while j < n
        invariant
            j <= n,
            n == extra_fields@.len(),
            s@ == share_prefix() + calendar_id@ + spec_joined_fields(
                extra_fields.deep_view().subrange(0, j as int),
            ),
        decreases n - j,
    {
        s.append("|");
        s.append(extra_fields[j].as_str());
        proof {
            reveal_strlit("|");
            assert("|"@ =~= seq!['|']);
            lemma_joined_fields_snoc(
                extra_fields.deep_view().subrange(0, j as int),
                extra_fields.deep_view()[j as int],
            );
            assert(extra_fields.deep_view().subrange(0, j as int + 1) =~= extra_fields
                .deep_view()
                .subrange(0, j as int)
                .push(extra_fields.deep_view()[j as int]));
            assert(share_prefix() + calendar_id@ + spec_joined_fields(
                extra_fields.deep_view().subrange(0, j as int),
            ) + "|"@ + extra_fields@[j as int]@ =~= share_prefix() + calendar_id@
                + spec_joined_fields(
                extra_fields.deep_view().subrange(0, j as int + 1),
            ));
        }
        j = j + 1;
    }
    proof {
        assert(extra_fields.deep_view().subrange(0, n as int) =~= extra_fields.deep_view());
    }
    s.append("$");
    s.append(hash);
    proof {
        reveal_strlit("$");
        assert("$"@ =~= seq!['$']);
        assert(share_prefix() + calendar_id@ + spec_joined_fields(extra_fields.deep_view())
            + "$"@ + hash@ =~= spec_encode(calendar_id@, extra_fields.deep_view(), hash@));
    }
    s
}

proof fn lemma_joined_fields_snoc(extras: Seq<Seq<char>>, f: Seq<char>)
    ensures
        spec_joined_fields(extras.push(f)) == spec_joined_fields(extras) + seq!['|'] + f,
    decreases extras.len(),
{
    if extras.len() == 0 {
        assert(extras.push(f).drop_first() =~= Seq::<Seq<char>>::empty());
        assert(extras.push(f)[0] == f);
        assert(spec_joined_fields(Seq::<Seq<char>>::empty()) == Seq::<char>::empty());
        assert(spec_joined_fields(extras.push(f)) == seq!['|'] + f + Seq::<char>::empty());
        assert(seq!['|'] + f + Seq::<char>::empty() =~= Seq::<char>::empty() + seq!['|'] + f);
    } else {
        assert(extras.push(f).drop_first() =~= extras.drop_first().push(f));
        lemma_joined_fields_snoc(extras.drop_first(), f);
        assert(extras.push(f)[0] == extras[0]);
        assert(seq!['|'] + extras[0] + (spec_joined_fields(extras.drop_first()) + seq!['|'] + f)
            =~= (seq!['|'] + extras[0] + spec_joined_fields(extras.drop_first())) + seq!['|']
            + f);
    }
}

/// No `$` occurs in the joined extra fields when none occurs in any field.
proof fn lemma_joined_fields_no_dollar(extras: Seq<Seq<char>>)
    requires
        forall|i: int| 0 <= i < extras.len() ==> !(#[trigger] extras[i]).contains('$'),
    ensures
        !spec_joined_fields(extras).contains('$'),
    decreases extras.len(),
{
    if extras.len() == 0 {
    } else {
        assert(extras[0] == extras[0]);
        assert(forall|i: int|
            0 <= i < extras.drop_first().len() ==> extras.drop_first()[i] == extras[i + 1]);
        lemma_joined_fields_no_dollar(extras.drop_first());
        lemma_contains_concat(seq!['|'], extras[0], '$');
        lemma_contains_concat(seq!['|'] + extras[0], spec_joined_fields(extras.drop_first()), '$');
        assert(!seq!['|'].contains('$')) by {
            assert(forall|i: int| 0 <= i < 1 ==> seq!['|'][i] == '|');
        }
    }
}

/// At least one separator per extra field occurs in the joined fields.
proof fn lemma_joined_fields_separators(extras: Seq<Seq<char>>)
    ensures
        count_char(spec_joined_fields(extras), '|') >= extras.len(),
    decreases extras.len(),
{
    if extras.len() == 0 {
    } else {
        lemma_joined_fields_separators(extras.drop_first());
        lemma_count_char_concat(seq!['|'], extras[0], '|');
        lemma_count_char_concat(seq!['|'] + extras[0], spec_joined_fields(extras.drop_first()), '|');
        assert(count_char(seq!['|'], '|') == 1) by {
            assert(seq!['|'][0] == '|');
            assert(seq!['|'].drop_first() =~= Seq::<char>::empty());
            assert(count_char(Seq::<char>::empty(), '|') == 0);
        }
    }
}

/// Round trip of the codec: a token built by `encode` from a calendar
/// identifier free of `$` and `|`, at least two extra fields free of `$`,
/// and any hash, decodes back to its meta part and hash, and the meta part
/// parses back to the calendar identifier.
pub proof fn lemma_encode_round_trip(cal: Seq<char>, extras: Seq<Seq<char>>, hash: Seq<char>)
    requires
        !cal.contains('$'),
        !cal.contains('|'),
        extras.len() >= 2,
        forall|i: int| 0 <= i < extras.len() ==> !(#[trigger] extras[i]).contains('$'),
    ensures
        spec_decode(spec_encode(cal, extras, hash)) == Some((spec_meta_of(cal, extras), hash)),
        spec_parse_meta(spec_meta_of(cal, extras)) == Some(cal),
{
    let meta = spec_meta_of(cal, extras);
    let t = spec_encode(cal, extras, hash);

    // The prefix is in place.
    assert(t.subrange(0, 5) =~= share_prefix());
    let rest = t.subrange(5, t.len() as int);
    assert(rest =~= meta + seq!['$'] + hash);

    // The meta part holds no `$`, so the first `$` of the remainder is the
    // separator written after it.
    lemma_joined_fields_no_dollar(extras);
    lemma_contains_concat(cal, spec_joined_fields(extras), '$');
    assert(!meta.contains('$'));
    assert(rest[meta.len() as int] == '$');
    assert(forall|k: int| 0 <= k < meta.len() ==> rest[k] == meta[k]);
    rest.index_of_first_ensures('$');
    match rest.index_of_first('$') {
        Some(i) => {
            assert(forall|k: int| 0 <= k < meta.len() ==> meta[k] != '$');
            assert(i == meta.len());
            assert(rest.subrange(0, i) =~= meta);
            assert(rest.subrange(i + 1, rest.len() as int) =~= hash);
        },
        None => {
            assert(rest.contains('$'));
            assert(false);
        },
    }

    // The meta part has at least three fields: one separator per extra field.
    lemma_joined_fields_separators(extras);
    lemma_count_char_concat(cal, spec_joined_fields(extras), '|');
    lemma_count_char_zero(cal, '|');
    assert(count_char(meta, '|') >= 2);

    // Its first separator stands right after the calendar identifier.
    assert(spec_joined_fields(extras)[0] == '|');
    assert(meta[cal.len() as int] == '|');
    assert(forall|k: int| 0 <= k < cal.len() ==> meta[k] == cal[k]);
    meta.index_of_first_ensures('|');
    match meta.index_of_first('|') {
        Some(i) => {
            assert(forall|k: int| 0 <= k < cal.len() ==> meta[k] != '|');
            assert(i == cal.len());
            assert(meta.subrange(0, i) =~= cal);
        },
        None => {
            assert(meta.contains('|'));
            assert(false);
        },
    }
}

} // verus!
