//! The event serializer and document assembly: each matched leaf's archived
//! record is looked up and its decoded body appended to the interchange
//! document, between the fixed `BEGIN:VCALENDAR` header block and the
//! `END:VCALENDAR` footer. A missing record, or one that does not decode,
//! skips that leaf and nothing else — a corrupt event must not break the
//! whole export.

use vstd::prelude::*;
use vstd::string::StringExecFns;
use crate::model::EventRecord;
use crate::model::Resource;
use crate::resolver::list_calendar_leaves;
use crate::resolver::matching_leaves;

verus! {

/// The fixed opening of every exported document: format name, version and
/// product identifier, one CRLF-terminated line each.
pub open spec fn spec_header() -> Seq<char> {
    "BEGIN:VCALENDAR\r\nVERSION:2.0\r\nPRODID:-//CalShare//Calendar Share//EN\r\n"@
}

/// The fixed close of every exported document.
pub open spec fn spec_footer() -> Seq<char> {
    "END:VCALENDAR\r\n"@
}

/// The first record stored under `doc_id`, in snapshot order, if any.
pub open spec fn spec_lookup(records: Seq<EventRecord>, doc_id: u32) -> Option<EventRecord>
    decreases records.len(),
{
    if records.len() == 0 {
        None
    } else if records[0].document_id == doc_id {
        Some(records[0])
    } else {
        spec_lookup(records.drop_first(), doc_id)
    }
}

/// The fragment one leaf contributes: the decoded body of its archived
/// record; nothing when the record is missing or does not decode.
pub open spec fn spec_render(records: Seq<EventRecord>, r: Resource) -> Option<Seq<char>> {
    match spec_lookup(records, r.document_id) {
        Some(rec) => match rec.body {
            Some(b) => Some(b@),
            None => None,
        },
        None => None,
    }
}

/// The fragments a run of leaves contributes, in listing order.
pub open spec fn spec_fragments(records: Seq<EventRecord>, leaves: Seq<Resource>) -> Seq<
    Seq<char>,
>
    decreases leaves.len(),
{
    if leaves.len() == 0 {
        Seq::empty()
    } else {
        match spec_render(records, leaves[0]) {
            Some(b) => seq![b] + spec_fragments(records, leaves.drop_first()),
            None => spec_fragments(records, leaves.drop_first()),
        }
    }
}

/// How many of the leaves contribute a fragment.
pub open spec fn count_rendered(records: Seq<EventRecord>, leaves: Seq<Resource>) -> nat
    decreases leaves.len(),
{
    if leaves.len() == 0 {
        0
    } else {
        (if spec_render(records, leaves[0]) is Some {
            1nat
        } else {
            0nat
        }) + count_rendered(records, leaves.drop_first())
    }
}

/// The concatenation of a run of fragments.
pub open spec fn spec_concat(frags: Seq<Seq<char>>) -> Seq<char>
    decreases frags.len(),
{
    if frags.len() == 0 {
        Seq::empty()
    } else {
        frags[0] + spec_concat(frags.drop_first())
    }
}

/// The whole exported document for a run of leaves.
pub open spec fn spec_document(records: Seq<EventRecord>, leaves: Seq<Resource>) -> Seq<char> {
    spec_header() + spec_concat(spec_fragments(records, leaves)) + spec_footer()
}

proof fn lemma_lookup_skip(records: Seq<EventRecord>, doc_id: u32, i: int)
    requires
        0 <= i <= records.len(),
        forall|k: int| 0 <= k < i ==> (#[trigger] records[k]).document_id != doc_id,
    ensures
        spec_lookup(records, doc_id) == spec_lookup(
            records.subrange(i, records.len() as int),
            doc_id,
        ),
    decreases i,
{
    if i == 0 {
        assert(records.subrange(0, records.len() as int) =~= records);
    } else {
        assert(forall|k: int|
            0 <= k < i - 1 ==> records.drop_first()[k] == records[k + 1]);
        lemma_lookup_skip(records.drop_first(), doc_id, i - 1);
        assert(records.drop_first().subrange(i - 1, records.drop_first().len() as int)
            =~= records.subrange(i, records.len() as int));
    }
}

/// Fetches the archived record of one document, first match in snapshot
/// order.
fn fetch_record<'a>(records: &'a Vec<EventRecord>, doc_id: u32) -> (r: Option<&'a EventRecord>)
    ensures
        (match r {
            Some(rec) => spec_lookup(records@, doc_id) == Some(*rec),
            None => spec_lookup(records@, doc_id) is None,
        }),
{
    let n = records.len();
    let mut i: usize = 0;
    while i < n
        invariant
            i <= n,
            n == records@.len(),
            forall|k: int| 0 <= k < i ==> (#[trigger] records@[k]).document_id != doc_id,
        decreases n - i,
    {
        if records[i].document_id == doc_id {
            proof {
                lemma_lookup_skip(records@, doc_id, i as int);
                assert(records@.subrange(i as int, n as int)[0] == records@[i as int]);
            }
            return Some(&records[i]);
        }
        i = i + 1;
    }
    proof {
        lemma_lookup_skip(records@, doc_id, n as int);
        assert(records@.subrange(n as int, n as int) =~= Seq::<EventRecord>::empty());
        assert(spec_lookup(Seq::<EventRecord>::empty(), doc_id) is None);
    }
    None
}

/// Renders one leaf: look its record up and hand back the decoded body.
/// A missing record and an undecodable one alike yield nothing — both are
/// soft conditions, never errors.
pub fn render_event(records: &Vec<EventRecord>, resource: &Resource) -> (r: Option<String>)
    ensures
        (match r {
            Some(b) => spec_render(records@, *resource) == Some(b@),
            None => spec_render(records@, *resource) is None,
        }),
{
    match fetch_record(records, resource.document_id) {
        Some(rec) => match &rec.body {
            Some(b) => Some(b.clone()),
            None => None,
        },
        None => None,
    }
}

proof fn lemma_fragments_snoc(records: Seq<EventRecord>, leaves: Seq<Resource>, r: Resource)
    ensures
        spec_fragments(records, leaves.push(r)) == spec_fragments(records, leaves) + (
        match spec_render(records, r) {
            Some(b) => seq![b],
            None => Seq::<Seq<char>>::empty(),
        }),
    decreases leaves.len(),
{
    if leaves.len() == 0 {
        assert(leaves.push(r).drop_first() =~= Seq::<Resource>::empty());
        assert(leaves.push(r)[0] == r);
        assert(spec_fragments(records, Seq::<Resource>::empty()) == Seq::<Seq<char>>::empty());
        match spec_render(records, r) {
            Some(b) => {
                assert(seq![b] + Seq::<Seq<char>>::empty() =~= Seq::<Seq<char>>::empty()
                    + seq![b]);
            },
            None => {
                assert(Seq::<Seq<char>>::empty() + Seq::<Seq<char>>::empty() =~= Seq::<
                    Seq<char>,
                >::empty());
            },
        }
    } else {
        assert(leaves.push(r).drop_first() =~= leaves.drop_first().push(r));
        assert(leaves.push(r)[0] == leaves[0]);
        lemma_fragments_snoc(records, leaves.drop_first(), r);
        let tail = match spec_render(records, r) {
            Some(b) => seq![b],
            None => Seq::<Seq<char>>::empty(),
        };
        match spec_render(records, leaves[0]) {
            Some(b0) => {
                assert(seq![b0] + (spec_fragments(records, leaves.drop_first()) + tail) =~= (
                seq![b0] + spec_fragments(records, leaves.drop_first())) + tail);
            },
            None => {},
        }
    }
}

proof fn lemma_concat_snoc(frags: Seq<Seq<char>>, b: Seq<char>)
    ensures
        spec_concat(frags.push(b)) == spec_concat(frags) + b,
    decreases frags.len(),
{
    if frags.len() == 0 {
        assert(frags.push(b).drop_first() =~= Seq::<Seq<char>>::empty());
        assert(frags.push(b)[0] == b);
        assert(spec_concat(Seq::<Seq<char>>::empty()) == Seq::<char>::empty());
        assert(b + Seq::<char>::empty() =~= Seq::<char>::empty() + b);
    } else {
        assert(frags.push(b).drop_first() =~= frags.drop_first().push(b));
        assert(frags.push(b)[0] == frags[0]);
        lemma_concat_snoc(frags.drop_first(), b);
        assert(frags[0] + (spec_concat(frags.drop_first()) + b) =~= (frags[0] + spec_concat(
            frags.drop_first(),
        )) + b);
    }
}

/// Assembles the interchange document: the fixed header, one fragment per
/// leaf whose record is present and decodes, in listing order, and the
/// fixed footer. Total — an empty calendar yields header and footer alone.
pub fn assemble_document(records: &Vec<EventRecord>, leaves: &Vec<Resource>) -> (doc: String)
    ensures
        doc@ == spec_document(records@, leaves@),
{
    let mut doc = String::from_str(
        "BEGIN:VCALENDAR\r\nVERSION:2.0\r\nPRODID:-//CalShare//Calendar Share//EN\r\n",
    );
    proof {
        assert(spec_fragments(records@, leaves@.subrange(0, 0)) == Seq::<Seq<char>>::empty());
        assert(spec_concat(Seq::<Seq<char>>::empty()) == Seq::<char>::empty());
        assert(spec_header() + Seq::<char>::empty() =~= spec_header());
    }
    let n = leaves.len();
    let mut i: usize = 0;
    while i < n
        invariant
            i <= n,
            n == leaves@.len(),
            doc@ == spec_header() + spec_concat(
                spec_fragments(records@, leaves@.subrange(0, i as int)),
            ),
        decreases n - i,
    {
        let prefix_frags = Ghost(spec_fragments(records@, leaves@.subrange(0, i as int)));
        match render_event(records, &leaves[i]) {
            Some(b) => {
                doc.append(b.as_str());
                proof {
                    lemma_concat_snoc(prefix_frags@, b@);
                    assert(spec_header() + spec_concat(prefix_frags@) + b@ =~= spec_header()
                        + spec_concat(prefix_frags@.push(b@)));
                    assert(prefix_frags@ + seq![b@] =~= prefix_frags@.push(b@));
                }
            },
            None => {
                proof {
                    assert(prefix_frags@ + Seq::<Seq<char>>::empty() =~= prefix_frags@);
                }
            },
        }
        proof {
            lemma_fragments_snoc(records@, leaves@.subrange(0, i as int), leaves@[i as int]);
            assert(leaves@.subrange(0, i as int + 1) =~= leaves@.subrange(0, i as int).push(
                leaves@[i as int],
            ));
        }
        i = i + 1;
    }
    proof {
        assert(leaves@.subrange(0, n as int) =~= leaves@);
    }
    doc.append("END:VCALENDAR\r\n");
    proof {
        assert(spec_header() + spec_concat(spec_fragments(records@, leaves@)) + spec_footer()
            =~= (spec_header() + spec_concat(spec_fragments(records@, leaves@)))
            + spec_footer());
    }
    doc
}

/// Exports one resolved calendar: filter the account's listing to the
/// calendar's leaf events, render each in listing order, and frame the
/// result. The records snapshot is the account's archived event collection.
pub fn export_calendar(calendar_id: &str, resources: &Vec<Resource>, records: &Vec<EventRecord>)
    -> (doc: String)
    ensures
        doc@ == spec_document(records@, matching_leaves(resources@, calendar_id@)),
{
    let leaves = list_calendar_leaves(resources, calendar_id);
    assemble_document(records, &leaves)
}

/// Each rendered leaf contributes exactly one fragment: the document holds
/// as many event bodies as leaves whose record is present and decodes.
pub proof fn lemma_fragment_count(records: Seq<EventRecord>, leaves: Seq<Resource>)
    ensures
        spec_fragments(records, leaves).len() == count_rendered(records, leaves),
    decreases leaves.len(),
{
    if leaves.len() > 0 {
        lemma_fragment_count(records, leaves.drop_first());
    }
}

proof fn lemma_count_all_rendered(records: Seq<EventRecord>, leaves: Seq<Resource>)
    requires
        forall|i: int| 0 <= i < leaves.len() ==> spec_render(records, #[trigger] leaves[i]) is Some,
    ensures
        count_rendered(records, leaves) == leaves.len(),
    decreases leaves.len(),
{
    if leaves.len() > 0 {
        assert(forall|k: int|
            0 <= k < leaves.drop_first().len() ==> leaves.drop_first()[k] == leaves[k + 1]);
        lemma_count_all_rendered(records, leaves.drop_first());
    }
}

/// The exported document holds one event body per leaf of the target
/// calendar when every such leaf has a stored, decodable record: leaves of
/// other calendars and container entries contribute nothing.
pub proof fn lemma_export_counts_matching_leaves(
    records: Seq<EventRecord>,
    resources: Seq<Resource>,
    cal: Seq<char>,
)
    requires
        forall|i: int|
            0 <= i < matching_leaves(resources, cal).len() ==> spec_render(
                records,
                #[trigger] matching_leaves(resources, cal)[i],
            ) is Some,
    ensures
        spec_fragments(records, matching_leaves(resources, cal)).len() == matching_leaves(
            resources,
            cal,
        ).len(),
{
    lemma_fragment_count(records, matching_leaves(resources, cal));
    lemma_count_all_rendered(records, matching_leaves(resources, cal));
}

proof fn lemma_count_one_missing(records: Seq<EventRecord>, leaves: Seq<Resource>, k: int)
    requires
        0 <= k < leaves.len(),
        spec_render(records, leaves[k]) is None,
        forall|i: int|
            0 <= i < leaves.len() && i != k ==> spec_render(records, #[trigger] leaves[i]) is Some,
    ensures
        count_rendered(records, leaves) == leaves.len() - 1,
    decreases leaves.len(),
{
    assert(forall|j: int|
        0 <= j < leaves.drop_first().len() ==> leaves.drop_first()[j] == leaves[j + 1]);
    if k == 0 {
        lemma_count_all_rendered(records, leaves.drop_first());
    } else {
        lemma_count_one_missing(records, leaves.drop_first(), k - 1);
    }
}

/// One leaf without a stored record — or with one that does not decode — is
/// skipped and nothing else: the document holds exactly one event body fewer
/// than the leaves, and the export still succeeds.
pub proof fn lemma_missing_record_skips_one(
    records: Seq<EventRecord>,
    leaves: Seq<Resource>,
    k: int,
)
    requires
        0 <= k < leaves.len(),
        spec_render(records, leaves[k]) is None,
        forall|i: int|
            0 <= i < leaves.len() && i != k ==> spec_render(records, #[trigger] leaves[i]) is Some,
    ensures
        spec_fragments(records, leaves).len() == leaves.len() - 1,
{
    lemma_fragment_count(records, leaves);
    lemma_count_one_missing(records, leaves, k);
}

/// Every exported document opens with the `BEGIN:VCALENDAR` line and closes
/// with the `END:VCALENDAR` line, whatever the leaves and records — an
/// empty calendar still yields the framed document, not an error.
pub proof fn lemma_document_framing(records: Seq<EventRecord>, leaves: Seq<Resource>)
    ensures
        spec_document(records, leaves).len() >= 32,
        spec_document(records, leaves).subrange(0, 17) == "BEGIN:VCALENDAR\r\n"@,
        spec_document(records, leaves).subrange(
            spec_document(records, leaves).len() - 15,
            spec_document(records, leaves).len() as int,
        ) == "END:VCALENDAR\r\n"@,
{
    reveal_strlit("BEGIN:VCALENDAR\r\nVERSION:2.0\r\nPRODID:-//CalShare//Calendar Share//EN\r\n");
    reveal_strlit("END:VCALENDAR\r\n");
    reveal_strlit("BEGIN:VCALENDAR\r\n");
    let doc = spec_document(records, leaves);
    assert(doc.subrange(0, 17) =~= "BEGIN:VCALENDAR\r\n"@);
    assert(doc.subrange(doc.len() - 15, doc.len() as int) =~= "END:VCALENDAR\r\n"@);
}

} // verus!
