//! The manual "logged in Harvest" checkmarks, keyed by a UUIDv5 of the
//! timeline event id.
use vstd::prelude::*;
use vstd::string::StringSliceAdditionalSpecFns;

verus! {

/// Fixed namespace for UUID v5 row keys derived from `TimelineEvent.id`.
/// Rows on disk are keyed by it; changing it would orphan every checkmark.
pub const HARVEST_DONE_NS: u128 = 0xa312b8c4_d5e6_4789_b012_3456789abcde;

/// The hyphenated text of the version-5 UUID of `name` in `namespace`.
pub uninterp spec fn uuid_v5_text(namespace: u128, name: Seq<u8>) -> Seq<char>;

/// `uuid::Uuid::new_v5` followed by `to_string`: the SHA-1 based name UUID
/// of `name` in `namespace`, hyphenated. The contract names the result.
#[verifier::external_body]
pub(crate) fn uuid_v5(namespace: u128, name: &[u8]) -> (r: String)
    ensures
        r@ == uuid_v5_text(namespace, name@),
{
    uuid::Uuid::new_v5(&uuid::Uuid::from_u128(namespace), name).to_string()
}

/// The row key of an event id.
pub open spec fn row_key(event_id: Seq<char>) -> Seq<char> {
    uuid_v5_text(HARVEST_DONE_NS, vstd::utf8::encode_utf8(event_id))
}

/// Row key for a timeline event id (any source; the id must be stable).
pub fn row_uuid_for_event_id(event_id: &str) -> (r: String)
    ensures
        r@ == row_key(event_id@),
{
    uuid_v5(HARVEST_DONE_NS, event_id.as_bytes())
}

pub open spec fn texts(v: Seq<String>) -> Seq<Seq<char>> {
    v.map_values(|s: String| s@)
}

/// The asked-for ids whose row key was found, in the order asked.
pub open spec fn marked_ids(event_ids: Seq<String>, found: Seq<Seq<char>>) -> Seq<Seq<char>> {
    texts(event_ids).filter(|e: Seq<char>| found.contains(row_key(e)))
}

fn contains_text(v: &Vec<String>, t: &str) -> (b: bool)
    ensures
        b == texts(v@).contains(t@),
{
    let mut i: usize = 0;
    while i < v.len()
        invariant
            i <= v.len(),
            forall|j: int| 0 <= j < i ==> v@[j]@ != t@,
        decreases v.len() - i,
    {
        if crate::text::same_text(v[i].as_str(), t) {
            assert(texts(v@)[i as int] == t@);
            return true;
        }
        i += 1;
    }
    assert forall|j: int| 0 <= j < texts(v@).len() implies texts(v@)[j] != t@ by {
        assert(texts(v@)[j] == v@[j]@);
    }
    false
}

/// Of `event_ids`, those whose row key is among `found` (the keys present
/// in the table), in input order.
pub fn marked_event_ids(event_ids: &Vec<String>, found: &Vec<String>) -> (r: Vec<String>)
    ensures
        texts(r@) == marked_ids(event_ids@, texts(found@)),
{
    let ghost p = |e: Seq<char>| texts(found@).contains(row_key(e));
    let ghost f = |s: String| s@;
    let mut r: Vec<String> = Vec::new();
    let mut i: usize = 0;
    while i < event_ids.len()
        invariant
            i <= event_ids.len(),
            p == (|e: Seq<char>| texts(found@).contains(row_key(e))),
            f == (|s: String| s@),
            texts(r@) == texts(event_ids@.take(i as int)).filter(p),
        decreases event_ids.len() - i,
    {
        proof {
            event_ids@.take(i as int).lemma_push_map_commute(f, event_ids@[i as int]);
            assert(event_ids@.take(i + 1) =~= event_ids@.take(i as int).push(event_ids@[i as int]));
            texts(event_ids@.take(i as int)).lemma_filter_push(event_ids@[i as int]@, p);
        }
        let key = row_uuid_for_event_id(event_ids[i].as_str());
        let ghost before = r@;
        if contains_text(found, key.as_str()) {
            r.push(event_ids[i].clone());
            proof {
                before.lemma_push_map_commute(f, r@.last());
                assert(r@ =~= before.push(r@.last()));
            }
        }
        i += 1;
    }
    assert(event_ids@.take(event_ids@.len() as int) =~= event_ids@);
    r
}

/// `found` holds exactly the row keys of the ids in `marked`.
pub open spec fn keys_of_marked(found: Seq<Seq<char>>, marked: Set<Seq<char>>) -> bool {
    forall|k: Seq<char>|
        #![trigger found.contains(k)]
        found.contains(k) <==> exists|m: Seq<char>| #[trigger] marked.contains(m) && row_key(m) == k
}

/// No id of `ids` shares its row key with a different marked id.
pub open spec fn keys_distinct(ids: Seq<Seq<char>>, marked: Set<Seq<char>>) -> bool {
    forall|i: int, m: Seq<char>|
        0 <= i < ids.len() && #[trigger] marked.contains(m) && row_key(#[trigger] ids[i]) == row_key(m) ==> ids[i] == m
}

proof fn lemma_filter_marked(ids: Seq<Seq<char>>, found: Seq<Seq<char>>, marked: Set<Seq<char>>)
    requires
        keys_of_marked(found, marked),
        keys_distinct(ids, marked),
    ensures
        ids.filter(|e: Seq<char>| found.contains(row_key(e))) == ids.filter(|e: Seq<char>| marked.contains(e)),
    decreases ids.len(),
{
    let p = |e: Seq<char>| found.contains(row_key(e));
    let q = |e: Seq<char>| marked.contains(e);
    if ids.len() > 0 {
        let init = ids.drop_last();
        let e = ids.last();
        assert forall|i: int, m: Seq<char>|
            0 <= i < init.len() && #[trigger] marked.contains(m) && row_key(#[trigger] init[i]) == row_key(m) implies init[i] == m by {
            assert(init[i] == ids[i]);
        }
        lemma_filter_marked(init, found, marked);
        init.lemma_filter_push(e, p);
        init.lemma_filter_push(e, q);
        assert(init.push(e) =~= ids);
        if found.contains(row_key(e)) {
            let m = choose|m: Seq<char>| #[trigger] marked.contains(m) && row_key(m) == row_key(e);
            assert(ids[ids.len() - 1] == e);
            assert(e == m);
        }
        if marked.contains(e) {
            assert(found.contains(row_key(e)));
        }
    } else {
        assert(ids.filter(p) =~= Seq::empty());
        assert(ids.filter(q) =~= Seq::empty());
    }
}

/// The checkmarks read back are exactly the marked ids asked for, in the
/// order asked: when the table holds the row keys of the marked ids, and no
/// asked-for id shares its key with a different marked id, the ids found are
/// the asked-for ids that are marked.
pub proof fn lemma_marked_ids_read_back(event_ids: Seq<String>, found: Seq<Seq<char>>, marked: Set<Seq<char>>)
    requires
        keys_of_marked(found, marked),
        keys_distinct(texts(event_ids), marked),
    ensures
        marked_ids(event_ids, found) == texts(event_ids).filter(|e: Seq<char>| marked.contains(e)),
{
    lemma_filter_marked(texts(event_ids), found, marked);
}

} // verus!
