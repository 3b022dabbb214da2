//! Lists of indices read as sets: what is listed, and searching a list.
use vstd::prelude::*;

verus! {

/// The indices ascend without a repetition.
pub open spec fn ascending(indexs: Seq<usize>) -> bool {
    forall|j: int, k: int| 0 <= j < k < indexs.len() ==> indexs[j] < indexs[k]
}

/// Whether `id` stands among the first `upto` entries of `list`.
pub open spec fn listed(list: Seq<usize>, upto: int, id: usize) -> bool {
    exists|k: int| 0 <= k < upto && #[trigger] list[k] == id
}

/// Appending to a list adds the appended entry to what is listed.
pub proof fn lemma_listed_push(list: Seq<usize>, entry: usize, id: usize)
    ensures
        listed(list.push(entry), list.len() as int + 1, id) <==> (listed(list, list.len() as int, id) || id
            == entry),
{
    let longer = list.push(entry);
    if listed(list, list.len() as int, id) {
        let k = choose|k: int| 0 <= k < list.len() && #[trigger] list[k] == id;
        assert(longer[k] == id);
    }
    if id == entry {
        assert(longer[list.len() as int] == id);
    }
    if listed(longer, list.len() as int + 1, id) {
        let k = choose|k: int| 0 <= k < list.len() + 1 && #[trigger] longer[k] == id;
        if k < list.len() {
            assert(list[k] == id);
        }
    }
}

/// What is listed among all entries is what the list contains.
pub proof fn lemma_listed_all(list: Seq<usize>, id: usize)
    ensures
        listed(list, list.len() as int, id) <==> list.contains(id),
{
    if listed(list, list.len() as int, id) {
        let k = choose|k: int| 0 <= k < list.len() && #[trigger] list[k] == id;
        assert(list[k] == id);
    }
    if list.contains(id) {
        let k = choose|k: int| 0 <= k < list.len() && list[k] == id;
        assert(list[k] == id);
    }
}

/// What is listed among the first entries of a list is listed in that
/// front part of it.
pub proof fn lemma_listed_take(list: Seq<usize>, upto: int, id: usize)
    requires
        0 <= upto <= list.len(),
    ensures
        listed(list, upto, id) <==> listed(list.take(upto), upto, id),
{
    let front = list.take(upto);
    if listed(list, upto, id) {
        let k = choose|k: int| 0 <= k < upto && #[trigger] list[k] == id;
        assert(front[k] == id);
    }
    if listed(front, upto, id) {
        let k = choose|k: int| 0 <= k < upto && #[trigger] front[k] == id;
        assert(list[k] == id);
    }
}

/// Whether `list` holds `id`.
pub fn list_contains(list: &Vec<usize>, id: usize) -> (found: bool)
    ensures
        found == list@.contains(id),
{
    let mut at: usize = 0;
    while at < list.len()
        invariant
            at <= list.len(),
            !listed(list@, at as int, id),
        decreases list.len() - at,
    {
        if list[at] == id {
            return true;
        }
        at += 1;
    }
    proof {
        lemma_listed_all(list@, id);
    }
    false
}

} // verus!
