//! The merge table of density clustering: which cluster slot each core line
//! segment belongs to.
//!
//! A core either opens a slot of its own or joins the lowest slot among the
//! cores it matches, and those cores are moved to that slot with it. Cores
//! that shared a slot with a matched core stay where they are: the table
//! points to the smallest slot, it does not unite whole slots. Slots that
//! lose all their cores are closed up at the end.
use vstd::prelude::*;
use crate::lists::{lemma_listed_all, list_contains, listed};

verus! {

/// The cores recorded so far, each with its slot.
pub struct MergeIndexs {
    indexs: Vec<usize>,
    slots: Vec<usize>,
    slot_count: usize,
}

/// What a `MergeIndexs` holds: the recorded cores in the order in which
/// they came, the slot of each, and the number of slots handed out.
pub struct MergeIndexsView {
    pub cores: Seq<usize>,
    pub slots: Seq<usize>,
    pub slot_count: nat,
}

impl View for MergeIndexs {
    type V = MergeIndexsView;

    closed spec fn view(&self) -> MergeIndexsView {
        MergeIndexsView { cores: self.indexs@, slots: self.slots@, slot_count: self.slot_count as nat }
    }
}

/// Every core has a slot, every slot in use was handed out, and no more
/// slots were handed out than cores came.
pub open spec fn consistent(table: MergeIndexsView) -> bool {
    &&& table.cores.len() == table.slots.len()
    &&& table.slot_count <= table.cores.len()
    &&& forall|k: int| 0 <= k < table.slots.len() ==> #[trigger] table.slots[k] < table.slot_count
}

/// The table with no core.
pub open spec fn empty_table() -> MergeIndexsView {
    MergeIndexsView { cores: Seq::empty(), slots: Seq::empty(), slot_count: 0 }
}

/// The table after `core` opened a slot of its own.
pub open spec fn pushed(table: MergeIndexsView, core: usize) -> MergeIndexsView {
    MergeIndexsView {
        cores: table.cores.push(core),
        slots: table.slots.push(table.slot_count as usize),
        slot_count: table.slot_count + 1,
    }
}

/// The lowest slot among the first `upto` cores that `matched` names, or
/// the number of slots when it names none of them.
pub open spec fn least_slot(table: MergeIndexsView, matched: Seq<usize>, upto: int) -> nat
    decreases upto,
{
    if upto <= 0 {
        table.slot_count
    } else {
        let rest = least_slot(table, matched, upto - 1);
        if matched.contains(table.cores[upto - 1]) && table.slots[upto - 1] < rest {
            table.slots[upto - 1] as nat
        } else {
            rest
        }
    }
}

/// The table after `core` joined the cores that `matched` names: `core` and
/// each of them are in the lowest of their slots. When `matched` names no
/// recorded core, `core` opens a slot of its own.
pub open spec fn merged(table: MergeIndexsView, matched: Seq<usize>, core: usize) -> MergeIndexsView {
    let least = least_slot(table, matched, table.cores.len() as int);
    MergeIndexsView {
        cores: table.cores.push(core),
        slots: Seq::new(
            table.slots.len(),
            |k: int|
                if matched.contains(table.cores[k]) {
                    least as usize
                } else {
                    table.slots[k]
                },
        ).push(least as usize),
        slot_count: if least == table.slot_count {
            table.slot_count + 1
        } else {
            table.slot_count
        },
    }
}

/// The number of slots below `below` that hold a core.
pub open spec fn rank(slots: Seq<usize>, below: int) -> nat
    decreases below,
{
    if below <= 0 {
        0
    } else {
        rank(slots, below - 1) + if slots.contains((below - 1) as usize) {
            1nat
        } else {
            0nat
        }
    }
}

/// The table with the empty slots closed up: each slot is numbered by the
/// slots in use below it.
pub open spec fn corrected(table: MergeIndexsView) -> MergeIndexsView {
    MergeIndexsView {
        cores: table.cores,
        slots: Seq::new(table.slots.len(), |k: int| rank(table.slots, table.slots[k] as int) as usize),
        slot_count: rank(table.slots, table.slot_count as int),
    }
}

/// The cores among the first `upto` that are in `slot`, in the order in
/// which they came.
pub open spec fn members(table: MergeIndexsView, slot: usize, upto: int) -> Seq<usize>
    decreases upto,
{
    if upto <= 0 {
        Seq::empty()
    } else if table.slots[upto - 1] == slot {
        members(table, slot, upto - 1).push(table.cores[upto - 1])
    } else {
        members(table, slot, upto - 1)
    }
}

/// The slot of line segment `segment` among the first `upto` cores, or -1
/// when it is none of them. The last record of a segment counts.
pub open spec fn slot_of(table: MergeIndexsView, segment: usize, upto: int) -> int
    decreases upto,
{
    if upto <= 0 {
        -1
    } else if table.cores[upto - 1] == segment {
        table.slots[upto - 1] as int
    } else {
        slot_of(table, segment, upto - 1)
    }
}

/// No slot is lower than the lowest, and the lowest is the slot of a
/// matched core unless none is matched.
pub proof fn lemma_least_slot(table: MergeIndexsView, matched: Seq<usize>, upto: int)
    requires
        consistent(table),
        0 <= upto <= table.cores.len(),
    ensures
        least_slot(table, matched, upto) <= table.slot_count,
        forall|k: int|
            0 <= k < upto && matched.contains(#[trigger] table.cores[k]) ==> least_slot(
                table,
                matched,
                upto,
            ) <= table.slots[k],
        least_slot(table, matched, upto) < table.slot_count ==> exists|k: int|
            0 <= k < upto && matched.contains(#[trigger] table.cores[k]) && table.slots[k]
                == least_slot(table, matched, upto),
    decreases upto,
{
    if upto > 0 {
        lemma_least_slot(table, matched, upto - 1);
        let rest = least_slot(table, matched, upto - 1);
        if matched.contains(table.cores[upto - 1]) && table.slots[upto - 1] < rest {
            assert(matched.contains(table.cores[upto - 1]) && table.slots[upto - 1] == least_slot(
                table,
                matched,
                upto,
            ));
        } else if rest < table.slot_count {
            let k = choose|k: int|
                0 <= k < upto - 1 && matched.contains(#[trigger] table.cores[k]) && table.slots[k]
                    == rest;
            assert(matched.contains(table.cores[k]) && table.slots[k] == least_slot(table, matched, upto));
        }
    }
}

/// Two lists that name the same recorded cores give the same lowest slot.
pub proof fn lemma_least_slot_same(table: MergeIndexsView, first: Seq<usize>, second: Seq<usize>, upto: int)
    requires
        0 <= upto <= table.cores.len(),
        forall|k: int|
            0 <= k < table.cores.len() ==> first.contains(#[trigger] table.cores[k]) == second.contains(
                table.cores[k],
            ),
    ensures
        least_slot(table, first, upto) == least_slot(table, second, upto),
    decreases upto,
{
    if upto > 0 {
        lemma_least_slot_same(table, first, second, upto - 1);
        assert(first.contains(table.cores[upto - 1]) == second.contains(table.cores[upto - 1]));
    }
}

/// Two lists that name the same recorded cores merge a core alike.
pub proof fn lemma_merged_same(table: MergeIndexsView, first: Seq<usize>, second: Seq<usize>, core: usize)
    requires
        consistent(table),
        forall|k: int|
            0 <= k < table.cores.len() ==> first.contains(#[trigger] table.cores[k]) == second.contains(
                table.cores[k],
            ),
    ensures
        merged(table, first, core) == merged(table, second, core),
{
    lemma_least_slot_same(table, first, second, table.cores.len() as int);
    let a = merged(table, first, core);
    let b = merged(table, second, core);
    assert forall|k: int| 0 <= k < a.slots.len() implies a.slots[k] == b.slots[k] by {
        if k < table.cores.len() {
            assert(first.contains(table.cores[k]) == second.contains(table.cores[k]));
        }
    }
    assert(a.slots =~= b.slots);
}

/// A core that matches no recorded core opens a slot of its own.
pub proof fn lemma_merged_alone(table: MergeIndexsView, matched: Seq<usize>, core: usize)
    requires
        consistent(table),
        forall|k: int| 0 <= k < table.cores.len() ==> !matched.contains(#[trigger] table.cores[k]),
    ensures
        merged(table, matched, core) == pushed(table, core),
{
    lemma_least_slot(table, matched, table.cores.len() as int);
    let least = least_slot(table, matched, table.cores.len() as int);
    if least < table.slot_count {
        let k = choose|k: int|
            0 <= k < table.cores.len() && matched.contains(#[trigger] table.cores[k]) && table.slots[k]
                == least;
        assert(!matched.contains(table.cores[k]));
    }
    assert(merged(table, matched, core).slots =~= pushed(table, core).slots);
}

/// Merging keeps the table consistent.
pub proof fn lemma_merged_consistent(table: MergeIndexsView, matched: Seq<usize>, core: usize)
    requires
        consistent(table),
    ensures
        consistent(merged(table, matched, core)),
{
    lemma_least_slot(table, matched, table.cores.len() as int);
    let after = merged(table, matched, core);
    assert forall|k: int| 0 <= k < after.slots.len() implies #[trigger] after.slots[k]
        < after.slot_count by {
        if k < table.slots.len() {
            assert(table.slots[k] < table.slot_count);
        }
    }
}

/// The rank counts at most the slots below, and grows with them.
pub proof fn lemma_rank_grows(slots: Seq<usize>, low: int, high: int)
    requires
        0 <= low <= high,
    ensures
        rank(slots, low) <= rank(slots, high),
        rank(slots, high) <= high,
    decreases high,
{
    if low < high {
        lemma_rank_grows(slots, low, high - 1);
    } else if high > 0 {
        lemma_rank_grows(slots, 0, high - 1);
    }
}

/// A slot in use ranks below every higher slot.
pub proof fn lemma_rank_used(slots: Seq<usize>, slot: usize, high: int)
    requires
        slots.contains(slot),
        slot < high,
    ensures
        rank(slots, slot as int) < rank(slots, high),
{
    lemma_rank_grows(slots, slot + 1, high);
}

/// Every number below the rank of `below` is the rank of a slot in use.
pub proof fn lemma_rank_onto(slots: Seq<usize>, below: int, number: nat) -> (slot: usize)
    requires
        0 <= below <= usize::MAX,
        number < rank(slots, below),
    ensures
        slot < below,
        slots.contains(slot),
        rank(slots, slot as int) == number,
    decreases below,
{
    if slots.contains((below - 1) as usize) && rank(slots, below - 1) == number {
        (below - 1) as usize
    } else {
        lemma_rank_onto(slots, below - 1, number)
    }
}

/// Closing up keeps the table consistent and leaves no slot empty.
pub proof fn lemma_corrected(table: MergeIndexsView)
    requires
        consistent(table),
        table.slot_count <= usize::MAX,
    ensures
        consistent(corrected(table)),
        forall|slot: usize| slot < corrected(table).slot_count ==> corrected(table).slots.contains(slot),
{
    let after = corrected(table);
    lemma_rank_grows(table.slots, 0, table.slot_count as int);
    assert forall|k: int| 0 <= k < after.slots.len() implies #[trigger] after.slots[k]
        < after.slot_count by {
        assert(table.slots[k] < table.slot_count);
        assert(table.slots.contains(table.slots[k]));
        lemma_rank_used(table.slots, table.slots[k], table.slot_count as int);
    }
    assert forall|slot: usize| slot < after.slot_count implies after.slots.contains(slot) by {
        let from = lemma_rank_onto(table.slots, table.slot_count as int, slot as nat);
        let k = choose|k: int| 0 <= k < table.slots.len() && table.slots[k] == from;
        assert(after.slots[k] == slot);
    }
}

impl MergeIndexs {
    /// Whether the table is consistent. Every table that `new` made and the
    /// methods changed is.
    pub open spec fn well_formed(&self) -> bool {
        consistent(self@) && self@.slot_count <= usize::MAX
    }

    /// The table with no core.
    pub fn new() -> (table: Self)
        ensures
            table@ == empty_table(),
            table.well_formed(),
    {
        Self { indexs: Vec::new(), slots: Vec::new(), slot_count: 0 }
    }

    /// Records `index` as a core with a slot of its own.
    pub fn push(&mut self, index: usize)
        requires
            old(self).well_formed(),
        ensures
            final(self).well_formed(),
            final(self)@ == pushed(old(self)@, index),
    {
        self.indexs.push(index);
        self.slots.push(self.slot_count);
        assert(self.slot_count < self.indexs.len());
        self.slot_count = self.slot_count + 1;
    }

    /// Records `index` as a core that joins the cores named in `indexs`.
    pub fn set_to_min(&mut self, indexs: &Vec<usize>, index: usize)
        requires
            old(self).well_formed(),
        ensures
            final(self).well_formed(),
            final(self)@ == merged(old(self)@, indexs@, index),
    {
        let ghost before = self@;
        let count = self.indexs.len();
        let mut least = self.slot_count;
        let mut at: usize = 0;
        while at < count
            invariant
                self@ == before,
                consistent(before),
                count == before.cores.len(),
                at <= count,
                least == least_slot(before, indexs@, at as int),
            decreases count - at,
        {
            if list_contains(indexs, self.indexs[at]) && self.slots[at] < least {
                least = self.slots[at];
            }
            at += 1;
        }
        proof {
            lemma_least_slot(before, indexs@, count as int);
            lemma_merged_consistent(before, indexs@, index);
        }
        let mut at: usize = 0;
        while at < count
            invariant
                self.indexs@ == before.cores,
                self.slot_count == before.slot_count,
                self.slots.len() == count,
                count == before.cores.len(),
                count == before.slots.len(),
                at <= count,
                forall|k: int|
                    0 <= k < count ==> #[trigger] self.slots@[k] == (if k < at && indexs@.contains(
                        before.cores[k],
                    ) {
                        least
                    } else {
                        before.slots[k]
                    }),
            decreases count - at,
        {
            if list_contains(indexs, self.indexs[at]) {
                self.slots.set(at, least);
            }
            at += 1;
        }
        self.indexs.push(index);
        self.slots.push(least);
        if least == self.slot_count {
            assert(self.slot_count < self.indexs.len());
            self.slot_count = self.slot_count + 1;
        }
        proof {
            assert(self@.slots =~= merged(before, indexs@, index).slots);
        }
    }

    /// Closes up the slots that hold no core, keeping the order of the rest.
    pub fn correct_indexs(&mut self)
        requires
            old(self).well_formed(),
        ensures
            final(self).well_formed(),
            final(self)@ == corrected(old(self)@),
            forall|slot: usize| slot < final(self)@.slot_count ==> final(self)@.slots.contains(slot),
    {
        let ghost before = self@;
        let count = self.indexs.len();
        let slot_count = self.slot_count;
        let mut used: Vec<bool> = Vec::new();
        while used.len() < slot_count
            invariant
                used.len() <= slot_count,
                forall|s: int| 0 <= s < used.len() ==> !#[trigger] used@[s],
            decreases slot_count - used.len(),
        {
            used.push(false);
        }
        let mut at: usize = 0;
        while at < count
            invariant
                self@ == before,
                consistent(before),
                count == before.slots.len(),
                used.len() == slot_count == before.slot_count,
                at <= count,
                forall|s: int| 0 <= s < slot_count ==> #[trigger] used@[s] == listed(before.slots, at as int, s as usize),
            decreases count - at,
        {
            let slot = self.slots[at];
            let ghost marks = used@;
            assert(before.slots[at as int] < before.slot_count);
            used.set(slot, true);
            proof {
                assert forall|s: int| 0 <= s < slot_count implies #[trigger] used@[s] == listed(
                    before.slots,
                    at + 1,
                    s as usize,
                ) by {
                    assert(marks[s] == listed(before.slots, at as int, s as usize));
                    if listed(before.slots, at as int, s as usize) {
                        let k = choose|k: int| 0 <= k < at && #[trigger] before.slots[k] == s as usize;
                        assert(before.slots[k] == s as usize);
                    }
                    if s == slot {
                        assert(before.slots[at as int] == s as usize);
                    } else if listed(before.slots, at + 1, s as usize) {
                        let k = choose|k: int| 0 <= k < at + 1 && #[trigger] before.slots[k] == s as usize;
                        assert(k < at);
                    }
                }
            }
            at += 1;
        }
        let mut ranks: Vec<usize> = Vec::new();
        let mut running: usize = 0;
        while ranks.len() < slot_count
            invariant
                count == before.slots.len(),
                used.len() == slot_count == before.slot_count,
                ranks.len() <= slot_count,
                running == rank(before.slots, ranks.len() as int),
                running <= ranks.len(),
                forall|s: int| 0 <= s < slot_count ==> #[trigger] used@[s] == listed(before.slots, count as int, s as usize),
                forall|s: int| 0 <= s < ranks.len() ==> #[trigger] ranks@[s] == rank(before.slots, s),
            decreases slot_count - ranks.len(),
        {
            let slot = ranks.len();
            proof {
                lemma_listed_all(before.slots, slot as usize);
            }
            ranks.push(running);
            if used[slot] {
                running = running + 1;
            }
        }
        let mut at: usize = 0;
        while at < count
            invariant
                self.indexs@ == before.cores,
                self.slot_count == before.slot_count,
                consistent(before),
                count == before.slots.len(),
                self.slots.len() == count,
                ranks.len() == slot_count == before.slot_count,
                at <= count,
                forall|s: int| 0 <= s < ranks.len() ==> #[trigger] ranks@[s] == rank(before.slots, s),
                forall|k: int|
                    0 <= k < count ==> #[trigger] self.slots@[k] == (if k < at {
                        rank(before.slots, before.slots[k] as int) as usize
                    } else {
                        before.slots[k]
                    }),
            decreases count - at,
        {
            assert(before.slots[at as int] < before.slot_count);
            let slot = self.slots[at];
            self.slots.set(at, ranks[slot]);
            at += 1;
        }
        self.slot_count = running;
        proof {
            assert(self@.slots =~= corrected(before).slots);
            lemma_corrected(before);
        }
    }

    /// The cores of each slot, in the order in which they came.
    pub fn map_indexs(&self) -> (groups: Vec<Vec<usize>>)
        requires
            self.well_formed(),
        ensures
            groups.len() == self@.slot_count,
            forall|slot: int|
                0 <= slot < groups.len() ==> (#[trigger] groups@[slot])@ == members(
                    self@,
                    slot as usize,
                    self@.cores.len() as int,
                ),
    {
        let count = self.indexs.len();
        let mut groups: Vec<Vec<usize>> = Vec::new();
        while groups.len() < self.slot_count
            invariant
                groups.len() <= self.slot_count,
                forall|slot: int| 0 <= slot < groups.len() ==> (#[trigger] groups@[slot])@ == Seq::<usize>::empty(),
            decreases self.slot_count - groups.len(),
        {
            groups.push(Vec::new());
        }
        let mut at: usize = 0;
        while at < count
            invariant
                self.well_formed(),
                count == self@.cores.len(),
                groups.len() == self@.slot_count,
                at <= count,
                forall|slot: int|
                    0 <= slot < groups.len() ==> (#[trigger] groups@[slot])@ == members(
                        self@,
                        slot as usize,
                        at as int,
                    ),
            decreases count - at,
        {
            let slot = self.slots[at];
            let core = self.indexs[at];
            assert(self@.slots[at as int] < self@.slot_count);
            let ghost earlier = groups@;
            groups[slot].push(core);
            proof {
                assert forall|other: int| 0 <= other < groups.len() implies (#[trigger] groups@[other])@
                    == members(self@, other as usize, at + 1) by {
                    assert(earlier[other]@ == members(self@, other as usize, at as int));
                }
            }
            at += 1;
        }
        groups
    }

    /// The number of cores recorded.
    pub fn len(&self) -> (count: usize)
        ensures
            count == self@.cores.len(),
    {
        self.indexs.len()
    }

    /// The number of slots handed out.
    pub fn get_slot_count(&self) -> (count: usize)
        ensures
            count == self@.slot_count,
    {
        self.slot_count
    }

    /// The line segment of the core recorded at `at`.
    pub fn get_index(&self, at: usize) -> (index: usize)
        requires
            at < self@.cores.len(),
        ensures
            index == self@.cores[at as int],
    {
        self.indexs[at]
    }

    /// The slot of the core recorded at `at`.
    pub fn get_slot(&self, at: usize) -> (slot: usize)
        requires
            self.well_formed(),
            at < self@.cores.len(),
        ensures
            slot == self@.slots[at as int],
            slot < self@.slot_count,
    {
        self.slots[at]
    }
}

} // verus!
