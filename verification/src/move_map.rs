//! A mapping from fields to the placement that first produced them.

use vstd::prelude::*;
use crate::board::Field;
use crate::placement::Move;

verus! {

/// A field's rows and the placement that leaves them.
pub type Outcome = (Seq<u16>, Move);

/// Whether some outcome of the sequence leaves the rows `board`.
pub open spec fn has_board(outcomes: Seq<Outcome>, board: Seq<u16>) -> bool {
    exists|i: int| 0 <= i < outcomes.len() && (#[trigger] outcomes[i]).0 == board
}

/// Whether outcome `i` is the first of the sequence to leave its rows.
pub open spec fn is_first(outcomes: Seq<Outcome>, i: int) -> bool {
    0 <= i < outcomes.len() && forall|j: int|
        0 <= j < i ==> (#[trigger] outcomes[j]).0 != outcomes[i].0
}

/// The mapping after taking in a sequence of outcomes in order: an outcome
/// is entered only if the mapping has no entry for its rows yet.
pub open spec fn absorb(map: Map<Seq<u16>, Move>, outcomes: Seq<Outcome>) -> Map<Seq<u16>, Move>
    decreases outcomes.len(),
{
    if outcomes.len() == 0 {
        map
    } else {
        let earlier = absorb(map, outcomes.drop_last());
        if earlier.contains_key(outcomes.last().0) {
            earlier
        } else {
            earlier.insert(outcomes.last().0, outcomes.last().1)
        }
    }
}

/// The mapping a sequence of outcomes leaves: each of its rows is mapped to
/// the placement of the first outcome with those rows.
pub open spec fn first_wins(outcomes: Seq<Outcome>) -> Map<Seq<u16>, Move> {
    absorb(Map::empty(), outcomes)
}

/// Taking in one more outcome.
pub proof fn lemma_absorb_push(map: Map<Seq<u16>, Move>, outcomes: Seq<Outcome>, next: Outcome)
    ensures
        absorb(map, outcomes.push(next)) == if absorb(map, outcomes).contains_key(next.0) {
            absorb(map, outcomes)
        } else {
            absorb(map, outcomes).insert(next.0, next.1)
        },
{
    assert(outcomes.push(next).drop_last() =~= outcomes);
}

/// Taking in two sequences one after the other is taking in their
/// concatenation.
pub proof fn lemma_absorb_concat(map: Map<Seq<u16>, Move>, a: Seq<Outcome>, b: Seq<Outcome>)
    ensures
        absorb(map, a + b) == absorb(absorb(map, a), b),
    decreases b.len(),
{
    if b.len() == 0 {
        assert(a + b =~= a);
    } else {
        lemma_absorb_concat(map, a, b.drop_last());
        assert((a + b).drop_last() =~= a + b.drop_last());
        assert((a + b).last() == b.last());
    }
}

/// The keys after taking in a sequence are the keys before and the rows of
/// its outcomes; the entries that were there stay as they were.
pub proof fn lemma_absorb_keys(map: Map<Seq<u16>, Move>, outcomes: Seq<Outcome>)
    ensures
        forall|board: Seq<u16>|
            #[trigger] absorb(map, outcomes).contains_key(board) <==> map.contains_key(board)
                || has_board(outcomes, board),
        forall|board: Seq<u16>|
            #[trigger] map.contains_key(board) ==> absorb(map, outcomes).contains_key(board)
                && absorb(map, outcomes)[board] == map[board],
    decreases outcomes.len(),
{
    let after = absorb(map, outcomes);
    if outcomes.len() == 0 {
        assert(after == map);
        assert forall|board: Seq<u16>| !has_board(outcomes, board) by {}
    } else {
        let init = outcomes.drop_last();
        let earlier = absorb(map, init);
        let last = outcomes.last();
        lemma_absorb_keys(map, init);
        assert(after == if earlier.contains_key(last.0) {
            earlier
        } else {
            earlier.insert(last.0, last.1)
        });
        assert forall|board: Seq<u16>| #[trigger]
            after.contains_key(board) <==> map.contains_key(board) || has_board(
                outcomes,
                board,
            ) by {
            assert(earlier.contains_key(board) <==> map.contains_key(board) || has_board(
                init,
                board,
            ));
            if has_board(init, board) {
                let i = choose|i: int| 0 <= i < init.len() && (#[trigger] init[i]).0 == board;
                assert(outcomes[i].0 == board);
            }
            if last.0 == board {
                assert(outcomes[outcomes.len() - 1].0 == board);
            }
            if has_board(outcomes, board) {
                let i = choose|i: int|
                    0 <= i < outcomes.len() && (#[trigger] outcomes[i]).0 == board;
                if i < init.len() {
                    assert(init[i].0 == board);
                }
            }
        }
        assert forall|board: Seq<u16>| #[trigger] map.contains_key(board) implies after.contains_key(
            board,
        ) && after[board] == map[board] by {
            assert(earlier.contains_key(board) && earlier[board] == map[board]);
        }
    }
}

/// The first outcome with rows that the mapping did not hold is the one
/// entered for them.
pub proof fn lemma_absorb_first(map: Map<Seq<u16>, Move>, outcomes: Seq<Outcome>, i: int)
    requires
        is_first(outcomes, i),
        !map.contains_key(outcomes[i].0),
    ensures
        absorb(map, outcomes).contains_key(outcomes[i].0),
        absorb(map, outcomes)[outcomes[i].0] == outcomes[i].1,
    decreases outcomes.len(),
{
    let init = outcomes.drop_last();
    let earlier = absorb(map, init);
    let last = outcomes.last();
    let board = outcomes[i].0;
    assert(absorb(map, outcomes) == if earlier.contains_key(last.0) {
        earlier
    } else {
        earlier.insert(last.0, last.1)
    });
    if i < outcomes.len() - 1 {
        assert(init[i] == outcomes[i]);
        assert forall|j: int| 0 <= j < i implies (#[trigger] init[j]).0 != init[i].0 by {
            assert(outcomes[j].0 != outcomes[i].0);
        }
        lemma_absorb_first(map, init, i);
        assert(earlier.contains_key(board) && earlier[board] == outcomes[i].1);
    } else {
        lemma_absorb_keys(map, init);
        if has_board(init, board) {
            let j = choose|j: int| 0 <= j < init.len() && (#[trigger] init[j]).0 == board;
            assert(outcomes[j].0 == board);
        }
        assert(!earlier.contains_key(board));
        assert(last == outcomes[i]);
    }
}

/// A sequence of outcomes leaves a finite mapping with no more entries than
/// the sequence has outcomes, and with as many where no rows occur twice.
pub proof fn lemma_first_wins_size(outcomes: Seq<Outcome>)
    ensures
        first_wins(outcomes).dom().finite(),
        first_wins(outcomes).dom().len() <= outcomes.len(),
        (forall|i: int| 0 <= i < outcomes.len() ==> is_first(outcomes, i)) ==> first_wins(
            outcomes,
        ).dom().len() == outcomes.len(),
    decreases outcomes.len(),
{
    if outcomes.len() > 0 {
        let init = outcomes.drop_last();
        lemma_first_wins_size(init);
        lemma_absorb_keys(Map::empty(), init);
        if forall|i: int| 0 <= i < outcomes.len() ==> is_first(outcomes, i) {
            assert forall|i: int| 0 <= i < init.len() implies is_first(init, i) by {
                assert(is_first(outcomes, i));
                assert forall|j: int| 0 <= j < i implies (#[trigger] init[j]).0 != init[i].0 by {
                    assert(outcomes[j].0 != outcomes[i].0);
                }
            }
            assert(is_first(outcomes, outcomes.len() - 1));
            if has_board(init, outcomes.last().0) {
                let j = choose|j: int|
                    0 <= j < init.len() && (#[trigger] init[j]).0 == outcomes.last().0;
                assert(outcomes[j].0 == outcomes.last().0);
            }
        }
    }
}

/// The result of an enumeration: fields, each with the placement that first
/// produced it. No field is held twice.
pub struct MoveMap {
    entries: Vec<(Field, Move)>,
}

impl View for MoveMap {
    type V = Map<Seq<u16>, Move>;

    open spec fn view(&self) -> Map<Seq<u16>, Move> {
        first_wins(self.outcomes())
    }
}

impl MoveMap {
    /// The entries in the order in which they were entered.
    pub closed spec fn outcomes(&self) -> Seq<Outcome> {
        Seq::new(self.entries@.len(), |i: int| (self.entries@[i].0@, self.entries@[i].1))
    }

    /// No two entries hold the same rows.
    pub open spec fn wf(&self) -> bool {
        forall|i: int, j: int|
            0 <= i < j < self.outcomes().len() ==> (#[trigger] self.outcomes()[i]).0 != (
            #[trigger] self.outcomes()[j]).0
    }

    /// The number of entries is the number of keys.
    pub proof fn lemma_len(&self)
        requires
            self.wf(),
        ensures
            self@.dom().finite(),
            self@.dom().len() == self.outcomes().len(),
    {
        let outcomes = self.outcomes();
        assert forall|i: int| 0 <= i < outcomes.len() implies is_first(outcomes, i) by {
            assert forall|j: int| 0 <= j < i implies (#[trigger] outcomes[j]).0 != outcomes[i].0 by {
                assert(outcomes[j].0 != outcomes[i].0);
            }
        }
        lemma_first_wins_size(outcomes);
    }

    /// The empty mapping.
    pub fn new() -> (map: MoveMap)
        ensures
            map.wf(),
            map.outcomes() == Seq::<Outcome>::empty(),
            map@ == Map::<Seq<u16>, Move>::empty(),
    {
        let map = MoveMap { entries: Vec::new() };
        assert(map.outcomes() =~= Seq::<Outcome>::empty());
        map
    }

    /// The number of entries.
    pub fn len(&self) -> (n: usize)
        ensures
            n == self.outcomes().len(),
            self.wf() ==> n == self@.dom().len(),
    {
        proof {
            if self.wf() {
                self.lemma_len();
            }
        }
        self.entries.len()
    }

    /// Whether there is no entry.
    pub fn is_empty(&self) -> (r: bool)
        ensures
            r == (self.outcomes().len() == 0),
            r == (self@ == Map::<Seq<u16>, Move>::empty()),
    {
        proof {
            lemma_absorb_keys(Map::empty(), self.outcomes());
            if self.outcomes().len() > 0 {
                assert(has_board(self.outcomes(), self.outcomes()[0].0));
                assert(self@.contains_key(self.outcomes()[0].0));
            }
        }
        self.entries.len() == 0
    }

    /// Entry `i`, in the order of entering: the field and its placement.
    pub fn entry(&self, i: usize) -> (e: (Field, Move))
        requires
            i < self.outcomes().len(),
        ensures
            (e.0@, e.1) == self.outcomes()[i as int],
            self.wf() ==> self@.contains_pair(e.0@, e.1),
    {
        proof {
            if self.wf() {
                let outcomes = self.outcomes();
                assert forall|j: int| 0 <= j < i implies (#[trigger] outcomes[j]).0 != outcomes[i as int].0 by {
                    assert(outcomes[j].0 != outcomes[i as int].0);
                }
                lemma_absorb_first(Map::empty(), outcomes, i as int);
            }
        }
        let e = &self.entries[i];
        (e.0, e.1)
    }

    /// The index of the first entry with the rows of `field`, or the number
    /// of entries where there is none.
    fn position(&self, field: &Field) -> (i: usize)
        ensures
            i <= self.outcomes().len(),
            i < self.outcomes().len() ==> is_first(self.outcomes(), i as int) && self.outcomes()[i as int].0
                == field@,
            i == self.outcomes().len() ==> !has_board(self.outcomes(), field@),
    {
        let mut i: usize = 0;
        while i < self.entries.len()
            invariant
                i <= self.entries@.len(),
                self.entries@.len() == self.outcomes().len(),
                forall|j: int| 0 <= j < i ==> (#[trigger] self.outcomes()[j]).0 != field@,
            decreases self.entries@.len() - i,
        {
            if self.entries[i].0.same_as(field) {
                return i;
            }
            i += 1;
        }
        i
    }

    /// Whether the field has an entry.
    pub fn contains_key(&self, field: &Field) -> (r: bool)
        ensures
            r == self@.contains_key(field@),
    {
        let i = self.position(field);
        proof {
            lemma_absorb_keys(Map::empty(), self.outcomes());
            if i < self.outcomes().len() {
                assert(has_board(self.outcomes(), field@));
            }
        }
        i < self.entries.len()
    }

    /// The placement entered for the field, if it has an entry.
    pub fn get(&self, field: &Field) -> (r: Option<Move>)
        ensures
            r == if self@.contains_key(field@) {
                Some(self@[field@])
            } else {
                None
            },
    {
        let i = self.position(field);
        proof {
            lemma_absorb_keys(Map::empty(), self.outcomes());
            if i < self.outcomes().len() {
                lemma_absorb_first(Map::empty(), self.outcomes(), i as int);
            }
        }
        if i < self.entries.len() {
            Some(self.entries[i].1)
        } else {
            None
        }
    }

    /// Enters a field with its placement unless the field has an entry
    /// already, and says whether it entered it.
    pub fn insert_if_absent(&mut self, field: Field, m: Move) -> (entered: bool)
        requires
            old(self).wf(),
        ensures
            final(self).wf(),
            entered == !old(self)@.contains_key(field@),
            final(self)@ == absorb(old(self)@, seq![(field@, m)]),
            final(self).outcomes() == if entered {
                old(self).outcomes().push((field@, m))
            } else {
                old(self).outcomes()
            },
    {
        let present = self.contains_key(&field);
        proof {
            lemma_absorb_keys(Map::empty(), self.outcomes());
            lemma_absorb_push(self@, Seq::<Outcome>::empty(), (field@, m));
            assert(seq![(field@, m)] =~= Seq::<Outcome>::empty().push((field@, m)));
        }
        if !present {
            self.entries.push((field, m));
            proof {
                assert(self.outcomes() =~= old(self).outcomes().push((field@, m)));
                lemma_absorb_push(Map::empty(), old(self).outcomes(), (field@, m));
                assert forall|i: int, j: int| 0 <= i < j < self.outcomes().len() implies (
                #[trigger] self.outcomes()[i]).0 != (#[trigger] self.outcomes()[j]).0 by {
                    if j == old(self).outcomes().len() {
                        assert(old(self).outcomes()[i].0 != field@) by {
                            if old(self).outcomes()[i].0 == field@ {
                                assert(has_board(old(self).outcomes(), field@));
                            }
                        }
                    } else {
                        assert(old(self).outcomes()[i].0 != old(self).outcomes()[j].0);
                    }
                }
            }
        }
        !present
    }
}

} // verus!
