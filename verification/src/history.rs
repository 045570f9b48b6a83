//! The bounded rolling history that a presentation sink keeps.
//!
//! A sink consumes one snapshot row per tick and retains only the most
//! recent ones, newest first; rendering the retained rows is the sink's own
//! affair and happens outside this crate.

use vstd::prelude::*;

verus! {

/// How many snapshot rows a sink retains.
pub const HISTORY_CAPACITY: usize = 10;

/// What one push leaves a sink holding: the new row first, then the rows it
/// held, cut to capacity.
pub open spec fn pushed(rows: Seq<Seq<u64>>, row: Seq<u64>) -> Seq<Seq<u64>> {
    let grown = seq![row] + rows;
    if grown.len() <= HISTORY_CAPACITY {
        grown
    } else {
        grown.take(HISTORY_CAPACITY as int)
    }
}

/// What a sink holds after a whole series of rows was pushed in order,
/// starting empty.
pub open spec fn sink_after(rows: Seq<Seq<u64>>) -> Seq<Seq<u64>>
    decreases rows.len(),
{
    if rows.len() == 0 {
        Seq::empty()
    } else {
        pushed(sink_after(rows.drop_last()), rows.last())
    }
}

/// After any series of pushes the sink holds exactly the most recent rows —
/// all of them while fewer than its capacity were ever pushed — and holds
/// them newest first.
pub proof fn lemma_sink_bounded_history(rows: Seq<Seq<u64>>)
    ensures
        sink_after(rows).len() == if rows.len() <= HISTORY_CAPACITY {
            rows.len() as int
        } else {
            HISTORY_CAPACITY as int
        },
        forall|i: int|
            0 <= i < sink_after(rows).len() ==> sink_after(rows)[i] == rows[rows.len() - 1 - i],
    decreases rows.len(),
{
    if rows.len() > 0 {
        let prefix = rows.drop_last();
        lemma_sink_bounded_history(prefix);
        assert forall|i: int| 0 <= i < sink_after(rows).len() implies sink_after(rows)[i]
            == rows[rows.len() - 1 - i] by {
            if i == 0 {
                assert(sink_after(rows)[0] == rows.last());
            } else {
                assert(sink_after(rows)[i] == sink_after(prefix)[i - 1]);
                assert(sink_after(prefix)[i - 1] == prefix[prefix.len() - i]);
                assert(prefix[prefix.len() - i] == rows[rows.len() - 1 - i]);
            }
        }
    }
}

/// A rolling history of snapshot rows, newest first, never more than
/// [`HISTORY_CAPACITY`] of them.
pub struct History {
    rows: Vec<Vec<u64>>,
}

impl History {
    /// The retained rows, newest first.
    pub closed spec fn snapshots(&self) -> Seq<Seq<u64>> {
        Seq::new(self.rows@.len(), |i: int| self.rows@[i]@)
    }

    /// The history never outgrows its capacity.
    pub open spec fn wf(&self) -> bool {
        self.snapshots().len() <= HISTORY_CAPACITY
    }

    /// An empty history.
    pub fn new() -> (h: History)
        ensures
            h.wf(),
            h.snapshots() == Seq::<Seq<u64>>::empty(),
    {
        let h = History { rows: Vec::new() };
        proof {
            assert(h.snapshots() =~= Seq::<Seq<u64>>::empty());
        }
        h
    }

    /// How many rows are retained.
    pub fn len(&self) -> (n: usize)
        ensures
            n == self.snapshots().len(),
    {
        self.rows.len()
    }

    /// The retained row at position `i`, 0 being the newest.
    pub fn row(&self, i: usize) -> (r: &Vec<u64>)
        requires
            i < self.snapshots().len(),
        ensures
            r@ == self.snapshots()[i as int],
    {
        &self.rows[i]
    }

    /// Accepts the tick's snapshot row: it becomes the newest retained row,
    /// and the oldest one falls out once the history is full.
    pub fn push_row(&mut self, row: Vec<u64>)
        requires
            old(self).wf(),
        ensures
            final(self).wf(),
            final(self).snapshots() == pushed(old(self).snapshots(), row@),
    {
        self.rows.insert(0, row);
        let ghost grown = self.snapshots();
        proof {
            assert(grown =~= seq![row@] + old(self).snapshots());
        }
        if self.rows.len() > HISTORY_CAPACITY {
            self.rows.truncate(HISTORY_CAPACITY);
            proof {
                assert(self.snapshots() =~= grown.take(HISTORY_CAPACITY as int));
            }
        }
    }
}

} // verus!
