//! A fixed-capacity history of samples, newest first.
use vstd::prelude::*;

verus! {

/// The history after `v` arrives: `v` in front, the oldest sample gone.
pub open spec fn pushed(h: Seq<u32>, v: u32) -> Seq<u32> {
    if h.len() == 0 {
        h
    } else {
        seq![v] + h.drop_last()
    }
}

/// The history after each of `vals` arrives in turn.
pub open spec fn pushed_all(h: Seq<u32>, vals: Seq<u32>) -> Seq<u32>
    decreases vals.len(),
{
    if vals.len() == 0 {
        h
    } else {
        pushed(pushed_all(h, vals.drop_last()), vals.last())
    }
}

/// The last samples, newest at index 0; its length never changes.
pub struct History {
    samples: Vec<u32>,
}

impl View for History {
    type V = Seq<u32>;

    closed spec fn view(&self) -> Seq<u32> {
        self.samples@
    }
}

impl History {
    /// `capacity` zero samples.
    pub fn new(capacity: usize) -> (h: History)
        ensures
            h@ == Seq::new(capacity as nat, |i: int| 0u32),
    {
        let mut samples: Vec<u32> = Vec::new();
        while samples.len() < capacity
            invariant
                samples@.len() <= capacity,
                forall|k: int| 0 <= k < samples@.len() ==> samples@[k] == 0,
            decreases capacity - samples@.len(),
        {
            samples.push(0);
        }
        let h = History { samples };
        assert(h@ =~= Seq::new(capacity as nat, |i: int| 0u32));
        h
    }

    /// Puts `v` at index 0 and drops the oldest sample.
    pub fn push(&mut self, v: u32)
        ensures
            final(self)@ == pushed(old(self)@, v),
    {
        if self.samples.len() > 0 {
            self.samples.pop();
            self.samples.insert(0, v);
            assert(self@ =~= pushed(old(self)@, v));
        }
    }

    /// The samples, newest first.
    pub fn samples(&self) -> (s: &[u32])
        ensures
            s@ == self@,
    {
        self.samples.as_slice()
    }
}

/// After at least as many pushes as its capacity, a history holds exactly the
/// most recent samples, newest at index 0.
pub proof fn lemma_history_keeps_newest(h: Seq<u32>, vals: Seq<u32>)
    requires
        vals.len() >= h.len(),
    ensures
        pushed_all(h, vals).len() == h.len(),
        forall|i: int| 0 <= i < h.len() ==> #[trigger] pushed_all(h, vals)[i] == vals[vals.len() - 1 - i],
{
    lemma_pushed_all(h, vals);
}

proof fn lemma_pushed_all(h: Seq<u32>, vals: Seq<u32>)
    ensures
        pushed_all(h, vals).len() == h.len(),
        forall|i: int|
            0 <= i < h.len() ==> #[trigger] pushed_all(h, vals)[i] == if i < vals.len() {
                vals[vals.len() - 1 - i]
            } else {
                h[i - vals.len()]
            },
    decreases vals.len(),
{
    if vals.len() > 0 {
        let prev = vals.drop_last();
        lemma_pushed_all(h, prev);
        let p = pushed_all(h, prev);
        assert forall|i: int| 0 <= i < h.len() implies #[trigger] pushed_all(h, vals)[i] == if i
            < vals.len() {
            vals[vals.len() - 1 - i]
        } else {
            h[i - vals.len()]
        } by {
            if i > 0 {
                assert(pushed_all(h, vals)[i] == p[i - 1]);
                assert(p[i - 1] == if i - 1 < prev.len() {
                    prev[prev.len() - 1 - (i - 1)]
                } else {
                    h[i - 1 - prev.len()]
                });
            }
        }
    }
}

} // verus!
