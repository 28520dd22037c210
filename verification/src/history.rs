//! Bounded per-source history of raw log lines with FIFO eviction.

use vstd::prelude::*;

verus! {

/// Ordered raw lines for one source. At most `max_history` lines are kept;
/// when a push would exceed the bound, the oldest lines are evicted first.
pub struct HistoryBuffer {
    lines: Vec<String>,
    max_history: usize,
}

impl View for HistoryBuffer {
    type V = Seq<Seq<char>>;

    closed spec fn view(&self) -> Seq<Seq<char>> {
        self.lines@.map_values(|l: String| l@)
    }
}

/// What one push does to the buffer contents: append, then drop from the
/// front whatever exceeds the bound.
pub open spec fn spec_push(s: Seq<Seq<char>>, line: Seq<char>, max: nat) -> Seq<Seq<char>> {
    let t = s.push(line);
    if t.len() <= max {
        t
    } else {
        t.skip(t.len() - max)
    }
}

impl HistoryBuffer {
    /// The eviction bound this buffer was created with.
    pub closed spec fn max_hist(&self) -> nat {
        self.max_history as nat
    }

    /// The bound is respected: a reader never sees more than `max_history` lines.
    pub open spec fn wf(&self) -> bool {
        self@.len() <= self.max_hist()
    }

    pub fn new(max_history: usize) -> (r: HistoryBuffer)
        ensures
            r@ == Seq::<Seq<char>>::empty(),
            r.max_hist() == max_history,
            r.wf(),
    {
        let r = HistoryBuffer { lines: Vec::new(), max_history };
        proof {
            assert(r@ =~= Seq::<Seq<char>>::empty());
        }
        r
    }

    pub fn len(&self) -> (n: usize)
        ensures
            n == self@.len(),
    {
        self.lines.len()
    }

    pub fn line_at(&self, i: usize) -> (l: &String)
        requires
            i < self@.len(),
        ensures
            l@ == self@[i as int],
    {
        &self.lines[i]
    }

    /// Append one line, evicting the oldest line if the bound is exceeded.
    pub fn push(&mut self, line: String)
        requires
            old(self).wf(),
        ensures
            final(self)@ == spec_push(old(self)@, line@, old(self).max_hist()),
            final(self).max_hist() == old(self).max_hist(),
            final(self).wf(),
    {
        let ghost s0 = self@;
        let ghost l = line@;
        self.lines.push(line);
        proof {
            assert(self@ =~= s0.push(l));
        }
        if self.lines.len() > self.max_history {
            let ghost s1 = self@;
            self.lines.remove(0);
            proof {
                assert(self@ =~= s1.skip(1));
                assert(self@ =~= spec_push(s0, l, self.max_history as nat));
            }
        }
    }

    /// Drop every line; the bound is unchanged.
    pub fn clear(&mut self)
        ensures
            final(self)@ == Seq::<Seq<char>>::empty(),
            final(self).max_hist() == old(self).max_hist(),
            final(self).wf(),
    {
        self.lines.clear();
        proof {
            assert(self@ =~= Seq::<Seq<char>>::empty());
        }
    }
}

/// The buffer contents after pushing each of `ls` in order onto `s`.
pub open spec fn push_all(s: Seq<Seq<char>>, ls: Seq<Seq<char>>, max: nat) -> Seq<Seq<char>>
    decreases ls.len(),
{
    if ls.len() == 0 {
        s
    } else {
        push_all(spec_push(s, ls[0], max), ls.skip(1), max)
    }
}

/// FIFO eviction law: after any sequence of pushes onto a buffer that respects
/// its bound, the buffer holds exactly the most recently pushed lines — the
/// last `max` of `s + ls` — in arrival order, and never more than `max` lines.
pub proof fn lemma_history_fifo(s: Seq<Seq<char>>, ls: Seq<Seq<char>>, max: nat)
    requires
        s.len() <= max,
    ensures
        push_all(s, ls, max) == (s + ls).skip(
            if s.len() + ls.len() > max {
                s.len() + ls.len() - max
            } else {
                0
            },
        ),
        push_all(s, ls, max).len() <= max,
    decreases ls.len(),
{
    if ls.len() == 0 {
        assert(push_all(s, ls, max) =~= (s + ls).skip(0));
    } else {
        let s1 = spec_push(s, ls[0], max);
        assert(s1.len() <= max);
        lemma_history_fifo(s1, ls.skip(1), max);
        let drop = if s.len() + ls.len() > max {
            s.len() + ls.len() - max
        } else {
            0
        };
        assert(push_all(s, ls, max) =~= (s + ls).skip(drop as int));
    }
}

} // verus!
