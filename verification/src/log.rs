//! The message log: the last `N` colored segments of text, oldest first.

use vstd::prelude::*;

verus! {

/// The color in which a segment is shown.
#[derive(Debug, PartialEq, Eq, Clone, Copy, Structural)]
pub enum Color {
    Red,
    Green,
    Blue,
    Yellow,
    White,
    Gray,
}

/// The mathematical value of a segment: its text and its color.
pub type SegmentModel = (Seq<char>, Color);

/// The values of a list of segments.
pub open spec fn segment_models(segments: Seq<(String, Color)>) -> Seq<SegmentModel> {
    Seq::new(segments.len(), |i: int| (segments[i].0@, segments[i].1))
}

/// What a log of at most `limit` segments holds after `segment` is
/// appended to one that held `log`: a full log drops its oldest segment.
pub open spec fn appended(log: Seq<SegmentModel>, limit: nat, segment: SegmentModel) -> Seq<
    SegmentModel,
> {
    if log.len() < limit {
        log.push(segment)
    } else {
        log.drop_first().push(segment)
    }
}

/// A ring of `N` slots that keeps the last `N` segments appended to it.
pub struct Logger<const N: usize> {
    segments: Vec<(String, Color)>,
    head: usize,
    len: usize,
}

impl<const N: usize> View for Logger<N> {
    type V = Seq<SegmentModel>;

    /// The segments that the log holds, oldest first.
    closed spec fn view(&self) -> Seq<SegmentModel> {
        if self.len < N {
            segment_models(self.segments@.subrange(0, self.len as int))
        } else {
            segment_models(
                self.segments@.subrange(self.head as int, N as int) + self.segments@.subrange(
                    0,
                    self.head as int,
                ),
            )
        }
    }
}

impl<const N: usize> Logger<N> {
    /// Whether the ring is in order: it has its `N` slots, and the next slot
    /// to write lies behind the segments that it holds.
    pub closed spec fn wf(&self) -> bool {
        &&& self.segments@.len() == N
        &&& self.len <= N
        &&& self.head <= N
        &&& self.head < N || N == 0
        &&& self.len < N ==> self.head == self.len
    }

    /// An empty log.
    pub fn new() -> (log: Logger<N>)
        ensures
            log.wf(),
            log@ == Seq::<SegmentModel>::empty(),
    {
        let mut segments: Vec<(String, Color)> = Vec::new();
        let mut i: usize = 0;
        while i < N
            invariant
                i <= N,
                segments@.len() == i,
            decreases N - i,
        {
            segments.push((String::new(), Color::White));
            i = i + 1;
        }
        let log = Logger { segments, head: 0, len: 0 };
        proof {
            assert(log@ =~= Seq::<SegmentModel>::empty());
        }
        log
    }

    /// Appends a segment; a full log drops its oldest segment for it.
    pub fn append(&mut self, line: String, color: Color)
        requires
            old(self).wf(),
            N > 0,
        ensures
            final(self).wf(),
            final(self)@ == appended(old(self)@, N as nat, (line@, color)),
    {
        let ghost before = self.segments@;
        let ghost text = line@;
        self.segments[self.head] = (line, color);
        let at = self.head;
        self.head = if self.head + 1 == N {
            0
        } else {
            self.head + 1
        };
        if self.len < N {
            self.len = self.len + 1;
            proof {
                assert(self@ =~= old(self)@.push((text, color)));
            }
        } else {
            proof {
                assert(self@ =~= old(self)@.drop_first().push((text, color)));
            }
        }
    }

    /// Empties the log.
    pub fn clear(&mut self)
        requires
            old(self).wf(),
        ensures
            final(self).wf(),
            final(self)@ == Seq::<SegmentModel>::empty(),
    {
        self.len = 0;
        self.head = 0;
        proof {
            assert(self@ =~= Seq::<SegmentModel>::empty());
        }
    }

    /// The number of segments that the log holds.
    pub fn count(&self) -> (n: usize)
        requires
            self.wf(),
        ensures
            n == self@.len(),
            n <= N,
    {
        self.len
    }

    /// The segments that the log holds, oldest first.
    pub fn segments(&self) -> (list: Vec<(String, Color)>)
        requires
            self.wf(),
        ensures
            segment_models(list@) == self@,
    {
        let mut list: Vec<(String, Color)> = Vec::new();
        let start: usize = if self.len < N {
            0
        } else {
            self.head
        };
        let mut k: usize = 0;
        while k < self.len
            invariant
                self.wf(),
                k <= self.len,
                start == (if self.len < N {
                    0
                } else {
                    self.head as int
                }),
                list@.len() == k,
                forall|j: int|
                    0 <= j < k ==> (#[trigger] list@[j]).0@ == self@[j].0 && list@[j].1
                        == self@[j].1,
            decreases self.len - k,
        {
            let at: usize = if k < N - start {
                start + k
            } else {
                k - (N - start)
            };
            let segment = &self.segments[at];
            list.push((segment.0.clone(), segment.1));
            k = k + 1;
        }
        proof {
            assert(segment_models(list@) =~= self@);
        }
        list
    }
}

} // verus!
