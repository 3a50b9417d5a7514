use vstd::prelude::*;

verus! {

/// Position state of the tail reader: how much of the log file has been
/// observed so far and which line is the next one not yet delivered.
///
/// The reader never holds the file open between polls. A poll first compares
/// the file's current size against `last_size` (see [`TailState::check_size`]);
/// only when the size changed is the file read in full and the new lines
/// handed on (see [`TailState::consume`]).
pub struct TailState {
    /// File size in bytes recorded by the most recent poll.
    pub last_size: u64,
    /// Total number of lines the file held at the last full read.
    pub last_line_count: usize,
    /// Index of the first line that has not been delivered yet.
    pub next_unread: usize,
}

/// Well-formedness: the undelivered position never runs past the known
/// line count.
pub open spec fn tail_wf(t: TailState) -> bool {
    t.next_unread <= t.last_line_count
}

/// The size-comparison step of a poll: the state afterwards, and whether the
/// file has to be read. A shrunken file means rotation or truncation, and the
/// reading position falls back to the start of the file.
pub open spec fn spec_check_size(t: TailState, current_size: u64) -> (TailState, bool) {
    let need_read = current_size != t.last_size;
    let next = if current_size < t.last_size {
        0usize
    } else {
        t.next_unread
    };
    (
        TailState {
            last_size: current_size,
            last_line_count: t.last_line_count,
            next_unread: next,
        },
        need_read,
    )
}

/// The line-accounting step of a poll that read the file: the state
/// afterwards, and the index of the first line to deliver. Every line up to
/// the observed line count counts as consumed, whether or not it decodes.
pub open spec fn spec_consume(t: TailState, line_count: usize) -> (TailState, int) {
    let start = if t.next_unread <= line_count {
        t.next_unread as int
    } else {
        line_count as int
    };
    (
        TailState {
            last_size: t.last_size,
            last_line_count: line_count,
            next_unread: line_count,
        },
        start,
    )
}

/// What one whole poll looks like from outside: the state that remains and
/// the half-open range `[start, end)` of line indices the poll delivers.
/// An unchanged file size delivers nothing and skips the read entirely.
pub struct PollView {
    pub state: TailState,
    pub start: int,
    pub end: int,
}

/// One whole poll, assuming the file currently has `current_size` bytes and
/// `line_count` lines: compare sizes, and read only if the size changed.
pub open spec fn spec_poll(t: TailState, current_size: u64, line_count: usize) -> PollView {
    let (t1, need_read) = spec_check_size(t, current_size);
    if need_read {
        let (t2, start) = spec_consume(t1, line_count);
        PollView { state: t2, start: start, end: line_count as int }
    } else {
        PollView { state: t1, start: 0, end: 0 }
    }
}

/// Idle idempotence: a poll that sees the file size unchanged delivers no
/// lines, leaves the reader exactly as it was, and decides against reading
/// the file at all.
pub proof fn lemma_idle_poll(t: TailState, size: u64, count: usize)
    requires
        size == t.last_size,
    ensures
        spec_poll(t, size, count).state == t,
        spec_poll(t, size, count).start == spec_poll(t, size, count).end,
        !spec_check_size(t, size).1,
{
}

/// At-most-once delivery over growth: when a poll reads the file and the
/// file only grows until the next poll, the next poll delivers exactly the
/// lines appended in between — nothing twice, nothing skipped — and a poll
/// that sees no growth delivers nothing.
pub proof fn lemma_growth_exactly_once(t: TailState, s1: u64, c1: usize, s2: u64, c2: usize)
    requires
        tail_wf(t),
        s1 != t.last_size,
        s2 >= s1,
        c2 >= c1,
        s2 == s1 ==> c2 == c1,
    ensures
        spec_poll(t, s1, c1).end == c1,
        spec_poll(t, s1, c1).state.next_unread == c1,
        s2 > s1 ==> spec_poll(spec_poll(t, s1, c1).state, s2, c2).start == c1
            && spec_poll(spec_poll(t, s1, c1).state, s2, c2).end == c2,
        s2 > s1 ==> spec_poll(spec_poll(t, s1, c1).state, s2, c2).start == spec_poll(
            t,
            s1,
            c1,
        ).end,
        s2 == s1 ==> spec_poll(spec_poll(t, s1, c1).state, s2, c2).start == spec_poll(
            spec_poll(t, s1, c1).state,
            s2,
            c2,
        ).end,
{
}

/// Rotation recovery: a poll that sees the file smaller than before resets
/// the reading position to the first line and delivers every line the file
/// now holds.
pub proof fn lemma_rotation_recovery(t: TailState, s2: u64, c2: usize)
    requires
        s2 < t.last_size,
    ensures
        spec_poll(t, s2, c2).start == 0,
        spec_poll(t, s2, c2).end == c2,
        spec_poll(t, s2, c2).state.next_unread == c2,
{
}

impl TailState {
    /// A fresh reader: nothing observed, nothing delivered.
    pub fn new() -> (t: TailState)
        ensures
            t == (TailState { last_size: 0u64, last_line_count: 0usize, next_unread: 0usize }),
            tail_wf(t),
    {
        TailState { last_size: 0, last_line_count: 0, next_unread: 0 }
    }

    /// Record the file size seen by the current poll. Returns whether the
    /// poll must go on to read the file: exactly when the size changed. A
    /// size below the last recorded one is rotation or truncation and resets
    /// the reading position to the first line.
    pub fn check_size(&mut self, current_size: u64) -> (need_read: bool)
        requires
            tail_wf(*old(self)),
        ensures
            tail_wf(*final(self)),
            (*final(self), need_read) == spec_check_size(*old(self), current_size),
    {
        let need_read = current_size != self.last_size;
        if current_size < self.last_size {
            self.next_unread = 0;
        }
        self.last_size = current_size;
        need_read
    }

    /// Record a full read that found `line_count` lines. Returns the index of
    /// the first line to deliver; the poll delivers the lines at indices
    /// `[start, line_count)`, and every one of them counts as consumed.
    pub fn consume(&mut self, line_count: usize) -> (start: usize)
        requires
            tail_wf(*old(self)),
        ensures
            tail_wf(*final(self)),
            (*final(self), start as int) == spec_consume(*old(self), line_count),
    {
        let start = if self.next_unread <= line_count {
            self.next_unread
        } else {
            line_count
        };
        self.last_line_count = line_count;
        self.next_unread = line_count;
        start
    }
}

} // verus!
