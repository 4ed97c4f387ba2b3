//! The watch session: cursor, file identity, drain flag, and the decisions
//! of the poll loop.

use core::str::FromStr;
use vstd::prelude::*;
use vstd::string::StrSliceExecFns;

verus! {

/// Where the watcher starts reading when it is registered.
#[derive(Clone)]
pub enum StartFrom {
    /// The beginning of the file.
    Beginning,
    /// An explicit byte offset into the file; seeking past the end is legal
    /// and simply yields no data until the file grows.
    Offset(u64),
    /// The end of the file as it stands at registration.
    End,
}

/// The starting policy resolved to a byte offset in a file of `file_len`
/// bytes.
pub open spec fn resolved_start(policy: StartFrom, file_len: u64) -> u64 {
    match policy {
        StartFrom::Beginning => 0,
        StartFrom::Offset(pos) => pos,
        StartFrom::End => file_len,
    }
}

/// Parses a policy name: `"start"` names the beginning; any other string,
/// `"end"` included, names the end — the lenient default is deliberate.
pub fn parse_start_from(input: &str) -> (r: StartFrom)
    ensures
        r == (if input@ == "start"@ {
            StartFrom::Beginning
        } else {
            StartFrom::End
        }),
{
    proof {
        reveal_strlit("start");
    }
    let n = input.unicode_len();
    if n == 5 && input.get_char(0) == 's' && input.get_char(1) == 't' && input.get_char(2) == 'a'
        && input.get_char(3) == 'r' && input.get_char(4) == 't' {
        proof {
            assert(input@ =~= "start"@);
        }
        StartFrom::Beginning
    } else {
        StartFrom::End
    }
}

impl FromStr for StartFrom {
    type Err = ();

    fn from_str(input: &str) -> (r: Result<StartFrom, ()>)
        ensures
            r == Ok::<StartFrom, ()>(
                if input@ == "start"@ {
                    StartFrom::Beginning
                } else {
                    StartFrom::End
                },
            ),
    {
        Ok(parse_start_from(input))
    }
}

/// What the callback may ask of the watcher after a delivery.
pub enum LogWatcherAction {
    /// Keep reading from where the delivered line ended.
    NoAction,
    /// Jump the cursor to the current end of the file, discarding the
    /// unread backlog.
    SeekToEnd,
}

/// What the loop does after a read that yields no complete line.
pub enum EofStep {
    /// Normal polling: the path's identity must be checked for rotation.
    CheckIdentity,
    /// The drain of a rotated-out file is complete.
    EndDrain,
}

/// What the identity check of the path found.
pub enum IdentityCheck {
    /// The path was momentarily missing or unreadable: a rotation race, not
    /// a failure.
    Unavailable,
    /// The path could be opened and statted, and this is its identity.
    Found(u64),
}

/// What the loop does after an identity check.
pub enum RotationStep {
    /// No rotation: sleep one poll interval and retry at the same offset.
    SleepAndRetry,
    /// The path now names a different physical file: drain the old handle,
    /// then switch over.
    BeginDrain,
}

/// One movement of the read cursor within the currently open file: a line
/// delivered to the callback, or a jump from a seek-to-end action.
pub enum FileEvent {
    /// A line of `len` bytes, terminator included, was delivered, starting
    /// at byte `start`.
    Delivered { start: u64, len: u64 },
    /// A seek action jumped the cursor from `from` to `to`, skipping the
    /// bytes between (or returning over them, had the file shrunk).
    Skipped { from: u64, to: u64 },
}

/// The events `evs` carry the cursor step by step from `start` to `end`: a
/// delivery begins at the cursor and advances it by its byte length; a
/// seek begins at the cursor and moves it to its target.
pub open spec fn is_cursor_trace(start: int, evs: Seq<FileEvent>, end: int) -> bool
    decreases evs.len(),
{
    if evs.len() == 0 {
        end == start
    } else {
        match evs[0] {
            FileEvent::Delivered { start: s, len } => {
                &&& s == start
                &&& len > 0
                &&& is_cursor_trace(start + len, evs.skip(1), end)
            },
            FileEvent::Skipped { from, to } => {
                &&& from == start
                &&& is_cursor_trace(to as int, evs.skip(1), end)
            },
        }
    }
}

/// The deliveries of a trace: start offset and byte length of each
/// delivered line, in delivery order.
pub open spec fn deliveries(evs: Seq<FileEvent>) -> Seq<(u64, u64)>
    decreases evs.len(),
{
    if evs.len() == 0 {
        Seq::empty()
    } else {
        match evs[0] {
            FileEvent::Delivered { start, len } => seq![(start, len)] + deliveries(evs.skip(1)),
            FileEvent::Skipped { .. } => deliveries(evs.skip(1)),
        }
    }
}

/// Total byte length of a trace's deliveries, terminators included.
pub open spec fn total_delivered_len(evs: Seq<FileEvent>) -> int
    decreases evs.len(),
{
    if evs.len() == 0 {
        0
    } else {
        (match evs[0] {
            FileEvent::Delivered { len, .. } => len as int,
            FileEvent::Skipped { .. } => 0,
        }) + total_delivered_len(evs.skip(1))
    }
}

/// Net byte displacement of a trace's seek actions: what the cursor
/// skipped without delivering.
pub open spec fn total_skipped(evs: Seq<FileEvent>) -> int
    decreases evs.len(),
{
    if evs.len() == 0 {
        0
    } else {
        (match evs[0] {
            FileEvent::Delivered { .. } => 0,
            FileEvent::Skipped { from, to } => to - from,
        }) + total_skipped(evs.skip(1))
    }
}

/// Whether any seek action stands in the trace.
pub open spec fn has_seek(evs: Seq<FileEvent>) -> bool {
    exists|i: int| 0 <= i < evs.len() && #[trigger] evs[i] is Skipped
}

/// Whether the event leaves the cursor no earlier than it found it.
pub open spec fn event_moves_forward(ev: FileEvent) -> bool {
    match ev {
        FileEvent::Skipped { from, to } => from <= to,
        FileEvent::Delivered { .. } => true,
    }
}

/// Whether every seek action of the trace moved the cursor forward. A seek
/// to the end moves backward only when the file shrank underneath the
/// cursor.
pub open spec fn seeks_forward(evs: Seq<FileEvent>) -> bool {
    forall|i: int| 0 <= i < evs.len() ==> #[trigger] event_moves_forward(evs[i])
}

/// The watch session. It holds everything the poll loop decides with: the
/// path, the poll interval, the identity of the currently open physical
/// file, the byte offset of the next unread byte, and the drain flag that
/// is true only while a rotated-out file is being flushed. The embedding
/// owns the file handle and keeps its read position at `pos`.
pub struct LogWatcher {
    /// Path of the watched file; never changes.
    pub filename: String,
    /// Poll interval knob, multiplied by the embedding into a sub-second
    /// sleep between attempts.
    pub refresh_period: u32,
    /// Identity (inode number) of the currently open physical file;
    /// updated only on a completed rotation.
    pub inode: u64,
    /// Byte offset of the next unread byte of the currently open file.
    pub pos: u64,
    /// True only while a rotated-out file is being drained.
    pub draining: bool,
    /// Offset at which reading of the currently open file began.
    pub started_at: Ghost<u64>,
    /// Every cursor movement within the currently open file, in order: the
    /// delivered lines and the seek actions.
    pub trace: Ghost<Seq<FileEvent>>,
}

impl LogWatcher {
    /// The session invariant: the recorded events carry the cursor exactly
    /// from the starting offset to its present position — every byte
    /// before the cursor was delivered or explicitly skipped, none twice.
    pub open spec fn wf(self) -> bool {
        is_cursor_trace(self.started_at@ as int, self.trace@, self.pos as int)
    }

    /// Builds the session state for a file the embedding has opened, whose
    /// length is `file_len` and whose identity is `inode`. The starting
    /// policy is resolved to the initial cursor position; the caller seeks
    /// the handle there.
    pub fn register(
        filename: String,
        starts_from: StartFrom,
        refresh_period: u32,
        file_len: u64,
        inode: u64,
    ) -> (w: LogWatcher)
        ensures
            w.wf(),
            w.filename == filename,
            w.refresh_period == refresh_period,
            w.inode == inode,
            w.pos == resolved_start(starts_from, file_len),
            !w.draining,
            w.started_at@ == w.pos,
            w.trace@ == Seq::<FileEvent>::empty(),
    {
        let pos: u64 = match starts_from {
            StartFrom::Beginning => 0,
            StartFrom::Offset(n) => n,
            StartFrom::End => file_len,
        };
        LogWatcher {
            filename,
            refresh_period,
            inode,
            pos,
            draining: false,
            started_at: Ghost(pos),
            trace: Ghost(Seq::empty()),
        }
    }

    /// A complete line of `len` bytes, terminator included, was read at the
    /// cursor. Advances the cursor past it and returns the callback's
    /// positional arguments: the line's start offset and its byte length.
    pub fn advance_line(&mut self, len: usize) -> (r: (u64, usize))
        requires
            1 <= len,
            old(self).pos + len <= u64::MAX,
            old(self).wf(),
        ensures
            r.0 == old(self).pos,
            r.1 == len,
            final(self).pos == old(self).pos + len,
            final(self).trace@ == old(self).trace@.push(
                FileEvent::Delivered { start: old(self).pos, len: len as u64 },
            ),
            final(self).filename == old(self).filename,
            final(self).refresh_period == old(self).refresh_period,
            final(self).inode == old(self).inode,
            final(self).draining == old(self).draining,
            final(self).started_at == old(self).started_at,
            final(self).wf(),
    {
        let start = self.pos;
        self.pos = self.pos + len as u64;
        proof {
            self.trace@ = self.trace@.push(FileEvent::Delivered { start, len: len as u64 });
            lemma_cursor_trace_grows(
                self.started_at@ as int,
                old(self).trace@,
                start as int,
                FileEvent::Delivered { start, len: len as u64 },
                self.pos as int,
            );
        }
        (start, len)
    }

    /// The callback asked to seek to the end: the cursor jumps to
    /// `file_len`, the current length of the open file, discarding the
    /// unread backlog before it.
    pub fn seek_to_end(&mut self, file_len: u64)
        requires
            old(self).wf(),
        ensures
            final(self).pos == file_len,
            final(self).trace@ == old(self).trace@.push(
                FileEvent::Skipped { from: old(self).pos, to: file_len },
            ),
            final(self).filename == old(self).filename,
            final(self).refresh_period == old(self).refresh_period,
            final(self).inode == old(self).inode,
            final(self).draining == old(self).draining,
            final(self).started_at == old(self).started_at,
            final(self).wf(),
    {
        proof {
            self.trace@ = self.trace@.push(
                FileEvent::Skipped { from: self.pos, to: file_len },
            );
            lemma_cursor_trace_grows(
                self.started_at@ as int,
                old(self).trace@,
                self.pos as int,
                FileEvent::Skipped { from: self.pos, to: file_len },
                file_len as int,
            );
        }
        self.pos = file_len;
    }

    /// A read at the cursor produced no complete line. While draining a
    /// rotated-out file this ends the drain; in normal polling the path's
    /// identity must be checked next.
    pub fn on_eof(&self) -> (r: EofStep)
        ensures
            r is EndDrain <==> self.draining,
            r is CheckIdentity <==> !self.draining,
    {
        if self.draining {
            EofStep::EndDrain
        } else {
            EofStep::CheckIdentity
        }
    }

    /// The outcome of the identity check after a zero-byte read. A changed
    /// identity means the path now names a different physical file: the
    /// watcher enters the drain of the old handle. An unchanged identity,
    /// or a momentarily unavailable path, leaves the state alone: the loop
    /// sleeps one interval and retries the same offset.
    pub fn on_identity_check(&mut self, check: &IdentityCheck) -> (r: RotationStep)
        requires
            old(self).wf(),
        ensures
            (match *check {
                IdentityCheck::Unavailable => r is SleepAndRetry && *final(self) == *old(self),
                IdentityCheck::Found(ino) => (if ino == old(self).inode {
                    r is SleepAndRetry && *final(self) == *old(self)
                } else {
                    &&& r is BeginDrain
                    &&& final(self).draining
                    &&& final(self).pos == old(self).pos
                    &&& final(self).inode == old(self).inode
                    &&& final(self).filename == old(self).filename
                    &&& final(self).refresh_period == old(self).refresh_period
                    &&& final(self).started_at == old(self).started_at
                    &&& final(self).trace == old(self).trace
                }),
            }),
            final(self).wf(),
    {
        match check {
            IdentityCheck::Unavailable => RotationStep::SleepAndRetry,
            IdentityCheck::Found(ino) => {
                if *ino != self.inode {
                    self.draining = true;
                    RotationStep::BeginDrain
                } else {
                    RotationStep::SleepAndRetry
                }
            },
        }
    }

    /// The drain of the old file is finished and a fresh handle on the path
    /// is open: switch over. The cursor returns to the start of the new
    /// file, the identity becomes the new file's, the drain flag clears,
    /// and the cursor trace starts over.
    pub fn complete_rotation(&mut self, new_inode: u64)
        requires
            old(self).draining,
        ensures
            final(self).pos == 0,
            final(self).inode == new_inode,
            !final(self).draining,
            final(self).filename == old(self).filename,
            final(self).refresh_period == old(self).refresh_period,
            final(self).started_at@ == 0,
            final(self).trace@ == Seq::<FileEvent>::empty(),
            final(self).wf(),
    {
        self.pos = 0;
        self.inode = new_inode;
        self.draining = false;
        proof {
            self.started_at@ = 0;
            self.trace@ = Seq::empty();
        }
    }
}

/// A cursor trace extends by one event that begins exactly at its end.
proof fn lemma_cursor_trace_grows(
    start: int,
    evs: Seq<FileEvent>,
    end: int,
    ev: FileEvent,
    next: int,
)
    requires
        is_cursor_trace(start, evs, end),
        (match ev {
            FileEvent::Delivered { start: s, len } => s == end && len > 0 && next == end + len,
            FileEvent::Skipped { from, to } => from == end && next == to,
        }),
    ensures
        is_cursor_trace(start, evs.push(ev), next),
    decreases evs.len(),
{
    if evs.len() == 0 {
        assert(evs.push(ev)[0] == ev);
        assert(evs.push(ev).skip(1) =~= Seq::<FileEvent>::empty());
        assert(is_cursor_trace(next, evs.push(ev).skip(1), next));
    } else {
        let rest = evs.skip(1);
        match evs[0] {
            FileEvent::Delivered { start: s, len } => {
                lemma_cursor_trace_grows(start + len, rest, end, ev, next);
            },
            FileEvent::Skipped { from, to } => {
                lemma_cursor_trace_grows(to as int, rest, end, ev, next);
            },
        }
        assert(evs.push(ev)[0] == evs[0]);
        assert(evs.push(ev).skip(1) =~= rest.push(ev));
    }
}

/// A trace's delivered and skipped totals account exactly for the cursor's
/// travel; a trace without seeks skips nothing.
proof fn lemma_cursor_trace_totals(start: int, evs: Seq<FileEvent>, end: int)
    requires
        is_cursor_trace(start, evs, end),
    ensures
        total_delivered_len(evs) + total_skipped(evs) == end - start,
        !has_seek(evs) ==> total_skipped(evs) == 0,
    decreases evs.len(),
{
    if evs.len() > 0 {
        let rest = evs.skip(1);
        if !has_seek(evs) {
            assert forall|i: int| 0 <= i < rest.len() implies !(#[trigger] rest[i] is Skipped) by {
                assert(rest[i] == evs[i + 1]);
            }
        }
        match evs[0] {
            FileEvent::Delivered { start: s, len } => {
                lemma_cursor_trace_totals(start + len, rest, end);
            },
            FileEvent::Skipped { from, to } => {
                assert(evs[0] is Skipped);
                assert(has_seek(evs));
                lemma_cursor_trace_totals(to as int, rest, end);
            },
        }
    }
}

/// When every seek of a trace moves forward, its deliveries lie within the
/// travelled range at strictly increasing start offsets.
proof fn lemma_cursor_trace_ordered(start: int, evs: Seq<FileEvent>, end: int)
    requires
        is_cursor_trace(start, evs, end),
        seeks_forward(evs),
    ensures
        start <= end,
        forall|i: int| 0 <= i < deliveries(evs).len() ==> start <= #[trigger] deliveries(evs)[i].0
            && deliveries(evs)[i].0 + deliveries(evs)[i].1 <= end,
        forall|i: int, j: int| 0 <= i < j < deliveries(evs).len()
            ==> #[trigger] deliveries(evs)[i].0 < #[trigger] deliveries(evs)[j].0,
    decreases evs.len(),
{
    let ds = deliveries(evs);
    if evs.len() > 0 {
        let rest = evs.skip(1);
        let rds = deliveries(rest);
        assert forall|i: int| 0 <= i < rest.len() implies #[trigger] event_moves_forward(
            rest[i],
        ) by {
            assert(rest[i] == evs[i + 1]);
            assert(event_moves_forward(evs[i + 1]));
        }
        match evs[0] {
            FileEvent::Delivered { start: s, len } => {
                lemma_cursor_trace_ordered(start + len, rest, end);
                assert(ds == seq![(s, len)] + rds);
                assert(ds[0] == (s, len));
                assert(forall|i: int| 1 <= i < ds.len() ==> ds[i] == rds[i - 1]);
                assert forall|i: int| 0 <= i < ds.len() implies start <= #[trigger] ds[i].0
                    && ds[i].0 + ds[i].1 <= end by {
                    if i > 0 {
                        assert(ds[i] == rds[i - 1]);
                    }
                }
                assert forall|i: int, j: int| 0 <= i < j < ds.len() implies #[trigger] ds[i].0
                    < #[trigger] ds[j].0 by {
                    assert(ds[j] == rds[j - 1]);
                    if i > 0 {
                        assert(ds[i] == rds[i - 1]);
                    }
                }
            },
            FileEvent::Skipped { from, to } => {
                assert(event_moves_forward(evs[0]));
                lemma_cursor_trace_ordered(to as int, rest, end);
                assert(ds == rds);
            },
        }
    }
}

/// A trace without seeks delivers each line exactly where the previous one
/// ended, the first at the trace's starting offset.
proof fn lemma_cursor_trace_contiguous(start: int, evs: Seq<FileEvent>, end: int)
    requires
        is_cursor_trace(start, evs, end),
        !has_seek(evs),
    ensures
        deliveries(evs).len() > 0 ==> deliveries(evs)[0].0 == start,
        forall|i: int| 0 <= i < deliveries(evs).len() - 1 ==> #[trigger] deliveries(evs)[i].0
            + deliveries(evs)[i].1 == deliveries(evs)[i + 1].0,
    decreases evs.len(),
{
    let ds = deliveries(evs);
    if evs.len() > 0 {
        let rest = evs.skip(1);
        let rds = deliveries(rest);
        assert forall|i: int| 0 <= i < rest.len() implies !(#[trigger] rest[i] is Skipped) by {
            assert(rest[i] == evs[i + 1]);
        }
        match evs[0] {
            FileEvent::Delivered { start: s, len } => {
                lemma_cursor_trace_contiguous(start + len, rest, end);
                assert(ds == seq![(s, len)] + rds);
                assert(ds[0] == (s, len));
                assert(forall|i: int| 1 <= i < ds.len() ==> ds[i] == rds[i - 1]);
                assert forall|i: int| 0 <= i < ds.len() - 1 implies #[trigger] ds[i].0 + ds[i].1
                    == ds[i + 1].0 by {
                    if i == 0 {
                        assert(ds[1] == rds[0]);
                    } else {
                        assert(ds[i] == rds[i - 1]);
                        assert(ds[i + 1] == rds[i]);
                    }
                }
            },
            FileEvent::Skipped { .. } => {
                assert(evs[0] is Skipped);
                assert(has_seek(evs));
            },
        }
    }
}

/// Order preservation: provided no seek action moved the cursor backward —
/// a seek to the end does so only when the file shrank underneath the
/// watcher — the lines of one file are delivered at strictly increasing
/// start offsets, all between the starting offset and the cursor; absent
/// any seek, each line moreover begins exactly where the previous one
/// ended.
pub proof fn lemma_order_preservation(w: LogWatcher)
    requires
        w.wf(),
        seeks_forward(w.trace@),
    ensures
        forall|i: int, j: int| 0 <= i < j < deliveries(w.trace@).len()
            ==> #[trigger] deliveries(w.trace@)[i].0 < #[trigger] deliveries(w.trace@)[j].0,
        forall|i: int| 0 <= i < deliveries(w.trace@).len()
            ==> w.started_at@ <= #[trigger] deliveries(w.trace@)[i].0
                && deliveries(w.trace@)[i].0 + deliveries(w.trace@)[i].1 <= w.pos,
        w.started_at@ <= w.pos,
        !has_seek(w.trace@) ==> forall|i: int| 0 <= i < deliveries(w.trace@).len() - 1
            ==> #[trigger] deliveries(w.trace@)[i].0 + deliveries(w.trace@)[i].1
                == deliveries(w.trace@)[i + 1].0,
{
    lemma_cursor_trace_ordered(w.started_at@ as int, w.trace@, w.pos as int);
    if !has_seek(w.trace@) {
        lemma_cursor_trace_contiguous(w.started_at@ as int, w.trace@, w.pos as int);
    }
}

/// Offset accounting: the cursor's travel from the starting offset is
/// exactly the bytes delivered plus the bytes skipped by seek actions;
/// absent any seek, the delivered byte lengths alone sum to the bytes
/// consumed.
pub proof fn lemma_offset_accounting(w: LogWatcher)
    requires
        w.wf(),
    ensures
        total_delivered_len(w.trace@) + total_skipped(w.trace@) == w.pos - w.started_at@,
        !has_seek(w.trace@) ==> total_delivered_len(w.trace@) == w.pos - w.started_at@,
{
    lemma_cursor_trace_totals(w.started_at@ as int, w.trace@, w.pos as int);
}

} // verus!
