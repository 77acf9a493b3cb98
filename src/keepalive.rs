use vstd::prelude::*;

verus! {

/// Idle window after which the instrument must be woken, in milliseconds.
pub const KEEPALIVE_WINDOW_MS: u64 = 3000;

/// How long the break line is held asserted, in milliseconds.
pub const BREAK_HOLD_MS: u64 = 1000;

/// Time elapsed from `last` to `now`; a clock that went backwards counts as none.
pub open spec fn elapsed(last: u64, now: u64) -> nat {
    if now >= last { (now - last) as nat } else { 0 }
}

/// A keepalive is owed once strictly more than the window has passed.
pub open spec fn keepalive_due(last: u64, now: u64, window: u64) -> bool {
    elapsed(last, now) > window
}

/// Whether a keepalive sequence is owed at `now`, given the deadline `last`.
pub fn break_needed(last: u64, now: u64, window: u64) -> (r: bool)
    ensures
        r == keepalive_due(last, now, window),
{
    if now >= last {
        window < now - last
    } else {
        false
    }
}

/// Outcome of one blocking read on the transport.
pub enum ReadEvent {
    /// The read returned these bytes; an empty chunk is a zero-length read.
    Data(Vec<u8>),
    /// The read timed out without data.
    TimedOut,
    /// Any other read error.
    Failed,
}

/// What the reader does after a read.
pub enum ReaderAction {
    /// Push this chunk to the frame channel.
    Forward(Vec<u8>),
    /// Run the keepalive sequence, then report it with `Reader::break_sent`.
    SendBreak,
    /// Read again.
    Wait,
    /// The transport is broken: stop the process.
    Fatal,
}

/// How a keepalive sequence went.
#[derive(Debug, Clone, Copy, PartialEq, Eq, Structural)]
pub enum BreakOutcome {
    /// Asserted, held and cleared.
    Done,
    /// Asserted and held, but clearing failed: logged, not fatal.
    ClearFailed,
    /// Asserting failed: the transport is unusable.
    Fatal,
}

/// Classifies a keepalive sequence by whether asserting and clearing succeeded.
pub fn break_outcome(asserted: bool, cleared: bool) -> (r: BreakOutcome)
    ensures
        !asserted ==> r == BreakOutcome::Fatal,
        asserted && cleared ==> r == BreakOutcome::Done,
        asserted && !cleared ==> r == BreakOutcome::ClearFailed,
{
    if !asserted {
        BreakOutcome::Fatal
    } else if cleared {
        BreakOutcome::Done
    } else {
        BreakOutcome::ClearFailed
    }
}

/// Keepalive bookkeeping of the reader worker: the deadline is the time of the
/// last nonempty read or of the last keepalive sequence.
pub struct Reader {
    pub last_received_ms: u64,
    pub window_ms: u64,
}

impl Reader {
    pub fn new(now: u64, window_ms: u64) -> (r: Reader)
        ensures
            r.last_received_ms == now,
            r.window_ms == window_ms,
    {
        Reader { last_received_ms: now, window_ms }
    }

    /// Decides what follows a read that completed at `now`.
    pub fn on_read(&mut self, event: ReadEvent, now: u64) -> (r: ReaderAction)
        ensures
            final(self).window_ms == old(self).window_ms,
            chunk_of_action(r) == chunk_of_event(event),
            match event {
                ReadEvent::Data(chunk) if chunk@.len() > 0 => {
                    &&& r matches ReaderAction::Forward(c) && c@ == chunk@
                    &&& final(self).last_received_ms == now
                },
                ReadEvent::Failed => {
                    &&& r matches ReaderAction::Fatal
                    &&& final(self).last_received_ms == old(self).last_received_ms
                },
                _ => {
                    &&& final(self).last_received_ms == old(self).last_received_ms
                    &&& (if keepalive_due(old(self).last_received_ms, now, old(self).window_ms) {
                        r matches ReaderAction::SendBreak
                    } else {
                        r matches ReaderAction::Wait
                    })
                },
            },
    {
        match event {
            ReadEvent::Data(chunk) => {
                if chunk.len() > 0 {
                    self.last_received_ms = now;
                    ReaderAction::Forward(chunk)
                } else if break_needed(self.last_received_ms, now, self.window_ms) {
                    ReaderAction::SendBreak
                } else {
                    ReaderAction::Wait
                }
            },
            ReadEvent::TimedOut => {
                if break_needed(self.last_received_ms, now, self.window_ms) {
                    ReaderAction::SendBreak
                } else {
                    ReaderAction::Wait
                }
            },
            ReadEvent::Failed => ReaderAction::Fatal,
        }
    }

    /// Records a finished keepalive sequence at `now`. The deadline is reset
    /// whether or not clearing succeeded; a failed assert stops the reader.
    pub fn break_sent(&mut self, outcome: BreakOutcome, now: u64) -> (r: ReaderAction)
        ensures
            final(self).window_ms == old(self).window_ms,
            chunk_of_action(r) is None,
            outcome == BreakOutcome::Fatal ==> (r matches ReaderAction::Fatal)
                && final(self).last_received_ms == old(self).last_received_ms,
            outcome != BreakOutcome::Fatal ==> (r matches ReaderAction::Wait)
                && final(self).last_received_ms == now,
    {
        match outcome {
            BreakOutcome::Fatal => ReaderAction::Fatal,
            _ => {
                self.last_received_ms = now;
                ReaderAction::Wait
            },
        }
    }
}

/// The chunk a read hands over: its bytes when it returned some, else none.
pub open spec fn chunk_of_event(e: ReadEvent) -> Option<Seq<u8>> {
    match e {
        ReadEvent::Data(c) => if c@.len() > 0 { Some(c@) } else { None },
        _ => None,
    }
}

/// The chunk an action pushes to the frame channel, if any.
pub open spec fn chunk_of_action(a: ReaderAction) -> Option<Seq<u8>> {
    match a {
        ReaderAction::Forward(c) => Some(c@),
        _ => None,
    }
}

/// The chunks present in a sequence, in order.
pub open spec fn present(chunks: Seq<Option<Seq<u8>>>) -> Seq<Seq<u8>>
    decreases chunks.len(),
{
    if chunks.len() == 0 {
        Seq::empty()
    } else {
        let rest = present(chunks.drop_last());
        match chunks.last() {
            Some(c) => rest.push(c),
            None => rest,
        }
    }
}

/// The nonempty chunks of a run of reads, in read order.
pub open spec fn chunks_read(events: Seq<ReadEvent>) -> Seq<Seq<u8>> {
    present(events.map_values(|e: ReadEvent| chunk_of_event(e)))
}

/// The chunks pushed to the frame channel by a run of actions, in order.
pub open spec fn chunks_pushed(actions: Seq<ReaderAction>) -> Seq<Seq<u8>> {
    present(actions.map_values(|a: ReaderAction| chunk_of_action(a)))
}

/// Forwarding law: over any run of reads, each answered by `on_read`, the
/// chunks pushed to the frame channel are exactly the nonempty chunks read,
/// unchanged and in read order, none dropped or repeated; no empty chunk is
/// ever pushed.
pub proof fn lemma_reader_forwards_every_chunk_once(events: Seq<ReadEvent>, actions: Seq<ReaderAction>)
    requires
        actions.len() == events.len(),
        forall|i: int| 0 <= i < events.len() ==> chunk_of_action(#[trigger] actions[i]) == chunk_of_event(events[i]),
    ensures
        chunks_pushed(actions) == chunks_read(events),
        forall|j: int| 0 <= j < chunks_read(events).len() ==> (#[trigger] chunks_read(events)[j]).len() > 0,
{
    assert(actions.map_values(|a: ReaderAction| chunk_of_action(a)) =~= events.map_values(|e: ReadEvent| chunk_of_event(e)));
    lemma_present_nonempty(events.map_values(|e: ReadEvent| chunk_of_event(e)));
}

proof fn lemma_present_nonempty(chunks: Seq<Option<Seq<u8>>>)
    requires
        forall|i: int| 0 <= i < chunks.len() ==> (#[trigger] chunks[i] matches Some(c) ==> c.len() > 0),
    ensures
        forall|j: int| 0 <= j < present(chunks).len() ==> (#[trigger] present(chunks)[j]).len() > 0,
    decreases chunks.len(),
{
    if chunks.len() > 0 {
        let d = chunks.drop_last();
        assert forall|i: int| 0 <= i < d.len() implies (#[trigger] d[i] matches Some(c) ==> c.len() > 0) by {
            assert(d[i] == chunks[i]);
        }
        lemma_present_nonempty(d);
        assert(chunks[chunks.len() - 1] == chunks.last());
        let p = present(chunks);
        assert forall|j: int| 0 <= j < p.len() implies (#[trigger] p[j]).len() > 0 by {
            if j < present(d).len() {
                assert(p[j] == present(d)[j]);
            }
        }
    }
}

/// Keepalive law: once a keepalive sequence is recorded with `break_sent`,
/// cleared or not, the reader's deadline is the time it finished, so idle
/// reads within one window after it ask for no further keepalive.
pub proof fn lemma_one_keepalive_per_idle_window(after: Reader, done_at: u64, later: u64)
    requires
        after.last_received_ms == done_at,
        done_at <= later,
        later - done_at <= after.window_ms,
    ensures
        !keepalive_due(after.last_received_ms, later, after.window_ms),
{
}

/// Keepalive sequences asked for over a run of idle reads at times `ts`,
/// starting from deadline `deadline`, as `on_read` answers them: an idle read
/// leaves the deadline alone and asks for a keepalive when one is due; each
/// keepalive, recorded with `break_sent` once finished at `done_at`, moves the
/// deadline to `done_at`.
pub open spec fn idle_keepalives(deadline: u64, window: u64, ts: Seq<u64>, done_at: u64) -> nat
    decreases ts.len(),
{
    if ts.len() == 0 {
        0
    } else if keepalive_due(deadline, ts[0], window) {
        1 + idle_keepalives(done_at, window, ts.skip(1), done_at)
    } else {
        idle_keepalives(deadline, window, ts.skip(1), done_at)
    }
}

proof fn lemma_no_keepalive_within_window(deadline: u64, window: u64, ts: Seq<u64>)
    requires
        forall|i: int| 0 <= i < ts.len() ==> deadline <= #[trigger] ts[i] && ts[i] - deadline <= window,
    ensures
        idle_keepalives(deadline, window, ts, deadline) == 0,
    decreases ts.len(),
{
    if ts.len() > 0 {
        let rest = ts.skip(1);
        assert forall|i: int| 0 <= i < rest.len() implies deadline <= #[trigger] rest[i] && rest[i] - deadline <= window by {
            assert(rest[i] == ts[i + 1]);
        }
        lemma_no_keepalive_within_window(deadline, window, rest);
        assert(deadline <= ts[0]);
    }
}

/// Idle-run law: when no data arrives and the window first runs out at the
/// `k`-th idle read, exactly one keepalive sequence is asked for over the run,
/// provided the keepalive finishes at `done_at` (no earlier than that read)
/// and the run's later reads fall within one window after it.
pub proof fn lemma_idle_run_sends_one_keepalive(deadline: u64, window: u64, ts: Seq<u64>, k: int, done_at: u64)
    requires
        0 <= k < ts.len(),
        keepalive_due(deadline, ts[k], window),
        forall|i: int| 0 <= i < k ==> !keepalive_due(deadline, #[trigger] ts[i], window),
        forall|i: int| k < i < ts.len() ==> done_at <= #[trigger] ts[i] && ts[i] - done_at <= window,
    ensures
        idle_keepalives(deadline, window, ts, done_at) == 1,
    decreases k,
{
    let rest = ts.skip(1);
    if k == 0 {
        assert forall|i: int| 0 <= i < rest.len() implies done_at <= #[trigger] rest[i] && rest[i] - done_at <= window by {
            assert(rest[i] == ts[i + 1]);
        }
        lemma_no_keepalive_within_window(done_at, window, rest);
    } else {
        assert(!keepalive_due(deadline, ts[0], window));
        assert(rest[k - 1] == ts[k]);
        assert forall|i: int| 0 <= i < k - 1 implies !keepalive_due(deadline, #[trigger] rest[i], window) by {
            assert(rest[i] == ts[i + 1]);
        }
        assert forall|i: int| k - 1 < i < rest.len() implies done_at <= #[trigger] rest[i] && rest[i] - done_at <= window by {
            assert(rest[i] == ts[i + 1]);
        }
        lemma_idle_run_sends_one_keepalive(deadline, window, rest, k - 1, done_at);
    }
}

} // verus!
