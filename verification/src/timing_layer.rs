//! The per-span timing state machine.
//!
//! A [`Timing`] value tracks how long one span has existed without
//! executing ("idle" time) and how long it has been on the active call
//! stack ("busy" time), together with how often it was entered and
//! exited.  All durations are in nanoseconds of a monotonic clock.

use vstd::prelude::*;

verus! {

/// A layer that tracks the time spent in each span.
///
/// The layer records the time spent in each span as either "idle"
/// time, when the span is not executing, or "busy" time, when the span
/// is executing, as a [`Timing`] value per span.  The type itself is a
/// stateless marker: the hookup that lets a host's subscriber drive it
/// lives with the host glue, while the timing arithmetic lives in
/// [`Timing`].
#[derive(Debug, Default)]
pub struct TimingLayer;

/// The lifecycle state of a span's timing record.
#[derive(Debug, Default, Clone, Copy, PartialEq, Eq, Structural)]
pub enum State {
    /// The span is closed.
    ///
    /// No further timing information will be recorded.
    Closed,
    #[default]
    /// The span is currently idle.
    ///
    /// Timing information will be recorded when the span becomes busy or closed.
    Idle,
    /// The span is currently busy.
    ///
    /// Timing information will be recorded when the span becomes idle or closed.
    Busy,
}

/// Idle and busy time spent in one span, with enter and exit counts.
///
/// Durations are nanoseconds of a monotonic clock; `last` is the clock
/// reading at which the durations were last brought up to date.
#[derive(Debug, Clone, Copy, PartialEq, Eq, Structural)]
pub struct Timing {
    pub state: State,
    pub idle: u64,
    pub busy: u64,
    pub last: u64,
    pub enter_count: u64,
    pub exit_count: u64,
}

/// A counter increment that stops at the largest representable value
/// instead of overflowing.
pub open spec fn sat_inc(c: u64) -> u64 {
    if c < u64::MAX {
        (c + 1) as u64
    } else {
        c
    }
}

impl Timing {
    /// Well-formedness: the recorded durations never exceed the last
    /// clock reading, so sums of durations cannot overflow.
    pub open spec fn inv(self) -> bool {
        self.idle + self.busy <= self.last
    }

    /// The timing record of a span created at clock reading `now`.
    pub open spec fn spec_new(now: u64) -> Timing {
        Timing {
            state: State::Idle,
            idle: 0,
            busy: 0,
            last: now,
            enter_count: 0,
            exit_count: 0,
        }
    }

    /// Time elapsed since the last update, saturating to zero if the
    /// clock reading went backwards.
    pub open spec fn spec_elapsed(self, now: u64) -> int {
        if now >= self.last {
            now - self.last
        } else {
            0
        }
    }

    /// Flush the time elapsed since `last` into the duration selected by
    /// the current state: idle time while `Idle`, busy time while `Busy`,
    /// and nothing at all while `Closed`.
    pub open spec fn spec_flush(self, now: u64) -> Timing {
        match self.state {
            State::Closed => self,
            State::Idle => Timing {
                idle: (self.idle + self.spec_elapsed(now)) as u64,
                last: if now >= self.last { now } else { self.last },
                ..self
            },
            State::Busy => Timing {
                busy: (self.busy + self.spec_elapsed(now)) as u64,
                last: if now >= self.last { now } else { self.last },
                ..self
            },
        }
    }

    /// The effect of `enter` at clock reading `now`: flush elapsed time,
    /// count the enter, become busy.  A closed record is left untouched.
    pub open spec fn spec_enter(self, now: u64) -> Timing {
        if self.state is Closed {
            self
        } else {
            Timing {
                state: State::Busy,
                enter_count: sat_inc(self.enter_count),
                ..self.spec_flush(now)
            }
        }
    }

    /// The effect of `exit` at clock reading `now`: flush elapsed time,
    /// count the exit, become idle.  A closed record is left untouched.
    pub open spec fn spec_exit(self, now: u64) -> Timing {
        if self.state is Closed {
            self
        } else {
            Timing {
                state: State::Idle,
                exit_count: sat_inc(self.exit_count),
                ..self.spec_flush(now)
            }
        }
    }

    /// The effect of `close` at clock reading `now`: flush elapsed time
    /// and become closed, leaving both counts alone.  A record that is
    /// already closed is left untouched.
    pub open spec fn spec_close(self, now: u64) -> Timing {
        if self.state is Closed {
            self
        } else {
            Timing { state: State::Closed, ..self.spec_flush(now) }
        }
    }

    /// Create a timing record whose clock starts at `now`.
    pub fn new_at(now: u64) -> (t: Timing)
        ensures
            t == Timing::spec_new(now),
            t.inv(),
    {
        Timing {
            state: State::Idle,
            idle: 0,
            busy: 0,
            last: now,
            enter_count: 0,
            exit_count: 0,
        }
    }

    /// Create a timing record starting at the current monotonic clock
    /// reading.
    pub fn new() -> (t: Timing)
        ensures
            t.state == State::Idle,
            t.idle == 0,
            t.busy == 0,
            t.enter_count == 0,
            t.exit_count == 0,
            t == Timing::spec_new(t.last),
            t.inv(),
    {
        let now = mono_now_ns();
        Timing::new_at(now)
    }

    /// Flush elapsed time into the duration the current state selects.
    fn record_at(&mut self, now: u64)
        requires
            old(self).inv(),
        ensures
            *final(self) == old(self).spec_flush(now),
            final(self).inv(),
    {
        if now >= self.last {
            let elapsed = now - self.last;
            match self.state {
                State::Idle => {
                    self.idle = self.idle + elapsed;
                    self.last = now;
                }
                State::Busy => {
                    self.busy = self.busy + elapsed;
                    self.last = now;
                }
                State::Closed => {}
            }
        }
    }

    /// Record that the span became active at clock reading `now`.
    pub fn enter_at(&mut self, now: u64)
        requires
            old(self).inv(),
        ensures
            *final(self) == old(self).spec_enter(now),
            final(self).inv(),
    {
        match self.state {
            State::Closed => {}
            _ => {
                self.record_at(now);
                self.enter_count = if self.enter_count < u64::MAX {
                    self.enter_count + 1
                } else {
                    self.enter_count
                };
                self.state = State::Busy;
            }
        }
    }

    /// Record that the span became active, at the current monotonic
    /// clock reading.
    pub fn enter(&mut self)
        requires
            old(self).inv(),
        ensures
            *final(self) == old(self).spec_enter(final(self).last),
            final(self).inv(),
    {
        let now = mono_now_ns();
        self.enter_at(now);
    }

    /// Record that the span became idle at clock reading `now`.
    pub fn exit_at(&mut self, now: u64)
        requires
            old(self).inv(),
        ensures
            *final(self) == old(self).spec_exit(now),
            final(self).inv(),
    {
        match self.state {
            State::Closed => {}
            _ => {
                self.record_at(now);
                self.exit_count = if self.exit_count < u64::MAX {
                    self.exit_count + 1
                } else {
                    self.exit_count
                };
                self.state = State::Idle;
            }
        }
    }

    /// Record that the span became idle, at the current monotonic clock
    /// reading.
    pub fn exit(&mut self)
        requires
            old(self).inv(),
        ensures
            *final(self) == old(self).spec_exit(final(self).last),
            final(self).inv(),
    {
        let now = mono_now_ns();
        self.exit_at(now);
    }

    /// Record that the span was closed at clock reading `now`.  After
    /// this, no call changes the record any more.
    pub fn close_at(&mut self, now: u64)
        requires
            old(self).inv(),
        ensures
            *final(self) == old(self).spec_close(now),
            final(self).inv(),
    {
        match self.state {
            State::Closed => {}
            _ => {
                self.record_at(now);
                self.state = State::Closed;
            }
        }
    }

    /// Record that the span was closed, at the current monotonic clock
    /// reading.
    pub fn close(&mut self)
        requires
            old(self).inv(),
        ensures
            *final(self) == old(self).spec_close(final(self).last),
            final(self).inv(),
    {
        let now = mono_now_ns();
        self.close_at(now);
    }

    /// Whether the well-formedness invariant holds; true for every value
    /// built by this crate's constructors and operations.
    pub fn well_formed(&self) -> (b: bool)
        ensures
            b == self.inv(),
    {
        self.busy <= u64::MAX - self.idle && self.idle + self.busy <= self.last
    }

    /// Get the current state of the span.
    pub fn state(&self) -> (s: State)
        ensures
            s == self.state,
    {
        self.state
    }

    /// Get the idle time spent in this span, in nanoseconds.
    pub fn idle_duration(&self) -> (d: u64)
        ensures
            d == self.idle,
    {
        self.idle
    }

    /// Get the busy time spent in this span, in nanoseconds.
    pub fn busy_duration(&self) -> (d: u64)
        ensures
            d == self.busy,
    {
        self.busy
    }

    /// Get the total time spent in this span, in nanoseconds: the idle
    /// and the busy time together.
    pub fn total_duration(&self) -> (d: u64)
        requires
            self.inv(),
        ensures
            d == self.idle + self.busy,
    {
        self.idle + self.busy
    }

    /// Get the number of times this span has been entered.
    pub fn enter_count(&self) -> (c: u64)
        ensures
            c == self.enter_count,
    {
        self.enter_count
    }

    /// Get the number of times this span has been exited.
    ///
    /// Note that close does not count as an exit even though it will
    /// update the timing data.
    pub fn exit_count(&self) -> (c: u64)
        ensures
            c == self.exit_count,
    {
        self.exit_count
    }
}

impl Default for Timing {
    /// A fresh timing record starting at the current monotonic clock
    /// reading.
    fn default() -> (t: Timing)
        ensures
            t.state == State::Idle,
            t.idle == 0,
            t.busy == 0,
            t.enter_count == 0,
            t.exit_count == 0,
            t.inv(),
    {
        Timing::new()
    }
}

/// One call of the timing state machine, with the clock reading it saw.
pub enum TimingOp {
    Enter { now: u64 },
    Exit { now: u64 },
    Close { now: u64 },
}

/// The timing record after one call.
pub open spec fn apply_op(t: Timing, op: TimingOp) -> Timing {
    match op {
        TimingOp::Enter { now } => t.spec_enter(now),
        TimingOp::Exit { now } => t.spec_exit(now),
        TimingOp::Close { now } => t.spec_close(now),
    }
}

/// The timing record after a sequence of calls, first call first.
pub open spec fn apply_ops(t: Timing, ops: Seq<TimingOp>) -> Timing
    decreases ops.len(),
{
    if ops.len() == 0 {
        t
    } else {
        apply_ops(apply_op(t, ops[0]), ops.drop_first())
    }
}

/// How many of the calls are enters made before the first close.
pub open spec fn enters_before_close(ops: Seq<TimingOp>) -> nat
    decreases ops.len(),
{
    if ops.len() == 0 {
        0
    } else {
        match ops[0] {
            TimingOp::Enter { .. } => 1 + enters_before_close(ops.drop_first()),
            TimingOp::Exit { .. } => enters_before_close(ops.drop_first()),
            TimingOp::Close { .. } => 0,
        }
    }
}

/// How many of the calls are exits made before the first close.
pub open spec fn exits_before_close(ops: Seq<TimingOp>) -> nat
    decreases ops.len(),
{
    if ops.len() == 0 {
        0
    } else {
        match ops[0] {
            TimingOp::Enter { .. } => exits_before_close(ops.drop_first()),
            TimingOp::Exit { .. } => 1 + exits_before_close(ops.drop_first()),
            TimingOp::Close { .. } => 0,
        }
    }
}

/// One call keeps the record well formed.
pub proof fn lemma_op_preserves_inv(t: Timing, op: TimingOp)
    requires
        t.inv(),
    ensures
        apply_op(t, op).inv(),
{
}

/// After any sequence of enter, exit and close calls, a well-formed
/// record stays well formed: its idle and busy durations never exceed
/// the last clock reading, so `idle_duration + busy_duration ==
/// total_duration` holds (and is computable without overflow) after
/// every call.
pub proof fn lemma_total_duration_invariant(t: Timing, ops: Seq<TimingOp>)
    requires
        t.inv(),
    ensures
        apply_ops(t, ops).inv(),
        apply_ops(t, ops).idle + apply_ops(t, ops).busy <= u64::MAX,
    decreases ops.len(),
{
    if ops.len() > 0 {
        lemma_op_preserves_inv(t, ops[0]);
        lemma_total_duration_invariant(apply_op(t, ops[0]), ops.drop_first());
    }
}

/// After `close`, any further sequence of enter, exit and close calls
/// leaves the record exactly as it was: durations, state and both
/// counts are frozen.
pub proof fn lemma_closed_is_frozen(t: Timing, ops: Seq<TimingOp>)
    requires
        t.state is Closed,
    ensures
        apply_ops(t, ops) == t,
    decreases ops.len(),
{
    if ops.len() > 0 {
        lemma_closed_is_frozen(t, ops.drop_first());
    }
}

/// No call on a well-formed record decreases a duration or a count:
/// idle time, busy time and both counters are monotonically
/// non-decreasing.
pub proof fn lemma_op_monotonic(t: Timing, op: TimingOp)
    requires
        t.inv(),
    ensures
        apply_op(t, op).idle >= t.idle,
        apply_op(t, op).busy >= t.busy,
        apply_op(t, op).enter_count >= t.enter_count,
        apply_op(t, op).exit_count >= t.exit_count,
{
}

/// `close` changes neither the enter count nor the exit count: a close
/// is not an exit.
pub proof fn lemma_close_does_not_count(t: Timing, now: u64)
    ensures
        t.spec_close(now).enter_count == t.enter_count,
        t.spec_close(now).exit_count == t.exit_count,
{
}

/// The enter count counts exactly the `enter` calls made before the
/// first close, and the exit count exactly the `exit` calls made before
/// the first close, as long as neither counter reaches its
/// representation limit.
pub proof fn lemma_counts_count_calls(t: Timing, ops: Seq<TimingOp>)
    requires
        !(t.state is Closed),
        t.enter_count + enters_before_close(ops) <= u64::MAX,
        t.exit_count + exits_before_close(ops) <= u64::MAX,
    ensures
        apply_ops(t, ops).enter_count == t.enter_count + enters_before_close(ops),
        apply_ops(t, ops).exit_count == t.exit_count + exits_before_close(ops),
    decreases ops.len(),
{
    if ops.len() > 0 {
        let t1 = apply_op(t, ops[0]);
        match ops[0] {
            TimingOp::Close { .. } => {
                lemma_closed_is_frozen(t1, ops.drop_first());
            }
            _ => {
                lemma_counts_count_calls(t1, ops.drop_first());
            }
        }
    }
}

/// Relies on quanta's `Clock`: `raw` reads the fastest available time
/// source and `delta_as_nanos(0, raw)` scales that reading to
/// nanoseconds of reference (monotonic) time.
#[verifier::external_body]
pub(crate) fn mono_now_ns() -> u64 {
    let clock = quanta::Clock::new();
    let raw = clock.raw();
    clock.delta_as_nanos(0, raw)
}

} // verus!
