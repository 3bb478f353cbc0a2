//! The decisions of a capture session, one event at a time.
//!
//! The caller owns the capturer, the encoder, the container and the clock.
//! It hands each outcome to [`Session::step`] as an [`Event`] and performs the
//! [`Action`] that comes back. Every path that stops capturing (duration
//! limit, lost capture, encoder failure, cancellation) goes through
//! `Action::Drain`, and the drain ends with the single `Action::Finalize`.
use vstd::prelude::*;

verus! {

pub const NANOS_PER_SEC: u64 = 1_000_000_000;

pub const NANOS_PER_MILLI: u64 = 1_000_000;

/// Session settings, fixed when the session starts.
#[derive(Clone, Copy, Debug)]
pub struct Config {
    /// Time between the starts of two iterations.
    pub frame_interval_ns: u64,
    /// Recording stops once more than this many seconds have elapsed.
    pub duration_limit_s: Option<u64>,
    /// Target video bitrate, in kilobits per second.
    pub bitrate_kbps: u32,
}

#[derive(PartialEq, Eq, Structural, Clone, Copy, Debug)]
pub enum Phase {
    /// Between iterations: waiting for the clock.
    Idle,
    /// The capturer has been asked for a frame.
    Polling,
    /// A frame is with the encoder; its packets are coming back.
    Encoding,
    /// The iteration's work is done; cancellation and pacing are next.
    Ending,
    /// Capturing has stopped; the encoder's remaining packets are coming back.
    Draining,
    /// The container has been told to finalize. Nothing else happens.
    Closed,
}

#[derive(PartialEq, Eq, Structural, Clone, Copy, Debug)]
pub enum Event {
    /// An iteration starts, this long after the session started.
    Tick { elapsed_ns: u64 },
    /// The capturer had a frame.
    Ready,
    /// The capturer had no new frame yet.
    Pending,
    /// The capturer failed for good.
    Fatal,
    /// The encoder handed out a packet with this timestamp, in milliseconds.
    Packet { pts: i64 },
    /// The encoder has handed out every packet it had for the last frame.
    Encoded,
    /// The encoder failed.
    EncoderFailed,
    /// The iteration took `work_ns`; `cancelled` tells whether a stop was asked.
    IterationEnd { cancelled: bool, work_ns: u64 },
    /// The encoder has been drained of every packet.
    Drained,
}

#[derive(PartialEq, Eq, Structural, Clone, Copy, Debug)]
pub enum Action {
    /// Ask the capturer for a frame.
    Poll,
    /// Convert the frame and encode it with this timestamp.
    Encode { timestamp_ms: u64 },
    /// Write the packet to the track with this timestamp.
    Mux { timestamp_ns: u64 },
    /// Measure the iteration and check for cancellation.
    EndIteration,
    /// Sleep this long, then start the next iteration.
    Sleep { ns: u64 },
    /// Stop capturing; drain the encoder.
    Drain,
    /// Finalize the container.
    Finalize,
    /// The event does not belong to the current phase; nothing to do.
    Ignore,
}

/// What a session is, as a value.
pub ghost struct SessionState {
    pub config: Config,
    pub phase: Phase,
    /// The elapsed time at the start of the current iteration.
    pub elapsed_ns: u64,
    /// The timestamp of the last packet sent to the container.
    pub last_mux_ns: u64,
}

pub struct Session {
    config: Config,
    phase: Phase,
    elapsed_ns: u64,
    last_mux_ns: u64,
}

impl View for Session {
    type V = SessionState;

    closed spec fn view(&self) -> SessionState {
        SessionState {
            config: self.config,
            phase: self.phase,
            elapsed_ns: self.elapsed_ns,
            last_mux_ns: self.last_mux_ns,
        }
    }
}

/// `1 / fps` seconds, in nanoseconds, rounded down.
pub open spec fn interval_of(fps: u64) -> u64
    recommends
        fps > 0,
{
    (NANOS_PER_SEC / fps) as u64
}

/// Whether `elapsed_ns` is past the duration limit, if there is one.
pub open spec fn limit_passed(limit_s: Option<u64>, elapsed_ns: u64) -> bool {
    match limit_s {
        Some(s) => elapsed_ns > s * NANOS_PER_SEC,
        None => false,
    }
}

/// What is left of the interval after `work_ns`; zero once it has run over.
pub open spec fn sleep_for(interval_ns: u64, work_ns: u64) -> u64 {
    if work_ns < interval_ns {
        (interval_ns - work_ns) as u64
    } else {
        0
    }
}

/// An encoder timestamp in milliseconds as nanoseconds; a negative one counts as zero.
pub open spec fn pts_ns(pts: i64) -> int {
    if pts <= 0 {
        0
    } else {
        pts * NANOS_PER_MILLI
    }
}

/// The container timestamp of a packet: the rescaled timestamp, kept from
/// going below the previous packet's and capped at the largest `u64`.
pub open spec fn mux_time(last_ns: u64, pts: i64) -> u64 {
    let t = pts_ns(pts);
    if t <= last_ns {
        last_ns
    } else if t > u64::MAX {
        u64::MAX
    } else {
        t as u64
    }
}

pub open spec fn start(config: Config) -> SessionState {
    SessionState { config, phase: Phase::Idle, elapsed_ns: 0, last_mux_ns: 0 }
}

/// One step of a session: the next state and what to do.
pub open spec fn next(s: SessionState, e: Event) -> (SessionState, Action) {
    let ignore = (s, Action::Ignore);
    match s.phase {
        Phase::Idle => match e {
            Event::Tick { elapsed_ns } => if limit_passed(s.config.duration_limit_s, elapsed_ns) {
                (SessionState { phase: Phase::Draining, elapsed_ns, ..s }, Action::Drain)
            } else {
                (SessionState { phase: Phase::Polling, elapsed_ns, ..s }, Action::Poll)
            },
            _ => ignore,
        },
        Phase::Polling => match e {
            Event::Ready => (
                SessionState { phase: Phase::Encoding, ..s },
                Action::Encode { timestamp_ms: (s.elapsed_ns / NANOS_PER_MILLI) as u64 },
            ),
            Event::Pending => (SessionState { phase: Phase::Ending, ..s }, Action::EndIteration),
            Event::Fatal => (SessionState { phase: Phase::Draining, ..s }, Action::Drain),
            _ => ignore,
        },
        Phase::Encoding => match e {
            Event::Packet { pts } => (
                SessionState { last_mux_ns: mux_time(s.last_mux_ns, pts), ..s },
                Action::Mux { timestamp_ns: mux_time(s.last_mux_ns, pts) },
            ),
            Event::Encoded => (SessionState { phase: Phase::Ending, ..s }, Action::EndIteration),
            Event::EncoderFailed => (SessionState { phase: Phase::Draining, ..s }, Action::Drain),
            _ => ignore,
        },
        Phase::Ending => match e {
            Event::IterationEnd { cancelled, work_ns } => if cancelled {
                (SessionState { phase: Phase::Draining, ..s }, Action::Drain)
            } else {
                (
                    SessionState { phase: Phase::Idle, ..s },
                    Action::Sleep { ns: sleep_for(s.config.frame_interval_ns, work_ns) },
                )
            },
            _ => ignore,
        },
        Phase::Draining => match e {
            Event::Packet { pts } => (
                SessionState { last_mux_ns: mux_time(s.last_mux_ns, pts), ..s },
                Action::Mux { timestamp_ns: mux_time(s.last_mux_ns, pts) },
            ),
            Event::Drained => (SessionState { phase: Phase::Closed, ..s }, Action::Finalize),
            Event::EncoderFailed => (SessionState { phase: Phase::Closed, ..s }, Action::Finalize),
            _ => ignore,
        },
        Phase::Closed => ignore,
    }
}

/// The nanoseconds between frames at `fps` frames per second.
pub fn frame_interval_ns(fps: u64) -> (r: u64)
    requires
        fps > 0,
    ensures
        r == interval_of(fps),
{
    NANOS_PER_SEC / fps
}

/// Whether the session has run past its duration limit.
pub fn duration_passed(limit_s: Option<u64>, elapsed_ns: u64) -> (r: bool)
    ensures
        r == limit_passed(limit_s, elapsed_ns),
{
    match limit_s {
        Some(s) => (elapsed_ns as u128) > (s as u128) * (NANOS_PER_SEC as u128),
        None => false,
    }
}

/// How long to sleep after an iteration that took `work_ns`.
pub fn sleep_ns(interval_ns: u64, work_ns: u64) -> (r: u64)
    ensures
        r == sleep_for(interval_ns, work_ns),
        r <= interval_ns,
        work_ns < interval_ns ==> work_ns + r == interval_ns,
{
    if work_ns < interval_ns {
        interval_ns - work_ns
    } else {
        0
    }
}

/// The timestamp under which a frame captured `elapsed_ns` into the session
/// is encoded: whole milliseconds.
pub fn frame_timestamp_ms(elapsed_ns: u64) -> (r: u64)
    ensures
        r == elapsed_ns / NANOS_PER_MILLI,
{
    elapsed_ns / NANOS_PER_MILLI
}

/// The container timestamp of a packet that follows one written at `last_ns`.
pub fn mux_timestamp(last_ns: u64, pts: i64) -> (r: u64)
    ensures
        r == mux_time(last_ns, pts),
        last_ns <= r,
        0 <= pts && last_ns <= pts * NANOS_PER_MILLI <= u64::MAX ==> r == pts * NANOS_PER_MILLI,
{
    if pts <= 0 {
        last_ns
    } else {
        assert(pts * NANOS_PER_MILLI <= i64::MAX * NANOS_PER_MILLI) by (nonlinear_arith)
            requires 0 < pts <= i64::MAX;
        let t: u128 = (pts as u128) * (NANOS_PER_MILLI as u128);
        if t <= last_ns as u128 {
            last_ns
        } else if t > u64::MAX as u128 {
            u64::MAX
        } else {
            t as u64
        }
    }
}

impl Config {
    /// Settings for `fps` frames per second; `None` when `fps` is zero.
    pub fn new(fps: u64, duration_limit_s: Option<u64>, bitrate_kbps: u32) -> (r: Option<Config>)
        ensures
            fps == 0 <==> r.is_none(),
            r matches Some(c) ==> c.frame_interval_ns == interval_of(fps)
                && c.duration_limit_s == duration_limit_s && c.bitrate_kbps == bitrate_kbps,
    {
        if fps == 0 {
            None
        } else {
            Some(Config { frame_interval_ns: frame_interval_ns(fps), duration_limit_s, bitrate_kbps })
        }
    }
}

impl Session {
    /// A session about to start its first iteration.
    pub fn new(config: Config) -> (s: Session)
        ensures
            s@ == start(config),
    {
        Session { config, phase: Phase::Idle, elapsed_ns: 0, last_mux_ns: 0 }
    }

    pub fn phase(&self) -> (p: Phase)
        ensures
            p == self@.phase,
    {
        self.phase
    }

    pub fn config(&self) -> (c: Config)
        ensures
            c == self@.config,
    {
        self.config
    }

    /// Takes in what happened and says what to do next.
    pub fn step(&mut self, event: Event) -> (a: Action)
        ensures
            (final(self)@, a) == next(old(self)@, event),
    {
        match self.phase {
            Phase::Idle => match event {
                Event::Tick { elapsed_ns } => {
                    self.elapsed_ns = elapsed_ns;
                    if duration_passed(self.config.duration_limit_s, elapsed_ns) {
                        self.phase = Phase::Draining;
                        Action::Drain
                    } else {
                        self.phase = Phase::Polling;
                        Action::Poll
                    }
                },
                _ => Action::Ignore,
            },
            Phase::Polling => match event {
                Event::Ready => {
                    self.phase = Phase::Encoding;
                    Action::Encode { timestamp_ms: frame_timestamp_ms(self.elapsed_ns) }
                },
                Event::Pending => {
                    self.phase = Phase::Ending;
                    Action::EndIteration
                },
                Event::Fatal => {
                    self.phase = Phase::Draining;
                    Action::Drain
                },
                _ => Action::Ignore,
            },
            Phase::Encoding => match event {
                Event::Packet { pts } => self.mux(pts),
                Event::Encoded => {
                    self.phase = Phase::Ending;
                    Action::EndIteration
                },
                Event::EncoderFailed => {
                    self.phase = Phase::Draining;
                    Action::Drain
                },
                _ => Action::Ignore,
            },
            Phase::Ending => match event {
                Event::IterationEnd { cancelled, work_ns } => {
                    if cancelled {
                        self.phase = Phase::Draining;
                        Action::Drain
                    } else {
                        self.phase = Phase::Idle;
                        Action::Sleep { ns: sleep_ns(self.config.frame_interval_ns, work_ns) }
                    }
                },
                _ => Action::Ignore,
            },
            Phase::Draining => match event {
                Event::Packet { pts } => self.mux(pts),
                Event::Drained | Event::EncoderFailed => {
                    self.phase = Phase::Closed;
                    Action::Finalize
                },
                _ => Action::Ignore,
            },
            Phase::Closed => Action::Ignore,
        }
    }

    fn mux(&mut self, pts: i64) -> (a: Action)
        ensures
            final(self)@ == (SessionState { last_mux_ns: mux_time(old(self)@.last_mux_ns, pts), ..old(self)@ }),
            a == (Action::Mux { timestamp_ns: mux_time(old(self)@.last_mux_ns, pts) }),
    {
        let t = mux_timestamp(self.last_mux_ns, pts);
        self.last_mux_ns = t;
        Action::Mux { timestamp_ns: t }
    }
}

/// The state reached and the actions taken when `events` come in, in order, from `s`.
pub open spec fn run(s: SessionState, events: Seq<Event>) -> (SessionState, Seq<Action>)
    decreases events.len(),
{
    if events.len() == 0 {
        (s, Seq::empty())
    } else {
        let (mid, acts) = run(s, events.drop_last());
        let (end, a) = next(mid, events.last());
        (end, acts.push(a))
    }
}

pub open spec fn is_mux(a: Action) -> bool {
    a matches Action::Mux { .. }
}

pub open spec fn mux_ns(a: Action) -> u64 {
    match a {
        Action::Mux { timestamp_ns } => timestamp_ns,
        _ => 0,
    }
}

pub open spec fn is_encode(a: Action) -> bool {
    a matches Action::Encode { .. }
}

pub open spec fn finalize_count(acts: Seq<Action>) -> nat
    decreases acts.len(),
{
    if acts.len() == 0 {
        0
    } else {
        finalize_count(acts.drop_last()) + if acts.last() == Action::Finalize {
            1nat
        } else {
            0
        }
    }
}

/// One action per event, each decided by the state that the earlier events left.
pub proof fn lemma_run_pointwise(s: SessionState, events: Seq<Event>, i: int)
    requires
        0 <= i < events.len(),
    ensures
        run(s, events).1.len() == events.len(),
        run(s, events).1[i] == next(run(s, events.take(i)).0, events[i]).1,
    decreases events.len(),
{
    lemma_run_len(s, events);
    if i < events.len() - 1 {
        lemma_run_pointwise(s, events.drop_last(), i);
        assert(events.drop_last().take(i) =~= events.take(i));
    } else {
        assert(events.drop_last() =~= events.take(i));
    }
}

proof fn lemma_run_len(s: SessionState, events: Seq<Event>)
    ensures
        run(s, events).1.len() == events.len(),
    decreases events.len(),
{
    if events.len() > 0 {
        lemma_run_len(s, events.drop_last());
    }
}

proof fn lemma_mux_bounded(s: SessionState, events: Seq<Event>)
    ensures
        s.last_mux_ns <= run(s, events).0.last_mux_ns,
        forall|i: int|
            0 <= i < run(s, events).1.len() && is_mux(#[trigger] run(s, events).1[i]) ==> mux_ns(
                run(s, events).1[i],
            ) <= run(s, events).0.last_mux_ns,
        forall|i: int, j: int|
            0 <= i < j < run(s, events).1.len() && is_mux(#[trigger] run(s, events).1[i]) && is_mux(
                #[trigger] run(s, events).1[j],
            ) ==> mux_ns(run(s, events).1[i]) <= mux_ns(run(s, events).1[j]),
    decreases events.len(),
{
    if events.len() > 0 {
        lemma_mux_bounded(s, events.drop_last());
    }
}

/// Packets reach the container in non-decreasing timestamp order, over the
/// whole session, the packets of the drain included.
pub proof fn lemma_mux_order(config: Config, events: Seq<Event>)
    ensures
        forall|i: int, j: int|
            0 <= i < j < run(start(config), events).1.len() && is_mux(
                #[trigger] run(start(config), events).1[i],
            ) && is_mux(#[trigger] run(start(config), events).1[j]) ==> mux_ns(
                run(start(config), events).1[i],
            ) <= mux_ns(run(start(config), events).1[j]),
{
    lemma_mux_bounded(start(config), events);
}

proof fn lemma_finalize_tracks_closed(s: SessionState, events: Seq<Event>)
    requires
        s.phase != Phase::Closed,
    ensures
        finalize_count(run(s, events).1) == if run(s, events).0.phase == Phase::Closed {
            1nat
        } else {
            0
        },
    decreases events.len(),
{
    if events.len() > 0 {
        lemma_finalize_tracks_closed(s, events.drop_last());
        let acts = run(s, events).1;
        assert(acts.drop_last() =~= run(s, events.drop_last()).1);
    }
}

/// The container is told to finalize at most once in a session, and it has
/// been told exactly when the session is closed.
pub proof fn lemma_finalize_once(config: Config, events: Seq<Event>)
    ensures
        finalize_count(run(start(config), events).1) == if run(start(config), events).0.phase
            == Phase::Closed {
            1nat
        } else {
            0
        },
{
    lemma_finalize_tracks_closed(start(config), events);
}

proof fn lemma_stopped_stays_stopped(config: Config, events: Seq<Event>)
    requires
        exists|i: int| 0 <= i < run(start(config), events).1.len() && run(start(config), events).1[i]
            == Action::Drain,
    ensures
        run(start(config), events).0.phase == Phase::Draining || run(start(config), events).0.phase
            == Phase::Closed,
    decreases events.len(),
{
    let acts = run(start(config), events).1;
    let i = choose|i: int| 0 <= i < acts.len() && acts[i] == Action::Drain;
    lemma_run_len(start(config), events);
    let prev = run(start(config), events.drop_last()).1;
    lemma_run_len(start(config), events.drop_last());
    if i < prev.len() {
        assert(prev[i] == acts[i]);
        lemma_stopped_stays_stopped(config, events.drop_last());
    }
}

/// Whatever stopped the capture (the duration limit, a lost capturer, an
/// encoder failure or cancellation), once the drain ends the container has
/// been told to finalize exactly once.
pub proof fn lemma_stop_then_finalize(config: Config, events: Seq<Event>)
    requires
        exists|i: int| 0 <= i < run(start(config), events).1.len() && run(start(config), events).1[i]
            == Action::Drain,
    ensures
        finalize_count(run(start(config), events.push(Event::Drained)).1) == 1,
{
    lemma_stopped_stays_stopped(config, events);
    assert(events.push(Event::Drained).drop_last() =~= events);
    lemma_finalize_once(config, events.push(Event::Drained));
}

/// A frame is encoded exactly when the capturer answers a poll with one; an
/// answer of no frame is never encoded.
pub proof fn lemma_encode_per_ready(config: Config, events: Seq<Event>)
    ensures
        run(start(config), events).1.len() == events.len(),
        forall|i: int|
            0 <= i < events.len() ==> (is_encode(#[trigger] run(start(config), events).1[i]) <==> (
            events[i] == Event::Ready && run(start(config), events.take(i)).0.phase
                == Phase::Polling)),
        forall|i: int|
            0 <= i < events.len() && events[i] == Event::Pending ==> !is_encode(
                #[trigger] run(start(config), events).1[i],
            ),
{
    lemma_run_len(start(config), events);
    assert forall|i: int| 0 <= i < events.len() implies (is_encode(
        #[trigger] run(start(config), events).1[i],
    ) <==> (events[i] == Event::Ready && run(start(config), events.take(i)).0.phase
        == Phase::Polling)) by {
        lemma_run_pointwise(start(config), events, i);
    }
}

/// How long an iteration that worked `work_ns` lasts, its sleep included.
pub open spec fn iteration_ns(interval_ns: u64, work_ns: u64) -> int {
    work_ns + sleep_for(interval_ns, work_ns)
}

/// How long iterations that worked `works` last in all.
pub open spec fn paced_ns(interval_ns: u64, works: Seq<u64>) -> int
    decreases works.len(),
{
    if works.len() == 0 {
        0
    } else {
        paced_ns(interval_ns, works.drop_last()) + iteration_ns(interval_ns, works.last())
    }
}

/// By how much iterations that worked `works` ran over the interval, in all.
pub open spec fn overrun_ns(interval_ns: u64, works: Seq<u64>) -> int
    decreases works.len(),
{
    if works.len() == 0 {
        0
    } else {
        overrun_ns(interval_ns, works.drop_last()) + if works.last() > interval_ns {
            works.last() - interval_ns
        } else {
            0
        }
    }
}

/// Pacing: each iteration lasts the interval, or its work where the work ran
/// over; the sleep is never negative and an overrun is never made up. So `n`
/// iterations last `n` intervals plus what they ran over, and exactly `n`
/// intervals when each fits in the interval.
pub proof fn lemma_pacing(interval_ns: u64, works: Seq<u64>)
    ensures
        paced_ns(interval_ns, works) == works.len() * interval_ns + overrun_ns(interval_ns, works),
        (forall|i: int| 0 <= i < works.len() ==> works[i] <= interval_ns) ==> paced_ns(
            interval_ns,
            works,
        ) == works.len() * interval_ns,
    decreases works.len(),
{
    if works.len() > 0 {
        lemma_pacing(interval_ns, works.drop_last());
        assert(works.len() * interval_ns == (works.len() - 1) * interval_ns + interval_ns)
            by (nonlinear_arith);
        if forall|i: int| 0 <= i < works.len() ==> works[i] <= interval_ns {
            assert(forall|i: int|
                0 <= i < works.drop_last().len() ==> works.drop_last()[i] == works[i]);
        }
    }
}

} // verus!
