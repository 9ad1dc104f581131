//! The reconnect-and-stream loop as a pure state machine.
//!
//! The caller performs each [`Action`] and reports what came of it as an
//! [`Event`]; [`Session::step`] decides what to do next.
use vstd::prelude::*;

verus! {

/// Read timeout of an open port, in milliseconds.
pub const READ_TIMEOUT_MS: u64 = 10;

/// Wait between two attempts to open the port in follow mode, in milliseconds.
pub const RETRY_WAIT_MS: u64 = 1000;

/// Size of the scratch buffer that one read fills at most.
pub const READ_BUFFER_LEN: usize = 1000;

/// Exit status of the process after an unrecoverable failure.
pub const FAILURE_EXIT_CODE: i32 = 1;

#[derive(Clone, Copy, Debug, PartialEq, Eq, Structural)]
pub enum Phase {
    /// About to open the port.
    Connecting,
    /// The port is open and being read.
    Streaming,
    /// Follow mode: waiting before the port is opened again.
    Waiting,
    /// The process is to end with a failure.
    Terminated,
}

#[derive(Clone, Copy, Debug, PartialEq, Eq, Structural)]
pub enum Failure {
    /// The port could not be opened.
    Open,
    /// Reading the open port failed with an error other than a timeout.
    Read,
}

/// What came of the last action.
#[derive(Debug)]
pub enum Event {
    /// The port was opened.
    Opened,
    /// The port could not be opened.
    OpenFailed,
    /// A read returned these bytes (possibly none).
    Data(Vec<u8>),
    /// A read timed out.
    TimedOut,
    /// A read failed with an error other than a timeout.
    ReadFailed,
    /// The wait before the next attempt is over.
    Waited,
}

/// What the caller is to do next.
#[derive(Debug)]
pub enum Action {
    /// Open the port with the configured baud rate and [`READ_TIMEOUT_MS`].
    Open,
    /// Announce the connection, start forwarding keyboard input on a second
    /// handle of the port, then read.
    BeginSession,
    /// Write the bytes to standard output (and, where `log` holds, append them
    /// to the log file and flush it), then read.
    Emit { bytes: Vec<u8>, log: bool },
    /// Read again.
    Read,
    /// Print one progress marker, wait [`RETRY_WAIT_MS`], then report `Waited`.
    Pause,
    /// Report the failure and end the process with `code`.
    Exit { failure: Failure, code: i32 },
}

/// The state of the reconnect loop.
#[derive(Debug)]
pub struct Session {
    /// Retry forever instead of ending the process on a failure.
    pub follow: bool,
    /// A log file is open and receives every byte read from the device.
    pub logging: bool,
    pub phase: Phase,
    /// The failure that ended the loop, once `phase` is `Terminated`.
    pub failure: Option<Failure>,
}

impl Session {
    /// Well formed: a failure is recorded exactly when the loop has ended.
    pub open spec fn wf(&self) -> bool {
        (self.phase == Phase::Terminated) == self.failure.is_some()
    }

    /// The phase that follows `phase` on event `e`.
    pub open spec fn next_phase(follow: bool, phase: Phase, e: Event) -> Phase {
        match (phase, e) {
            (Phase::Connecting, Event::Opened) => Phase::Streaming,
            (Phase::Connecting, Event::OpenFailed) => if follow {
                Phase::Waiting
            } else {
                Phase::Terminated
            },
            (Phase::Streaming, Event::Data(_)) => Phase::Streaming,
            (Phase::Streaming, Event::TimedOut) => Phase::Streaming,
            (Phase::Streaming, Event::ReadFailed) => if follow {
                Phase::Waiting
            } else {
                Phase::Terminated
            },
            (Phase::Waiting, Event::Waited) => Phase::Connecting,
            // An event that does not belong to the phase changes nothing.
            _ => phase,
        }
    }

    /// The failure recorded after `e` in `phase`, given the one before.
    pub open spec fn next_failure(
        follow: bool,
        phase: Phase,
        failure: Option<Failure>,
        e: Event,
    ) -> Option<Failure> {
        match (phase, e) {
            (Phase::Connecting, Event::OpenFailed) => if follow {
                None
            } else {
                Some(Failure::Open)
            },
            (Phase::Streaming, Event::ReadFailed) => if follow {
                None
            } else {
                Some(Failure::Read)
            },
            _ => failure,
        }
    }

    /// The action that the state machine asks for in `phase`, reached by `e`
    /// from `prev`; `logging` says whether device bytes also go to the log.
    pub open spec fn action_for(
        logging: bool,
        prev: Phase,
        e: Event,
        phase: Phase,
        failure: Option<Failure>,
        a: Action,
    ) -> bool {
        match phase {
            Phase::Connecting => a is Open,
            Phase::Streaming => match (prev, e) {
                (Phase::Connecting, Event::Opened) => a is BeginSession,
                (Phase::Streaming, Event::Data(b)) => a matches Action::Emit { bytes, log }
                    && bytes@ == b@ && log == logging,
                _ => a is Read,
            },
            Phase::Waiting => a is Pause,
            Phase::Terminated => a matches Action::Exit { failure: f, code }
                && Some(f) == failure && code == FAILURE_EXIT_CODE,
        }
    }

    /// A loop that is about to open the port for the first time.
    pub fn new(follow: bool, logging: bool) -> (r: Session)
        ensures
            r.wf(),
            r.follow == follow,
            r.logging == logging,
            r.phase == Phase::Connecting,
    {
        Session { follow, logging, phase: Phase::Connecting, failure: None }
    }

    /// The first action of a new loop: open the port.
    pub fn start(&self) -> (a: Action)
        requires
            self.phase == Phase::Connecting,
        ensures
            a is Open,
    {
        Action::Open
    }

    /// Takes the outcome of the last action and says what to do next.
    pub fn step(&mut self, e: Event) -> (a: Action)
        requires
            old(self).wf(),
        ensures
            final(self).wf(),
            final(self).follow == old(self).follow,
            final(self).logging == old(self).logging,
            final(self).phase == Self::next_phase(old(self).follow, old(self).phase, e),
            final(self).failure == Self::next_failure(
                old(self).follow,
                old(self).phase,
                old(self).failure,
                e,
            ),
            Self::action_for(
                old(self).logging,
                old(self).phase,
                e,
                final(self).phase,
                final(self).failure,
                a,
            ),
    {
        match (self.phase, e) {
            (Phase::Connecting, Event::Opened) => {
                self.phase = Phase::Streaming;
                Action::BeginSession
            },
            (Phase::Connecting, Event::OpenFailed) => self.fail(Failure::Open),
            (Phase::Streaming, Event::Data(bytes)) => Action::Emit { bytes, log: self.logging },
            (Phase::Streaming, Event::TimedOut) => Action::Read,
            (Phase::Streaming, Event::ReadFailed) => self.fail(Failure::Read),
            (Phase::Waiting, Event::Waited) => {
                self.phase = Phase::Connecting;
                Action::Open
            },
            _ => self.repeat(),
        }
    }

    /// An open or a read failed: wait and retry in follow mode, else end.
    fn fail(&mut self, failure: Failure) -> (a: Action)
        ensures
            final(self).follow == old(self).follow,
            final(self).logging == old(self).logging,
            old(self).follow ==> final(self).phase == Phase::Waiting
                && final(self).failure is None && a is Pause,
            !old(self).follow ==> final(self).phase == Phase::Terminated
                && final(self).failure == Some(failure)
                && a == (Action::Exit { failure, code: FAILURE_EXIT_CODE }),
    {
        if self.follow {
            self.phase = Phase::Waiting;
            self.failure = None;
            Action::Pause
        } else {
            self.phase = Phase::Terminated;
            self.failure = Some(failure);
            Action::Exit { failure, code: FAILURE_EXIT_CODE }
        }
    }

    /// The action that the current phase asks for, for an event that does not
    /// belong to it.
    fn repeat(&self) -> (a: Action)
        requires
            self.wf(),
        ensures
            Self::action_for(self.logging, Phase::Terminated, Event::Waited, self.phase, self.failure, a),
    {
        match self.phase {
            Phase::Connecting => Action::Open,
            Phase::Streaming => Action::Read,
            Phase::Waiting => Action::Pause,
            Phase::Terminated => {
                let failure = match self.failure {
                    Some(f) => f,
                    None => Failure::Read,
                };
                Action::Exit { failure, code: FAILURE_EXIT_CODE }
            },
        }
    }
}

/// The session after event `e`, as [`Session::step`] leaves it.
pub open spec fn after(s: Session, e: Event) -> Session {
    Session {
        follow: s.follow,
        logging: s.logging,
        phase: Session::next_phase(s.follow, s.phase, e),
        failure: Session::next_failure(s.follow, s.phase, s.failure, e),
    }
}

/// The session after the events `es`, one after the other.
pub open spec fn run(s: Session, es: Seq<Event>) -> Session
    decreases es.len(),
{
    if es.len() == 0 {
        s
    } else {
        after(run(s, es.drop_last()), es.last())
    }
}

/// The device bytes that action `a` writes to standard output.
pub open spec fn shown(a: Action) -> Seq<u8> {
    match a {
        Action::Emit { bytes, log: _ } => bytes@,
        _ => Seq::empty(),
    }
}

/// The bytes that action `a` appends to the log file.
pub open spec fn logged(a: Action) -> Seq<u8> {
    match a {
        Action::Emit { bytes, log } => if log {
            bytes@
        } else {
            Seq::empty()
        },
        _ => Seq::empty(),
    }
}

/// All device bytes that the actions `acts` write to standard output, in order.
pub open spec fn all_shown(acts: Seq<Action>) -> Seq<u8>
    decreases acts.len(),
{
    if acts.len() == 0 {
        Seq::empty()
    } else {
        all_shown(acts.drop_last()) + shown(acts.last())
    }
}

/// All bytes that the actions `acts` append to the log file, in order.
pub open spec fn all_logged(acts: Seq<Action>) -> Seq<u8>
    decreases acts.len(),
{
    if acts.len() == 0 {
        Seq::empty()
    } else {
        all_logged(acts.drop_last()) + logged(acts.last())
    }
}

/// `ss`, `es` and `acts` are a run of the loop: session `ss[i + 1]` and action
/// `acts[i]` are what [`Session::step`] gives for event `es[i]` in `ss[i]`.
pub open spec fn is_trace(ss: Seq<Session>, es: Seq<Event>, acts: Seq<Action>) -> bool {
    &&& ss.len() == es.len() + 1
    &&& acts.len() == es.len()
    &&& forall|i: int|
        0 <= i < es.len() ==> #[trigger] ss[i + 1] == after(ss[i], es[i])
            && Session::action_for(
            ss[i].logging,
            ss[i].phase,
            es[i],
            ss[i + 1].phase,
            ss[i + 1].failure,
            acts[i],
        )
}

/// Without follow mode, a port that cannot be opened ends the loop: the
/// process is to exit with status 1, reporting the failed open.
pub proof fn lemma_open_failure_ends(s: Session, a: Action)
    requires
        s.wf(),
        !s.follow,
        s.phase == Phase::Connecting,
        Session::action_for(
            s.logging,
            s.phase,
            Event::OpenFailed,
            after(s, Event::OpenFailed).phase,
            after(s, Event::OpenFailed).failure,
            a,
        ),
    ensures
        after(s, Event::OpenFailed).phase == Phase::Terminated,
        a matches Action::Exit { failure, code } && failure == Failure::Open && code == 1,
{
}

/// In follow mode no sequence of events ends the loop.
pub proof fn lemma_follow_never_ends(s: Session, es: Seq<Event>)
    requires
        s.wf(),
        s.follow,
        s.phase != Phase::Terminated,
    ensures
        run(s, es).phase != Phase::Terminated,
        run(s, es).wf(),
        run(s, es).follow,
    decreases es.len(),
{
    if es.len() > 0 {
        lemma_follow_never_ends(s, es.drop_last());
    }
}

/// In follow mode a failed open is followed by exactly one pause (one progress
/// marker and a wait), after which only the end of the wait leads to a new open.
pub proof fn lemma_follow_failed_open_pauses(s: Session, a: Action, e: Event)
    requires
        s.wf(),
        s.follow,
        s.phase == Phase::Connecting,
        Session::action_for(
            s.logging,
            s.phase,
            Event::OpenFailed,
            after(s, Event::OpenFailed).phase,
            after(s, Event::OpenFailed).failure,
            a,
        ),
    ensures
        after(s, Event::OpenFailed).phase == Phase::Waiting,
        a is Pause,
        RETRY_WAIT_MS >= 1000,
        after(after(s, Event::OpenFailed), e).phase == Phase::Connecting <==> e is Waited,
{
}

/// A read timeout is no failure: the loop stays in `Streaming`, records no
/// failure and simply reads again.
pub proof fn lemma_timeout_keeps_streaming(s: Session, a: Action)
    requires
        s.wf(),
        s.phase == Phase::Streaming,
        Session::action_for(
            s.logging,
            s.phase,
            Event::TimedOut,
            after(s, Event::TimedOut).phase,
            after(s, Event::TimedOut).failure,
            a,
        ),
    ensures
        after(s, Event::TimedOut) == s,
        a is Read,
{
}

/// With a log file open, the log receives exactly the device bytes that reach
/// standard output, in the same order, over any run of the loop.
pub proof fn lemma_log_mirrors_output(ss: Seq<Session>, es: Seq<Event>, acts: Seq<Action>)
    requires
        is_trace(ss, es, acts),
        ss[0].logging,
    ensures
        all_logged(acts) == all_shown(acts),
    decreases es.len(),
{
    if es.len() > 0 {
        let n = es.len() - 1;
        assert(is_trace(ss.drop_last(), es.drop_last(), acts.drop_last())) by {
            assert forall|i: int| 0 <= i < n implies #[trigger] ss.drop_last()[i + 1] == after(
                ss.drop_last()[i],
                es.drop_last()[i],
            ) by {
                assert(ss[i + 1] == after(ss[i], es[i]));
            }
        }
        lemma_log_mirrors_output(ss.drop_last(), es.drop_last(), acts.drop_last());
        lemma_trace_keeps_logging(ss, es, acts, n);
        assert(ss[n + 1] == after(ss[n], es[n]));
    }
}

/// Every session of a run keeps the logging choice of the first.
proof fn lemma_trace_keeps_logging(ss: Seq<Session>, es: Seq<Event>, acts: Seq<Action>, k: int)
    requires
        is_trace(ss, es, acts),
        0 <= k < ss.len(),
    ensures
        ss[k].logging == ss[0].logging,
    decreases k,
{
    if k > 0 {
        lemma_trace_keeps_logging(ss, es, acts, k - 1);
        assert(ss[(k - 1) + 1] == after(ss[k - 1], es[k - 1]));
    }
}

/// The bytes that the events `es` bring from the device while the session
/// `ss[i]` that takes each of them is streaming.
pub open spec fn all_read(ss: Seq<Session>, es: Seq<Event>) -> Seq<u8>
    decreases es.len(),
{
    if es.len() == 0 {
        Seq::empty()
    } else {
        all_read(ss, es.drop_last()) + match (ss[es.len() - 1].phase, es.last()) {
            (Phase::Streaming, Event::Data(b)) => b@,
            _ => Seq::empty(),
        }
    }
}

/// Over any run of the loop, standard output receives exactly the bytes read
/// from the device while streaming, in the order they were read.
pub proof fn lemma_output_is_device_bytes(ss: Seq<Session>, es: Seq<Event>, acts: Seq<Action>)
    requires
        is_trace(ss, es, acts),
    ensures
        all_shown(acts) == all_read(ss, es),
    decreases es.len(),
{
    if es.len() > 0 {
        let n = es.len() - 1;
        assert(is_trace(ss.drop_last(), es.drop_last(), acts.drop_last())) by {
            assert forall|i: int| 0 <= i < n implies #[trigger] ss.drop_last()[i + 1] == after(
                ss.drop_last()[i],
                es.drop_last()[i],
            ) by {
                assert(ss[i + 1] == after(ss[i], es[i]));
            }
        }
        lemma_output_is_device_bytes(ss.drop_last(), es.drop_last(), acts.drop_last());
        lemma_read_prefix(ss, es);
        assert(ss[n + 1] == after(ss[n], es[n]));
    }
}

/// `all_read` looks only at the sessions that take the events.
proof fn lemma_read_prefix(ss: Seq<Session>, es: Seq<Event>)
    requires
        es.len() > 0,
        ss.len() == es.len() + 1,
    ensures
        all_read(ss.drop_last(), es.drop_last()) == all_read(ss, es.drop_last()),
{
    lemma_read_agree(ss.drop_last(), ss, es.drop_last());
}

proof fn lemma_read_agree(a: Seq<Session>, b: Seq<Session>, es: Seq<Event>)
    requires
        a.len() >= es.len(),
        b.len() >= es.len(),
        forall|i: int| 0 <= i < es.len() ==> a[i] == b[i],
    ensures
        all_read(a, es) == all_read(b, es),
    decreases es.len(),
{
    if es.len() > 0 {
        lemma_read_agree(a, b, es.drop_last());
    }
}

} // verus!
