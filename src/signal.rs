//! Acknowledged exchange over one-way signals that may be lost.
//!
//! Each signal `member` on an object path has an implicit acknowledgement,
//! the signal `member + "_ack"` on the same path and interface. The sending
//! side emits, waits a bounded time for the acknowledgement, and emits again
//! up to a fixed number of attempts. The receiving side waits up to a
//! deadline for a correctly addressed signal and acknowledges it once.
//!
//! The machines here take what the bus delivered and the time now (in
//! milliseconds on a monotonic clock) and say what to do next; the caller
//! does the emitting and the waiting.
use crate::text::join;
use vstd::prelude::*;

verus! {

pub const DBUS_SETUPD_OBJECT: &'static str = "/com/feralfile/setupd";

pub const DBUS_CONNECTD_OBJECT: &'static str = "/com/feralfile/connectd";

pub const DBUS_SETUPD_INTERFACE: &'static str = "com.feralfile.setupd.general";

pub const DBUS_CONNECTD_INTERFACE: &'static str = "com.feralfile.connectd.general";

pub const DBUS_EVENT_WIFI_CONNECTED: &'static str = "wifi_connected";

pub const DBUS_EVENT_RELAYER_CONFIGURED: &'static str = "relayer_configured";

pub const DBUS_EVENT_QRCODE_SWITCH: &'static str = "show_pairing_qr_code";

/// How long the relay topic may take to arrive, in milliseconds.
pub const DBUS_CONNECTD_TIMEOUT_MS: u64 = 30_000;

/// How many times a signal is emitted before the sender gives up.
pub const DBUS_MAX_RETRIES: u64 = 6;

/// How long the sender waits for each acknowledgement, in milliseconds.
pub const DBUS_ACK_TIMEOUT_MS: u64 = 5_000;

/// How often a listener looks at its stop flag, in milliseconds.
pub const DBUS_LISTEN_WAKE_UP_INTERVAL_MS: u64 = 500;

/// Suffix of the member name of an acknowledgement.
pub const ACK_SUFFIX: &'static str = "_ack";

/// The member name that acknowledges `member`.
pub open spec fn ack_member_of(member: Seq<char>) -> Seq<char> {
    member + ACK_SUFFIX@
}

/// The member name that acknowledges `member`.
pub fn ack_member(member: &str) -> (r: String)
    ensures
        r@ == ack_member_of(member@),
{
    join(member, ACK_SUFFIX)
}

/// The bus match rule that selects the signals `member` on `path` and
/// `interface`.
pub open spec fn match_rule_of(interface: Seq<char>, member: Seq<char>, path: Seq<char>) -> Seq<
    char,
> {
    "type='signal',interface='"@ + interface + "',member='"@ + member + "',path='"@ + path + "'"@
}

/// The bus match rule that selects the signals `member` on `path` and
/// `interface`.
pub fn match_rule(interface: &str, member: &str, path: &str) -> (r: String)
    ensures
        r@ == match_rule_of(interface@, member@, path@),
{
    let s = join("type='signal',interface='", interface);
    let s = join(s.as_str(), "',member='");
    let s = join(s.as_str(), member);
    let s = join(s.as_str(), "',path='");
    let s = join(s.as_str(), path);
    join(s.as_str(), "'")
}

/// What the bus delivered while the caller waited.
#[derive(Debug)]
pub enum Heard {
    /// The wait ended with no signal.
    Nothing,
    /// A signal, with its object path and member name where it has them.
    Signal { path: Option<String>, member: Option<String> },
}

/// What the bus delivered, as plain text.
pub enum HeardView {
    Nothing,
    Signal { path: Option<Seq<char>>, member: Option<Seq<char>> },
}

pub open spec fn opt_text(s: Option<String>) -> Option<Seq<char>> {
    match s {
        Some(t) => Some(t@),
        None => None,
    }
}

impl Heard {
    pub open spec fn view(&self) -> HeardView {
        match self {
            Heard::Nothing => HeardView::Nothing,
            Heard::Signal { path, member } => HeardView::Signal {
                path: opt_text(*path),
                member: opt_text(*member),
            },
        }
    }
}

/// `heard` is the signal `member` on the object `path`.
pub open spec fn addressed_to(heard: HeardView, path: Seq<char>, member: Seq<char>) -> bool {
    heard matches HeardView::Signal { path: Some(p), member: Some(m) } && p == path && m == member
}

fn same_text(a: &Option<String>, want: &String) -> (r: bool)
    ensures
        r == (opt_text(*a) == Some(want@)),
{
    match a {
        Some(t) => *t == *want,
        None => false,
    }
}

/// Whether `heard` is the signal `member` on the object `path`.
pub fn is_addressed(heard: &Heard, path: &String, member: &String) -> (r: bool)
    ensures
        r == addressed_to(heard@, path@, member@),
{
    match heard {
        Heard::Nothing => false,
        Heard::Signal { path: p, member: m } => same_text(p, path) && same_text(m, member),
    }
}

/// Failures of the acknowledged exchange.
#[derive(Clone, Copy, Debug, PartialEq, Eq, Structural)]
pub enum SignalError {
    /// No acknowledgement came back after the last attempt.
    AckTimeout,
    /// No correctly addressed signal came before the deadline.
    ReceiveTimeout,
}

/// Where an exchange stands.
#[derive(Clone, Copy, Debug, PartialEq, Eq, Structural)]
pub enum Phase {
    NotStarted,
    Waiting,
    Done,
    Failed,
}

/// `now + d`, held at the largest time.
pub open spec fn later(now: u64, d: u64) -> u64 {
    if now as int + d as int > u64::MAX {
        u64::MAX
    } else {
        (now + d) as u64
    }
}

/// What the sender asks of its caller.
#[derive(Debug, PartialEq, Eq, Structural)]
pub enum SendAction {
    /// Emit the signal, then wait up to `wait_ms` for what comes.
    Emit { wait_ms: u64 },
    /// Wait up to `wait_ms` more for what comes.
    Wait { wait_ms: u64 },
    /// The acknowledgement came: the exchange succeeded.
    Acked,
    /// Give up with this error.
    Fail(SignalError),
}

/// The state of a sender.
pub struct SenderView {
    pub path: Seq<char>,
    pub ack_member: Seq<char>,
    pub max_attempts: u64,
    pub ack_timeout: u64,
    pub attempts: u64,
    pub deadline: u64,
    pub phase: Phase,
}

/// Emits one more attempt at `now`, or gives up when the attempts are spent.
pub open spec fn attempt_model(s: SenderView, now: u64) -> (SenderView, SendAction) {
    if s.attempts < s.max_attempts {
        (
            SenderView {
                attempts: (s.attempts + 1) as u64,
                deadline: later(now, s.ack_timeout),
                phase: Phase::Waiting,
                ..s
            },
            SendAction::Emit { wait_ms: s.ack_timeout },
        )
    } else {
        (SenderView { phase: Phase::Failed, ..s }, SendAction::Fail(SignalError::AckTimeout))
    }
}

/// One step of the sender: `heard` arrived (or the wait ended) at `now`.
pub open spec fn sender_step(s: SenderView, heard: HeardView, now: u64) -> (SenderView, SendAction) {
    match s.phase {
        Phase::NotStarted => attempt_model(s, now),
        Phase::Done => (s, SendAction::Acked),
        Phase::Failed => (s, SendAction::Fail(SignalError::AckTimeout)),
        Phase::Waiting => {
            if addressed_to(heard, s.path, s.ack_member) {
                (SenderView { phase: Phase::Done, ..s }, SendAction::Acked)
            } else if now < s.deadline {
                (s, SendAction::Wait { wait_ms: (s.deadline - now) as u64 })
            } else {
                attempt_model(s, now)
            }
        },
    }
}

/// The sending side of one exchange.
pub struct AckSender {
    path: String,
    ack_member: String,
    max_attempts: u64,
    ack_timeout: u64,
    attempts: u64,
    deadline: u64,
    phase: Phase,
}

impl View for AckSender {
    type V = SenderView;

    closed spec fn view(&self) -> SenderView {
        SenderView {
            path: self.path@,
            ack_member: self.ack_member@,
            max_attempts: self.max_attempts,
            ack_timeout: self.ack_timeout,
            attempts: self.attempts,
            deadline: self.deadline,
            phase: self.phase,
        }
    }
}

impl AckSender {
    /// A sender of the signal `member` on `path`, which emits at most
    /// `max_attempts` times and waits `ack_timeout_ms` after each.
    pub fn new(path: &str, member: &str, max_attempts: u64, ack_timeout_ms: u64) -> (r: Self)
        ensures
            r@ == (SenderView {
                path: path@,
                ack_member: ack_member_of(member@),
                max_attempts,
                ack_timeout: ack_timeout_ms,
                attempts: 0,
                deadline: 0,
                phase: Phase::NotStarted,
            }),
    {
        AckSender {
            path: String::from_str(path),
            ack_member: ack_member(member),
            max_attempts,
            ack_timeout: ack_timeout_ms,
            attempts: 0,
            deadline: 0,
            phase: Phase::NotStarted,
        }
    }

    fn attempt(&mut self, now: u64) -> (r: SendAction)
        ensures
            (final(self)@, r) == attempt_model(old(self)@, now),
    {
        if self.attempts < self.max_attempts {
            self.attempts = self.attempts + 1;
            self.deadline = now.saturating_add(self.ack_timeout);
            self.phase = Phase::Waiting;
            SendAction::Emit { wait_ms: self.ack_timeout }
        } else {
            self.phase = Phase::Failed;
            SendAction::Fail(SignalError::AckTimeout)
        }
    }

    /// Takes what the bus delivered at `now` (`Heard::Nothing` to begin) and
    /// says what to do next. An emission comes only once the previous one's
    /// wait is over, and there are at most `max_attempts` of them.
    pub fn on_event(&mut self, heard: &Heard, now: u64) -> (r: SendAction)
        ensures
            (final(self)@, r) == sender_step(old(self)@, heard@, now),
    {
        match self.phase {
            Phase::NotStarted => self.attempt(now),
            Phase::Done => SendAction::Acked,
            Phase::Failed => SendAction::Fail(SignalError::AckTimeout),
            Phase::Waiting => {
                if is_addressed(heard, &self.path, &self.ack_member) {
                    self.phase = Phase::Done;
                    SendAction::Acked
                } else if now < self.deadline {
                    SendAction::Wait { wait_ms: self.deadline - now }
                } else {
                    self.attempt(now)
                }
            },
        }
    }
}

/// A run of the sender over what the bus delivered, each with its time: the
/// state afterwards and how many times the signal was emitted.
pub open spec fn run_sender(s: SenderView, events: Seq<(HeardView, u64)>) -> (SenderView, nat)
    decreases events.len(),
{
    if events.len() == 0 {
        (s, 0)
    } else {
        let (next, action) = sender_step(s, events[0].0, events[0].1);
        let (last, n) = run_sender(next, events.drop_first());
        (
            last,
            if action is Emit {
                n + 1
            } else {
                n
            },
        )
    }
}

/// The sender never emits more than its attempt budget, and when it gives up
/// it has emitted exactly that many times. Each emission after the first
/// comes only once the previous wait for the acknowledgement has run out.
pub proof fn lemma_retry_bound(s: SenderView, events: Seq<(HeardView, u64)>)
    requires
        s.phase == Phase::NotStarted,
        s.attempts == 0,
    ensures
        run_sender(s, events).1 <= s.max_attempts,
        run_sender(s, events).0.phase == Phase::Failed ==> run_sender(s, events).1
            == s.max_attempts,
{
    lemma_run_sender_counts(s, events);
}

proof fn lemma_run_sender_counts(s: SenderView, events: Seq<(HeardView, u64)>)
    requires
        s.attempts <= s.max_attempts,
        s.phase == Phase::NotStarted ==> s.attempts == 0,
        s.phase == Phase::Failed ==> s.attempts == s.max_attempts,
    ensures
        run_sender(s, events).0.attempts == s.attempts + run_sender(s, events).1,
        run_sender(s, events).0.attempts <= s.max_attempts,
        run_sender(s, events).0.max_attempts == s.max_attempts,
        run_sender(s, events).0.phase == Phase::Failed ==> run_sender(s, events).0.attempts
            == s.max_attempts,
    decreases events.len(),
{
    if events.len() > 0 {
        let (next, action) = sender_step(s, events[0].0, events[0].1);
        lemma_run_sender_counts(next, events.drop_first());
    }
}

/// Every event of `events` is something other than the acknowledgement, and
/// each comes once the wait opened at the one before it has run out.
pub open spec fn silent_and_spaced(
    events: Seq<(HeardView, u64)>,
    path: Seq<char>,
    ack_member: Seq<char>,
    ack_timeout: u64,
) -> bool {
    &&& forall|k: int| 0 <= k < events.len() ==> !addressed_to(#[trigger] events[k].0, path, ack_member)
    &&& forall|k: int|
        0 < k < events.len() ==> #[trigger] events[k].1 >= later(events[k - 1].1, ack_timeout)
}

proof fn lemma_silent_tail(s: SenderView, events: Seq<(HeardView, u64)>)
    requires
        s.phase == Phase::Waiting,
        s.attempts <= s.max_attempts,
        events.len() == s.max_attempts - s.attempts + 1,
        events.len() > 0,
        events[0].1 >= s.deadline,
        silent_and_spaced(events, s.path, s.ack_member, s.ack_timeout),
    ensures
        run_sender(s, events).1 == s.max_attempts - s.attempts,
        run_sender(s, events).0.phase == Phase::Failed,
    decreases events.len(),
{
    let (next, action) = sender_step(s, events[0].0, events[0].1);
    assert(!addressed_to(events[0].0, s.path, s.ack_member));
    if s.attempts < s.max_attempts {
        let rest = events.drop_first();
        assert(rest[0].1 >= later(events[0].1, s.ack_timeout)) by {
            assert(events[1].1 >= later(events[0].1, s.ack_timeout));
        }
        assert(silent_and_spaced(rest, next.path, next.ack_member, next.ack_timeout)) by {
            assert forall|k: int| 0 <= k < rest.len() implies !addressed_to(
                #[trigger] rest[k].0,
                next.path,
                next.ack_member,
            ) by {
                assert(!addressed_to(events[k + 1].0, s.path, s.ack_member));
            }
            assert forall|k: int| 0 < k < rest.len() implies #[trigger] rest[k].1 >= later(
                rest[k - 1].1,
                next.ack_timeout,
            ) by {
                assert(events[k + 1].1 >= later(events[k].1, s.ack_timeout));
            }
        }
        lemma_silent_tail(next, rest);
        assert(action is Emit);
        assert(run_sender(s, events).1 == run_sender(next, rest).1 + 1);
        assert(run_sender(s, events).0 == run_sender(next, rest).0);
    } else {
        let rest = events.drop_first();
        assert(rest.len() == 0);
        assert(action is Fail);
        assert(run_sender(next, rest) == (next, 0nat));
        assert(run_sender(s, events) == (next, 0nat));
    }
}

/// Retry bound: when no acknowledgement ever comes and the caller reports
/// back once each wait has run out, the sender emits exactly its attempt
/// budget, each emission one acknowledgement timeout after the last, and
/// then gives up with `AckTimeout`.
pub proof fn lemma_silent_exchange_fails_after_budget(
    s: SenderView,
    events: Seq<(HeardView, u64)>,
)
    requires
        s.phase == Phase::NotStarted,
        s.attempts == 0,
        s.max_attempts < u64::MAX,
        events.len() == s.max_attempts + 1,
        silent_and_spaced(events, s.path, s.ack_member, s.ack_timeout),
    ensures
        run_sender(s, events).1 == s.max_attempts,
        run_sender(s, events).0.phase == Phase::Failed,
{
    let (next, action) = sender_step(s, events[0].0, events[0].1);
    let rest = events.drop_first();
    if s.max_attempts > 0 {
        assert(rest[0].1 >= later(events[0].1, s.ack_timeout)) by {
            assert(events[1].1 >= later(events[0].1, s.ack_timeout));
        }
        assert(silent_and_spaced(rest, next.path, next.ack_member, next.ack_timeout)) by {
            assert forall|k: int| 0 <= k < rest.len() implies !addressed_to(
                #[trigger] rest[k].0,
                next.path,
                next.ack_member,
            ) by {
                assert(!addressed_to(events[k + 1].0, s.path, s.ack_member));
            }
            assert forall|k: int| 0 < k < rest.len() implies #[trigger] rest[k].1 >= later(
                rest[k - 1].1,
                next.ack_timeout,
            ) by {
                assert(events[k + 1].1 >= later(events[k].1, s.ack_timeout));
            }
        }
        lemma_silent_tail(next, rest);
        assert(action is Emit);
        assert(run_sender(s, events).1 == run_sender(next, rest).1 + 1);
        assert(run_sender(s, events).0 == run_sender(next, rest).0);
    } else {
        assert(rest.len() == 0);
        assert(action is Fail);
        assert(run_sender(next, rest) == (next, 0nat));
        assert(run_sender(s, events) == (next, 0nat));
    }
}

/// Each emission of the sender after its first comes at or after the end of
/// the previous wait, and opens a wait of the acknowledgement timeout.
pub proof fn lemma_retry_spacing(s: SenderView, heard: HeardView, now: u64)
    requires
        s.phase == Phase::Waiting,
        sender_step(s, heard, now).1 is Emit,
    ensures
        now >= s.deadline,
        sender_step(s, heard, now).0.deadline == later(now, s.ack_timeout),
{
}

/// What the receiver asks of its caller.
#[derive(Debug, PartialEq, Eq, Structural)]
pub enum ReceiveAction {
    /// The awaited signal came: emit its acknowledgement (an empty payload)
    /// on the same path and interface, and hand its payload back.
    Ack,
    /// Wait up to `wait_ms` more for what comes.
    Wait { wait_ms: u64 },
    /// The exchange is over; nothing more to do.
    Finished,
    /// Give up with this error.
    Fail(SignalError),
}

/// The state of a receiver.
pub struct ReceiverView {
    pub path: Seq<char>,
    pub member: Seq<char>,
    pub deadline: u64,
    pub phase: Phase,
}

/// One step of the receiver: `heard` arrived (or the wait ended) at `now`.
pub open spec fn receiver_step(r: ReceiverView, heard: HeardView, now: u64) -> (
    ReceiverView,
    ReceiveAction,
) {
    match r.phase {
        Phase::Waiting => {
            if addressed_to(heard, r.path, r.member) {
                (ReceiverView { phase: Phase::Done, ..r }, ReceiveAction::Ack)
            } else if now < r.deadline {
                (r, ReceiveAction::Wait { wait_ms: (r.deadline - now) as u64 })
            } else {
                (
                    ReceiverView { phase: Phase::Failed, ..r },
                    ReceiveAction::Fail(SignalError::ReceiveTimeout),
                )
            }
        },
        Phase::Failed => (r, ReceiveAction::Fail(SignalError::ReceiveTimeout)),
        _ => (r, ReceiveAction::Finished),
    }
}

/// The receiving side of one exchange.
pub struct AckReceiver {
    path: String,
    member: String,
    deadline: u64,
    phase: Phase,
}

impl View for AckReceiver {
    type V = ReceiverView;

    closed spec fn view(&self) -> ReceiverView {
        ReceiverView {
            path: self.path@,
            member: self.member@,
            deadline: self.deadline,
            phase: self.phase,
        }
    }
}

impl AckReceiver {
    /// A receiver that waits from `now` up to `timeout_ms` for the signal
    /// `member` on `path`.
    pub fn new(path: &str, member: &str, now: u64, timeout_ms: u64) -> (r: Self)
        ensures
            r@ == (ReceiverView {
                path: path@,
                member: member@,
                deadline: later(now, timeout_ms),
                phase: Phase::Waiting,
            }),
    {
        AckReceiver {
            path: String::from_str(path),
            member: String::from_str(member),
            deadline: now.saturating_add(timeout_ms),
            phase: Phase::Waiting,
        }
    }

    /// Takes what the bus delivered at `now` and says what to do next.
    /// Signals for another path or member are passed over.
    pub fn on_event(&mut self, heard: &Heard, now: u64) -> (r: ReceiveAction)
        ensures
            (final(self)@, r) == receiver_step(old(self)@, heard@, now),
    {
        match self.phase {
            Phase::Waiting => {
                if is_addressed(heard, &self.path, &self.member) {
                    self.phase = Phase::Done;
                    ReceiveAction::Ack
                } else if now < self.deadline {
                    ReceiveAction::Wait { wait_ms: self.deadline - now }
                } else {
                    self.phase = Phase::Failed;
                    ReceiveAction::Fail(SignalError::ReceiveTimeout)
                }
            },
            Phase::Failed => ReceiveAction::Fail(SignalError::ReceiveTimeout),
            _ => ReceiveAction::Finished,
        }
    }
}

/// A run of the receiver over what the bus delivered, each with its time:
/// the state afterwards and how many acknowledgements were asked for.
pub open spec fn run_receiver(r: ReceiverView, events: Seq<(HeardView, u64)>) -> (ReceiverView, nat)
    decreases events.len(),
{
    if events.len() == 0 {
        (r, 0)
    } else {
        let (next, action) = receiver_step(r, events[0].0, events[0].1);
        let (last, n) = run_receiver(next, events.drop_first());
        (
            last,
            if action is Ack {
                n + 1
            } else {
                n
            },
        )
    }
}

proof fn lemma_receiver_at_most_one_ack(r: ReceiverView, events: Seq<(HeardView, u64)>)
    ensures
        run_receiver(r, events).1 <= (if r.phase == Phase::Waiting {
            1nat
        } else {
            0nat
        }),
        run_receiver(r, events).1 == 1 ==> run_receiver(r, events).0.phase == Phase::Done,
        r.phase == Phase::Done ==> run_receiver(r, events).0.phase == Phase::Done,
    decreases events.len(),
{
    if events.len() > 0 {
        let (next, action) = receiver_step(r, events[0].0, events[0].1);
        lemma_receiver_at_most_one_ack(next, events.drop_first());
    }
}

/// A waiting receiver that hears its signal before the deadline, after only
/// signals for others, asks for exactly one acknowledgement over the whole
/// run, and ends done; however the run goes, it never asks for more than one.
pub proof fn lemma_single_ack(r: ReceiverView, events: Seq<(HeardView, u64)>, k: int)
    requires
        r.phase == Phase::Waiting,
        0 <= k < events.len(),
        addressed_to(events[k].0, r.path, r.member),
        forall|j: int|
            0 <= j < k ==> !addressed_to(#[trigger] events[j].0, r.path, r.member) && events[j].1
                < r.deadline,
    ensures
        run_receiver(r, events).1 == 1,
        run_receiver(r, events).0.phase == Phase::Done,
    decreases k,
{
    let (next, action) = receiver_step(r, events[0].0, events[0].1);
    if k == 0 {
        lemma_receiver_at_most_one_ack(next, events.drop_first());
    } else {
        assert(!addressed_to(events[0].0, r.path, r.member) && events[0].1 < r.deadline);
        assert forall|j: int| 0 <= j < k - 1 implies !addressed_to(
            #[trigger] events.drop_first()[j].0,
            next.path,
            next.member,
        ) && events.drop_first()[j].1 < next.deadline by {
            assert(!addressed_to(events[j + 1].0, r.path, r.member) && events[j + 1].1
                < r.deadline);
        }
        lemma_single_ack(next, events.drop_first(), k - 1);
    }
}

/// What a listener asks of its caller after a wait.
#[derive(Debug, PartialEq, Eq, Structural)]
pub enum ListenAction {
    /// The stop flag is set: leave the loop.
    Stop,
    /// The awaited signal came: acknowledge it and hand it to the callback.
    Deliver,
    /// Nothing for this listener: wait again.
    Idle,
}

/// One turn of a listener's loop: stop when asked to, otherwise deliver
/// each correctly addressed signal.
pub fn listen_step(stop: bool, heard: &Heard, path: &String, member: &String) -> (r: ListenAction)
    ensures
        r == (if stop {
            ListenAction::Stop
        } else if addressed_to(heard@, path@, member@) {
            ListenAction::Deliver
        } else {
            ListenAction::Idle
        }),
{
    if stop {
        ListenAction::Stop
    } else if is_addressed(heard, path, member) {
        ListenAction::Deliver
    } else {
        ListenAction::Idle
    }
}

} // verus!
