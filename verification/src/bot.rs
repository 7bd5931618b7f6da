//! The per-message update protocol: a state machine over one incoming text
//! message. Parse the body; submit the value with a day-derived idempotency
//! key; acknowledge in the room; pause; read the goal; report its safety
//! buffer. Every submission or read failure is answered with exactly one
//! failure reply; a reply that itself cannot be sent is only logged, and the
//! cycle ends.

use crate::beeminder::{
    build_datapoint_request, build_goal_request, fetch_error_message, submit_error_message,
    Datapoint, DatapointRequest, DatapointRequestModel, FetchError, Goal, GoalModel, GoalRequest,
    SubmitError,
};
use crate::dates::{current_local_date, daily_id_text, LocalDate};
use crate::numfmt::{dec_text, i64_to_string};
use crate::parse::{is_float_literal, literal_in_range, parse_value, trimmed, Measurement};
use crate::settings::Settings;
use vstd::prelude::*;

verus! {

/// Milliseconds to wait between the acknowledgment and the goal read, giving
/// the service time to recompute its aggregate fields.
pub const PAUSE_MILLIS: u64 = 30000;

/// Where one message's handling cycle stands.
#[derive(Clone, Copy, PartialEq, Eq, Structural, Debug)]
pub enum ProtocolState {
    /// The data point was submitted; the outcome is pending.
    AwaitingSubmit,
    /// The acknowledgment reply is being sent.
    AwaitingAck,
    /// The fixed pause before the goal read is running.
    AwaitingPause,
    /// The goal read is pending.
    AwaitingFetch,
    /// The status report is being sent.
    AwaitingReportSend,
    /// A failure reply is being sent.
    AwaitingFailureSend,
    /// The cycle is over.
    Finished,
}

/// What the surrounding session must do next.
pub enum Action {
    /// POST the data point to the tracking service.
    SubmitDatapoint(DatapointRequest),
    /// GET the goal snapshot.
    FetchGoal(GoalRequest),
    /// Send a plain text reply to the room.
    SendPlain(String),
    /// Send a reply with plain and rich variants.
    SendFormatted(String, String),
    /// Suspend this cycle for the given milliseconds.
    Pause(u64),
    /// Note locally that a reply could not be sent.
    LogSendFailure,
}

/// What an action amounts to, over the data models.
pub enum ActionModel {
    SubmitDatapoint(DatapointRequestModel),
    /// Carries the credential the query presents.
    FetchGoal(Seq<char>),
    SendPlain(Seq<char>),
    SendFormatted(Seq<char>, Seq<char>),
    Pause(u64),
    LogSendFailure,
}

impl View for Action {
    type V = ActionModel;

    open spec fn view(&self) -> ActionModel {
        match self {
            Action::SubmitDatapoint(r) => ActionModel::SubmitDatapoint(r@),
            Action::FetchGoal(g) => ActionModel::FetchGoal(g.auth_token@),
            Action::SendPlain(s) => ActionModel::SendPlain(s@),
            Action::SendFormatted(p, h) => ActionModel::SendFormatted(p@, h@),
            Action::Pause(ms) => ActionModel::Pause(*ms),
            Action::LogSendFailure => ActionModel::LogSendFailure,
        }
    }
}

/// The model of an optional action.
pub open spec fn opt_action_model(a: Option<Action>) -> Option<ActionModel> {
    match a {
        Option::Some(x) => Option::Some(x@),
        Option::None => Option::None,
    }
}

/// What the session observes and reports back to the protocol.
pub enum Event {
    SubmitSucceeded(Datapoint),
    SubmitFailed(SubmitError),
    SendSucceeded,
    SendFailed,
    PauseElapsed,
    FetchSucceeded(Goal),
    FetchFailed(FetchError),
}

/// An event's mathematical content: the outcome, with its description text or
/// the fetched snapshot.
pub enum EventModel {
    SubmitSucceeded,
    SubmitFailed(Seq<char>),
    SendSucceeded,
    SendFailed,
    PauseElapsed,
    FetchSucceeded(GoalModel),
    FetchFailed(Seq<char>),
}

impl View for Event {
    type V = EventModel;

    open spec fn view(&self) -> EventModel {
        match self {
            Event::SubmitSucceeded(_) => EventModel::SubmitSucceeded,
            Event::SubmitFailed(e) => EventModel::SubmitFailed(e@),
            Event::SendSucceeded => EventModel::SendSucceeded,
            Event::SendFailed => EventModel::SendFailed,
            Event::PauseElapsed => EventModel::PauseElapsed,
            Event::FetchSucceeded(g) => EventModel::FetchSucceeded(g@),
            Event::FetchFailed(e) => EventModel::FetchFailed(e@),
        }
    }
}

/// Which events can arrive in which state.
pub open spec fn accepts(s: ProtocolState, e: Event) -> bool {
    match s {
        ProtocolState::AwaitingSubmit => e is SubmitSucceeded || e is SubmitFailed,
        ProtocolState::AwaitingAck => e is SendSucceeded || e is SendFailed,
        ProtocolState::AwaitingPause => e is PauseElapsed,
        ProtocolState::AwaitingFetch => e is FetchSucceeded || e is FetchFailed,
        ProtocolState::AwaitingReportSend => e is SendSucceeded || e is SendFailed,
        ProtocolState::AwaitingFailureSend => e is SendSucceeded || e is SendFailed,
        ProtocolState::Finished => false,
    }
}

/// The acknowledgment sent right after a successful submission.
pub open spec fn ack_text() -> Seq<char> {
    "Uploaded new datapoint to Beeminder. Waiting to get new goal stats..."@
}

/// The reply when the submission failed, embedding the failure description.
pub open spec fn submit_failure_text(e: Seq<char>) -> Seq<char> {
    "Failed to update Beeminder: "@ + e
}

/// The reply when the goal read failed, embedding the failure description.
pub open spec fn fetch_failure_text(e: Seq<char>) -> Seq<char> {
    "Failed to get goal details: "@ + e
}

/// The plain status report: buffer days and the graph URL.
pub open spec fn report_plain_text(g: GoalModel) -> Seq<char> {
    "You have "@ + dec_text(g.safe_buf as int) + " days of buffer. See the graph at "@
        + g.graph_url
}

/// The rich status report, with the graph as a link.
pub open spec fn report_html_text(g: GoalModel) -> Seq<char> {
    "You have "@ + dec_text(g.safe_buf as int) + " days of buffer. See <a href=\""@ + g.graph_url
        + "\">the graph</a> for more."@
}

/// The state after an event.
pub open spec fn next_state(s: ProtocolState, e: EventModel) -> ProtocolState {
    match s {
        ProtocolState::AwaitingSubmit => if e is SubmitSucceeded {
            ProtocolState::AwaitingAck
        } else {
            ProtocolState::AwaitingFailureSend
        },
        ProtocolState::AwaitingAck => if e is SendSucceeded {
            ProtocolState::AwaitingPause
        } else {
            ProtocolState::Finished
        },
        ProtocolState::AwaitingPause => ProtocolState::AwaitingFetch,
        ProtocolState::AwaitingFetch => if e is FetchSucceeded {
            ProtocolState::AwaitingReportSend
        } else {
            ProtocolState::AwaitingFailureSend
        },
        ProtocolState::AwaitingReportSend => ProtocolState::Finished,
        ProtocolState::AwaitingFailureSend => ProtocolState::Finished,
        ProtocolState::Finished => ProtocolState::Finished,
    }
}

/// The action an event triggers; `auth` is the service credential the fetch
/// presents.
pub open spec fn next_action(auth: Seq<char>, s: ProtocolState, e: EventModel) -> Option<
    ActionModel,
> {
    match s {
        ProtocolState::AwaitingSubmit => match e {
            EventModel::SubmitSucceeded => Option::Some(ActionModel::SendPlain(ack_text())),
            EventModel::SubmitFailed(t) => Option::Some(
                ActionModel::SendPlain(submit_failure_text(t)),
            ),
            _ => Option::None,
        },
        ProtocolState::AwaitingAck => match e {
            EventModel::SendSucceeded => Option::Some(ActionModel::Pause(PAUSE_MILLIS)),
            EventModel::SendFailed => Option::Some(ActionModel::LogSendFailure),
            _ => Option::None,
        },
        ProtocolState::AwaitingPause => Option::Some(ActionModel::FetchGoal(auth)),
        ProtocolState::AwaitingFetch => match e {
            EventModel::FetchSucceeded(g) => Option::Some(
                ActionModel::SendFormatted(report_plain_text(g), report_html_text(g)),
            ),
            EventModel::FetchFailed(t) => Option::Some(
                ActionModel::SendPlain(fetch_failure_text(t)),
            ),
            _ => Option::None,
        },
        ProtocolState::AwaitingReportSend => match e {
            EventModel::SendFailed => Option::Some(ActionModel::LogSendFailure),
            _ => Option::None,
        },
        ProtocolState::AwaitingFailureSend => match e {
            EventModel::SendFailed => Option::Some(ActionModel::LogSendFailure),
            _ => Option::None,
        },
        ProtocolState::Finished => Option::None,
    }
}

/// How the cycle starts for a message body: submitting when it parses,
/// finished silently when it does not.
pub open spec fn begin_state(body: Seq<char>) -> ProtocolState {
    if is_float_literal(trimmed(body)) && literal_in_range(trimmed(body)) {
        ProtocolState::AwaitingSubmit
    } else {
        ProtocolState::Finished
    }
}

/// The submission the cycle opens with, when the body parses.
pub open spec fn begin_action(auth: Seq<char>, body: Seq<char>, date: LocalDate) -> Option<
    ActionModel,
> {
    if is_float_literal(trimmed(body)) && literal_in_range(trimmed(body)) {
        Option::Some(
            ActionModel::SubmitDatapoint(
                DatapointRequestModel {
                    value: trimmed(body),
                    comment: Option::None,
                    timestamp: Option::None,
                    daystamp: Option::None,
                    request_id: Option::Some(daily_id_text(date)),
                    auth_token: auth,
                },
            ),
        )
    } else {
        Option::None
    }
}

/// The plain status report for a goal snapshot.
pub fn report_plain_message(g: &Goal) -> (r: String)
    ensures
        r@ == report_plain_text(g@),
{
    let mut s = String::from_str("You have ");
    let n = i64_to_string(g.safe_buf);
    s.append(n.as_str());
    s.append(" days of buffer. See the graph at ");
    s.append(g.graph_url.as_str());
    proof {
        assert(s@ =~= report_plain_text(g@));
    }
    s
}

/// The rich status report for a goal snapshot.
pub fn report_html_message(g: &Goal) -> (r: String)
    ensures
        r@ == report_html_text(g@),
{
    let mut s = String::from_str("You have ");
    let n = i64_to_string(g.safe_buf);
    s.append(n.as_str());
    s.append(" days of buffer. See <a href=\"");
    s.append(g.graph_url.as_str());
    s.append("\">the graph</a> for more.");
    proof {
        assert(s@ =~= report_html_text(g@));
    }
    s
}

/// The per-message handler: holds the immutable settings.
pub struct Bot {
    pub settings: Settings,
}

impl Bot {
    pub fn new(settings: Settings) -> (r: Self)
        ensures
            r.settings == settings,
    {
        Bot { settings }
    }

    /// Start one message's cycle with the given day's key: parse the body,
    /// and on success hand back the submission to perform; otherwise finish
    /// silently, with no reply and no service call.
    pub fn begin(&self, body: &str, date: &LocalDate) -> (r: (ProtocolState, Option<Action>))
        requires
            date.wf(),
        ensures
            r.0 == begin_state(body@),
            opt_action_model(r.1) == begin_action(
                self.settings.beeminder_auth_token@,
                body@,
                *date,
            ),
    {
        match parse_value(body) {
            Ok(m) => {
                let req = build_datapoint_request(&self.settings, m, date);
                (ProtocolState::AwaitingSubmit, Option::Some(Action::SubmitDatapoint(req)))
            },
            Err(_) => (ProtocolState::Finished, Option::None),
        }
    }

    /// Start one message's cycle with today's key.
    pub fn begin_today(&self, body: &str) -> (r: (ProtocolState, Option<Action>))
        ensures
            r.0 == begin_state(body@),
            exists|d: LocalDate|
                d.wf() && opt_action_model(r.1) == begin_action(
                    self.settings.beeminder_auth_token@,
                    body@,
                    d,
                ),
    {
        let date = current_local_date();
        let r = self.begin(body, &date);
        proof {
            assert(date.wf() && opt_action_model(r.1) == begin_action(
                self.settings.beeminder_auth_token@,
                body@,
                date,
            ));
        }
        r
    }

    /// Advance the cycle by one observed outcome: the new state, and the next
    /// action for the session to perform.
    pub fn on_event(&self, state: ProtocolState, event: Event) -> (r: (
        ProtocolState,
        Option<Action>,
    ))
        requires
            accepts(state, event),
        ensures
            r.0 == next_state(state, event@),
            opt_action_model(r.1) == next_action(
                self.settings.beeminder_auth_token@,
                state,
                event@,
            ),
    {
        match state {
            ProtocolState::AwaitingSubmit => match event {
                Event::SubmitSucceeded(_) => (
                    ProtocolState::AwaitingAck,
                    Option::Some(
                        Action::SendPlain(
                            String::from_str(
                                "Uploaded new datapoint to Beeminder. Waiting to get new goal stats...",
                            ),
                        ),
                    ),
                ),
                Event::SubmitFailed(e) => {
                    let msg = submit_error_message(&e);
                    let mut reply = String::from_str("Failed to update Beeminder: ");
                    reply.append(msg.as_str());
                    proof {
                        assert(reply@ =~= submit_failure_text(e@));
                    }
                    (ProtocolState::AwaitingFailureSend, Option::Some(Action::SendPlain(reply)))
                },
                _ => {
                    proof {
                        assert(false);
                    }
                    (ProtocolState::Finished, Option::None)
                },
            },
            ProtocolState::AwaitingAck => match event {
                Event::SendSucceeded => (
                    ProtocolState::AwaitingPause,
                    Option::Some(Action::Pause(PAUSE_MILLIS)),
                ),
                Event::SendFailed => (ProtocolState::Finished, Option::Some(Action::LogSendFailure)),
                _ => {
                    proof {
                        assert(false);
                    }
                    (ProtocolState::Finished, Option::None)
                },
            },
            ProtocolState::AwaitingPause => match event {
                Event::PauseElapsed => (
                    ProtocolState::AwaitingFetch,
                    Option::Some(Action::FetchGoal(build_goal_request(&self.settings))),
                ),
                _ => {
                    proof {
                        assert(false);
                    }
                    (ProtocolState::Finished, Option::None)
                },
            },
            ProtocolState::AwaitingFetch => match event {
                Event::FetchSucceeded(g) => {
                    let plain = report_plain_message(&g);
                    let html = report_html_message(&g);
                    (
                        ProtocolState::AwaitingReportSend,
                        Option::Some(Action::SendFormatted(plain, html)),
                    )
                },
                Event::FetchFailed(e) => {
                    let msg = fetch_error_message(&e);
                    let mut reply = String::from_str("Failed to get goal details: ");
                    reply.append(msg.as_str());
                    proof {
                        assert(reply@ =~= fetch_failure_text(e@));
                    }
                    (ProtocolState::AwaitingFailureSend, Option::Some(Action::SendPlain(reply)))
                },
                _ => {
                    proof {
                        assert(false);
                    }
                    (ProtocolState::Finished, Option::None)
                },
            },
            ProtocolState::AwaitingReportSend => match event {
                Event::SendSucceeded => (ProtocolState::Finished, Option::None),
                Event::SendFailed => (ProtocolState::Finished, Option::Some(Action::LogSendFailure)),
                _ => {
                    proof {
                        assert(false);
                    }
                    (ProtocolState::Finished, Option::None)
                },
            },
            ProtocolState::AwaitingFailureSend => match event {
                Event::SendSucceeded => (ProtocolState::Finished, Option::None),
                Event::SendFailed => (ProtocolState::Finished, Option::Some(Action::LogSendFailure)),
                _ => {
                    proof {
                        assert(false);
                    }
                    (ProtocolState::Finished, Option::None)
                },
            },
            ProtocolState::Finished => {
                proof {
                    assert(false);
                }
                (ProtocolState::Finished, Option::None)
            },
        }
    }
}

/// The outcomes the environment supplies during one cycle; the error cases
/// carry their description texts.
pub struct CycleOutcomes {
    /// The submission outcome.
    pub submit: Result<(), Seq<char>>,
    /// Whether the acknowledgment reply went through.
    pub ack_send_ok: bool,
    /// The goal-read outcome.
    pub fetch: Result<GoalModel, Seq<char>>,
    /// Whether the status report went through.
    pub report_send_ok: bool,
    /// Whether a failure reply went through.
    pub failure_send_ok: bool,
}

/// The event the environment delivers in each waiting state, for the given
/// outcomes.
pub open spec fn event_for(s: ProtocolState, o: CycleOutcomes) -> EventModel {
    match s {
        ProtocolState::AwaitingSubmit => match o.submit {
            Result::Ok(_) => EventModel::SubmitSucceeded,
            Result::Err(t) => EventModel::SubmitFailed(t),
        },
        ProtocolState::AwaitingAck => if o.ack_send_ok {
            EventModel::SendSucceeded
        } else {
            EventModel::SendFailed
        },
        ProtocolState::AwaitingPause => EventModel::PauseElapsed,
        ProtocolState::AwaitingFetch => match o.fetch {
            Result::Ok(g) => EventModel::FetchSucceeded(g),
            Result::Err(t) => EventModel::FetchFailed(t),
        },
        ProtocolState::AwaitingReportSend => if o.report_send_ok {
            EventModel::SendSucceeded
        } else {
            EventModel::SendFailed
        },
        ProtocolState::AwaitingFailureSend => if o.failure_send_ok {
            EventModel::SendSucceeded
        } else {
            EventModel::SendFailed
        },
        ProtocolState::Finished => EventModel::SendSucceeded,
    }
}

/// How far from the end a state is; every transition strictly decreases it.
pub open spec fn state_rank(s: ProtocolState) -> nat {
    match s {
        ProtocolState::AwaitingSubmit => 5,
        ProtocolState::AwaitingAck => 4,
        ProtocolState::AwaitingPause => 3,
        ProtocolState::AwaitingFetch => 2,
        ProtocolState::AwaitingReportSend => 1,
        ProtocolState::AwaitingFailureSend => 1,
        ProtocolState::Finished => 0,
    }
}

/// The actions still to come from state `s` under outcomes `o`, in order.
pub open spec fn run_from(auth: Seq<char>, s: ProtocolState, o: CycleOutcomes) -> Seq<ActionModel>
    decreases state_rank(s),
{
    if s is Finished {
        Seq::<ActionModel>::empty()
    } else {
        let e = event_for(s, o);
        let acts = match next_action(auth, s, e) {
            Option::Some(a) => seq![a],
            Option::None => Seq::<ActionModel>::empty(),
        };
        acts + run_from(auth, next_state(s, e), o)
    }
}

/// Everything one message triggers, from arrival to the cycle's end.
pub open spec fn cycle_trace(
    auth: Seq<char>,
    body: Seq<char>,
    date: LocalDate,
    o: CycleOutcomes,
) -> Seq<ActionModel> {
    match begin_action(auth, body, date) {
        Option::Some(a) => seq![a] + run_from(auth, ProtocolState::AwaitingSubmit, o),
        Option::None => Seq::<ActionModel>::empty(),
    }
}

/// A room reply of either form.
pub open spec fn is_reply(a: ActionModel) -> bool {
    a is SendPlain || a is SendFormatted
}

/// How many room replies a trace attempts.
pub open spec fn reply_count(t: Seq<ActionModel>) -> int
    decreases t.len(),
{
    if t.len() == 0 {
        0
    } else {
        reply_count(t.drop_last()) + if is_reply(t.last()) {
            1int
        } else {
            0int
        }
    }
}

/// Law: a message whose body does not parse triggers nothing at all — no
/// reply and no service call.
pub proof fn lemma_unparseable_message_is_silent(
    auth: Seq<char>,
    body: Seq<char>,
    date: LocalDate,
    o: CycleOutcomes,
)
    requires
        !(is_float_literal(trimmed(body)) && literal_in_range(trimmed(body))),
    ensures
        cycle_trace(auth, body, date, o) == Seq::<ActionModel>::empty(),
{
}

/// Law: if the submission fails, the cycle attempts exactly one reply — the
/// failure message — and no pause, no goal read and no status report occurs.
pub proof fn lemma_submit_failure_stops_cycle(
    auth: Seq<char>,
    body: Seq<char>,
    date: LocalDate,
    o: CycleOutcomes,
)
    requires
        is_float_literal(trimmed(body)) && literal_in_range(trimmed(body)),
        o.submit is Err,
    ensures
        cycle_trace(auth, body, date, o) == seq![
            begin_action(auth, body, date)->Some_0,
            ActionModel::SendPlain(submit_failure_text(o.submit->Err_0)),
        ] + if o.failure_send_ok {
            Seq::<ActionModel>::empty()
        } else {
            seq![ActionModel::LogSendFailure]
        },
        reply_count(cycle_trace(auth, body, date, o)) == 1,
        forall|i: int|
            0 <= i < cycle_trace(auth, body, date, o).len() ==> {
                let a = #[trigger] cycle_trace(auth, body, date, o)[i];
                !(a is Pause) && !(a is FetchGoal) && !(a is SendFormatted)
            },
{
    let t = cycle_trace(auth, body, date, o);
    reveal_with_fuel(run_from, 4);
    reveal_with_fuel(reply_count, 5);
    let fail = ActionModel::SendPlain(submit_failure_text(o.submit->Err_0));
    let first = begin_action(auth, body, date)->Some_0;
    assert(first is SubmitDatapoint);
    assert(seq![first].drop_last() =~= Seq::<ActionModel>::empty());
    assert(seq![first].last() == first);
    assert(reply_count(seq![first]) == 0);
    assert(seq![first, fail].drop_last() =~= seq![first]);
    assert(seq![first, fail].last() == fail);
    assert(reply_count(seq![first, fail]) == 1);
    if o.failure_send_ok {
        assert(t =~= seq![first, fail]);
    } else {
        assert(t =~= seq![first, fail, ActionModel::LogSendFailure]);
        assert(t.drop_last() =~= seq![first, fail]);
        assert(t.last() == ActionModel::LogSendFailure);
        assert(reply_count(t) == 1);
    }
}

/// Law: if the submission succeeds but the acknowledgment cannot be sent, the
/// cycle ends at once — no pause, no goal read, no further reply.
pub proof fn lemma_ack_failure_stops_cycle(
    auth: Seq<char>,
    body: Seq<char>,
    date: LocalDate,
    o: CycleOutcomes,
)
    requires
        is_float_literal(trimmed(body)) && literal_in_range(trimmed(body)),
        o.submit is Ok,
        !o.ack_send_ok,
    ensures
        cycle_trace(auth, body, date, o) == seq![
            begin_action(auth, body, date)->Some_0,
            ActionModel::SendPlain(ack_text()),
            ActionModel::LogSendFailure,
        ],
        forall|i: int|
            0 <= i < cycle_trace(auth, body, date, o).len() ==> {
                let a = #[trigger] cycle_trace(auth, body, date, o)[i];
                !(a is Pause) && !(a is FetchGoal) && !(a is SendFormatted)
            },
{
    let t = cycle_trace(auth, body, date, o);
    reveal_with_fuel(run_from, 4);
    let first = begin_action(auth, body, date)->Some_0;
    assert(t =~= seq![first, ActionModel::SendPlain(ack_text()), ActionModel::LogSendFailure]);
}

/// Law: if the goal read fails after a successful submission and
/// acknowledgment, exactly one further reply is attempted — the failure
/// message — and no status report is ever sent.
pub proof fn lemma_fetch_failure_reply(
    auth: Seq<char>,
    body: Seq<char>,
    date: LocalDate,
    o: CycleOutcomes,
)
    requires
        is_float_literal(trimmed(body)) && literal_in_range(trimmed(body)),
        o.submit is Ok,
        o.ack_send_ok,
        o.fetch is Err,
    ensures
        cycle_trace(auth, body, date, o) == seq![
            begin_action(auth, body, date)->Some_0,
            ActionModel::SendPlain(ack_text()),
            ActionModel::Pause(PAUSE_MILLIS),
            ActionModel::FetchGoal(auth),
            ActionModel::SendPlain(fetch_failure_text(o.fetch->Err_0)),
        ] + if o.failure_send_ok {
            Seq::<ActionModel>::empty()
        } else {
            seq![ActionModel::LogSendFailure]
        },
        forall|i: int|
            0 <= i < cycle_trace(auth, body, date, o).len() ==> !(
            #[trigger] cycle_trace(auth, body, date, o)[i] is SendFormatted),
{
    let t = cycle_trace(auth, body, date, o);
    reveal_with_fuel(run_from, 7);
    let first = begin_action(auth, body, date)->Some_0;
    let fail = ActionModel::SendPlain(fetch_failure_text(o.fetch->Err_0));
    if o.failure_send_ok {
        assert(t =~= seq![
            first,
            ActionModel::SendPlain(ack_text()),
            ActionModel::Pause(PAUSE_MILLIS),
            ActionModel::FetchGoal(auth),
            fail,
        ]);
    } else {
        assert(t =~= seq![
            first,
            ActionModel::SendPlain(ack_text()),
            ActionModel::Pause(PAUSE_MILLIS),
            ActionModel::FetchGoal(auth),
            fail,
            ActionModel::LogSendFailure,
        ]);
    }
}

} // verus!
