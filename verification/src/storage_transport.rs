//! Sending one request to Cloud Storage.
//!
//! An interrupt may come at any moment. Whether the request may have been sent
//! by then decides which error it becomes, since only requests that may have
//! been sent require state recovery.
use vstd::prelude::*;

use crate::error::AppError;
use crate::text;

verus! {

/// A request may take this long.
pub const REQUEST_TIMEOUT_SECONDS: u64 = 30;

/// An upload may take this long.
pub const UPLOAD_TIMEOUT_SECONDS: u64 = 3600;

/// What came of a request that was started.
#[derive(Debug)]
pub enum RequestOutcome {
    /// Cloud Storage answered. `message` is the message of an error reply, as
    /// far as the body holds one.
    Response { status: u16, body: Vec<u8>, message: Option<String> },
    /// The request failed without an answer.
    Failed(String),
    /// An interrupt came while the request was under way, which was dropped.
    Interrupted,
}

/// The access token is being asked for.
#[derive(Debug)]
pub struct AwaitingToken;

/// Whether an interrupt is pending is being asked, before anything is sent.
#[derive(Debug)]
pub struct AwaitingClearance {
    pub token: String,
    /// Whether the question was answered once already.
    pub asked: bool,
}

/// The request is under way.
#[derive(Debug)]
pub struct AwaitingOutcome;

/// Whether an interrupt is pending is being asked, after the request.
#[derive(Debug)]
pub struct AwaitingAftermath {
    pub result: Result<Vec<u8>, AppError>,
}

/// What is to be done next.
#[derive(Debug)]
pub enum TransportStep {
    GetToken(AwaitingToken),
    CheckInterrupt(AwaitingClearance),
    /// Start the request with this token.
    Send(AwaitingOutcome, String),
    CheckInterruptAfter(AwaitingAftermath),
    Done(Result<Vec<u8>, AppError>),
}

/// Whether a status stands for success.
pub open spec fn is_success(status: u16) -> bool {
    200 <= status < 300
}

/// The message of an error reply: the one that the body holds, else the body.
pub fn response_message(message: Option<String>, body: &Vec<u8>) -> (words: String)
    ensures
        words@ == match message {
            Some(message) => message@,
            None => text::lossy(body@),
        },
{
    match message {
        Some(message) => message,
        None => text::lossy_text(body.as_slice()),
    }
}

/// What a request gives, by what came of it.
pub open spec fn gives(outcome: RequestOutcome, result: Result<Vec<u8>, AppError>) -> bool {
    match outcome {
        RequestOutcome::Response { status, body, message } => if is_success(status) {
            result == Ok::<Vec<u8>, AppError>(body)
        } else {
            &&& result matches Err(AppError::Storage { status: refusal, message: words })
            &&& refusal == status
            &&& words@ == match message {
                Some(message) => message@,
                None => text::lossy(body@),
            }
        },
        RequestOutcome::Failed(message) => result == Err::<Vec<u8>, AppError>(
            AppError::Http(message),
        ),
        RequestOutcome::Interrupted => result == Err::<Vec<u8>, AppError>(
            AppError::InterruptedAfterRequest,
        ),
    }
}

/// How sending a request begins.
pub open spec fn begins(token: Option<String>, step: TransportStep) -> bool {
    match token {
        Some(token) => step == TransportStep::CheckInterrupt(
            AwaitingClearance { token, asked: false },
        ),
        None => step is GetToken,
    }
}

/// Begins to send a request, with the given token or with one that the Cloud SDK
/// is asked for.
pub fn send_body(token: Option<String>) -> (step: TransportStep)
    ensures
        begins(token, step),
{
    match token {
        Some(token) => TransportStep::CheckInterrupt(AwaitingClearance { token, asked: false }),
        None => TransportStep::GetToken(AwaitingToken),
    }
}

impl AwaitingToken {
    /// A failure is a token failure: nothing was sent.
    pub open spec fn continues(
        self,
        token: Result<String, AppError>,
        step: TransportStep,
    ) -> bool {
        match token {
            Ok(token) => step == TransportStep::CheckInterrupt(
                AwaitingClearance { token, asked: false },
            ),
            Err(error) => step == TransportStep::Done(
                Err(AppError::Token(Box::new(error), false)),
            ),
        }
    }

    /// Goes on once the token is known.
    pub fn resume(self, token: Result<String, AppError>) -> (step: TransportStep)
        ensures
            self.continues(token, step),
    {
        match token {
            Ok(token) => TransportStep::CheckInterrupt(AwaitingClearance { token, asked: false }),
            Err(error) => TransportStep::Done(Err(AppError::token(error))),
        }
    }
}

impl AwaitingClearance {
    /// The request is started once there was twice no interrupt pending.
    pub open spec fn continues(self, interrupted: bool, step: TransportStep) -> bool {
        if interrupted {
            step == TransportStep::Done(Err(AppError::Interrupted))
        } else if self.asked {
            step == TransportStep::Send(AwaitingOutcome, self.token)
        } else {
            step == TransportStep::CheckInterrupt(
                AwaitingClearance { token: self.token, asked: true },
            )
        }
    }

    /// Goes on once it is known whether an interrupt is pending.
    pub fn resume(self, interrupted: bool) -> (step: TransportStep)
        ensures
            self.continues(interrupted, step),
    {
        if interrupted {
            TransportStep::Done(Err(AppError::Interrupted))
        } else if self.asked {
            TransportStep::Send(AwaitingOutcome, self.token)
        } else {
            TransportStep::CheckInterrupt(AwaitingClearance { token: self.token, asked: true })
        }
    }
}

impl AwaitingOutcome {
    pub open spec fn continues(self, outcome: RequestOutcome, step: TransportStep) -> bool {
        step matches TransportStep::CheckInterruptAfter(awaiting) && gives(
            outcome,
            awaiting.result,
        )
    }

    /// Goes on once the request is over.
    pub fn resume(self, outcome: RequestOutcome) -> (step: TransportStep)
        ensures
            self.continues(outcome, step),
            outcome matches RequestOutcome::Response { status, body, .. } ==> {
                &&& step is CheckInterruptAfter
                &&& (200 <= status <= 299) <==> (step->CheckInterruptAfter_0).result == Ok::<
                    Vec<u8>,
                    AppError,
                >(body)
            },
    {
        let result = match outcome {
            RequestOutcome::Response { status, body, message } => {
                if 200 <= status && status < 300 {
                    Ok(body)
                } else {
                    Err(AppError::Storage { status, message: response_message(message, &body) })
                }
            },
            RequestOutcome::Failed(message) => Err(AppError::Http(message)),
            RequestOutcome::Interrupted => Err(AppError::InterruptedAfterRequest),
        };
        TransportStep::CheckInterruptAfter(AwaitingAftermath { result })
    }
}

impl AwaitingAftermath {
    /// An interrupt that came meanwhile hides the reply: what the request did
    /// must be found out.
    pub open spec fn continues(self, interrupted: bool, step: TransportStep) -> bool {
        step == TransportStep::Done(
            if interrupted {
                Err(AppError::InterruptedAfterRequest)
            } else {
                self.result
            },
        )
    }

    /// Ends the request.
    pub fn resume(self, interrupted: bool) -> (step: TransportStep)
        ensures
            self.continues(interrupted, step),
    {
        TransportStep::Done(
            if interrupted {
                Err(AppError::InterruptedAfterRequest)
            } else {
                self.result
            },
        )
    }
}

/// What came of a step.
pub enum TransportEvent {
    Token(Result<String, AppError>),
    /// Whether an interrupt is pending.
    Interrupt(bool),
    Outcome(RequestOutcome),
}

/// The step that follows from what came of the step before.
pub open spec fn leads_to(step: TransportStep, event: TransportEvent, next: TransportStep) -> bool {
    match (step, event) {
        (TransportStep::GetToken(awaiting), TransportEvent::Token(token)) => awaiting.continues(
            token,
            next,
        ),
        (TransportStep::CheckInterrupt(awaiting), TransportEvent::Interrupt(interrupted)) =>
            awaiting.continues(interrupted, next),
        (TransportStep::Send(awaiting, _), TransportEvent::Outcome(outcome)) => awaiting.continues(
            outcome,
            next,
        ),
        (TransportStep::CheckInterruptAfter(awaiting), TransportEvent::Interrupt(interrupted)) =>
            awaiting.continues(interrupted, next),
        _ => false,
    }
}

/// A request from its beginning.
pub open spec fn is_run(
    token: Option<String>,
    steps: Seq<TransportStep>,
    events: Seq<TransportEvent>,
) -> bool {
    &&& steps.len() == events.len() + 1
    &&& begins(token, steps[0])
    &&& forall|i: int|
        0 <= i < events.len() ==> leads_to(#[trigger] steps[i], events[i], steps[i + 1])
}

/// A request that ends without having been started cannot have changed Cloud
/// Storage, and the error tells so.
pub proof fn an_unsent_request_changes_nothing(
    token: Option<String>,
    steps: Seq<TransportStep>,
    events: Seq<TransportEvent>,
)
    requires
        is_run(token, steps, events),
        steps.last() is Done,
        forall|i: int| 0 <= i < steps.len() ==> !(#[trigger] steps[i] is Send),
    ensures
        steps.last() matches TransportStep::Done(Err(error)) && !error.has_reached_storage()
            && !error.request_may_be_sent(),
{
    unsent_until(token, steps, events, steps.len() - 1);
}

proof fn unsent_until(
    token: Option<String>,
    steps: Seq<TransportStep>,
    events: Seq<TransportEvent>,
    at: int,
)
    requires
        is_run(token, steps, events),
        0 <= at < steps.len(),
        forall|i: int| 0 <= i < steps.len() ==> !(#[trigger] steps[i] is Send),
    ensures
        !(steps[at] is CheckInterruptAfter),
        steps[at] matches TransportStep::Done(result) ==> (result matches Err(error)
            && !error.has_reached_storage() && !error.request_may_be_sent()),
    decreases at,
{
    if at > 0 {
        unsent_until(token, steps, events, at - 1);
        assert(leads_to(steps[at - 1], events[at - 1], steps[at]));
    }
}

/// An interrupt that is seen while or after the request is under way always ends
/// it with the error that asks what the request did, whatever the reply was.
pub proof fn an_interrupted_request_may_have_been_sent(
    token: Option<String>,
    steps: Seq<TransportStep>,
    events: Seq<TransportEvent>,
    sent: int,
)
    requires
        is_run(token, steps, events),
        steps.last() is Done,
        0 <= sent < steps.len(),
        steps[sent] is Send,
        ({
            ||| events[sent] == TransportEvent::Outcome(RequestOutcome::Interrupted)
            ||| events[sent + 1] == TransportEvent::Interrupt(true)
        }),
    ensures
        steps.last() == TransportStep::Done(Err(AppError::InterruptedAfterRequest)),
        AppError::InterruptedAfterRequest.has_reached_storage(),
        AppError::InterruptedAfterRequest.request_may_be_sent(),
{
    assert(leads_to(steps[sent], events[sent], steps[sent + 1]));
    assert(leads_to(steps[sent + 1], events[sent + 1], steps[sent + 2]));
    if sent + 3 < steps.len() {
        assert(leads_to(steps[sent + 2], events[sent + 2], steps[sent + 3]));
    }
}

/// A request that was answered, without an interrupt afterwards, gives what was
/// answered. Every status from 200 to 299 gives the body of the answer, and every
/// other status gives an error with that status and the message of the answer. A
/// request that failed without an answer gives its failure.
pub proof fn an_answered_request_gives_its_answer(
    token: Option<String>,
    steps: Seq<TransportStep>,
    events: Seq<TransportEvent>,
    sent: int,
    outcome: RequestOutcome,
)
    requires
        is_run(token, steps, events),
        steps.last() is Done,
        0 <= sent < steps.len(),
        steps[sent] is Send,
        events[sent] == TransportEvent::Outcome(outcome),
        events[sent + 1] == TransportEvent::Interrupt(false),
    ensures
        match outcome {
            RequestOutcome::Response { status, body, message } => {
                &&& 200 <= status <= 299 <==> steps.last() == TransportStep::Done(Ok(body))
                &&& !(200 <= status <= 299) <==> {
                    &&& steps.last() matches TransportStep::Done(Err(error))
                    &&& error matches AppError::Storage { status: told, message: words }
                    &&& told == status
                    &&& words@ == match message {
                        Some(message) => message@,
                        None => text::lossy(body@),
                    }
                }
            },
            RequestOutcome::Failed(message) => steps.last() == TransportStep::Done(
                Err(AppError::Http(message)),
            ),
            RequestOutcome::Interrupted => steps.last() == TransportStep::Done(
                Err(AppError::InterruptedAfterRequest),
            ),
        },
{
    assert(leads_to(steps[sent], events[sent], steps[sent + 1]));
    assert(leads_to(steps[sent + 1], events[sent + 1], steps[sent + 2]));
    if sent + 3 < steps.len() {
        assert(leads_to(steps[sent + 2], events[sent + 2], steps[sent + 3]));
    }
}

/// An interrupt that came while a request was answered hides the answer: the request is
/// told as one that may have been carried out.
pub proof fn an_interrupt_after_a_request_hides_its_answer(
    token: Option<String>,
    steps: Seq<TransportStep>,
    events: Seq<TransportEvent>,
    sent: int,
    outcome: RequestOutcome,
)
    requires
        is_run(token, steps, events),
        steps.last() is Done,
        0 <= sent < steps.len(),
        steps[sent] is Send,
        events[sent] == TransportEvent::Outcome(outcome),
        events[sent + 1] == TransportEvent::Interrupt(true),
    ensures
        steps.last() == TransportStep::Done(Err(AppError::InterruptedAfterRequest)),
{
    assert(leads_to(steps[sent], events[sent], steps[sent + 1]));
    assert(leads_to(steps[sent + 1], events[sent + 1], steps[sent + 2]));
    if sent + 3 < steps.len() {
        assert(leads_to(steps[sent + 2], events[sent + 2], steps[sent + 3]));
    }
}

/// A request is sent with the token that was given, or with the one that the Cloud
/// SDK gave, and with no other.
pub proof fn a_request_carries_its_token(
    token: Option<String>,
    steps: Seq<TransportStep>,
    events: Seq<TransportEvent>,
    sent: int,
)
    requires
        is_run(token, steps, events),
        0 <= sent < steps.len(),
        steps[sent] is Send,
    ensures
        match token {
            Some(token) => (steps[sent]->Send_1) == token,
            None => events[0] == TransportEvent::Token(Ok(steps[sent]->Send_1)),
        },
{
    token_is_kept(token, steps, events, sent);
}

/// The token that a step holds.
spec fn token_of(step: TransportStep) -> Option<String> {
    match step {
        TransportStep::CheckInterrupt(awaiting) => Some(awaiting.token),
        TransportStep::Send(_, token) => Some(token),
        _ => None,
    }
}

proof fn token_is_kept(
    token: Option<String>,
    steps: Seq<TransportStep>,
    events: Seq<TransportEvent>,
    at: int,
)
    requires
        is_run(token, steps, events),
        0 <= at < steps.len(),
    ensures
        token_of(steps[at]) matches Some(held) ==> match token {
            Some(token) => held == token,
            None => at > 0 && events[0] == TransportEvent::Token(Ok(held)),
        },
        steps[at] is GetToken ==> at == 0,
    decreases at,
{
    if at > 0 {
        token_is_kept(token, steps, events, at - 1);
        assert(leads_to(steps[at - 1], events[at - 1], steps[at]));
    }
}

/// Nothing but a missing token or a pending interrupt keeps a request from being
/// sent, and it is sent only once.
pub proof fn a_request_is_sent_once_unless_it_is_stopped(
    token: Option<String>,
    steps: Seq<TransportStep>,
    events: Seq<TransportEvent>,
)
    requires
        is_run(token, steps, events),
        steps.last() is Done,
        forall|i: int|
            0 <= i < events.len() ==> match #[trigger] events[i] {
                TransportEvent::Token(token) => token is Ok,
                TransportEvent::Interrupt(interrupted) => !interrupted,
                TransportEvent::Outcome(_) => true,
            },
    ensures
        exists|sent: int|
            {
                &&& 0 <= sent < steps.len()
                &&& #[trigger] steps[sent] is Send
                &&& forall|other: int|
                    0 <= other < steps.len() && #[trigger] steps[other] is Send ==> other == sent
            },
{
    let before = if token is None {
        1int
    } else {
        0
    };
    assert(events.len() > 0);
    assert(leads_to(steps[0], events[0], steps[1]));
    if token is None {
        assert(events.len() > 1);
        assert(leads_to(steps[1], events[1], steps[2]));
    }
    assert(steps[before] is CheckInterrupt);
    assert(events.len() > before + 1);
    assert(leads_to(steps[before], events[before], steps[before + 1]));
    assert(leads_to(steps[before + 1], events[before + 1], steps[before + 2]));
    let sent = before + 2;
    assert(steps[sent] is Send);
    assert(leads_to(steps[sent], events[sent], steps[sent + 1]));
    assert(leads_to(steps[sent + 1], events[sent + 1], steps[sent + 2]));
    if sent + 2 < events.len() {
        assert(leads_to(steps[sent + 2], events[sent + 2], steps[sent + 3]));
    }
    assert(steps.len() == sent + 3);
}

/// A missing token is a token failure, and a pending interrupt an interruption,
/// neither of which was sent.
pub proof fn a_stopped_request_tells_what_stopped_it(
    token: Option<String>,
    steps: Seq<TransportStep>,
    events: Seq<TransportEvent>,
    at: int,
)
    requires
        is_run(token, steps, events),
        0 <= at < events.len(),
    ensures
        steps[at] is GetToken ==> (events[at] matches TransportEvent::Token(Err(error)) ==> steps[at
            + 1] == TransportStep::Done(Err(AppError::Token(Box::new(error), false)))),
        steps[at] is CheckInterrupt && events[at] == TransportEvent::Interrupt(true) ==> steps[at
            + 1] == TransportStep::Done(Err(AppError::Interrupted)),
{
    assert(leads_to(steps[at], events[at], steps[at + 1]));
}

} // verus!
