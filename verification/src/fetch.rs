//! Fetching a byte range of a piece: one attempt, and the retries around it.
//!
//! Both are state machines. The caller carries out each [`FetchStep`], and hands what came of
//! it back as a [`FetchReply`].

use vstd::prelude::*;
use vstd::string::*;

use crate::error::{ErrorKind, ErrorView, StorageError};
use crate::error::transfer_view;
use crate::http::{HttpStatus, PARTIAL_CONTENT};
use crate::http::{in_success_class, status_text};
use crate::text::push_decimal;
use crate::text::decimal;

verus! {

/// How often a fetch is tried before its error is reported.
pub const MAX_RETRIES: u32 = 3;

/// What came of the last step.
#[derive(Debug)]
pub enum FetchReply {
    /// A request permit was granted.
    PermitGranted,
    /// No permit can be had: the semaphore is closed.
    SemaphoreClosed(String),
    /// The server answered with a status.
    Responded(HttpStatus),
    /// The request could not be sent, or no answer came.
    SendFailed(String),
    /// The whole body of the response was read.
    BodyRead(Vec<u8>),
    /// The body of the response could not be read.
    BodyFailed(String),
    /// The pause is over.
    Slept,
}

/// What a [`FetchReply`] says.
pub enum ReplyView {
    PermitGranted,
    SemaphoreClosed(Seq<char>),
    Responded(u16),
    SendFailed(Seq<char>),
    BodyRead(Seq<u8>),
    BodyFailed(Seq<char>),
    Slept,
}

impl View for FetchReply {
    type V = ReplyView;

    open spec fn view(&self) -> ReplyView {
        match self {
            FetchReply::PermitGranted => ReplyView::PermitGranted,
            FetchReply::SemaphoreClosed(cause) => ReplyView::SemaphoreClosed(cause@),
            FetchReply::Responded(status) => ReplyView::Responded(status@),
            FetchReply::SendFailed(cause) => ReplyView::SendFailed(cause@),
            FetchReply::BodyRead(bytes) => ReplyView::BodyRead(bytes@),
            FetchReply::BodyFailed(cause) => ReplyView::BodyFailed(cause@),
            FetchReply::Slept => ReplyView::Slept,
        }
    }
}

/// What is to be done next.
#[derive(Debug)]
pub enum FetchStep {
    /// Wait for a request permit, and hold it until the attempt is over.
    AcquirePermit,
    /// Send a `GET` request with this `Range` header.
    Send { url: String, range: String },
    /// Read the body of the response.
    ReadBody,
    /// Pause before the next attempt: this one failed with the given error.
    Sleep { secs: u64, error: StorageError },
    /// Nothing: the fetch is over.
    Finish(Result<Vec<u8>, StorageError>),
}

/// What a [`FetchStep`] asks for.
pub enum StepView {
    AcquirePermit,
    Send { url: Seq<char>, range: Seq<char> },
    ReadBody,
    Sleep { secs: nat, error: ErrorView },
    Finish(Result<Seq<u8>, ErrorView>),
}

impl View for FetchStep {
    type V = StepView;

    open spec fn view(&self) -> StepView {
        match self {
            FetchStep::AcquirePermit => StepView::AcquirePermit,
            FetchStep::Send { url, range } => StepView::Send { url: url@, range: range@ },
            FetchStep::ReadBody => StepView::ReadBody,
            FetchStep::Sleep { secs, error } => StepView::Sleep {
                secs: *secs as nat,
                error: error@,
            },
            FetchStep::Finish(result) => StepView::Finish(transfer_view(*result)),
        }
    }
}

/// How far an attempt has come.
#[derive(Clone, Copy, Debug, PartialEq, Eq, Structural)]
pub enum AttemptStage {
    AwaitPermit,
    AwaitResponse,
    AwaitBody,
    Finished,
}

/// One attempt at fetching a byte range of a piece.
#[derive(Debug)]
pub struct RangeAttempt {
    piece: usize,
    url: String,
    range: String,
    stage: AttemptStage,
}

/// The state of a [`RangeAttempt`].
pub struct AttemptView {
    pub piece: nat,
    pub url: Seq<char>,
    pub range: Seq<char>,
    pub stage: AttemptStage,
}

impl View for RangeAttempt {
    type V = AttemptView;

    closed spec fn view(&self) -> AttemptView {
        AttemptView {
            piece: self.piece as nat,
            url: self.url@,
            range: self.range@,
            stage: self.stage,
        }
    }
}

/// An error of the kind that failed requests are reported with.
pub open spec fn other_error(message: Seq<char>) -> ErrorView {
    ErrorView { kind: ErrorKind::Other, message }
}

/// The message for a semaphore that is closed.
pub open spec fn closed_message(cause: Seq<char>) -> Seq<char> {
    "semaphore closed: "@ + cause
}

/// The message for a request that was not answered.
pub open spec fn send_message(piece: nat, cause: Seq<char>) -> Seq<char> {
    "HTTP error for piece "@ + decimal(piece) + ": "@ + cause
}

/// The message for a response whose status is no success.
pub open spec fn status_message(code: u16, piece: nat, range: Seq<char>) -> Seq<char> {
    "HTTP "@ + status_text(code) + " fetching piece "@ + decimal(piece) + " range "@ + range
}

/// The message for a body that could not be read.
pub open spec fn body_message(piece: nat, cause: Seq<char>) -> Seq<char> {
    "response body error for piece "@ + decimal(piece) + ": "@ + cause
}

impl AttemptView {
    /// The attempt at another stage.
    pub open spec fn at(self, stage: AttemptStage) -> AttemptView {
        AttemptView { stage, ..self }
    }

    /// Whether `reply` answers what the attempt is waiting for.
    pub open spec fn expects(self, reply: ReplyView) -> bool {
        match self.stage {
            AttemptStage::AwaitPermit => reply is PermitGranted || reply is SemaphoreClosed,
            AttemptStage::AwaitResponse => reply is Responded || reply is SendFailed,
            AttemptStage::AwaitBody => reply is BodyRead || reply is BodyFailed,
            AttemptStage::Finished => false,
        }
    }

    /// The attempt after an error.
    pub open spec fn failed(self, message: Seq<char>) -> (AttemptView, StepView) {
        (self.at(AttemptStage::Finished), StepView::Finish(Err(other_error(message))))
    }

    /// The attempt after `reply`, and what it asks for.
    pub open spec fn next(self, reply: ReplyView) -> (AttemptView, StepView)
        recommends
            self.expects(reply),
    {
        match reply {
            ReplyView::PermitGranted => (
                self.at(AttemptStage::AwaitResponse),
                StepView::Send { url: self.url, range: self.range },
            ),
            ReplyView::SemaphoreClosed(cause) => self.failed(closed_message(cause)),
            ReplyView::SendFailed(cause) => self.failed(send_message(self.piece, cause)),
            ReplyView::Responded(code) => if in_success_class(code) {
                (self.at(AttemptStage::AwaitBody), StepView::ReadBody)
            } else {
                self.failed(status_message(code, self.piece, self.range))
            },
            ReplyView::BodyFailed(cause) => self.failed(body_message(self.piece, cause)),
            ReplyView::BodyRead(bytes) => (
                self.at(AttemptStage::Finished),
                StepView::Finish(Ok(bytes)),
            ),
            ReplyView::Slept => (self, StepView::AcquirePermit),
        }
    }
}

/// The error that reports `message`.
fn request_error(message: String) -> (step: FetchStep)
    ensures
        step@ == StepView::Finish(Err(other_error(message@))),
        step matches FetchStep::Finish(Err(_)),
{
    FetchStep::Finish(Err(StorageError { kind: ErrorKind::Other, message }))
}

impl RangeAttempt {
    /// An attempt that waits for its permit.
    pub fn new(piece: usize, url: String, range: String) -> (attempt: RangeAttempt)
        ensures
            attempt@ == (AttemptView {
                piece: piece as nat,
                url: url@,
                range: range@,
                stage: AttemptStage::AwaitPermit,
            }),
    {
        RangeAttempt { piece, url, range, stage: AttemptStage::AwaitPermit }
    }

    /// Starts the attempt anew.
    fn restart(&mut self)
        ensures
            final(self)@ == old(self)@.at(AttemptStage::AwaitPermit),
    {
        self.stage = AttemptStage::AwaitPermit;
    }

    /// Whether the attempt holds its request permit.
    pub fn holds_permit(&self) -> (held: bool)
        ensures
            held == (self@.stage is AwaitResponse || self@.stage is AwaitBody),
    {
        match self.stage {
            AttemptStage::AwaitResponse => true,
            AttemptStage::AwaitBody => true,
            _ => false,
        }
    }

    /// Takes the attempt one step further.
    pub fn step(&mut self, reply: FetchReply) -> (step: FetchStep)
        requires
            old(self)@.expects(reply@),
        ensures
            (final(self)@, step@) == old(self)@.next(reply@),
            step matches FetchStep::Send { url, range } ==> url@ == old(self)@.url && range@
                == old(self)@.range,
            reply matches FetchReply::BodyRead(bytes) ==> step matches FetchStep::Finish(Ok(body))
                && body@ == bytes@,
    {
        match reply {
            FetchReply::PermitGranted => {
                self.stage = AttemptStage::AwaitResponse;
                FetchStep::Send { url: self.url.clone(), range: self.range.clone() }
            },
            FetchReply::SemaphoreClosed(cause) => {
                self.stage = AttemptStage::Finished;
                let mut message = String::from_str("semaphore closed: ");
                message.append(cause.as_str());
                request_error(message)
            },
            FetchReply::SendFailed(cause) => {
                self.stage = AttemptStage::Finished;
                let mut message = String::from_str("HTTP error for piece ");
                push_decimal(&mut message, self.piece as u64);
                message.append(": ");
                message.append(cause.as_str());
                request_error(message)
            },
            FetchReply::Responded(status) => {
                if status.is_success() || status.has_code(PARTIAL_CONTENT) {
                    self.stage = AttemptStage::AwaitBody;
                    FetchStep::ReadBody
                } else {
                    self.stage = AttemptStage::Finished;
                    let mut message = String::from_str("HTTP ");
                    message.append(status.text().as_str());
                    message.append(" fetching piece ");
                    push_decimal(&mut message, self.piece as u64);
                    message.append(" range ");
                    message.append(self.range.as_str());
                    request_error(message)
                }
            },
            FetchReply::BodyFailed(cause) => {
                self.stage = AttemptStage::Finished;
                let mut message = String::from_str("response body error for piece ");
                push_decimal(&mut message, self.piece as u64);
                message.append(": ");
                message.append(cause.as_str());
                request_error(message)
            },
            FetchReply::BodyRead(bytes) => {
                self.stage = AttemptStage::Finished;
                FetchStep::Finish(Ok(bytes))
            },
            FetchReply::Slept => FetchStep::AcquirePermit,
        }
    }
}

/// A fetch of a byte range of a piece: attempts, with pauses in between, until one succeeds
/// or the last has failed.
#[derive(Debug)]
pub struct RangeFetch {
    attempt: u32,
    current: RangeAttempt,
    paused: bool,
}

/// The state of a [`RangeFetch`].
pub struct FetchView {
    /// The number of the current attempt, counted from one.
    pub attempt: nat,
    /// The current attempt.
    pub current: AttemptView,
    /// Whether the fetch pauses before the next attempt.
    pub paused: bool,
}

impl View for RangeFetch {
    type V = FetchView;

    closed spec fn view(&self) -> FetchView {
        FetchView { attempt: self.attempt as nat, current: self.current@, paused: self.paused }
    }
}

/// The state in which a fetch of `range` at `url` starts.
pub open spec fn fetch_start(piece: nat, url: Seq<char>, range: Seq<char>) -> FetchView {
    FetchView {
        attempt: 1,
        current: AttemptView { piece, url, range, stage: AttemptStage::AwaitPermit },
        paused: false,
    }
}

impl FetchView {
    /// What holds of every state that a fetch comes into.
    pub open spec fn valid(self) -> bool {
        &&& 1 <= self.attempt <= MAX_RETRIES
        &&& self.paused ==> self.attempt < MAX_RETRIES && self.current.stage is Finished
    }

    /// Whether `reply` answers what the fetch is waiting for.
    pub open spec fn expects(self, reply: ReplyView) -> bool {
        if self.paused {
            reply is Slept
        } else {
            self.current.expects(reply)
        }
    }

    /// Whether a request permit is held.
    pub open spec fn holds_permit(self) -> bool {
        self.current.stage is AwaitResponse || self.current.stage is AwaitBody
    }

    /// The fetch after `reply`, and what it asks for. An attempt that fails is followed by a
    /// pause of as many seconds as there have been attempts, and then by the next attempt,
    /// but for the last one, whose error is the result.
    pub open spec fn next(self, reply: ReplyView) -> (FetchView, StepView)
        recommends
            self.expects(reply),
    {
        if self.paused {
            (
                FetchView {
                    attempt: self.attempt + 1,
                    current: self.current.at(AttemptStage::AwaitPermit),
                    paused: false,
                },
                StepView::AcquirePermit,
            )
        } else {
            let (current, step) = self.current.next(reply);
            match step {
                StepView::Finish(Err(error)) if self.attempt < MAX_RETRIES => (
                    FetchView { current, paused: true, ..self },
                    StepView::Sleep { secs: self.attempt, error },
                ),
                _ => (FetchView { current, ..self }, step),
            }
        }
    }
}

impl RangeFetch {
    #[verifier::type_invariant]
    spec fn attempts_are_bounded(self) -> bool {
        self@.valid()
    }

    /// A fetch that begins with the given attempt, and its first step.
    pub fn start(current: RangeAttempt) -> (started: (RangeFetch, FetchStep))
        requires
            current@.stage is AwaitPermit,
        ensures
            started.0@ == fetch_start(current@.piece, current@.url, current@.range),
            started.1@ == StepView::AcquirePermit,
    {
        (RangeFetch { attempt: 1, current, paused: false }, FetchStep::AcquirePermit)
    }

    /// Whether the fetch holds a request permit. A permit that is no longer held is to be
    /// given back.
    pub fn holds_permit(&self) -> (held: bool)
        ensures
            held == self@.holds_permit(),
    {
        self.current.holds_permit()
    }

    /// Takes the fetch one step further.
    pub fn step(self, reply: FetchReply) -> (stepped: (RangeFetch, FetchStep))
        requires
            self@.expects(reply@),
        ensures
            (stepped.0@, stepped.1@) == self@.next(reply@),
            stepped.1 matches FetchStep::Send { url, range } ==> url@ == self@.current.url
                && range@ == self@.current.range,
            stepped.1 matches FetchStep::Sleep { secs, .. } ==> secs == self@.attempt,
            reply matches FetchReply::BodyRead(bytes) ==> stepped.1 matches FetchStep::Finish(
                Ok(body),
            ) && body@ == bytes@,
    {
        proof {
            use_type_invariant(&self);
        }
        let RangeFetch { attempt, mut current, paused } = self;
        if paused {
            current.restart();
            return (
                RangeFetch { attempt: attempt + 1, current, paused: false },
                FetchStep::AcquirePermit,
            );
        }
        let step = current.step(reply);
        match step {
            FetchStep::Finish(Err(error)) => {
                if attempt < MAX_RETRIES {
                    (
                        RangeFetch { attempt, current, paused: true },
                        FetchStep::Sleep { secs: attempt as u64, error },
                    )
                } else {
                    (RangeFetch { attempt, current, paused: false }, FetchStep::Finish(Err(error)))
                }
            },
            other => (RangeFetch { attempt, current, paused: false }, other),
        }
    }
}

/// What is said of a step or of a reply is said of its own parts.
pub proof fn law_views_hide_nothing(step: FetchStep, reply: FetchReply)
    ensures
        match step {
            FetchStep::AcquirePermit => step@ == StepView::AcquirePermit,
            FetchStep::Send { url, range } => step@ == (StepView::Send {
                url: url@,
                range: range@,
            }),
            FetchStep::ReadBody => step@ == StepView::ReadBody,
            FetchStep::Sleep { secs, error } => step@ == (StepView::Sleep {
                secs: secs as nat,
                error: ErrorView { kind: error.kind, message: error.message@ },
            }),
            FetchStep::Finish(Ok(bytes)) => step@ == StepView::Finish(Ok(bytes@)),
            FetchStep::Finish(Err(error)) => step@ == StepView::Finish(
                Err(ErrorView { kind: error.kind, message: error.message@ }),
            ),
        },
        match reply {
            FetchReply::PermitGranted => reply@ == ReplyView::PermitGranted,
            FetchReply::SemaphoreClosed(cause) => reply@ == ReplyView::SemaphoreClosed(cause@),
            FetchReply::Responded(status) => reply@ == ReplyView::Responded(status@),
            FetchReply::SendFailed(cause) => reply@ == ReplyView::SendFailed(cause@),
            FetchReply::BodyRead(bytes) => reply@ == ReplyView::BodyRead(bytes@),
            FetchReply::BodyFailed(cause) => reply@ == ReplyView::BodyFailed(cause@),
            FetchReply::Slept => reply@ == ReplyView::Slept,
        },
{
}

} // verus!
