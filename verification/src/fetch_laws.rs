//! What holds of every fetch, whatever the network does.

use vstd::prelude::*;

use crate::error::{ErrorKind, ErrorView};
use crate::fetch::MAX_RETRIES;
use crate::fetch::{AttemptStage, FetchView, ReplyView, StepView};
use crate::fetch::{body_message, closed_message, fetch_start, other_error, send_message, status_message};
use crate::http::{in_success_class, status_text};
use crate::text::{decimal, digit_run, writes};
use crate::text::{law_decimal_reads_back, lemma_decimal_digits, lemma_digit_run};

verus! {

/// Whether each of `replies` answers what the fetch waits for when it comes.
pub open spec fn answers(fetch: FetchView, replies: Seq<ReplyView>) -> bool
    decreases replies.len(),
{
    replies.len() > 0 ==> {
        &&& fetch.expects(replies.first())
        &&& answers(fetch.next(replies.first()).0, replies.drop_first())
    }
}

/// The fetch after `replies`.
pub open spec fn after(fetch: FetchView, replies: Seq<ReplyView>) -> FetchView
    decreases replies.len(),
{
    if replies.len() == 0 {
        fetch
    } else {
        after(fetch.next(replies.first()).0, replies.drop_first())
    }
}

/// The steps that the fetch asks for in answer to `replies`.
pub open spec fn steps(fetch: FetchView, replies: Seq<ReplyView>) -> Seq<StepView>
    decreases replies.len(),
{
    if replies.len() == 0 {
        Seq::empty()
    } else {
        let (next, step) = fetch.next(replies.first());
        seq![step] + steps(next, replies.drop_first())
    }
}

/// How many of `steps` send a request.
pub open spec fn requests(steps: Seq<StepView>) -> nat
    decreases steps.len(),
{
    if steps.len() == 0 {
        0
    } else {
        requests(steps.drop_first()) + (if steps.first() is Send {
            1nat
        } else {
            0nat
        })
    }
}

/// How many seconds `steps` pause for.
pub open spec fn pause(steps: Seq<StepView>) -> nat
    decreases steps.len(),
{
    if steps.len() == 0 {
        0
    } else {
        pause(steps.drop_first()) + (match steps.first() {
            StepView::Sleep { secs, .. } => secs,
            _ => 0,
        })
    }
}

/// A valid fetch stays valid, and goes on with the piece, the URL and the range that it
/// started with.
pub proof fn law_step_keeps_the_request(fetch: FetchView, reply: ReplyView)
    requires
        fetch.valid(),
        fetch.expects(reply),
    ensures
        fetch.next(reply).0.valid(),
        fetch.next(reply).0.current.piece == fetch.current.piece,
        fetch.next(reply).0.current.url == fetch.current.url,
        fetch.next(reply).0.current.range == fetch.current.range,
        fetch.next(reply).1 matches StepView::Send { url, range } ==> {
            &&& url == fetch.current.url
            &&& range == fetch.current.range
        },
{
}

/// A request permit is held exactly from the moment it is granted to the end of the attempt:
/// the fetch asks for one only while it holds none, sends and reads only while it holds one,
/// and holds none while it pauses and once it is over.
pub proof fn law_permit_is_held_for_the_attempt(fetch: FetchView, reply: ReplyView)
    requires
        fetch.valid(),
        fetch.expects(reply),
    ensures
        ({
            let (next, step) = fetch.next(reply);
            match step {
                StepView::AcquirePermit => !fetch.holds_permit() && !next.holds_permit(),
                StepView::Send { .. } => reply is PermitGranted && next.holds_permit(),
                StepView::ReadBody => fetch.holds_permit() && next.holds_permit(),
                StepView::Sleep { .. } => !next.holds_permit(),
                StepView::Finish(_) => !next.holds_permit(),
            }
        }),
{
}

/// A fetch is over as soon as a body has been read, with its bytes; it is over with an error
/// only at the last attempt.
pub proof fn law_only_the_last_error_is_reported(fetch: FetchView, reply: ReplyView)
    requires
        fetch.valid(),
        fetch.expects(reply),
    ensures
        reply matches ReplyView::BodyRead(bytes) ==> fetch.next(reply).1 == StepView::Finish(
            Ok(bytes),
        ),
        fetch.next(reply).1 matches StepView::Finish(Ok(bytes)) ==> reply == ReplyView::BodyRead(
            bytes,
        ),
        fetch.next(reply).1 matches StepView::Finish(Err(_)) ==> fetch.attempt == MAX_RETRIES,
        fetch.next(reply).1 matches StepView::Sleep { secs, .. } ==> secs == fetch.attempt
            && fetch.attempt < MAX_RETRIES,
{
}

/// How many requests a fetch can still send.
spec fn requests_left(fetch: FetchView) -> int {
    MAX_RETRIES - fetch.attempt + (if !fetch.paused && fetch.current.stage is AwaitPermit {
        1int
    } else {
        0int
    })
}

proof fn lemma_requests_left(fetch: FetchView, replies: Seq<ReplyView>)
    requires
        fetch.valid(),
        answers(fetch, replies),
    ensures
        requests(steps(fetch, replies)) <= requests_left(fetch),
    decreases replies.len(),
{
    if replies.len() > 0 {
        let (next, step) = fetch.next(replies.first());
        lemma_requests_left(next, replies.drop_first());
        let rest = steps(next, replies.drop_first());
        assert((seq![step] + rest).drop_first() =~= rest);
    }
}

/// Whatever the network does, a fetch sends at most three requests.
pub proof fn law_at_most_three_requests(
    piece: nat,
    url: Seq<char>,
    range: Seq<char>,
    replies: Seq<ReplyView>,
)
    requires
        answers(fetch_start(piece, url, range), replies),
    ensures
        requests(steps(fetch_start(piece, url, range), replies)) <= 3,
{
    lemma_requests_left(fetch_start(piece, url, range), replies);
}

/// How many seconds a fetch can still pause for.
spec fn pause_left(fetch: FetchView) -> int {
    if fetch.attempt == 1 {
        if fetch.paused {
            2
        } else {
            3
        }
    } else if fetch.attempt == 2 && !fetch.paused {
        2
    } else {
        0
    }
}

proof fn lemma_pause_left(fetch: FetchView, replies: Seq<ReplyView>)
    requires
        fetch.valid(),
        answers(fetch, replies),
    ensures
        pause(steps(fetch, replies)) <= pause_left(fetch),
    decreases replies.len(),
{
    if replies.len() > 0 {
        let (next, step) = fetch.next(replies.first());
        lemma_pause_left(next, replies.drop_first());
        let rest = steps(next, replies.drop_first());
        assert((seq![step] + rest).drop_first() =~= rest);
    }
}

/// Whatever the network does, a fetch pauses for at most three seconds in all.
pub proof fn law_at_most_three_seconds_of_pause(
    piece: nat,
    url: Seq<char>,
    range: Seq<char>,
    replies: Seq<ReplyView>,
)
    requires
        answers(fetch_start(piece, url, range), replies),
    ensures
        pause(steps(fetch_start(piece, url, range), replies)) <= 3,
{
    lemma_pause_left(fetch_start(piece, url, range), replies);
}

/// How many replies a fetch can still take.
spec fn replies_left(fetch: FetchView) -> int {
    let stage = match fetch.current.stage {
        AttemptStage::AwaitPermit => 3int,
        AttemptStage::AwaitResponse => 2,
        AttemptStage::AwaitBody => 1,
        AttemptStage::Finished => 0,
    };
    4 * (MAX_RETRIES - fetch.attempt) + stage
}

proof fn lemma_replies_left(fetch: FetchView, replies: Seq<ReplyView>)
    requires
        fetch.valid(),
        answers(fetch, replies),
    ensures
        replies.len() <= replies_left(fetch),
    decreases replies.len(),
{
    if replies.len() > 0 {
        lemma_replies_left(fetch.next(replies.first()).0, replies.drop_first());
    }
}

/// Every fetch comes to an end: it takes at most eleven replies.
pub proof fn law_fetch_ends(
    piece: nat,
    url: Seq<char>,
    range: Seq<char>,
    replies: Seq<ReplyView>,
)
    requires
        answers(fetch_start(piece, url, range), replies),
    ensures
        replies.len() <= 11,
{
    lemma_replies_left(fetch_start(piece, url, range), replies);
}

/// What one attempt meets with.
pub enum Outcome {
    NoPermit(Seq<char>),
    NoResponse(Seq<char>),
    Refused(u16),
    NoBody(u16, Seq<char>),
    Body(u16, Seq<u8>),
}

impl Outcome {
    /// A status refuses the request exactly where it is no success.
    pub open spec fn consistent(self) -> bool {
        match self {
            Outcome::Refused(code) => !in_success_class(code),
            Outcome::NoBody(code, _) => in_success_class(code),
            Outcome::Body(code, _) => in_success_class(code),
            _ => true,
        }
    }

    /// The replies of an attempt with this outcome.
    pub open spec fn replies(self) -> Seq<ReplyView> {
        match self {
            Outcome::NoPermit(cause) => seq![ReplyView::SemaphoreClosed(cause)],
            Outcome::NoResponse(cause) => seq![
                ReplyView::PermitGranted,
                ReplyView::SendFailed(cause),
            ],
            Outcome::Refused(code) => seq![ReplyView::PermitGranted, ReplyView::Responded(code)],
            Outcome::NoBody(code, cause) => seq![
                ReplyView::PermitGranted,
                ReplyView::Responded(code),
                ReplyView::BodyFailed(cause),
            ],
            Outcome::Body(code, bytes) => seq![
                ReplyView::PermitGranted,
                ReplyView::Responded(code),
                ReplyView::BodyRead(bytes),
            ],
        }
    }

    /// How many requests an attempt with this outcome sends: one, unless it gets no permit.
    pub open spec fn requests(self) -> nat {
        if self is NoPermit {
            0
        } else {
            1
        }
    }

    /// The result of an attempt with this outcome.
    pub open spec fn result(self, piece: nat, range: Seq<char>) -> Result<Seq<u8>, ErrorView> {
        match self {
            Outcome::NoPermit(cause) => Err(other_error(closed_message(cause))),
            Outcome::NoResponse(cause) => Err(other_error(send_message(piece, cause))),
            Outcome::Refused(code) => Err(other_error(status_message(code, piece, range))),
            Outcome::NoBody(_, cause) => Err(other_error(body_message(piece, cause))),
            Outcome::Body(_, bytes) => Ok(bytes),
        }
    }
}

proof fn lemma_attempt(fetch: FetchView, outcome: Outcome)
    requires
        fetch.valid(),
        !fetch.paused,
        fetch.current.stage is AwaitPermit,
        outcome.consistent(),
    ensures
        ({
            let result = outcome.result(fetch.current.piece, fetch.current.range);
            let over = result is Ok || fetch.attempt == MAX_RETRIES;
            &&& answers(fetch, outcome.replies())
            &&& after(fetch, outcome.replies()) == (FetchView {
                attempt: fetch.attempt,
                current: fetch.current.at(AttemptStage::Finished),
                paused: !over,
            })
            &&& steps(fetch, outcome.replies()).len() > 0
            &&& steps(fetch, outcome.replies()).last() == (if over {
                StepView::Finish(result)
            } else {
                StepView::Sleep { secs: fetch.attempt, error: result->Err_0 }
            })
            &&& requests(steps(fetch, outcome.replies())) == outcome.requests()
            &&& pause(steps(fetch, outcome.replies())) == (if over {
                0
            } else {
                fetch.attempt
            })
        }),
{
    reveal_with_fuel(answers, 4);
    reveal_with_fuel(after, 4);
    reveal_with_fuel(steps, 4);
    reveal_with_fuel(requests, 4);
    reveal_with_fuel(pause, 4);
    let replies = outcome.replies();
    if replies.len() >= 1 {
        assert(replies.drop_first().len() == replies.len() - 1);
    }
    if replies.len() >= 2 {
        assert(replies.drop_first().first() == replies[1]);
    }
    if replies.len() >= 3 {
        assert(replies.drop_first().drop_first().first() == replies[2]);
    }
}

proof fn lemma_concat(fetch: FetchView, first: Seq<ReplyView>, second: Seq<ReplyView>)
    requires
        answers(fetch, first),
        answers(after(fetch, first), second),
    ensures
        answers(fetch, first + second),
        after(fetch, first + second) == after(after(fetch, first), second),
        steps(fetch, first + second) == steps(fetch, first) + steps(after(fetch, first), second),
    decreases first.len(),
{
    if first.len() == 0 {
        assert(first + second =~= second);
        assert(steps(fetch, first) + steps(fetch, second) =~= steps(fetch, second));
    } else {
        let (next, step) = fetch.next(first.first());
        lemma_concat(next, first.drop_first(), second);
        assert((first + second).drop_first() =~= first.drop_first() + second);
        assert((first + second).first() == first.first());
        assert(seq![step] + (steps(next, first.drop_first()) + steps(
            after(fetch, first),
            second,
        )) =~= (seq![step] + steps(next, first.drop_first())) + steps(
            after(fetch, first),
            second,
        ));
    }
}

/// The replies of a fetch whose attempts meet with these outcomes.
pub open spec fn fetch_replies(
    first: Outcome,
    second: Outcome,
    third: Outcome,
) -> Seq<ReplyView> {
    if first is Body {
        first.replies()
    } else if second is Body {
        first.replies() + (seq![ReplyView::Slept] + second.replies())
    } else {
        first.replies() + (seq![ReplyView::Slept] + (second.replies() + (seq![ReplyView::Slept]
            + third.replies())))
    }
}

/// The result of a fetch whose attempts meet with these outcomes: that of the first attempt
/// that reads a body, or else that of the third.
pub open spec fn fetch_result(
    piece: nat,
    range: Seq<char>,
    first: Outcome,
    second: Outcome,
    third: Outcome,
) -> Result<Seq<u8>, ErrorView> {
    if first is Body {
        first.result(piece, range)
    } else if second is Body {
        second.result(piece, range)
    } else {
        third.result(piece, range)
    }
}

proof fn lemma_slept(fetch: FetchView, rest: Seq<ReplyView>)
    requires
        fetch.valid(),
        fetch.paused,
        answers(
            FetchView {
                attempt: fetch.attempt + 1,
                current: fetch.current.at(AttemptStage::AwaitPermit),
                paused: false,
            },
            rest,
        ),
    ensures
        ({
            let retried = FetchView {
                attempt: fetch.attempt + 1,
                current: fetch.current.at(AttemptStage::AwaitPermit),
                paused: false,
            };
            let replies = seq![ReplyView::Slept] + rest;
            &&& answers(fetch, replies)
            &&& after(fetch, replies) == after(retried, rest)
            &&& steps(fetch, replies) == seq![StepView::AcquirePermit] + steps(retried, rest)
        }),
{
    let replies = seq![ReplyView::Slept] + rest;
    assert(replies.drop_first() =~= rest);
    assert(replies.first() is Slept);
}

/// The last step of a fetch reports the bytes of the first attempt that reads a body; where
/// none of the three does, it reports the error of the third.
pub proof fn law_fetch_result(
    piece: nat,
    url: Seq<char>,
    range: Seq<char>,
    first: Outcome,
    second: Outcome,
    third: Outcome,
)
    requires
        first.consistent(),
        second.consistent(),
        third.consistent(),
    ensures
        ({
            let fetch = fetch_start(piece, url, range);
            let replies = fetch_replies(first, second, third);
            &&& answers(fetch, replies)
            &&& steps(fetch, replies).len() > 0
            &&& steps(fetch, replies).last() == StepView::Finish(
                fetch_result(piece, range, first, second, third),
            )
        }),
{
    let start = fetch_start(piece, url, range);
    lemma_attempt(start, first);
    if !(first is Body) {
        let paused1 = after(start, first.replies());
        let retry1 = FetchView { attempt: 2, ..start };
        assert(paused1.current.at(AttemptStage::AwaitPermit) == start.current);
        lemma_attempt(retry1, second);
        if second is Body {
            lemma_slept(paused1, second.replies());
            let tail = seq![ReplyView::Slept] + second.replies();
            lemma_concat(start, first.replies(), tail);
        } else {
            let paused2 = after(retry1, second.replies());
            let retry2 = FetchView { attempt: 3, ..start };
            assert(paused2.current.at(AttemptStage::AwaitPermit) == start.current);
            lemma_attempt(retry2, third);
            lemma_slept(paused2, third.replies());
            let tail2 = seq![ReplyView::Slept] + third.replies();
            lemma_concat(retry1, second.replies(), tail2);
            lemma_slept(paused1, second.replies() + tail2);
            let tail1 = seq![ReplyView::Slept] + (second.replies() + tail2);
            lemma_concat(start, first.replies(), tail1);
        }
    }
}

proof fn lemma_sums(first: Seq<StepView>, second: Seq<StepView>)
    ensures
        requests(first + second) == requests(first) + requests(second),
        pause(first + second) == pause(first) + pause(second),
    decreases first.len(),
{
    if first.len() == 0 {
        assert(first + second =~= second);
    } else {
        assert((first + second).drop_first() =~= first.drop_first() + second);
        assert((first + second).first() == first.first());
        lemma_sums(first.drop_first(), second);
    }
}

proof fn lemma_acquire_again(rest: Seq<StepView>)
    ensures
        requests(seq![StepView::AcquirePermit] + rest) == requests(rest),
        pause(seq![StepView::AcquirePermit] + rest) == pause(rest),
{
    assert((seq![StepView::AcquirePermit] + rest).drop_first() =~= rest);
}

/// A fetch sends one request for each attempt that gets its permit, and none once a body has been
/// read. It pauses for one second behind the first attempt that fails and for two behind the
/// second, and not behind the third.
pub proof fn law_fetch_effort(
    piece: nat,
    url: Seq<char>,
    range: Seq<char>,
    first: Outcome,
    second: Outcome,
    third: Outcome,
)
    requires
        first.consistent(),
        second.consistent(),
        third.consistent(),
    ensures
        ({
            let taken = steps(
                fetch_start(piece, url, range),
                fetch_replies(first, second, third),
            );
            if first is Body {
                &&& requests(taken) == 1
                &&& pause(taken) == 0
            } else if second is Body {
                &&& requests(taken) == (if first is NoPermit { 0int } else { 1 }) + 1
                &&& pause(taken) == 1
            } else {
                &&& requests(taken) == (if first is NoPermit { 0int } else { 1 }) + (
                if second is NoPermit { 0int } else { 1 }) + (if third is NoPermit { 0int } else {
                    1
                })
                &&& pause(taken) == 3
            }
        }),
{
    let start = fetch_start(piece, url, range);
    lemma_attempt(start, first);
    if !(first is Body) {
        let paused1 = after(start, first.replies());
        let retry1 = FetchView { attempt: 2, ..start };
        assert(paused1.current.at(AttemptStage::AwaitPermit) == start.current);
        lemma_attempt(retry1, second);
        if second is Body {
            lemma_slept(paused1, second.replies());
            let tail = seq![ReplyView::Slept] + second.replies();
            lemma_concat(start, first.replies(), tail);
            lemma_sums(steps(start, first.replies()), steps(paused1, tail));
            lemma_acquire_again(steps(retry1, second.replies()));
        } else {
            let paused2 = after(retry1, second.replies());
            let retry2 = FetchView { attempt: 3, ..start };
            assert(paused2.current.at(AttemptStage::AwaitPermit) == start.current);
            lemma_attempt(retry2, third);
            lemma_slept(paused2, third.replies());
            let tail2 = seq![ReplyView::Slept] + third.replies();
            lemma_concat(retry1, second.replies(), tail2);
            lemma_sums(steps(retry1, second.replies()), steps(paused2, tail2));
            lemma_acquire_again(steps(retry2, third.replies()));
            lemma_slept(paused1, second.replies() + tail2);
            let tail1 = seq![ReplyView::Slept] + (second.replies() + tail2);
            lemma_concat(start, first.replies(), tail1);
            lemma_sums(steps(start, first.replies()), steps(paused1, tail1));
            lemma_acquire_again(steps(retry1, second.replies() + tail2));
        }
    }
}

proof fn lemma_sends(fetch: FetchView, replies: Seq<ReplyView>)
    requires
        answers(fetch, replies),
    ensures
        forall|i: int|
            0 <= i < steps(fetch, replies).len() ==> (#[trigger] steps(fetch, replies)[i] matches
                StepView::Send { url, range } ==> url == fetch.current.url && range
                == fetch.current.range),
    decreases replies.len(),
{
    if replies.len() > 0 {
        let (next, step) = fetch.next(replies.first());
        lemma_sends(next, replies.drop_first());
        let rest = steps(next, replies.drop_first());
        assert forall|i: int| 0 <= i < steps(fetch, replies).len() implies (
        #[trigger] steps(fetch, replies)[i] matches StepView::Send { url, range } ==> url
            == fetch.current.url && range == fetch.current.range) by {
            if i > 0 {
                assert(steps(fetch, replies)[i] == rest[i - 1]);
            }
        }
    }
}

/// Every request that a fetch sends, in whatever attempt, is for the URL and the range that it was
/// started with.
pub proof fn law_fetch_sends_only_its_request(
    piece: nat,
    url: Seq<char>,
    range: Seq<char>,
    replies: Seq<ReplyView>,
)
    requires
        answers(fetch_start(piece, url, range), replies),
    ensures
        forall|i: int|
            0 <= i < steps(fetch_start(piece, url, range), replies).len() ==> (#[trigger] steps(
                fetch_start(piece, url, range),
                replies,
            )[i] matches StepView::Send { url: sent, range: asked } ==> sent == url && asked
                == range),
{
    lemma_sends(fetch_start(piece, url, range), replies);
}

/// A new fetch waits for its permit. Granted one, it sends its request; answered with a code of
/// the two hundreds, it reads the body, and only then; and the body, as it came, is the result.
pub proof fn law_fetch_goes_straight_to_the_body(
    piece: nat,
    url: Seq<char>,
    range: Seq<char>,
    code: u16,
    bytes: Seq<u8>,
)
    ensures
        ({
            let start = fetch_start(piece, url, range);
            let (sent, first) = start.next(ReplyView::PermitGranted);
            let (answered, second) = sent.next(ReplyView::Responded(code));
            &&& start.expects(ReplyView::PermitGranted)
            &&& first == (StepView::Send { url, range })
            &&& sent.expects(ReplyView::Responded(code))
            &&& 200 <= code <= 299 <==> second == StepView::ReadBody
            &&& 200 <= code <= 299 ==> answered.expects(ReplyView::BodyRead(bytes))
                && answered.next(ReplyView::BodyRead(bytes)).1 == StepView::Finish(Ok(bytes))
        }),
{
}

/// An attempt that fails gives the error of its failure, with the piece, the range and the cause
/// of this very attempt: behind the first and the second attempt with the pause, whose seconds
/// are the number of the attempt, and behind the third as the result. What follows a pause is the
/// next attempt.
pub proof fn law_failed_attempt_is_reported(fetch: FetchView, cause: Seq<char>, code: u16)
    requires
        fetch.valid(),
        !fetch.paused,
    ensures
        fetch.attempt <= 3,
        fetch.current.stage is AwaitPermit ==> {
            let reply = ReplyView::SemaphoreClosed(cause);
            fetch.expects(reply) && reports(fetch, reply, closed_message(cause))
        },
        fetch.current.stage is AwaitResponse ==> {
            let reply = ReplyView::SendFailed(cause);
            fetch.expects(reply) && reports(fetch, reply, send_message(fetch.current.piece, cause))
        },
        fetch.current.stage is AwaitResponse && !(200 <= code <= 299) ==> {
            let reply = ReplyView::Responded(code);
            fetch.expects(reply) && reports(
                fetch,
                reply,
                status_message(code, fetch.current.piece, fetch.current.range),
            )
        },
        fetch.current.stage is AwaitBody ==> {
            let reply = ReplyView::BodyFailed(cause);
            fetch.expects(reply) && reports(fetch, reply, body_message(fetch.current.piece, cause))
        },
{
}

/// Whether `reply` makes the fetch give an error with this message: with a pause, behind which
/// comes the next attempt, or at the third attempt as the result.
pub open spec fn reports(fetch: FetchView, reply: ReplyView, message: Seq<char>) -> bool {
    let (next, step) = fetch.next(reply);
    if fetch.attempt < 3 {
        &&& step matches StepView::Sleep { secs, error }
        &&& secs == fetch.attempt
        &&& error.kind == ErrorKind::Other
        &&& error.message == message
        &&& next.expects(ReplyView::Slept)
        &&& next.next(ReplyView::Slept).1 == StepView::AcquirePermit
        &&& next.next(ReplyView::Slept).0.attempt == fetch.attempt + 1
    } else {
        &&& step matches StepView::Finish(Err(error))
        &&& error.kind == ErrorKind::Other
        &&& error.message == message
    }
}

proof fn lemma_number_in_text(text: Seq<char>, before: Seq<char>, n: nat, behind: Seq<char>)
    requires
        text == before + decimal(n) + behind,
        behind.len() > 0,
        !('0' <= behind[0] <= '9'),
    ensures
        text.len() >= before.len(),
        text.take(before.len() as int) == before,
        ({
            let rest = text.skip(before.len() as int);
            let end = digit_run(rest) as int;
            &&& end <= rest.len()
            &&& writes(rest.take(end), n)
            &&& rest.skip(end) == behind
        }),
{
    law_decimal_reads_back(n);
    lemma_decimal_digits(n);
    let rest = text.skip(before.len() as int);
    assert(text.take(before.len() as int) =~= before);
    assert(rest =~= decimal(n) + behind);
    lemma_digit_run(decimal(n), behind);
    assert(rest.take(decimal(n).len() as int) =~= decimal(n));
    assert(rest.skip(decimal(n).len() as int) =~= behind);
}

/// The message for a closed semaphore says so and ends with the cause.
pub proof fn law_closed_message_ends_with_the_cause(cause: Seq<char>)
    ensures
        closed_message(cause).take(18) == "semaphore closed: "@,
        closed_message(cause).skip(18) == cause,
{
    reveal_strlit("semaphore closed: ");
    assert(closed_message(cause).take(18) =~= "semaphore closed: "@);
    assert(closed_message(cause).skip(18) =~= cause);
}

/// The message for a request that was not answered reads back as the piece and the cause.
pub proof fn law_send_message_reads_back(piece: nat, cause: Seq<char>)
    ensures
        send_message(piece, cause).take(21) == "HTTP error for piece "@,
        ({
            let rest = send_message(piece, cause).skip(21);
            let end = digit_run(rest) as int;
            &&& writes(rest.take(end), piece)
            &&& rest.skip(end) == ": "@ + cause
        }),
{
    reveal_strlit("HTTP error for piece ");
    reveal_strlit(": ");
    let message = send_message(piece, cause);
    assert(message =~= "HTTP error for piece "@ + decimal(piece) + (": "@ + cause));
    lemma_number_in_text(message, "HTTP error for piece "@, piece, ": "@ + cause);
}

/// The message for a body that could not be read reads back as the piece and the cause.
pub proof fn law_body_message_reads_back(piece: nat, cause: Seq<char>)
    ensures
        body_message(piece, cause).take(30) == "response body error for piece "@,
        ({
            let rest = body_message(piece, cause).skip(30);
            let end = digit_run(rest) as int;
            &&& writes(rest.take(end), piece)
            &&& rest.skip(end) == ": "@ + cause
        }),
{
    reveal_strlit("response body error for piece ");
    reveal_strlit(": ");
    let message = body_message(piece, cause);
    assert(message =~= "response body error for piece "@ + decimal(piece) + (": "@ + cause));
    lemma_number_in_text(message, "response body error for piece "@, piece, ": "@ + cause);
}

/// The message for a status that is no success reads back as the status, the piece and the range.
pub proof fn law_status_message_reads_back(code: u16, piece: nat, range: Seq<char>)
    ensures
        ({
            let status = status_text(code);
            let size = status.len() as int;
            let message = status_message(code, piece, range);
            let rest = message.skip(21 + size);
            let end = digit_run(rest) as int;
            &&& message.take(5) == "HTTP "@
            &&& message.subrange(5, 5 + size) == status
            &&& message.subrange(5 + size, 21 + size) == " fetching piece "@
            &&& writes(rest.take(end), piece)
            &&& rest.skip(end) == " range "@ + range
        }),
{
    reveal_strlit("HTTP ");
    reveal_strlit(" fetching piece ");
    reveal_strlit(" range ");
    let status = status_text(code);
    let size = status.len() as int;
    let message = status_message(code, piece, range);
    let before = "HTTP "@ + status + " fetching piece "@;
    assert(message =~= before + decimal(piece) + (" range "@ + range));
    assert(before.len() == 21 + size);
    lemma_number_in_text(message, before, piece, " range "@ + range);
    assert(message.take(5) =~= "HTTP "@);
    assert(message.subrange(5, 5 + size) =~= status);
    assert(message.subrange(5 + size, 21 + size) =~= " fetching piece "@);
}

} // verus!
