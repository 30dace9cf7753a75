//! The single-request fetch behind the C interface.

use vstd::prelude::*;
use vstd::string::*;
use vstd::utf8::*;

use crate::http::{HttpStatus, OK, PARTIAL_CONTENT, signed_byte_range};
use crate::http::{in_success_class, range_header, status_text};

verus! {

/// What the C interface returns where a call fails.
pub const FAILURE: i32 = -1;

/// What came of the last step.
#[derive(Debug)]
pub enum DirectReply {
    /// The server answered with a status.
    Responded(HttpStatus),
    /// The request could not be sent, or no answer came.
    SendFailed(String),
    /// The whole body of the response was read.
    BodyRead(Vec<u8>),
    /// The body of the response could not be read.
    BodyFailed(String),
}

/// What a [`DirectReply`] says.
pub enum DirectReplyView {
    Responded(u16),
    SendFailed(Seq<char>),
    BodyRead(Seq<u8>),
    BodyFailed(Seq<char>),
}

impl View for DirectReply {
    type V = DirectReplyView;

    open spec fn view(&self) -> DirectReplyView {
        match self {
            DirectReply::Responded(status) => DirectReplyView::Responded(status@),
            DirectReply::SendFailed(cause) => DirectReplyView::SendFailed(cause@),
            DirectReply::BodyRead(bytes) => DirectReplyView::BodyRead(bytes@),
            DirectReply::BodyFailed(cause) => DirectReplyView::BodyFailed(cause@),
        }
    }
}

/// What is to be done next.
#[derive(Debug)]
pub enum DirectStep {
    /// Send a `GET` request with this `Range` header.
    Send { url: String, range: String },
    /// Read the body of the response.
    ReadBody,
    /// Nothing: the fetch is over.
    Finish(Result<Vec<u8>, String>),
}

/// What a [`DirectStep`] asks for.
pub enum DirectStepView {
    Send { url: Seq<char>, range: Seq<char> },
    ReadBody,
    Finish(Result<Seq<u8>, Seq<char>>),
}

impl View for DirectStep {
    type V = DirectStepView;

    open spec fn view(&self) -> DirectStepView {
        match self {
            DirectStep::Send { url, range } => DirectStepView::Send { url: url@, range: range@ },
            DirectStep::ReadBody => DirectStepView::ReadBody,
            DirectStep::Finish(Ok(bytes)) => DirectStepView::Finish(Ok(bytes@)),
            DirectStep::Finish(Err(error)) => DirectStepView::Finish(Err(error@)),
        }
    }
}

/// A fetch of one byte range, by one request.
#[derive(Clone, Copy, Debug, PartialEq, Eq, Structural)]
pub enum DirectFetch {
    AwaitResponse,
    AwaitBody,
    Finished,
}

/// Whether a response with this status code carries the bytes that were asked for.
pub open spec fn carries_bytes(code: u16) -> bool {
    code == OK || code == PARTIAL_CONTENT
}

impl DirectFetch {
    /// Whether `reply` answers what the fetch is waiting for.
    pub open spec fn expects(self, reply: DirectReplyView) -> bool {
        match self {
            DirectFetch::AwaitResponse => reply is Responded || reply is SendFailed,
            DirectFetch::AwaitBody => reply is BodyRead || reply is BodyFailed,
            DirectFetch::Finished => false,
        }
    }

    /// The fetch after `reply`, and what it asks for.
    pub open spec fn next(self, reply: DirectReplyView) -> (DirectFetch, DirectStepView)
        recommends
            self.expects(reply),
    {
        match reply {
            DirectReplyView::Responded(code) => if carries_bytes(code) {
                (DirectFetch::AwaitBody, DirectStepView::ReadBody)
            } else {
                (
                    DirectFetch::Finished,
                    DirectStepView::Finish(Err("HTTP "@ + status_text(code))),
                )
            },
            DirectReplyView::SendFailed(cause) => (
                DirectFetch::Finished,
                DirectStepView::Finish(Err("request: "@ + cause)),
            ),
            DirectReplyView::BodyRead(bytes) => (
                DirectFetch::Finished,
                DirectStepView::Finish(Ok(bytes)),
            ),
            DirectReplyView::BodyFailed(cause) => (
                DirectFetch::Finished,
                DirectStepView::Finish(Err("body: "@ + cause)),
            ),
        }
    }

    /// Takes the fetch one step further.
    pub fn step(&mut self, reply: DirectReply) -> (step: DirectStep)
        requires
            old(self).expects(reply@),
        ensures
            (*final(self), step@) == old(self).next(reply@),
            reply matches DirectReply::BodyRead(bytes) ==> step matches DirectStep::Finish(Ok(body))
                && body@ == bytes@,
    {
        match reply {
            DirectReply::Responded(status) => {
                if status.has_code(OK) || status.has_code(PARTIAL_CONTENT) {
                    *self = DirectFetch::AwaitBody;
                    DirectStep::ReadBody
                } else {
                    *self = DirectFetch::Finished;
                    let mut error = String::from_str("HTTP ");
                    error.append(status.text().as_str());
                    DirectStep::Finish(Err(error))
                }
            },
            DirectReply::SendFailed(cause) => {
                *self = DirectFetch::Finished;
                let mut error = String::from_str("request: ");
                error.append(cause.as_str());
                DirectStep::Finish(Err(error))
            },
            DirectReply::BodyRead(bytes) => {
                *self = DirectFetch::Finished;
                DirectStep::Finish(Ok(bytes))
            },
            DirectReply::BodyFailed(cause) => {
                *self = DirectFetch::Finished;
                let mut error = String::from_str("body: ");
                error.append(cause.as_str());
                DirectStep::Finish(Err(error))
            },
        }
    }
}

/// Fetches `len` bytes at `url` from `offset` on: the fetch, and its first step.
pub fn do_fetch(url: &str, offset: i32, len: i32) -> (started: (DirectFetch, DirectStep))
    requires
        i32::MIN < offset + len <= i32::MAX,
    ensures
        started.0 == DirectFetch::AwaitResponse,
        started.1@ == (DirectStepView::Send {
            url: url@,
            range: range_header(offset as int, offset + len - 1),
        }),
{
    let range = signed_byte_range(offset, len);
    (DirectFetch::AwaitResponse, DirectStep::Send { url: String::from_str(url), range })
}

/// The error of a text that is not UTF-8.
#[verifier::external_type_specification]
#[verifier::external_body]
pub struct ExUtf8Error(core::str::Utf8Error);

/// `core::str::from_utf8` succeeds exactly on UTF-8, and then gives the text that the bytes
/// encode.
pub assume_specification[ core::str::from_utf8 ](v: &[u8]) -> (text: Result<
    &str,
    core::str::Utf8Error,
>)
    ensures
        text is Ok <==> valid_utf8(v@),
        text matches Ok(s) ==> encode_utf8(s@) == v@,
;

/// Whether a call of the C interface names something to fetch and a place to put it.
pub open spec fn is_call_valid(url: Option<&[u8]>, len: i32, has_output: bool) -> bool {
    url matches Some(bytes) && has_output && len > 0 && valid_utf8(bytes@)
}

/// The text of the URL of a call of the C interface, where the call is valid. `url` holds the
/// bytes of the C string, where there is one; `has_output` says whether there is an output
/// buffer.
pub fn call_url(url: Option<&[u8]>, len: i32, has_output: bool) -> (text: Option<&str>)
    ensures
        text is Some <==> is_call_valid(url, len, has_output),
        text matches Some(t) ==> t@ == decode_utf8(url->0@),
{
    let bytes: &[u8] = match url {
        Some(bytes) => bytes,
        None => return None,
    };
    if !has_output || len <= 0 {
        return None;
    }
    match core::str::from_utf8(bytes) {
        Ok(text) => {
            proof {
                encode_utf8_decode_utf8(text@);
            }
            Some(text)
        },
        Err(_) => None,
    }
}

/// Begins a call of the C interface. A call that is not valid is answered with the code of a
/// failure.
pub fn cdn_fetch(url: Option<&[u8]>, offset: i32, len: i32, has_output: bool) -> (started: Result<
    (DirectFetch, DirectStep),
    i32,
>)
    requires
        is_call_valid(url, len, has_output) ==> offset + len <= i32::MAX,
    ensures
        match started {
            Ok((fetch, step)) => {
                &&& is_call_valid(url, len, has_output)
                &&& fetch == DirectFetch::AwaitResponse
                &&& step@ == (DirectStepView::Send {
                    url: decode_utf8(url->0@),
                    range: range_header(offset as int, offset + len - 1),
                })
            },
            Err(code) => !is_call_valid(url, len, has_output) && code == FAILURE,
        },
{
    match call_url(url, len, has_output) {
        Some(text) => Ok(do_fetch(text, offset, len)),
        None => Err(FAILURE),
    }
}

/// How a call of the C interface ends.
#[derive(Debug)]
pub struct CallEnd {
    /// What the call returns: the number of bytes put into the output buffer, or the code of
    /// a failure.
    pub code: i32,
    /// What is put into the output buffer.
    pub bytes: Vec<u8>,
    /// What is written to the error output.
    pub complaint: Option<String>,
}

/// The length of a body as a 32-bit number.
pub open spec fn length_32(len: nat) -> nat {
    len % 0x1_0000_0000
}

/// How many bytes of a body go into an output buffer of `len` bytes.
pub open spec fn output_len(body: nat, len: int) -> int {
    if length_32(body) < len {
        length_32(body) as int
    } else {
        len
    }
}

/// Ends a call of the C interface that asked for `len` bytes.
pub fn finish_cdn_fetch(fetched: Result<Vec<u8>, String>, len: i32) -> (end: CallEnd)
    requires
        len > 0,
        fetched matches Ok(body) ==> length_32(body@.len()) <= i32::MAX,
    ensures
        match fetched {
            Ok(body) => {
                &&& end.code == output_len(body@.len(), len as int)
                &&& end.bytes@ == body@.take(end.code as int)
                &&& end.complaint is None
            },
            Err(error) => {
                &&& end.code == FAILURE
                &&& end.bytes@ == Seq::<u8>::empty()
                &&& end.complaint matches Some(complaint)
                &&& complaint@ == "[cdn_fetch] "@ + error@
            },
        },
{
    match fetched {
        Ok(body) => {
            let mut bytes = body;
            let body_len: u64 = bytes.len() as u64 % 0x1_0000_0000u64;
            let code: i32 = if body_len < len as u64 {
                body_len as i32
            } else {
                len
            };
            bytes.truncate(code as usize);
            CallEnd { code, bytes, complaint: None }
        },
        Err(error) => {
            let mut complaint = String::from_str("[cdn_fetch] ");
            complaint.append(error.as_str());
            CallEnd { code: FAILURE, bytes: Vec::new(), complaint: Some(complaint) }
        },
    }
}

/// A call puts at most `len` bytes into the output buffer, and never more than the body has;
/// a body of less than two gibibytes that fits is put there whole.
pub proof fn law_output_fits(body: nat, len: int)
    requires
        len > 0,
        length_32(body) <= i32::MAX,
    ensures
        0 <= output_len(body, len) <= len,
        output_len(body, len) <= body,
        body <= i32::MAX && body <= len ==> output_len(body, len) == body,
        body <= i32::MAX && body > len ==> output_len(body, len) == len,
{
}

/// Every status that this fetch accepts, the storage accepts too.
pub proof fn law_accepted_statuses_are_successes(code: u16)
    requires
        carries_bytes(code),
    ensures
        in_success_class(code),
{
}

/// A fetch gives the bytes of the body where the server answers with 200 or 206 and the body
/// can be read, and else the first error that it meets with.
pub proof fn law_direct_fetch_result(code: u16, body: Result<Seq<u8>, Seq<char>>)
    ensures
        ({
            let (fetch, step) = DirectFetch::AwaitResponse.next(DirectReplyView::Responded(code));
            let (end, last) = fetch.next(
                match body {
                    Ok(bytes) => DirectReplyView::BodyRead(bytes),
                    Err(cause) => DirectReplyView::BodyFailed(cause),
                },
            );
            if carries_bytes(code) {
                &&& step == DirectStepView::ReadBody
                &&& end == DirectFetch::Finished
                &&& last == DirectStepView::Finish(
                    match body {
                        Ok(bytes) => Ok(bytes),
                        Err(cause) => Err("body: "@ + cause),
                    },
                )
            } else {
                &&& fetch == DirectFetch::Finished
                &&& step == DirectStepView::Finish(Err("HTTP "@ + status_text(code)))
            }
        }),
{
}

/// A call is answered with a request exactly where it has a URL that is UTF-8, a buffer, and at
/// least one byte to fetch.
pub proof fn law_call_needs_all_its_arguments(url: Option<&[u8]>, len: i32, has_output: bool)
    ensures
        is_call_valid(None, len, has_output) == false,
        is_call_valid(url, len, false) == false,
        is_call_valid(url, len, has_output) ==> len >= 1,
        url matches Some(bytes) ==> (is_call_valid(url, len, true) <==> len >= 1 && valid_utf8(
            bytes@,
        )),
{
}

/// The length of a body as a 32-bit number differs from its length by whole multiples of the
/// range of such numbers, and so not at all for a body within that range. What goes into the
/// output is all of that, or else all that the buffer takes.
pub proof fn law_output_is_as_long_as_it_can_be(body: nat, len: int)
    requires
        len > 0,
    ensures
        length_32(body) < 0x1_0000_0000,
        (body - length_32(body)) % 0x1_0000_0000 == 0,
        output_len(body, len) <= len,
        output_len(body, len) <= length_32(body),
        output_len(body, len) == len || output_len(body, len) == length_32(body),
{
}

/// Whatever the server does, a fetch goes from the response to the body and no further. Only the
/// codes 200 and 206 lead to the body, whose bytes are then the result as they came; every other
/// way the fetch is over with an error that ends with the cause.
pub proof fn law_direct_fetch_steps(code: u16, cause: Seq<char>, bytes: Seq<u8>)
    ensures
        ({
            let start = DirectFetch::AwaitResponse;
            let (after, step) = start.next(DirectReplyView::Responded(code));
            let (unsent, unsent_step) = start.next(DirectReplyView::SendFailed(cause));
            let body = DirectFetch::AwaitBody;
            let (read, read_step) = body.next(DirectReplyView::BodyRead(bytes));
            let (cut, cut_step) = body.next(DirectReplyView::BodyFailed(cause));
            &&& start.expects(DirectReplyView::Responded(code))
            &&& start.expects(DirectReplyView::SendFailed(cause))
            &&& body.expects(DirectReplyView::BodyRead(bytes))
            &&& body.expects(DirectReplyView::BodyFailed(cause))
            &&& code == 200 || code == 206 <==> step == DirectStepView::ReadBody
            &&& code == 200 || code == 206 <==> after == body
            &&& !(code == 200 || code == 206) ==> after == DirectFetch::Finished && (step matches
                DirectStepView::Finish(Err(error)) && error.take(5) == "HTTP "@ && error.skip(5)
                == status_text(code))
            &&& unsent == DirectFetch::Finished
            &&& unsent_step matches DirectStepView::Finish(Err(error)) && error.take(9)
                == "request: "@ && error.skip(9) == cause
            &&& read == DirectFetch::Finished
            &&& read_step == DirectStepView::Finish(Ok(bytes))
            &&& cut == DirectFetch::Finished
            &&& cut_step matches DirectStepView::Finish(Err(error)) && error.take(6) == "body: "@
                && error.skip(6) == cause
        }),
{
    reveal_strlit("HTTP ");
    reveal_strlit("request: ");
    reveal_strlit("body: ");
    let http = "HTTP "@ + status_text(code);
    assert(http.take(5) =~= "HTTP "@ && http.skip(5) =~= status_text(code));
    let request = "request: "@ + cause;
    assert(request.take(9) =~= "request: "@ && request.skip(9) =~= cause);
    let body = "body: "@ + cause;
    assert(body.take(6) =~= "body: "@ && body.skip(6) =~= cause);
}

/// What is said of a step or of a reply is said of its own parts.
pub proof fn law_views_hide_nothing(step: DirectStep, reply: DirectReply)
    ensures
        match step {
            DirectStep::Send { url, range } => step@ == (DirectStepView::Send {
                url: url@,
                range: range@,
            }),
            DirectStep::ReadBody => step@ == DirectStepView::ReadBody,
            DirectStep::Finish(Ok(bytes)) => step@ == DirectStepView::Finish(Ok(bytes@)),
            DirectStep::Finish(Err(error)) => step@ == DirectStepView::Finish(Err(error@)),
        },
        match reply {
            DirectReply::Responded(status) => reply@ == DirectReplyView::Responded(status@),
            DirectReply::SendFailed(cause) => reply@ == DirectReplyView::SendFailed(cause@),
            DirectReply::BodyRead(bytes) => reply@ == DirectReplyView::BodyRead(bytes@),
            DirectReply::BodyFailed(cause) => reply@ == DirectReplyView::BodyFailed(cause@),
        },
{
}

} // verus!
