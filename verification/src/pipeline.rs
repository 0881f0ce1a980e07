//! The orchestrator: what is done with the answer of the origin, and with
//! the answer of the reading service.
//!
//! The functions here decide; they send and receive nothing. Their caller
//! performs what they return and hands back what came of it.

use vstd::prelude::*;
use vstd::utf8::{decode_utf8, valid_utf8};
use crate::batch::{
    count_readings_needed, hiragana_request_body, joined, reading_count, readings_from_response,
    readings_needed_of, request_body_of, split_tokens, ApiConfig, HiraganaResp,
};
use crate::error::PipelineError;
use crate::reassemble::{annotated, lemma_annotated_without_readings, reassemble};
use crate::segment::{analyze_jp, segmentation, Region, Segment};
use crate::text::{decode_text, same_text};

verus! {

/// The status of an answer that is annotated.
pub const STATUS_OK: u16 = 200;

/// The status of the answer to a request whose method is not served.
pub const STATUS_METHOD_NOT_ALLOWED: u16 = 405;

/// The text of the answer to a request whose method is not served.
pub const METHOD_NOT_ALLOWED_TEXT: &'static str = "This method is not allowed";

/// The status of an answer that names the place to which a page has moved.
pub const STATUS_MOVED_PERMANENTLY: u16 = 301;

/// The media type of the documents that are annotated.
pub const HTML_MEDIA_TYPE: &'static str = "text/html";

/// The places at the origin's own host: the only ones to which a redirect is
/// followed.
pub const ORIGIN_PATTERN: &'static str = "https?://www\\.fastly\\.jp/.*$";

/// The method of an inbound request.
#[derive(Clone, Copy, Debug, PartialEq, Eq, Structural)]
pub enum Method {
    Head,
    Get,
    Post,
    /// Any other method.
    Other,
}

/// What the origin answered, as far as the pipeline reads it.
#[derive(Clone, Debug, PartialEq, Eq)]
pub struct OriginResponse {
    pub status: u16,
    /// The value of the content-type header, if there is one.
    pub content_type: Option<String>,
    /// The value of the location header, if there is one.
    pub location: Option<String>,
    pub body: Vec<u8>,
}

/// An answer that the pipeline writes itself.
#[derive(Clone, Debug, PartialEq, Eq)]
pub struct ClientResponse {
    pub status: u16,
    /// The value of the content-type header, if the answer gets one.
    pub content_type: Option<String>,
    pub body: String,
}

/// What is to be done with an inbound request.
#[derive(Clone, Debug, PartialEq, Eq)]
pub enum RequestStep {
    /// Send the request on to the origin.
    FetchOrigin,
    /// Hand this answer to the client, and contact no backend.
    Reject(ClientResponse),
}

/// What becomes of an answer of the origin, redirects left aside.
#[derive(Clone, Debug, PartialEq, Eq)]
pub enum Decision {
    /// The answer goes to the client as it is.
    Passthrough(OriginResponse),
    /// The answer is a document with this text, to be annotated.
    Annotate(String),
    /// The request ends with a failure.
    Fail(PipelineError),
}

/// What is to be done once the origin has answered.
#[derive(Clone, Debug, PartialEq, Eq)]
pub enum OriginStep {
    /// Ask the origin once more, with a GET for this place.
    FollowRedirect(String),
    /// Hand the answer to the client as it is.
    Passthrough(OriginResponse),
    /// Send this body to the reading service, and keep the segments for its
    /// answer.
    RequestReadings { segments: Vec<Segment>, request_body: String },
    /// Hand this answer to the client.
    Respond(ClientResponse),
    /// End the request with a failure.
    Fail(PipelineError),
}

/// What came of the request to the reading service.
#[derive(Clone, Debug, PartialEq, Eq)]
pub enum ServiceReply {
    /// The service could not be reached.
    Unreachable,
    /// The service answered with this status, and with a body that held this
    /// record, or none.
    Answered { status: u16, record: Option<HiraganaResp> },
}

/// Whether a request with this method is served.
pub open spec fn is_accepted_method(method: Method) -> bool {
    method is Head || method is Get || method is Post
}

/// Whether the content-type header names the media type of HTML documents.
pub open spec fn is_html_media_type(content_type: Option<String>) -> bool {
    content_type matches Some(value) && value@ == HTML_MEDIA_TYPE@
}

/// Whether an answer of the origin is annotated: a success that carries an
/// HTML document.
pub open spec fn is_annotatable(origin: OriginResponse) -> bool {
    origin.status == STATUS_OK && is_html_media_type(origin.content_type)
}

/// Whether a regular expression finds a match in `haystack`: `None` where
/// `pattern` does not compile, else whether the expression compiled from it
/// matches anywhere in `haystack`.
pub uninterp spec fn regex_match(pattern: Seq<char>, haystack: Seq<char>) -> Option<bool>;

/// Whether the place that a redirect names lies at the origin's own host.
pub open spec fn location_match(location: Option<String>) -> Option<bool> {
    match location {
        Some(place) => regex_match(ORIGIN_PATTERN@, place@),
        None => None,
    }
}

/// Whether a redirect is followed: the page has moved permanently, no
/// redirect was followed before, and the new place is named and matched.
pub open spec fn redirect_rule(
    origin: OriginResponse,
    redirected: bool,
    matched: Option<bool>,
) -> bool {
    &&& origin.status == STATUS_MOVED_PERMANENTLY
    &&& !redirected
    &&& origin.location is Some
    &&& matched == Some(true)
}

/// What is done with a document of this text: with no segment that gets a
/// reading the document is the answer, else the segments wait for the
/// readings that one request to the service asks for.
pub open spec fn is_plan_for(step: OriginStep, text: Seq<char>, config: ApiConfig) -> bool {
    let segments = segmentation(text, Region::Markup);
    if reading_count(segments) == 0 {
        &&& step matches OriginStep::Respond(response)
        &&& is_annotated_response(response, text)
    } else {
        &&& step matches OriginStep::RequestReadings { segments: kept, request_body }
        &&& kept.deep_view() == segments
        &&& request_body@ == request_body_of(
            config.app_id@,
            joined(readings_needed_of(segments)),
            config.output_type@,
        )
    }
}

/// What is done once the origin has answered, given whether the place that
/// the answer names was matched: a redirect that the rule admits is
/// followed; any other answer that is no success, or carries no HTML
/// document, goes to the client unchanged; a document that cannot be decoded
/// ends the request; any other document is annotated.
pub open spec fn is_step_for(
    step: OriginStep,
    origin: OriginResponse,
    redirected: bool,
    matched: Option<bool>,
    config: ApiConfig,
) -> bool {
    if redirect_rule(origin, redirected, matched) {
        &&& step matches OriginStep::FollowRedirect(target)
        &&& origin.location matches Some(place)
        &&& target@ == place@
    } else if !is_annotatable(origin) {
        step == OriginStep::Passthrough(origin)
    } else if !valid_utf8(origin.body@) {
        step == OriginStep::Fail(PipelineError::Decode)
    } else {
        is_plan_for(step, decode_utf8(origin.body@), config)
    }
}

/// Whether `response` is the success that carries the document `body`.
pub open spec fn is_annotated_response(response: ClientResponse, body: Seq<char>) -> bool {
    &&& response.status == STATUS_OK
    &&& response.content_type matches Some(value)
    &&& value@ == HTML_MEDIA_TYPE@
    &&& response.body@ == body
}

/// Whether `response` refuses a request for its method.
pub open spec fn is_method_refusal(response: ClientResponse) -> bool {
    &&& response.status == STATUS_METHOD_NOT_ALLOWED
    &&& response.content_type is None
    &&& response.body@ == METHOD_NOT_ALLOWED_TEXT@
}

/// `regex::Regex::new` compiles the pattern, and `regex::Regex::is_match`
/// tells whether the compiled expression matches anywhere in the haystack.
/// Both depend on the two strings alone.
#[verifier::external_body]
fn pattern_matches(pattern: &str, haystack: &str) -> (matched: Option<bool>)
    ensures
        matched == regex_match(pattern@, haystack@),
{
    match regex::Regex::new(pattern) {
        Ok(expression) => Some(expression.is_match(haystack)),
        Err(_) => None,
    }
}

/// Accepts the methods that are served, and rejects every other.
pub fn check_method(method: Method) -> (result: Result<(), PipelineError>)
    ensures
        is_accepted_method(method) ==> result == Ok::<(), PipelineError>(()),
        !is_accepted_method(method) ==> result == Err::<(), PipelineError>(
            PipelineError::UnsupportedMethod,
        ),
{
    match method {
        Method::Head => Ok(()),
        Method::Get => Ok(()),
        Method::Post => Ok(()),
        Method::Other => Err(PipelineError::UnsupportedMethod),
    }
}

/// Decides what is done with an inbound request: one with a method that is
/// served goes on to the origin, any other is refused at once.
pub fn on_request(method: Method) -> (step: RequestStep)
    ensures
        is_accepted_method(method) ==> step == RequestStep::FetchOrigin,
        !is_accepted_method(method) ==> {
            &&& step matches RequestStep::Reject(response)
            &&& is_method_refusal(response)
        },
{
    match check_method(method) {
        Ok(_) => RequestStep::FetchOrigin,
        Err(_) => RequestStep::Reject(
            ClientResponse {
                status: STATUS_METHOD_NOT_ALLOWED,
                content_type: None,
                body: METHOD_NOT_ALLOWED_TEXT.to_owned(),
            },
        ),
    }
}

/// Tells whether the content-type header names the media type of HTML
/// documents.
pub fn names_html(content_type: &Option<String>) -> (html: bool)
    ensures
        html == is_html_media_type(*content_type),
{
    match content_type {
        Some(value) => same_text(value.as_str(), HTML_MEDIA_TYPE),
        None => false,
    }
}

/// Decides what becomes of an answer of the origin. An answer that is no
/// success, or carries no HTML document, goes to the client unchanged.
pub fn decide(origin: OriginResponse) -> (decision: Decision)
    ensures
        !is_annotatable(origin) ==> decision == Decision::Passthrough(origin),
        is_annotatable(origin) && !valid_utf8(origin.body@) ==> decision == Decision::Fail(
            PipelineError::Decode,
        ),
        is_annotatable(origin) && valid_utf8(origin.body@) ==> {
            &&& decision matches Decision::Annotate(text)
            &&& text@ == decode_utf8(origin.body@)
        },
{
    if origin.status != STATUS_OK || !names_html(&origin.content_type) {
        return Decision::Passthrough(origin);
    }
    match decode_text(origin.body.as_slice()) {
        Some(text) => Decision::Annotate(text),
        None => Decision::Fail(PipelineError::Decode),
    }
}

/// Tells whether the place that a redirect names lies at the origin's own
/// host.
pub fn location_matches_origin(location: &Option<String>) -> (matched: Option<bool>)
    ensures
        matched == location_match(*location),
{
    match location {
        Some(place) => pattern_matches(ORIGIN_PATTERN, place.as_str()),
        None => None,
    }
}

/// Plans the annotation of a document: cuts it into segments and, where any
/// of them gets a reading, writes the one request that asks for all the
/// readings. Where none does, the document is the answer and the service is
/// not asked.
pub fn plan_annotation(text: &str, config: &ApiConfig) -> (step: OriginStep)
    ensures
        is_plan_for(step, text@, *config),
{
    let (segments, sentence) = analyze_jp(text);
    if count_readings_needed(&segments) > 0 {
        let request_body = hiragana_request_body(config, sentence.as_str());
        return OriginStep::RequestReadings { segments, request_body };
    }
    let no_readings: Vec<String> = Vec::new();
    proof {
        lemma_annotated_without_readings(segments.deep_view(), no_readings.deep_view());
    }
    match reassemble(&segments, &no_readings) {
        Ok(body) => OriginStep::Respond(
            ClientResponse {
                status: STATUS_OK,
                content_type: Some(HTML_MEDIA_TYPE.to_owned()),
                body,
            },
        ),
        Err(error) => OriginStep::Fail(error),
    }
}

/// Decides what is done once the origin has answered, given whether the
/// place that the answer names lies at the origin's own host.
pub fn on_origin_response_matched(
    origin: OriginResponse,
    redirected: bool,
    matched: Option<bool>,
    config: &ApiConfig,
) -> (step: OriginStep)
    ensures
        is_step_for(step, origin, redirected, matched, *config),
{
    if origin.status == STATUS_MOVED_PERMANENTLY && !redirected {
        match (&origin.location, matched) {
            (Some(place), Some(true)) => {
                return OriginStep::FollowRedirect(place.clone());
            },
            _ => {},
        }
    }
    match decide(origin) {
        Decision::Passthrough(unchanged) => OriginStep::Passthrough(unchanged),
        Decision::Annotate(text) => plan_annotation(text.as_str(), config),
        Decision::Fail(error) => OriginStep::Fail(error),
    }
}

/// Decides what is done once the origin has answered. `redirected` tells
/// whether this answer came from following a redirect: no second one is
/// followed.
pub fn on_origin_response(origin: OriginResponse, redirected: bool, config: &ApiConfig) -> (step:
    OriginStep)
    ensures
        is_step_for(step, origin, redirected, location_match(origin.location), *config),
        redirected ==> !(step is FollowRedirect),
{
    let matched = if origin.status == STATUS_MOVED_PERMANENTLY && !redirected {
        location_matches_origin(&origin.location)
    } else {
        None
    };
    on_origin_response_matched(origin, redirected, matched, config)
}

/// Decides how the request ends once the reading service has answered for
/// the segments that were kept.
pub fn on_service_reply(segments: &Vec<Segment>, reply: ServiceReply) -> (result: Result<
    ClientResponse,
    PipelineError,
>)
    ensures
        match reply {
            ServiceReply::Unreachable => result == Err::<ClientResponse, PipelineError>(
                PipelineError::Transport,
            ),
            ServiceReply::Answered { status, record } => {
                if status != STATUS_OK {
                    result == Err::<ClientResponse, PipelineError>(PipelineError::Transport)
                } else {
                    match record {
                        None => result == Err::<ClientResponse, PipelineError>(
                            PipelineError::Decode,
                        ),
                        Some(answer) => {
                            let readings = split_tokens(answer.converted@);
                            if readings.len() == reading_count(segments.deep_view()) {
                                &&& result matches Ok(response)
                                &&& is_annotated_response(
                                    response,
                                    annotated(segments.deep_view(), readings),
                                )
                            } else {
                                &&& readings.len() <= usize::MAX
                                &&& result == Err::<ClientResponse, PipelineError>(
                                    PipelineError::AlignmentMismatch {
                                        expected: reading_count(segments.deep_view()) as usize,
                                        found: readings.len() as usize,
                                    },
                                )
                            }
                        },
                    }
                }
            },
        },
{
    match reply {
        ServiceReply::Unreachable => Err(PipelineError::Transport),
        ServiceReply::Answered { status, record } => {
            if status != STATUS_OK {
                return Err(PipelineError::Transport);
            }
            match record {
                None => Err(PipelineError::Decode),
                Some(answer) => {
                    let expected = count_readings_needed(segments);
                    match readings_from_response(&answer, expected) {
                        Ok(readings) => match reassemble(segments, &readings) {
                            Ok(body) => Ok(
                                ClientResponse {
                                    status: STATUS_OK,
                                    content_type: Some(HTML_MEDIA_TYPE.to_owned()),
                                    body,
                                },
                            ),
                            Err(error) => Err(error),
                        },
                        Err(error) => Err(error),
                    }
                },
            }
        },
    }
}

} // verus!
