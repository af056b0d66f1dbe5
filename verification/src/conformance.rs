//! The decisions of a conformance test program: what a request asks for and
//! what is answered. Reading and writing frames, the wire format and JSON
//! text are the program's part; it reports how each went and is told what
//! to do next.
use crate::text::same_text;
use vstd::prelude::*;

verus! {

/// The format of a payload, as the request numbers it.
#[derive(Clone, Copy, Debug, PartialEq, Eq, Structural)]
pub enum WireFormat {
    Unspecified,
    Protobuf,
    Json,
    Jspb,
    TextFormat,
}

/// The payload of a request.
#[derive(Debug, PartialEq)]
pub enum Payload {
    ProtobufPayload(Vec<u8>),
    JsonPayload(String),
    JspbPayload(String),
    TextPayload(String),
}

/// A request of the test runner.
#[derive(Debug, PartialEq)]
pub struct ConformanceRequest {
    pub payload: Option<Payload>,
    pub requested_output_format: i32,
    pub message_type: String,
    pub test_category: i32,
}

/// The answer to a request.
#[derive(Debug, PartialEq)]
pub enum ConformanceResponse {
    ParseError(String),
    SerializeError(String),
    ProtobufPayload(Vec<u8>),
    JsonPayload(String),
    Skipped(String),
}

/// The two message types that the tests use.
#[derive(Clone, Copy, Debug, PartialEq, Eq, Structural)]
pub enum TestMessage {
    Proto2,
    Proto3,
}

/// What a request leads to: an answer at once, or a message to be read from
/// the payload and written in the requested format.
#[derive(Debug, PartialEq)]
pub enum Step {
    Respond(ConformanceResponse),
    Run(TestMessage, Payload, WireFormat),
}

/// What follows once the payload was read: an answer, or the message to be
/// written in one of the two formats that can be written.
#[derive(Debug, PartialEq)]
pub enum Next {
    Respond(ConformanceResponse),
    WriteProtobuf,
    WriteJson,
}

/// The model of a response: which answer, with what in it.
pub ghost enum ResponseModel {
    ParseError(Seq<char>),
    SerializeError(Seq<char>),
    ProtobufPayload(Seq<u8>),
    JsonPayload(Seq<char>),
    Skipped(Seq<char>),
}

impl View for ConformanceResponse {
    type V = ResponseModel;

    open spec fn view(&self) -> ResponseModel {
        match self {
            ConformanceResponse::ParseError(m) => ResponseModel::ParseError(m@),
            ConformanceResponse::SerializeError(m) => ResponseModel::SerializeError(m@),
            ConformanceResponse::ProtobufPayload(b) => ResponseModel::ProtobufPayload(b@),
            ConformanceResponse::JsonPayload(t) => ResponseModel::JsonPayload(t@),
            ConformanceResponse::Skipped(m) => ResponseModel::Skipped(m@),
        }
    }
}

/// The format with the given number; no format where the number is none.
pub open spec fn format_of(number: i32) -> WireFormat {
    if number == 1 {
        WireFormat::Protobuf
    } else if number == 2 {
        WireFormat::Json
    } else if number == 3 {
        WireFormat::Jspb
    } else if number == 4 {
        WireFormat::TextFormat
    } else {
        WireFormat::Unspecified
    }
}

/// The format with the given number.
pub fn wire_format(number: i32) -> (r: WireFormat)
    ensures
        r == format_of(number),
{
    if number == 1 {
        WireFormat::Protobuf
    } else if number == 2 {
        WireFormat::Json
    } else if number == 3 {
        WireFormat::Jspb
    } else if number == 4 {
        WireFormat::TextFormat
    } else {
        WireFormat::Unspecified
    }
}

pub fn skipped(message: &str) -> (r: ConformanceResponse)
    ensures
        r@ == ResponseModel::Skipped(message@),
{
    ConformanceResponse::Skipped(message.to_owned())
}

pub fn parse_error(message: &str) -> (r: ConformanceResponse)
    ensures
        r@ == ResponseModel::ParseError(message@),
{
    ConformanceResponse::ParseError(message.to_owned())
}

pub fn serialize_error(message: &str) -> (r: ConformanceResponse)
    ensures
        r@ == ResponseModel::SerializeError(message@),
{
    ConformanceResponse::SerializeError(message.to_owned())
}

pub fn protobuf_response(payload: Vec<u8>) -> (r: ConformanceResponse)
    ensures
        r@ == ResponseModel::ProtobufPayload(payload@),
{
    ConformanceResponse::ProtobufPayload(payload)
}

pub fn json_response(payload: String) -> (r: ConformanceResponse)
    ensures
        r@ == ResponseModel::JsonPayload(payload@),
{
    ConformanceResponse::JsonPayload(payload)
}

/// The answer to a request for the list of tests known to fail: the wire
/// form of an empty list, which is no bytes.
pub fn failure_list_response() -> (r: ConformanceResponse)
    ensures
        r@ == ResponseModel::ProtobufPayload(Seq::empty()),
{
    protobuf_response(Vec::new())
}

/// The message type of a name, if it is one of the two that the tests use.
pub open spec fn test_message(name: Seq<char>) -> Option<TestMessage> {
    if name == "protobuf_test_messages.proto2.TestAllTypesProto2"@ {
        Some(TestMessage::Proto2)
    } else if name == "protobuf_test_messages.proto3.TestAllTypesProto3"@ {
        Some(TestMessage::Proto3)
    } else {
        None
    }
}

/// The model of a step.
pub ghost enum StepModel {
    Respond(ResponseModel),
    Run(TestMessage, Payload, WireFormat),
}

/// What a request leads to.
pub open spec fn request_step(request: ConformanceRequest) -> StepModel {
    if request.message_type@ == "conformance.FailureSet"@ {
        StepModel::Respond(ResponseModel::ProtobufPayload(Seq::empty()))
    } else {
        match request.payload {
            None => StepModel::Respond(ResponseModel::Skipped("no payload provided"@)),
            Some(payload) => match test_message(request.message_type@) {
                None => StepModel::Respond(ResponseModel::Skipped("unsupported message type"@)),
                Some(message) => match payload {
                    Payload::TextPayload(_) => StepModel::Respond(
                        ResponseModel::Skipped("text format input not supported"@),
                    ),
                    Payload::JspbPayload(_) => StepModel::Respond(
                        ResponseModel::Skipped("jspb input not supported"@),
                    ),
                    _ => StepModel::Run(
                        message,
                        payload,
                        format_of(request.requested_output_format),
                    ),
                },
            },
        }
    }
}

/// The model of a step that was taken.
pub open spec fn step_model(step: Step) -> StepModel {
    match step {
        Step::Respond(r) => StepModel::Respond(r@),
        Step::Run(message, payload, format) => StepModel::Run(message, payload, format),
    }
}

/// Decides what a request leads to.
pub fn handle_request(request: ConformanceRequest) -> (r: Step)
    ensures
        step_model(r) == request_step(request),
{
    if same_text(request.message_type.as_str(), "conformance.FailureSet") {
        return Step::Respond(failure_list_response());
    }
    let output_format = wire_format(request.requested_output_format);
    let payload = match request.payload {
        None => {
            return Step::Respond(skipped("no payload provided"));
        },
        Some(payload) => payload,
    };
    let message = if same_text(
        request.message_type.as_str(),
        "protobuf_test_messages.proto2.TestAllTypesProto2",
    ) {
        TestMessage::Proto2
    } else if same_text(
        request.message_type.as_str(),
        "protobuf_test_messages.proto3.TestAllTypesProto3",
    ) {
        TestMessage::Proto3
    } else {
        return Step::Respond(skipped("unsupported message type"));
    };
    match payload {
        Payload::TextPayload(_) => Step::Respond(skipped("text format input not supported")),
        Payload::JspbPayload(_) => Step::Respond(skipped("jspb input not supported")),
        _ => Step::Run(message, payload, output_format),
    }
}

/// The model of what follows.
pub ghost enum NextModel {
    Respond(ResponseModel),
    WriteProtobuf,
    WriteJson,
}

/// What follows once the payload was read, with or without an error.
pub open spec fn after_reading(read: Option<Seq<char>>, format: WireFormat) -> NextModel {
    match read {
        Some(error) => NextModel::Respond(ResponseModel::ParseError(error)),
        None => match format {
            WireFormat::Protobuf => NextModel::WriteProtobuf,
            WireFormat::Json => NextModel::WriteJson,
            WireFormat::TextFormat => NextModel::Respond(
                ResponseModel::Skipped("text format output not supported"@),
            ),
            WireFormat::Jspb => NextModel::Respond(
                ResponseModel::Skipped("jspb output not supported"@),
            ),
            WireFormat::Unspecified => NextModel::Respond(
                ResponseModel::Skipped("unspecified output format"@),
            ),
        },
    }
}

/// The model of what was decided to follow.
pub open spec fn next_model(next: Next) -> NextModel {
    match next {
        Next::Respond(r) => NextModel::Respond(r@),
        Next::WriteProtobuf => NextModel::WriteProtobuf,
        Next::WriteJson => NextModel::WriteJson,
    }
}

/// Decides what follows once the payload was read: `error` is the message
/// of the error, if reading failed.
pub fn handle_message(error: Option<String>, format: WireFormat) -> (r: Next)
    ensures
        next_model(r) == after_reading(
            match error {
                Some(e) => Some(e@),
                None => None,
            },
            format,
        ),
{
    match error {
        Some(e) => Next::Respond(parse_error(e.as_str())),
        None => match format {
            WireFormat::Protobuf => Next::WriteProtobuf,
            WireFormat::Json => Next::WriteJson,
            WireFormat::TextFormat => Next::Respond(skipped("text format output not supported")),
            WireFormat::Jspb => Next::Respond(skipped("jspb output not supported")),
            WireFormat::Unspecified => Next::Respond(skipped("unspecified output format")),
        },
    }
}

/// The answer once the message was written as JSON, or could not be.
pub fn json_written(written: Result<String, String>) -> (r: ConformanceResponse)
    ensures
        r@ == match written {
            Ok(text) => ResponseModel::JsonPayload(text@),
            Err(error) => ResponseModel::SerializeError(error@),
        },
{
    match written {
        Ok(text) => json_response(text),
        Err(error) => serialize_error(error.as_str()),
    }
}

} // verus!
