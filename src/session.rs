//! The decisions of the two session loops, as functions from what happened to
//! what to do next. The loops themselves, and their I/O, run around them.
use vstd::prelude::*;
use crate::codec::{decode_request, encode_response, push_range, push_text};
use crate::executor::ExecutionError;
use crate::format::{enc_bytes, enc_response, enc_text, request_decoding};
use crate::frame::{frame, FramingError};
use crate::types::{RequestView, SqlRequest, SqlResponse};

verus! {

/// Why a stream connection is closed without a reply.
#[derive(Clone, Copy, Debug, PartialEq, Eq)]
pub enum StreamFault {
    /// The connection closed before a whole frame arrived.
    Framing(FramingError),
    /// The frame's payload is not an encoded envelope.
    Decode,
}

/// What the stream loop does with one connection.
#[derive(Clone, Debug, PartialEq)]
pub enum StreamAction {
    /// Run the request, then write back the framed response.
    Execute(SqlRequest),
    /// Stop accepting connections; this one closes without a reply.
    Shutdown,
    /// Close this connection without a reply and go on accepting.
    Close(StreamFault),
}

/// The accept loop of the stream transport.
pub struct StreamServer {
    pub accepting: bool,
}

impl StreamServer {
    pub fn new() -> (r: StreamServer)
        ensures
            r.accepting,
    {
        StreamServer { accepting: true }
    }

    /// Decides on what one connection sent before it closed: the frame's
    /// payload, or why no whole frame came.
    pub fn on_connection(&mut self, received: Result<Vec<u8>, FramingError>) -> (r: StreamAction)
        ensures
            match received {
                Err(f) => r == StreamAction::Close(StreamFault::Framing(f)) && final(self).accepting == old(self).accepting,
                Ok(p) => match request_decoding(p@) {
                    None => r == StreamAction::Close(StreamFault::Decode) && final(self).accepting == old(self).accepting,
                    Some(RequestView::Cancel) => r == StreamAction::Shutdown && !final(self).accepting,
                    Some(RequestView::NetworkRequest(id, q)) => r matches StreamAction::Execute(req)
                        && req.request_id == id && req.request@ == q && final(self).accepting == old(self).accepting,
                },
            },
    {
        match received {
            Err(f) => StreamAction::Close(StreamFault::Framing(f)),
            Ok(p) => match decode_request(p.as_slice()) {
                None => StreamAction::Close(StreamFault::Decode),
                Some(crate::types::RequestType::Cancel) => {
                    self.accepting = false;
                    StreamAction::Shutdown
                },
                Some(crate::types::RequestType::NetworkRequest(req)) => StreamAction::Execute(req),
            },
        }
    }
}

pub const REPLY_RESPONSE: u8 = 0;
pub const REPLY_BAD_STATEMENT: u8 = 1;
pub const REPLY_STORAGE_FAILURE: u8 = 2;
pub const REPLY_CONVERSION_FAILURE: u8 = 3;

/// The payload written back on a stream connection: a tag, then the encoded
/// response, or the kind of failure with its message.
pub open spec fn enc_stream_reply(result: Result<SqlResponse, ExecutionError>) -> Seq<u8> {
    match result {
        Ok(resp) => seq![REPLY_RESPONSE] + enc_response(resp@),
        Err(ExecutionError::BadStatement(m)) => seq![REPLY_BAD_STATEMENT] + enc_text(m@),
        Err(ExecutionError::StorageFailure(m)) => seq![REPLY_STORAGE_FAILURE] + enc_text(m@),
        Err(ExecutionError::ConversionFailure) => seq![REPLY_CONVERSION_FAILURE],
    }
}

/// The frame written back on a stream connection after execution, so that an
/// execution error reaches the client as well as a response.
pub fn stream_reply(result: &Result<SqlResponse, ExecutionError>) -> (r: Vec<u8>)
    ensures
        r@ == enc_bytes(enc_stream_reply(*result)),
{
    let mut payload: Vec<u8> = Vec::new();
    match result {
        Ok(resp) => {
            payload.push(REPLY_RESPONSE);
            let body = encode_response(resp);
            push_range(&mut payload, body.as_slice(), 0, body.len());
            assert(body@.subrange(0, body@.len() as int) =~= body@);
        },
        Err(ExecutionError::BadStatement(m)) => {
            payload.push(REPLY_BAD_STATEMENT);
            push_text(&mut payload, m);
        },
        Err(ExecutionError::StorageFailure(m)) => {
            payload.push(REPLY_STORAGE_FAILURE);
            push_text(&mut payload, m);
        },
        Err(ExecutionError::ConversionFailure) => {
            payload.push(REPLY_CONVERSION_FAILURE);
        },
    }
    assert(payload@ =~= enc_stream_reply(*result));
    frame(payload.as_slice())
}

/// One request received on the request/reply transport, with the two fields
/// that correlate its reply.
#[derive(Clone, Debug, PartialEq)]
pub struct Exchange {
    pub identifier: Vec<u8>,
    pub correlation_id: Vec<u8>,
    pub body: Vec<u8>,
}

impl Exchange {
    /// The three parts of the reply: the identifier and the correlation id
    /// exactly as received, then `body`.
    pub fn into_reply(self, body: Vec<u8>) -> (r: Vec<Vec<u8>>)
        ensures
            r@.len() == 3,
            r@[0]@ == self.identifier@,
            r@[1]@ == self.correlation_id@,
            r@[2]@ == body@,
    {
        let mut parts: Vec<Vec<u8>> = Vec::new();
        parts.push(self.identifier);
        parts.push(self.correlation_id);
        parts.push(body);
        parts
    }
}

/// Where the request/reply loop stands.
#[derive(Clone, Copy, Debug, PartialEq, Eq)]
pub enum ReplyState {
    /// No socket is bound; the next step binds one.
    Unbound,
    /// A socket is bound and serving.
    Bound,
}

/// What the transport reported.
#[derive(Clone, Debug, PartialEq)]
pub enum ReplyEvent {
    BindSucceeded,
    BindFailed,
    /// A multi-part message arrived.
    Received(Vec<Vec<u8>>),
    /// No message came within the receive timeout.
    TimedOut,
    ReceiveFailed,
    Sent,
    SendFailed,
}

/// What the request/reply loop does next.
#[derive(Clone, Debug, PartialEq)]
pub enum ReplyAction {
    /// Bind the socket, afresh.
    Bind,
    /// Wait for the next message.
    Receive,
    /// Decode and run the request, then send its reply.
    Handle(Exchange),
}

/// The request/reply loop: any transport failure, a malformed message
/// included, starts it over from binding.
pub struct ReplyLoop {
    pub state: ReplyState,
}

impl ReplyLoop {
    pub fn new() -> (r: ReplyLoop)
        ensures
            r.state == ReplyState::Unbound,
    {
        ReplyLoop { state: ReplyState::Unbound }
    }

    pub fn step(&mut self, event: ReplyEvent) -> (r: ReplyAction)
        ensures
            match event {
                ReplyEvent::BindSucceeded | ReplyEvent::Sent | ReplyEvent::TimedOut =>
                    if event == ReplyEvent::BindSucceeded || old(self).state == ReplyState::Bound {
                        r == ReplyAction::Receive && final(self).state == ReplyState::Bound
                    } else {
                        r == ReplyAction::Bind && final(self).state == ReplyState::Unbound
                    },
                ReplyEvent::Received(parts) => if old(self).state == ReplyState::Bound && parts@.len() == 3 {
                    r matches ReplyAction::Handle(ex) && ex.identifier@ == parts@[0]@
                        && ex.correlation_id@ == parts@[1]@ && ex.body@ == parts@[2]@
                        && final(self).state == ReplyState::Bound
                } else {
                    r == ReplyAction::Bind && final(self).state == ReplyState::Unbound
                },
                _ => r == ReplyAction::Bind && final(self).state == ReplyState::Unbound,
            },
    {
        let bound = match self.state {
            ReplyState::Bound => true,
            ReplyState::Unbound => false,
        };
        match event {
            ReplyEvent::BindSucceeded => {
                self.state = ReplyState::Bound;
                ReplyAction::Receive
            },
            ReplyEvent::Sent | ReplyEvent::TimedOut => {
                if bound {
                    ReplyAction::Receive
                } else {
                    ReplyAction::Bind
                }
            },
            ReplyEvent::Received(parts) => {
                if bound && parts.len() == 3 {
                    let mut parts = parts;
                    let body = parts.pop().unwrap();
                    let correlation_id = parts.pop().unwrap();
                    let identifier = parts.pop().unwrap();
                    ReplyAction::Handle(Exchange { identifier, correlation_id, body })
                } else {
                    self.state = ReplyState::Unbound;
                    ReplyAction::Bind
                }
            },
            _ => {
                self.state = ReplyState::Unbound;
                ReplyAction::Bind
            },
        }
    }
}

} // verus!
