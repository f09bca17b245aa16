//! The life of a connection, one event at a time.
//!
//! Whoever owns the socket waits, reads and writes; after each of these it
//! tells the connection what happened and is told what to do next. The
//! connection keeps the bytes received, takes one request at a time from
//! their start, carries it out, and hands out its reply before it looks at
//! the next: replies leave in the order of the requests.

use crate::buffer::buf_as_slice;
use crate::client::{world_of, Client, ClientState, ConnState};
use crate::decode::{cast_bytes_to_resp, decode};
use crate::frame::{frame_len, get_resp_length};
use crate::misc::{get_current_ms, reply_to, reply_value};
use crate::resp::RespParseError;
use crate::semantics::run;
use crate::server::{Server, ServerState};
use crate::value::Value;
use crate::wire_laws::{law_decode_encode, lemma_encode_then_read};
use vstd::prelude::*;

verus! {

/// What happened on the socket.
#[derive(Debug)]
pub enum ConnEvent {
    /// A read gave these bytes; none at all where the peer has closed.
    Received(Vec<u8>),
    /// Nothing arrived within the time allowed.
    ReadTimedOut,
    /// A read failed.
    ReadFailed,
    /// The reply handed out last was sent in full.
    Sent,
    /// Sending the reply failed.
    SendFailed,
}

/// What to do on the socket next.
#[derive(Debug)]
pub enum ConnAction {
    /// Wait for bytes and read them.
    Read,
    /// Send these bytes, all of them.
    Send(Vec<u8>),
    /// Close the socket.
    Close,
}

/// What a [`ConnEvent`] denotes.
pub enum Event {
    Received(Seq<u8>),
    ReadTimedOut,
    ReadFailed,
    Sent,
    SendFailed,
}

/// What a [`ConnAction`] denotes.
pub enum Action {
    Read,
    Send(Seq<u8>),
    Close,
}

impl View for ConnEvent {
    type V = Event;

    open spec fn view(&self) -> Event {
        match self {
            ConnEvent::Received(data) => Event::Received(data@),
            ConnEvent::ReadTimedOut => Event::ReadTimedOut,
            ConnEvent::ReadFailed => Event::ReadFailed,
            ConnEvent::Sent => Event::Sent,
            ConnEvent::SendFailed => Event::SendFailed,
        }
    }
}

impl View for ConnAction {
    type V = Action;

    open spec fn view(&self) -> Action {
        match self {
            ConnAction::Read => Action::Read,
            ConnAction::Send(data) => Action::Send(data@),
            ConnAction::Close => Action::Close,
        }
    }
}

/// Where a step leaves the connection and the server, and what it asks for.
#[verifier::ext_equal]
pub struct Step {
    pub client: ClientState,
    pub server: ServerState,
    pub action: Action,
}

/// The connection closes.
pub open spec fn close(client: ClientState, server: ServerState) -> Step {
    Step { client: client.at(ConnState::Closed), server, action: Action::Close }
}

/// The connection looks at the bytes it holds. Where they start with a whole
/// frame, it takes the frame out, carries the request out at `now` and asks
/// for the reply to be sent. Where the frame is not whole yet, it asks for
/// more bytes. Where the bytes are no frame, or the frame carries no value,
/// it closes.
pub open spec fn drain(client: ClientState, server: ServerState, now: u128) -> Step {
    match frame_len(client.buffer) {
        Err(RespParseError::NotEnoughBytes) => Step {
            client: client.at(ConnState::Reading),
            server,
            action: Action::Read,
        },
        Err(RespParseError::IncorrectFormat) => close(client, server),
        Ok(n) => {
            let rest = client.holding(client.buffer.skip(n as int));
            match decode(client.buffer.take(n as int)) {
                Err(_) => close(rest, server),
                Ok(request) => {
                    let out = run(world_of(client, server), request, now);
                    Step {
                        client: rest.with_db_id(out.world.db_id).at(ConnState::Writing),
                        server: out.world.server,
                        action: Action::Send(reply_value(out.reply).encode()),
                    }
                },
            }
        },
    }
}

/// What the connection does when `event` happens at `now`.
///
/// While reading, bytes received are added to those held and looked at;
/// a read that gave nothing, timed out or failed closes the connection, and
/// so do bytes that the connection cannot hold. While writing, a reply sent
/// lets the connection look at the bytes it holds; a failure closes it. An
/// event that does not fit where the connection stands closes it, and a
/// closed connection stays closed.
pub open spec fn step(client: ClientState, server: ServerState, event: Event, now: u128) -> Step {
    match (client.state, event) {
        (ConnState::Reading, Event::Received(data)) => {
            if data.len() == 0 || client.buffer.len() + data.len() > usize::MAX {
                close(client, server)
            } else {
                drain(client.holding(client.buffer + data), server, now)
            }
        },
        (ConnState::Writing, Event::Sent) => drain(client, server, now),
        _ => close(client, server),
    }
}

/// A whole request at the start of the bytes held is carried out, it alone,
/// and its reply is the next thing to send; what follows it stays held for
/// later. So the replies leave in the order of the requests.
pub proof fn law_requests_in_order(
    client: ClientState,
    server: ServerState,
    request: Value,
    rest: Seq<u8>,
    now: u128,
)
    requires
        request.wire_safe(),
        client.buffer == request.encode() + rest,
    ensures
        ({
            let out = run(world_of(client, server), request, now);
            drain(client, server, now) == (Step {
                client: client.holding(rest).with_db_id(out.world.db_id).at(ConnState::Writing),
                server: out.world.server,
                action: Action::Send(reply_value(out.reply).encode()),
            })
        }),
{
    let frame = request.encode();
    lemma_encode_then_read(request, rest);
    law_decode_encode(request);
    assert(client.buffer.take(frame.len() as int) =~= frame);
    assert(client.buffer.skip(frame.len() as int) =~= rest);
}

impl Client {
    /// Looks at the bytes held, at `now`.
    fn drain(&mut self, server: &mut Server, now: u128) -> (action: ConnAction)
        requires
            old(server).wf(),
        ensures
            final(server).wf(),
            (Step { client: final(self)@, server: final(server)@, action: action@ }) =~~= drain(
                old(self)@,
                old(server)@,
                now,
            ),
    {
        let resp_length = match get_resp_length(self.held()) {
            Ok(n) => n,
            Err(RespParseError::NotEnoughBytes) => {
                self.set_state(ConnState::Reading);
                return ConnAction::Read;
            },
            Err(RespParseError::IncorrectFormat) => {
                self.set_state(ConnState::Closed);
                return ConnAction::Close;
            },
        };
        let resp_bytes = self.take(resp_length);
        let input_resp = match cast_bytes_to_resp(buf_as_slice(&resp_bytes)) {
            Ok(resp) => resp,
            Err(_) => {
                self.set_state(ConnState::Closed);
                return ConnAction::Close;
            },
        };
        let output_resp = reply_to(self.handle_client_resp_at(server, input_resp, now));
        let mut output_buffer: Vec<u8> = Vec::new();
        let _ = output_resp.write_to_writer(&mut output_buffer);
        assert(output_buffer@ =~= output_resp@.encode());
        self.set_state(ConnState::Writing);
        ConnAction::Send(output_buffer)
    }

    /// Takes note of `event`, which happened at `now`, and says what to do
    /// next.
    pub fn handle_client_connection_at(
        &mut self,
        server: &mut Server,
        event: ConnEvent,
        now: u128,
    ) -> (action: ConnAction)
        requires
            old(server).wf(),
        ensures
            final(server).wf(),
            (Step { client: final(self)@, server: final(server)@, action: action@ }) =~~= step(
                old(self)@,
                old(server)@,
                event@,
                now,
            ),
    {
        match self.state() {
            ConnState::Reading => match event {
                ConnEvent::Received(data) => {
                    let held = self.held().len();
                    if data.len() == 0 || data.len() > usize::MAX - held {
                        self.set_state(ConnState::Closed);
                        ConnAction::Close
                    } else {
                        self.hold(data.as_slice());
                        self.drain(server, now)
                    }
                },
                _ => {
                    self.set_state(ConnState::Closed);
                    ConnAction::Close
                },
            },
            ConnState::Writing => match event {
                ConnEvent::Sent => self.drain(server, now),
                _ => {
                    self.set_state(ConnState::Closed);
                    ConnAction::Close
                },
            },
            _ => {
                self.set_state(ConnState::Closed);
                ConnAction::Close
            },
        }
    }

    /// Takes note of `event`, which happened just now by the wall clock, and
    /// says what to do next. Whatever the clock says, the outcome is that of
    /// [`Client::handle_client_connection_at`] at some time.
    pub fn handle_client_connection(&mut self, server: &mut Server, event: ConnEvent) -> (action:
        ConnAction)
        requires
            old(server).wf(),
        ensures
            final(server).wf(),
            exists|now: u128|
                (Step { client: final(self)@, server: final(server)@, action: action@ })
                    =~~= #[trigger] step(old(self)@, old(server)@, event@, now),
    {
        let now = get_current_ms();
        self.handle_client_connection_at(server, event, now)
    }
}

} // verus!
