//! Flattened wire representations of the protocol messages.
//!
//! Nested message variants are collapsed into a single discriminant each,
//! so that the wire encoding spends one byte on the whole variant path
//! instead of one byte per nesting level. Callers work with the nested
//! types from [`super::message`]; these flat forms exist only at the
//! serialization boundary, and flattening round-trips exactly.

use vstd::prelude::*;
use super::format::StreamFormats;
use super::message::{client, server, AudioData, Client, Error, IOState, Server};

verus! {

/// Flattened wire representation of client-to-server messages.
#[verifier::ext_equal]
#[derive(Debug)]
pub enum ClientMessageFlat {
    Discovery,
    ConnectionOk,
    ConnectionFailed,
    ConnectionRefused,
    StartIO,
    StopIO,
    Audio(AudioData),
    Disconnect,
}

/// Flattened wire representation of server-to-client messages.
#[verifier::ext_equal]
#[derive(Debug)]
pub enum ServerMessageFlat {
    Connect(StreamFormats),
    StartIOSuccess,
    StartIOFailed,
    StartIORefused,
    StopIOSuccess,
    StopIOFailed,
    StopIORefused,
    Heartbeat,
    Audio(AudioData),
    Disconnect,
}

/// What flattening a client message yields.
pub open spec fn spec_flatten_client(m: Client) -> ClientMessageFlat {
    match m {
        Client::Discovery => ClientMessageFlat::Discovery,
        Client::ConnectionResult(Ok(())) => ClientMessageFlat::ConnectionOk,
        Client::ConnectionResult(Err(Error::Failure)) => ClientMessageFlat::ConnectionFailed,
        Client::ConnectionResult(Err(Error::Refusal)) => ClientMessageFlat::ConnectionRefused,
        Client::Connected(client::Connected::Control(client::Control::RequestIOStateChange(s))) => match s {
            IOState::Start(()) => ClientMessageFlat::StartIO,
            IOState::Stop(()) => ClientMessageFlat::StopIO,
        },
        Client::Connected(client::Connected::Audio(a)) => ClientMessageFlat::Audio(a),
        Client::Disconnect => ClientMessageFlat::Disconnect,
    }
}

/// What unflattening a client wire message yields.
pub open spec fn spec_unflatten_client(f: ClientMessageFlat) -> Client {
    match f {
        ClientMessageFlat::Discovery => Client::Discovery,
        ClientMessageFlat::ConnectionOk => Client::ConnectionResult(Ok(())),
        ClientMessageFlat::ConnectionFailed => Client::ConnectionResult(Err(Error::Failure)),
        ClientMessageFlat::ConnectionRefused => Client::ConnectionResult(Err(Error::Refusal)),
        ClientMessageFlat::StartIO => Client::Connected(
            client::Connected::Control(
                client::Control::RequestIOStateChange(IOState::Start(())),
            ),
        ),
        ClientMessageFlat::StopIO => Client::Connected(
            client::Connected::Control(
                client::Control::RequestIOStateChange(IOState::Stop(())),
            ),
        ),
        ClientMessageFlat::Audio(a) => Client::Connected(client::Connected::Audio(a)),
        ClientMessageFlat::Disconnect => Client::Disconnect,
    }
}

/// Flattens a client message for the wire.
pub fn flatten_client(m: Client) -> (r: ClientMessageFlat)
    ensures
        r == spec_flatten_client(m),
{
    match m {
        Client::Discovery => ClientMessageFlat::Discovery,
        Client::ConnectionResult(Ok(())) => ClientMessageFlat::ConnectionOk,
        Client::ConnectionResult(Err(Error::Failure)) => ClientMessageFlat::ConnectionFailed,
        Client::ConnectionResult(Err(Error::Refusal)) => ClientMessageFlat::ConnectionRefused,
        Client::Connected(client::Connected::Control(client::Control::RequestIOStateChange(s))) => match s {
            IOState::Start(()) => ClientMessageFlat::StartIO,
            IOState::Stop(()) => ClientMessageFlat::StopIO,
        },
        Client::Connected(client::Connected::Audio(a)) => ClientMessageFlat::Audio(a),
        Client::Disconnect => ClientMessageFlat::Disconnect,
    }
}

/// Restores the nested form of a client wire message.
pub fn unflatten_client(f: ClientMessageFlat) -> (r: Client)
    ensures
        r == spec_unflatten_client(f),
{
    match f {
        ClientMessageFlat::Discovery => Client::Discovery,
        ClientMessageFlat::ConnectionOk => Client::ConnectionResult(Ok(())),
        ClientMessageFlat::ConnectionFailed => Client::ConnectionResult(Err(Error::Failure)),
        ClientMessageFlat::ConnectionRefused => Client::ConnectionResult(Err(Error::Refusal)),
        ClientMessageFlat::StartIO => Client::Connected(
            client::Connected::Control(
                client::Control::RequestIOStateChange(IOState::Start(())),
            ),
        ),
        ClientMessageFlat::StopIO => Client::Connected(
            client::Connected::Control(
                client::Control::RequestIOStateChange(IOState::Stop(())),
            ),
        ),
        ClientMessageFlat::Audio(a) => Client::Connected(client::Connected::Audio(a)),
        ClientMessageFlat::Disconnect => Client::Disconnect,
    }
}

/// Law: flattening a client message and restoring it yields the original
/// message, for every message.
pub proof fn lemma_client_flatten_round_trip(m: Client)
    ensures
        spec_unflatten_client(spec_flatten_client(m)) == m,
{
    match m {
        Client::Discovery => {},
        Client::ConnectionResult(r) => match r {
            Ok(u) => {
                assert(u == ());
                assert(r == Ok::<(), Error>(()));
                assert(spec_unflatten_client(spec_flatten_client(m)) =~~= m);
            },
            Err(Error::Failure) => {
                assert(spec_unflatten_client(spec_flatten_client(m)) =~~= m);
            },
            Err(Error::Refusal) => {
                assert(spec_unflatten_client(spec_flatten_client(m)) =~~= m);
            },
        },
        Client::Connected(c) => match c {
            client::Connected::Control(client::Control::RequestIOStateChange(s)) => match s {
                IOState::Start(()) => {
                    assert(spec_unflatten_client(spec_flatten_client(m)) =~~= m);
                },
                IOState::Stop(()) => {
                    assert(spec_unflatten_client(spec_flatten_client(m)) =~~= m);
                },
            },
            client::Connected::Audio(_a) => {
                assert(spec_unflatten_client(spec_flatten_client(m)) =~~= m);
            },
        },
        Client::Disconnect => {},
    }
}

/// Law: restoring a client wire message and flattening it yields the
/// original wire message, for every wire message.
pub proof fn lemma_client_unflatten_round_trip(f: ClientMessageFlat)
    ensures
        spec_flatten_client(spec_unflatten_client(f)) == f,
{
}

/// What flattening a server message yields.
pub open spec fn spec_flatten_server(m: Server) -> ServerMessageFlat {
    match m {
        Server::Connect(fmts) => ServerMessageFlat::Connect(fmts),
        Server::Connected(server::Connected::Control(server::Control::IOStateChangeResult(s))) => match s {
            IOState::Start(Ok(())) => ServerMessageFlat::StartIOSuccess,
            IOState::Start(Err(Error::Failure)) => ServerMessageFlat::StartIOFailed,
            IOState::Start(Err(Error::Refusal)) => ServerMessageFlat::StartIORefused,
            IOState::Stop(Ok(())) => ServerMessageFlat::StopIOSuccess,
            IOState::Stop(Err(Error::Failure)) => ServerMessageFlat::StopIOFailed,
            IOState::Stop(Err(Error::Refusal)) => ServerMessageFlat::StopIORefused,
        },
        Server::Connected(server::Connected::Control(server::Control::Heartbeat)) => ServerMessageFlat::Heartbeat,
        Server::Connected(server::Connected::Audio(a)) => ServerMessageFlat::Audio(a),
        Server::Disconnect => ServerMessageFlat::Disconnect,
    }
}

/// What unflattening a server wire message yields.
pub open spec fn spec_unflatten_server(f: ServerMessageFlat) -> Server {
    match f {
        ServerMessageFlat::Connect(fmts) => Server::Connect(fmts),
        ServerMessageFlat::StartIOSuccess => Server::Connected(
            server::Connected::Control(
                server::Control::IOStateChangeResult(IOState::Start(Ok(()))),
            ),
        ),
        ServerMessageFlat::StartIOFailed => Server::Connected(
            server::Connected::Control(
                server::Control::IOStateChangeResult(IOState::Start(Err(Error::Failure))),
            ),
        ),
        ServerMessageFlat::StartIORefused => Server::Connected(
            server::Connected::Control(
                server::Control::IOStateChangeResult(IOState::Start(Err(Error::Refusal))),
            ),
        ),
        ServerMessageFlat::StopIOSuccess => Server::Connected(
            server::Connected::Control(
                server::Control::IOStateChangeResult(IOState::Stop(Ok(()))),
            ),
        ),
        ServerMessageFlat::StopIOFailed => Server::Connected(
            server::Connected::Control(
                server::Control::IOStateChangeResult(IOState::Stop(Err(Error::Failure))),
            ),
        ),
        ServerMessageFlat::StopIORefused => Server::Connected(
            server::Connected::Control(
                server::Control::IOStateChangeResult(IOState::Stop(Err(Error::Refusal))),
            ),
        ),
        ServerMessageFlat::Heartbeat => Server::Connected(
            server::Connected::Control(server::Control::Heartbeat),
        ),
        ServerMessageFlat::Audio(a) => Server::Connected(server::Connected::Audio(a)),
        ServerMessageFlat::Disconnect => Server::Disconnect,
    }
}

/// Flattens a server message for the wire.
pub fn flatten_server(m: Server) -> (r: ServerMessageFlat)
    ensures
        r == spec_flatten_server(m),
{
    match m {
        Server::Connect(fmts) => ServerMessageFlat::Connect(fmts),
        Server::Connected(server::Connected::Control(server::Control::IOStateChangeResult(s))) => match s {
            IOState::Start(Ok(())) => ServerMessageFlat::StartIOSuccess,
            IOState::Start(Err(Error::Failure)) => ServerMessageFlat::StartIOFailed,
            IOState::Start(Err(Error::Refusal)) => ServerMessageFlat::StartIORefused,
            IOState::Stop(Ok(())) => ServerMessageFlat::StopIOSuccess,
            IOState::Stop(Err(Error::Failure)) => ServerMessageFlat::StopIOFailed,
            IOState::Stop(Err(Error::Refusal)) => ServerMessageFlat::StopIORefused,
        },
        Server::Connected(server::Connected::Control(server::Control::Heartbeat)) => ServerMessageFlat::Heartbeat,
        Server::Connected(server::Connected::Audio(a)) => ServerMessageFlat::Audio(a),
        Server::Disconnect => ServerMessageFlat::Disconnect,
    }
}

/// Restores the nested form of a server wire message.
pub fn unflatten_server(f: ServerMessageFlat) -> (r: Server)
    ensures
        r == spec_unflatten_server(f),
{
    match f {
        ServerMessageFlat::Connect(fmts) => Server::Connect(fmts),
        ServerMessageFlat::StartIOSuccess => Server::Connected(
            server::Connected::Control(
                server::Control::IOStateChangeResult(IOState::Start(Ok(()))),
            ),
        ),
        ServerMessageFlat::StartIOFailed => Server::Connected(
            server::Connected::Control(
                server::Control::IOStateChangeResult(IOState::Start(Err(Error::Failure))),
            ),
        ),
        ServerMessageFlat::StartIORefused => Server::Connected(
            server::Connected::Control(
                server::Control::IOStateChangeResult(IOState::Start(Err(Error::Refusal))),
            ),
        ),
        ServerMessageFlat::StopIOSuccess => Server::Connected(
            server::Connected::Control(
                server::Control::IOStateChangeResult(IOState::Stop(Ok(()))),
            ),
        ),
        ServerMessageFlat::StopIOFailed => Server::Connected(
            server::Connected::Control(
                server::Control::IOStateChangeResult(IOState::Stop(Err(Error::Failure))),
            ),
        ),
        ServerMessageFlat::StopIORefused => Server::Connected(
            server::Connected::Control(
                server::Control::IOStateChangeResult(IOState::Stop(Err(Error::Refusal))),
            ),
        ),
        ServerMessageFlat::Heartbeat => Server::Connected(
            server::Connected::Control(server::Control::Heartbeat),
        ),
        ServerMessageFlat::Audio(a) => Server::Connected(server::Connected::Audio(a)),
        ServerMessageFlat::Disconnect => Server::Disconnect,
    }
}

/// Law: flattening a server message and restoring it yields the original
/// message, for every message.
pub proof fn lemma_server_flatten_round_trip(m: Server)
    ensures
        spec_unflatten_server(spec_flatten_server(m)) == m,
{
    match m {
        Server::Connect(_f) => {
            assert(spec_unflatten_server(spec_flatten_server(m)) =~~= m);
        },
        Server::Connected(c) => match c {
            server::Connected::Control(server::Control::IOStateChangeResult(s)) => match s {
                IOState::Start(Ok(u)) => {
                    assert(u == ());
                    assert(spec_unflatten_server(spec_flatten_server(m)) =~~= m);
                },
                IOState::Start(Err(Error::Failure)) => {
                    assert(spec_unflatten_server(spec_flatten_server(m)) =~~= m);
                },
                IOState::Start(Err(Error::Refusal)) => {
                    assert(spec_unflatten_server(spec_flatten_server(m)) =~~= m);
                },
                IOState::Stop(Ok(u)) => {
                    assert(u == ());
                    assert(spec_unflatten_server(spec_flatten_server(m)) =~~= m);
                },
                IOState::Stop(Err(Error::Failure)) => {
                    assert(spec_unflatten_server(spec_flatten_server(m)) =~~= m);
                },
                IOState::Stop(Err(Error::Refusal)) => {
                    assert(spec_unflatten_server(spec_flatten_server(m)) =~~= m);
                },
            },
            server::Connected::Control(server::Control::Heartbeat) => {
                assert(spec_unflatten_server(spec_flatten_server(m)) =~~= m);
            },
            server::Connected::Audio(_a) => {
                assert(spec_unflatten_server(spec_flatten_server(m)) =~~= m);
            },
        },
        Server::Disconnect => {},
    }
}

/// Law: restoring a server wire message and flattening it yields the
/// original wire message, for every wire message.
pub proof fn lemma_server_unflatten_round_trip(f: ServerMessageFlat)
    ensures
        spec_flatten_server(spec_unflatten_server(f)) == f,
{
}

} // verus!
