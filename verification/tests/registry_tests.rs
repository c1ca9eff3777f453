//! The client registry: connection offers, deadline refresh, expiry.

use syfala::machine::{Effect, ServerIOState};
use syfala::message::{server, Error, IOState};
use syfala::registry::{GenericClient, CONN_TIMEOUT_MS, REQUEST_POLL_PERIOD_MS};

// A packed IPv4 address and port, as the network loop would pack it.
fn addr(ip: [u8; 4], port: u16) -> u64 {
    ((u32::from_be_bytes(ip) as u64) << 16) | port as u64
}

#[test]
fn discovery_handshake_registers_inactive_server() {
    // A server's connection offer, accepted by the application, leaves
    // the server registered as Inactive and draws an Ok reply.
    let mut client = GenericClient::new();
    let server_addr = addr([10, 0, 0, 2], 4451);
    let reply = client.on_connect_offer(server_addr, 1000, Ok(()));
    assert_eq!(reply, Some(Ok(())));
    assert!(client.contains_server(server_addr));
    assert_eq!(client.state_of(server_addr), Some(ServerIOState::Inactive));
    assert_eq!(client.len(), 1);
}

#[test]
fn rejected_offer_registers_nothing() {
    let mut client = GenericClient::new();
    let a = addr([10, 0, 0, 3], 4451);
    let reply = client.on_connect_offer(a, 1000, Err(Error::Refusal));
    assert_eq!(reply, Some(Err(Error::Refusal)));
    assert!(!client.contains_server(a));
}

#[test]
fn repeated_offer_only_refreshes() {
    let mut client = GenericClient::new();
    let a = addr([10, 0, 0, 2], 4451);
    client.on_connect_offer(a, 1000, Ok(()));
    let reply = client.on_connect_offer(a, 1200, Ok(()));
    assert_eq!(reply, None);
    assert_eq!(client.len(), 1);
    // The refresh moved the deadline: nothing expires at the old one.
    let expired = client.on_timeout(1200 + CONN_TIMEOUT_MS - 1);
    assert!(expired.is_empty());
}

#[test]
fn start_io_handshake_drives_state() {
    // Poll start, then the server's success reply: the peer ends
    // Active and the application is notified exactly once.
    let mut client = GenericClient::new();
    let a = addr([10, 0, 0, 2], 4451);
    client.on_connect_offer(a, 0, Ok(()));

    let eff = client.poll_peer(a, true, false);
    assert_eq!(eff, Effect::SendStartRequest);
    assert_eq!(client.state_of(a), Some(ServerIOState::PendingStart));

    let ok = server::Control::IOStateChangeResult(IOState::Start(Ok(())));
    let eff = client.on_connected_control(a, 10, ok);
    assert_eq!(eff, Effect::NotifyStarted);
    assert_eq!(client.state_of(a), Some(ServerIOState::Active));
}

#[test]
fn start_failure_then_success() {
    // A Failure reply keeps the peer pending and asks for one retry;
    // the next Ok reaches Active.
    let mut client = GenericClient::new();
    let a = addr([10, 0, 0, 2], 4451);
    client.on_connect_offer(a, 0, Ok(()));
    client.poll_peer(a, true, false);

    let failure = server::Control::IOStateChangeResult(IOState::Start(Err(Error::Failure)));
    let eff = client.on_connected_control(a, 5, failure);
    assert_eq!(eff, Effect::SendStartRequest);
    assert_eq!(client.state_of(a), Some(ServerIOState::PendingStart));

    let ok = server::Control::IOStateChangeResult(IOState::Start(Ok(())));
    let eff = client.on_connected_control(a, 9, ok);
    assert_eq!(eff, Effect::NotifyStarted);
    assert_eq!(client.state_of(a), Some(ServerIOState::Active));
}

#[test]
fn timeout_expires_silent_peer() {
    // Last heard at 1000 with a 600 ms timeout: a tick at 1700 removes
    // the peer from the map and the queue.
    let mut client = GenericClient::new();
    let a = addr([10, 0, 0, 2], 4451);
    client.on_connect_offer(a, 1000, Ok(()));
    assert_eq!(CONN_TIMEOUT_MS, 600);

    let expired = client.on_timeout(1000 + 700);
    assert_eq!(expired, vec![a]);
    assert!(!client.contains_server(a));
    assert!(client.peers().is_empty());
    assert_eq!(client.next_recv_timeout(1700), None);
}

#[test]
fn timeout_keeps_live_peers() {
    let mut client = GenericClient::new();
    let quiet = addr([10, 0, 0, 2], 4451);
    let chatty = addr([10, 0, 0, 9], 4451);
    client.on_connect_offer(quiet, 1000, Ok(()));
    client.on_connect_offer(chatty, 1000, Ok(()));
    // Only one of the two is heard from again.
    client.on_connected_control(chatty, 1500, server::Control::Heartbeat);

    let expired = client.on_timeout(1650);
    assert_eq!(expired, vec![quiet]);
    assert!(client.contains_server(chatty));
    assert_eq!(client.len(), 1);
}

#[test]
fn heartbeat_refreshes_deadline_only() {
    let mut client = GenericClient::new();
    let a = addr([10, 0, 0, 2], 4451);
    client.on_connect_offer(a, 0, Ok(()));
    let eff = client.on_connected_control(a, 100, server::Control::Heartbeat);
    assert_eq!(eff, Effect::Quiet);
    assert_eq!(client.state_of(a), Some(ServerIOState::Inactive));
    assert!(client.on_timeout(100 + CONN_TIMEOUT_MS - 1).is_empty());
}

#[test]
fn audio_forwarded_only_for_active_peer() {
    let mut client = GenericClient::new();
    let a = addr([10, 0, 0, 2], 4451);
    client.on_connect_offer(a, 0, Ok(()));
    assert_eq!(client.on_connected_audio(a, 1), Effect::DropAudio);
    client.poll_peer(a, true, false);
    let ok = server::Control::IOStateChangeResult(IOState::Start(Ok(())));
    client.on_connected_control(a, 2, ok);
    assert_eq!(client.on_connected_audio(a, 3), Effect::ForwardAudio);
    // Audio from a stranger is ignored.
    assert_eq!(client.on_connected_audio(addr([9, 9, 9, 9], 1), 3), Effect::Quiet);
}

#[test]
fn disconnect_removes_peer_everywhere() {
    let mut client = GenericClient::new();
    let a = addr([10, 0, 0, 2], 4451);
    client.on_connect_offer(a, 0, Ok(()));
    client.on_disconnect(a);
    assert!(!client.contains_server(a));
    assert!(client.peers().is_empty());
}

#[test]
fn peer_list_matches_map() {
    // The deadline queue and the state map always hold the same
    // addresses.
    let mut client = GenericClient::new();
    let a1 = addr([10, 0, 0, 1], 4451);
    let a2 = addr([10, 0, 0, 2], 4451);
    let a3 = addr([10, 0, 0, 3], 4451);
    client.on_connect_offer(a1, 0, Ok(()));
    client.on_connect_offer(a2, 0, Ok(()));
    client.on_connect_offer(a3, 0, Ok(()));
    client.on_disconnect(a2);
    let mut peers = client.peers();
    peers.sort();
    assert_eq!(peers, vec![a1, a3]);
    for p in peers {
        assert!(client.contains_server(p));
    }
}

#[test]
fn next_recv_timeout_is_clamped() {
    let mut client = GenericClient::new();
    let a = addr([10, 0, 0, 2], 4451);
    client.on_connect_offer(a, 1000, Ok(()));
    // Far from the deadline, the poll period wins.
    assert_eq!(client.next_recv_timeout(1000), Some(REQUEST_POLL_PERIOD_MS));
    // Within the last poll period, the remaining time wins.
    assert_eq!(client.next_recv_timeout(1000 + CONN_TIMEOUT_MS - 3), Some(3));
    // Past the deadline, the timeout is zero.
    assert_eq!(client.next_recv_timeout(1000 + CONN_TIMEOUT_MS + 50), Some(0));
}
