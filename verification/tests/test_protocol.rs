use ggrs::error::GGRSError;
use ggrs::frame_info::PlayerInput;
use ggrs::network::protocol::{Event, ProtocolState, UdpProtocol};
use ggrs::network::udp_msg::{
    ConnectionStatus, Input, InputAck, MessageBody, MessageHeader, QualityReply, QualityReport,
    SyncReply, SyncRequest, UdpMessage,
};

const SIZE: u16 = 4;

fn endpoint(magic: u16, now: u128) -> UdpProtocol {
    UdpProtocol::new(vec![0], 2, SIZE, SIZE, 8, 2000, 750, 60, magic, now)
}

fn status() -> Vec<ConnectionStatus> {
    vec![ConnectionStatus::default(); 2]
}

fn input_with(frame: i32, bytes: [u8; 4]) -> PlayerInput {
    let mut input = PlayerInput::new(frame, SIZE);
    input.buffer.copy_from_slice(&bytes);
    input
}

fn message(magic: u16, body: MessageBody) -> UdpMessage {
    UdpMessage { header: MessageHeader { magic }, body }
}

/// Carries the waiting messages from each endpoint to the other, `rounds` times.
fn pump(
    a: &mut UdpProtocol,
    b: &mut UdpProtocol,
    now: u128,
    rounds: usize,
    nonce: &mut u32,
) -> (Vec<Event>, Vec<Event>) {
    let mut events_a = Vec::new();
    let mut events_b = Vec::new();
    for _ in 0..rounds {
        for m in a.send_all_messages() {
            *nonce += 1;
            b.handle_message(&m, now, *nonce);
        }
        for m in b.send_all_messages() {
            *nonce += 1;
            a.handle_message(&m, now, *nonce);
        }
        *nonce += 2;
        events_a.extend(a.poll(&status(), now, *nonce));
        events_b.extend(b.poll(&status(), now, *nonce + 1));
    }
    (events_a, events_b)
}

fn running_pair(now: u128) -> (UdpProtocol, UdpProtocol) {
    let mut a = endpoint(11, now);
    let mut b = endpoint(22, now);
    a.synchronize(now, 1000);
    b.synchronize(now, 2000);
    let mut nonce = 5000;
    pump(&mut a, &mut b, now, 8, &mut nonce);
    assert!(a.is_running());
    assert!(b.is_running());
    (a, b)
}

#[test]
fn test_new_endpoint() {
    let e = endpoint(7, 100);
    assert_eq!(e.state(), ProtocolState::Initializing);
    assert!(!e.is_synchronized());
    assert!(!e.is_running());
    assert_eq!(e.handles(), &vec![0]);
    assert_eq!(e.num_players(), 2);
    assert_eq!(e.peer_connect_status(1), ConnectionStatus::default());
    assert_eq!(e.last_recv_frame(), -1);
    assert_eq!(e.average_frame_advantage(), 0);
    assert_eq!(e.network_stats(5000), Err(GGRSError::NotSynchronized));
}

#[test]
fn test_synchronize_sends_request() {
    let mut e = endpoint(7, 100);
    e.synchronize(100, 42);
    assert_eq!(e.state(), ProtocolState::Synchronizing);
    assert_eq!(
        e.send_all_messages(),
        vec![message(7, MessageBody::SyncRequest(SyncRequest { random_request: 42 }))]
    );
    assert!(e.send_all_messages().is_empty());
}

#[test]
fn test_sync_request_is_answered() {
    let mut e = endpoint(7, 100);
    e.handle_message(
        &message(9, MessageBody::SyncRequest(SyncRequest { random_request: 77 })),
        100,
        1,
    );
    assert_eq!(
        e.send_all_messages(),
        vec![message(7, MessageBody::SyncReply(SyncReply { random_reply: 77 }))]
    );
}

#[test]
fn test_sync_retry_after_interval() {
    let mut e = endpoint(7, 100);
    e.synchronize(100, 42);
    e.send_all_messages();
    assert!(e.poll(&status(), 599, 43).is_empty());
    assert!(e.send_all_messages().is_empty());
    e.poll(&status(), 600, 44);
    assert_eq!(
        e.send_all_messages(),
        vec![message(7, MessageBody::SyncRequest(SyncRequest { random_request: 44 }))]
    );
}

#[test]
fn test_handshake_counts_replies() {
    let mut e = endpoint(7, 0);
    e.synchronize(0, 1);
    let mut events = Vec::new();
    for round in 1..=5u32 {
        // a reply with another number than the request's is stale
        e.handle_message(
            &message(9, MessageBody::SyncReply(SyncReply { random_reply: round + 100 })),
            10,
            999,
        );
        assert!(e.poll(&status(), 10, 999).is_empty());
        e.handle_message(
            &message(9, MessageBody::SyncReply(SyncReply { random_reply: round })),
            10,
            round + 1,
        );
        if round < 5 {
            assert_eq!(e.state(), ProtocolState::Synchronizing);
        }
        events.extend(e.poll(&status(), 10, round + 1));
    }
    assert_eq!(
        events,
        vec![
            Event::Synchronizing { total: 5, count: 1 },
            Event::Synchronizing { total: 5, count: 2 },
            Event::Synchronizing { total: 5, count: 3 },
            Event::Synchronizing { total: 5, count: 4 },
            Event::Synchronized,
        ]
    );
    assert!(e.is_synchronized());
    // five requests went out, the first from synchronize
    let sent = e.send_all_messages();
    let requests: Vec<u32> = sent
        .iter()
        .filter_map(|m| match &m.body {
            MessageBody::SyncRequest(r) => Some(r.random_request),
            _ => None,
        })
        .collect();
    assert_eq!(requests, vec![1, 2, 3, 4, 5]);
}

#[test]
fn test_handshake_between_two_endpoints() {
    let mut a = endpoint(11, 0);
    let mut b = endpoint(22, 0);
    a.synchronize(0, 1000);
    b.synchronize(0, 2000);
    let mut nonce = 5000;
    let (events_a, events_b) = pump(&mut a, &mut b, 0, 8, &mut nonce);
    assert_eq!(events_a.iter().filter(|e| **e == Event::Synchronized).count(), 1);
    assert_eq!(events_b.iter().filter(|e| **e == Event::Synchronized).count(), 1);
    assert_eq!(events_a.len(), 5);
    assert_eq!(events_b.len(), 5);
    assert_eq!(a.state(), ProtocolState::Running);
    assert_eq!(b.state(), ProtocolState::Running);
}

#[test]
fn test_stranger_is_not_heard() {
    let (mut a, _b) = running_pair(0);
    a.send_all_messages();
    // the peer's magic number is 22
    a.handle_message(
        &message(23, MessageBody::SyncRequest(SyncRequest { random_request: 5 })),
        10,
        1,
    );
    assert!(a.send_all_messages().is_empty());
    a.handle_message(
        &message(22, MessageBody::SyncRequest(SyncRequest { random_request: 5 })),
        10,
        1,
    );
    assert_eq!(
        a.send_all_messages(),
        vec![message(11, MessageBody::SyncReply(SyncReply { random_reply: 5 }))]
    );
}

#[test]
fn test_inputs_travel_in_order() {
    let (mut a, mut b) = running_pair(0);
    a.send_all_messages();
    b.send_all_messages();
    let inputs = vec![
        input_with(0, [1, 0, 0, 0]),
        input_with(1, [1, 2, 0, 0]),
        input_with(2, [0, 0, 0, 9]),
    ];
    for input in &inputs {
        assert_eq!(a.send_input(input.clone(), &status(), 10), Ok(()));
    }
    // three messages: the first holds frame 0, the last frames 0 to 2
    let sent = a.send_all_messages();
    assert_eq!(sent.len(), 3);
    match &sent[2].body {
        MessageBody::Input(body) => {
            assert_eq!(body.start_frame, 0);
            assert_eq!(body.ack_frame, -1);
            assert!(!body.disconnect_requested);
            assert_eq!(body.peer_connect_status, status());
        }
        other => panic!("unexpected message {:?}", other),
    }
    for m in &sent {
        b.handle_message(m, 10, 1);
    }
    let events = b.poll(&status(), 10, 1);
    assert_eq!(
        events,
        vec![
            Event::Input(inputs[0].clone()),
            Event::Input(inputs[1].clone()),
            Event::Input(inputs[2].clone()),
        ]
    );
    assert_eq!(b.last_recv_frame(), 2);
    // each batch is acknowledged
    let acks = b.send_all_messages();
    assert_eq!(
        acks,
        vec![
            message(22, MessageBody::InputAck(InputAck { ack_frame: 0 })),
            message(22, MessageBody::InputAck(InputAck { ack_frame: 1 })),
            message(22, MessageBody::InputAck(InputAck { ack_frame: 2 })),
        ]
    );
    assert_eq!(a.network_stats(5000).unwrap().send_queue_len, 3);
    a.handle_message(&acks[1], 10, 1);
    assert_eq!(a.network_stats(5000).unwrap().send_queue_len, 1);
    // the next batch starts behind the acknowledged frame
    assert_eq!(a.send_input(input_with(3, [7, 7, 7, 7]), &status(), 10), Ok(()));
    let next = a.send_all_messages();
    match &next[0].body {
        MessageBody::Input(body) => assert_eq!(body.start_frame, 2),
        other => panic!("unexpected message {:?}", other),
    }
    b.handle_message(&next[0], 10, 1);
    assert_eq!(b.poll(&status(), 10, 1), vec![Event::Input(input_with(3, [7, 7, 7, 7]))]);
}

#[test]
fn test_input_batches_that_cannot_be_decoded_are_dropped() {
    let (mut a, mut b) = running_pair(0);
    a.send_all_messages();
    b.send_all_messages();
    // a batch that starts at frame 5 needs the input of frame 4
    let body = Input {
        peer_connect_status: status(),
        disconnect_requested: false,
        start_frame: 5,
        ack_frame: -1,
        bytes: vec![17],
    };
    b.handle_message(&message(11, MessageBody::Input(body)), 10, 1);
    assert!(b.poll(&status(), 10, 1).is_empty());
    assert!(b.send_all_messages().is_empty());
    // a payload that is no stream
    let body = Input {
        peer_connect_status: status(),
        disconnect_requested: false,
        start_frame: 0,
        ack_frame: -1,
        bytes: vec![0x80],
    };
    b.handle_message(&message(11, MessageBody::Input(body)), 10, 1);
    assert!(b.poll(&status(), 10, 1).is_empty());
    assert_eq!(b.last_recv_frame(), -1);
    // a run of four zero bytes is the input of frame 0
    let body = Input {
        peer_connect_status: status(),
        disconnect_requested: false,
        start_frame: 0,
        ack_frame: -1,
        bytes: vec![17],
    };
    b.handle_message(&message(11, MessageBody::Input(body)), 10, 1);
    assert_eq!(b.poll(&status(), 10, 1), vec![Event::Input(PlayerInput::new(0, SIZE))]);
    assert_eq!(a.state(), ProtocolState::Running);
}

#[test]
fn test_peer_status_is_merged() {
    let (_a, mut b) = running_pair(0);
    let theirs = vec![
        ConnectionStatus { disconnected: true, last_frame: 3 },
        ConnectionStatus { disconnected: false, last_frame: 9 },
    ];
    let body = Input {
        peer_connect_status: theirs.clone(),
        disconnect_requested: false,
        start_frame: 0,
        ack_frame: -1,
        bytes: vec![17],
    };
    b.handle_message(&message(11, MessageBody::Input(body)), 10, 1);
    assert_eq!(b.peer_connect_status(0), theirs[0]);
    assert_eq!(b.peer_connect_status(1), theirs[1]);
    // what is known is not taken back
    let body = Input {
        peer_connect_status: status(),
        disconnect_requested: false,
        start_frame: 1,
        ack_frame: -1,
        bytes: vec![17],
    };
    b.handle_message(&message(11, MessageBody::Input(body)), 10, 1);
    assert_eq!(b.peer_connect_status(0), theirs[0]);
    assert_eq!(b.peer_connect_status(1), theirs[1]);
}

#[test]
fn test_disconnect_request_ends_the_connection() {
    let (_a, mut b) = running_pair(0);
    b.send_all_messages();
    let body = Input {
        peer_connect_status: status(),
        disconnect_requested: true,
        start_frame: 0,
        ack_frame: -1,
        bytes: vec![17],
    };
    b.handle_message(&message(11, MessageBody::Input(body)), 10, 1);
    assert_eq!(b.state(), ProtocolState::Disconnected);
    assert_eq!(b.poll(&status(), 10, 1), vec![Event::Disconnected]);
    assert_eq!(b.last_recv_frame(), -1);
}

#[test]
fn test_send_input_rejects_what_is_out_of_order() {
    let (mut a, _b) = running_pair(0);
    assert_eq!(
        a.send_input(input_with(1, [0; 4]), &status(), 10),
        Err(GGRSError::InvalidInput)
    );
    assert_eq!(
        a.send_input(PlayerInput::new(0, 3), &status(), 10),
        Err(GGRSError::InvalidInput)
    );
    assert_eq!(a.send_input(input_with(0, [0; 4]), &status(), 10), Ok(()));
    assert_eq!(
        a.send_input(input_with(0, [0; 4]), &status(), 10),
        Err(GGRSError::InvalidInput)
    );
    // an endpoint that does not run takes nothing and says nothing
    let mut idle = endpoint(5, 0);
    assert_eq!(idle.send_input(input_with(7, [0; 4]), &status(), 10), Ok(()));
    assert!(idle.send_all_messages().is_empty());
}

#[test]
fn test_too_many_unacknowledged_inputs() {
    let (mut a, _b) = running_pair(0);
    a.poll(&status(), 0, 1);
    for frame in 0..64 {
        assert_eq!(a.send_input(input_with(frame, [1; 4]), &status(), 10), Ok(()));
        assert_eq!(a.state(), ProtocolState::Running);
    }
    assert!(a.poll(&status(), 10, 1).is_empty());
    assert_eq!(a.send_input(input_with(64, [1; 4]), &status(), 10), Ok(()));
    assert_eq!(a.state(), ProtocolState::Disconnected);
    assert_eq!(a.poll(&status(), 10, 1), vec![Event::Disconnected]);
}

#[test]
fn test_silence_interrupts_then_disconnects_once() {
    let (mut a, _b) = running_pair(1000);
    a.poll(&status(), 1000, 1);
    assert!(a.poll(&status(), 1749, 1).is_empty());
    assert_eq!(
        a.poll(&status(), 1750, 1),
        vec![Event::NetworkInterrupted { disconnect_timeout: 1250 }]
    );
    assert!(a.poll(&status(), 1751, 1).is_empty());
    assert!(a.poll(&status(), 2999, 1).is_empty());
    assert_eq!(a.state(), ProtocolState::Running);
    a.send_all_messages();
    assert_eq!(a.poll(&status(), 3000, 1), vec![Event::Disconnected]);
    assert_eq!(a.state(), ProtocolState::Disconnected);
    // nothing comes after
    assert!(a.send_all_messages().is_empty());
    assert!(a.poll(&status(), 3001, 1).is_empty());
    assert!(a.poll(&status(), 90000, 1).is_empty());
    a.handle_message(&message(22, MessageBody::KeepAlive), 90001, 1);
    a.handle_message(
        &message(22, MessageBody::SyncRequest(SyncRequest { random_request: 1 })),
        90001,
        1,
    );
    assert!(a.poll(&status(), 90002, 1).is_empty());
    assert!(a.send_all_messages().is_empty());
    assert_eq!(a.state(), ProtocolState::Disconnected);
    assert_eq!(a.network_stats(90002), Err(GGRSError::NotSynchronized));
}

#[test]
fn test_late_poll_disconnects_without_warning() {
    let (mut a, _b) = running_pair(1000);
    assert_eq!(a.poll(&status(), 5000, 1), vec![Event::Disconnected]);
}

#[test]
fn test_network_resumes() {
    let (mut a, _b) = running_pair(1000);
    assert_eq!(
        a.poll(&status(), 1800, 1),
        vec![Event::NetworkInterrupted { disconnect_timeout: 1250 }]
    );
    a.handle_message(&message(22, MessageBody::KeepAlive), 1900, 1);
    assert_eq!(a.poll(&status(), 1900, 1), vec![Event::NetworkResumed]);
    // the silence counts from the last message on
    assert!(a.poll(&status(), 2649, 1).is_empty());
    assert_eq!(
        a.poll(&status(), 2650, 1),
        vec![Event::NetworkInterrupted { disconnect_timeout: 1250 }]
    );
    assert_eq!(a.poll(&status(), 3900, 1), vec![Event::Disconnected]);
}

#[test]
fn test_keep_alive_and_quality_report() {
    let (mut a, _b) = running_pair(1000);
    a.send_all_messages();
    a.poll(&status(), 1100, 1);
    assert!(a.send_all_messages().is_empty());
    // nothing was sent for 200 ms
    a.poll(&status(), 1200, 1);
    assert_eq!(a.send_all_messages(), vec![message(11, MessageBody::KeepAlive)]);
    a.poll(&status(), 1399, 1);
    assert!(a.send_all_messages().is_empty());
    a.poll(&status(), 1400, 1);
    assert_eq!(a.send_all_messages(), vec![message(11, MessageBody::KeepAlive)]);
    // a second after the endpoint began to run, the quality report is due
    a.handle_message(&message(22, MessageBody::KeepAlive), 1900, 1);
    a.poll(&status(), 2000, 1);
    assert_eq!(
        a.send_all_messages(),
        vec![message(
            11,
            MessageBody::QualityReport(QualityReport { frame_advantage: 0, ping: 2000 })
        )]
    );
}

#[test]
fn test_quality_report_is_echoed() {
    let (mut a, _b) = running_pair(1000);
    a.send_all_messages();
    a.handle_message(
        &message(22, MessageBody::QualityReport(QualityReport { frame_advantage: -3, ping: 555 })),
        1010,
        1,
    );
    assert_eq!(
        a.send_all_messages(),
        vec![message(11, MessageBody::QualityReply(QualityReply { pong: 555 }))]
    );
    assert_eq!(a.network_stats(3000).unwrap().remote_frames_behind, -3);
}

#[test]
fn test_round_trip_time_is_smoothed() {
    let (mut a, _b) = running_pair(1000);
    assert_eq!(a.network_stats(3000).unwrap().ping, 0);
    a.handle_message(&message(22, MessageBody::QualityReply(QualityReply { pong: 920 })), 1000, 1);
    assert_eq!(a.network_stats(3000).unwrap().ping, 80);
    // 80 - 80 / 8 + 160 / 8
    a.handle_message(&message(22, MessageBody::QualityReply(QualityReply { pong: 840 })), 1000, 1);
    assert_eq!(a.network_stats(3000).unwrap().ping, 90);
    // an echo from the future measures nothing
    a.handle_message(&message(22, MessageBody::QualityReply(QualityReply { pong: 1001 })), 1000, 1);
    assert_eq!(a.network_stats(3000).unwrap().ping, 90);
}

#[test]
fn test_local_frame_advantage() {
    let (mut a, mut b) = running_pair(1000);
    a.send_all_messages();
    for frame in 0..10 {
        a.send_input(input_with(frame, [0; 4]), &status(), 1000).unwrap();
    }
    for m in a.send_all_messages() {
        b.handle_message(&m, 1000, 1);
    }
    assert_eq!(b.last_recv_frame(), 9);
    // a round trip of 200 ms: the peer is 6 frames further by now
    b.handle_message(&message(11, MessageBody::QualityReply(QualityReply { pong: 800 })), 1000, 1);
    b.update_local_frame_advantage(12);
    assert_eq!(b.network_stats(3000).unwrap().local_frames_behind, 3);
    b.update_local_frame_advantage(-1);
    assert_eq!(b.network_stats(3000).unwrap().local_frames_behind, 3);
    // the report carries the advantage
    b.send_all_messages();
    b.poll(&status(), 2000, 1);
    let sent = b.send_all_messages();
    assert!(sent.contains(&message(
        22,
        MessageBody::QualityReport(QualityReport { frame_advantage: 3, ping: 2000 })
    )));
}

#[test]
fn test_network_stats() {
    let mut e = endpoint(7, 0);
    e.synchronize(1000, 1);
    // less than a second since the handshake began
    assert_eq!(e.network_stats(1999), Err(GGRSError::NotSynchronized));
    // one request of 6 bytes and 28 bytes of transport: 34 bytes in one second
    let stats = e.network_stats(2000).unwrap();
    assert_eq!(stats.kbps_sent, 0);
    assert_eq!(stats.send_queue_len, 0);
    assert_eq!(stats.ping, 0);
    for nonce in 0..100 {
        e.poll(&status(), 1000 + 500 * (nonce as u128 + 1), nonce);
    }
    // 101 requests: 3434 bytes in one second
    assert_eq!(e.network_stats(2000).unwrap().kbps_sent, 3);
    assert_eq!(e.network_stats(3000).unwrap().kbps_sent, 1);
}

#[test]
fn test_forced_disconnect() {
    let (mut a, _b) = running_pair(0);
    a.disconnect();
    assert_eq!(a.state(), ProtocolState::Disconnected);
    assert!(a.is_synchronized());
    assert!(!a.is_running());
    assert!(a.poll(&status(), 100000, 1).is_empty());
}

#[test]
fn test_resend_of_pending_inputs() {
    let (mut a, _b) = running_pair(1000);
    a.poll(&status(), 1000, 1);
    a.send_input(input_with(0, [5; 4]), &status(), 1000).unwrap();
    let first = a.send_all_messages();
    assert_eq!(first.len(), 1);
    a.handle_message(&message(22, MessageBody::KeepAlive), 1150, 1);
    a.poll(&status(), 1199, 1);
    assert!(a.send_all_messages().is_empty());
    // no input has arrived for 200 ms: the pending input goes out again
    a.poll(&status(), 1200, 1);
    assert_eq!(a.send_all_messages(), first);
}
