use ggrs::error::GGRSError;
use ggrs::frame_info::PlayerInput;
use ggrs::network::protocol::UdpProtocol;
use ggrs::network::udp_msg::{ConnectionStatus, UdpMessage};
use ggrs::sessions::p2p_spectator_session::{SpectatorSession, SpectatorSessionBuilder};
use ggrs::{GGRSEvent, GGRSRequest, SessionState, NULL_FRAME};

const PLAYERS: usize = 2;
const INPUT_SIZE: u16 = 2;

fn status() -> Vec<ConnectionStatus> {
    vec![ConnectionStatus::default(); PLAYERS]
}

/// The host's end of the connection to the spectator: it sends merged inputs and receives none.
fn host_endpoint(now: u128) -> UdpProtocol {
    let mut host = UdpProtocol::new(vec![], PLAYERS, 4, 0, 8, 2000, 750, 60, 99, now);
    host.synchronize(now, 31337);
    host
}

fn merged(frame: i32) -> PlayerInput {
    let mut input = PlayerInput::new(frame, 4);
    let f = frame as u8;
    input.buffer.copy_from_slice(&[f, 1, f.wrapping_add(100), 2]);
    input
}

/// Carries messages between the session and the host until both are quiet.
fn pump(session: &mut SpectatorSession, host: &mut UdpProtocol, now: u128) {
    let mut nonce = 1;
    for _ in 0..12 {
        let to_session: Vec<UdpMessage> = host.send_all_messages();
        session.poll_remote_clients(&to_session, now, nonce);
        for m in session.send_all_messages() {
            host.handle_message(&m, now, nonce + 100);
        }
        host.poll(&status(), now, nonce + 200);
        nonce += 1;
    }
}

fn running_session(max_frames_behind: u32, catchup_speed: u32) -> (SpectatorSession, UdpProtocol) {
    let mut session = SpectatorSessionBuilder::new(PLAYERS, INPUT_SIZE)
        .with_max_frames_behind(max_frames_behind)
        .with_catchup_speed(catchup_speed)
        .start_session(7, 0, 4242);
    let mut host = host_endpoint(0);
    pump(&mut session, &mut host, 0);
    assert_eq!(session.current_state(), SessionState::Running);
    assert!(host.is_running());
    (session, host)
}

fn deliver(session: &mut SpectatorSession, host: &mut UdpProtocol, frames: std::ops::Range<i32>) {
    for frame in frames {
        host.send_input(merged(frame), &status(), 0).unwrap();
        pump_once(session, host);
    }
}

fn pump_once(session: &mut SpectatorSession, host: &mut UdpProtocol) {
    let to_session = host.send_all_messages();
    session.poll_remote_clients(&to_session, 0, 1);
    for m in session.send_all_messages() {
        host.handle_message(&m, 0, 1);
    }
}

fn frames_of(requests: &[GGRSRequest]) -> Vec<Vec<i32>> {
    requests
        .iter()
        .map(|r| match r {
            GGRSRequest::AdvanceFrame { inputs } => inputs.iter().map(|i| i.frame).collect(),
            other => panic!("unexpected request {:?}", other),
        })
        .collect()
}

#[test]
fn test_builder_rejects_zero_fps() {
    let builder = SpectatorSessionBuilder::new(PLAYERS, INPUT_SIZE);
    match builder.with_fps(0) {
        Err(GGRSError::InvalidRequest { info }) => {
            assert_eq!(info, "FPS should be higher than 0.")
        }
        _ => panic!("zero fps was accepted"),
    }
    assert!(SpectatorSessionBuilder::new(PLAYERS, INPUT_SIZE).with_fps(30).is_ok());
}

#[test]
fn test_new_session_waits_for_the_host() {
    let mut session = SpectatorSessionBuilder::new(PLAYERS, INPUT_SIZE)
        .with_disconnect_timeout(3000)
        .with_disconnect_notify_delay(500)
        .start_session(7, 0, 4242);
    assert_eq!(session.current_state(), SessionState::Synchronizing);
    assert_eq!(session.num_players(), PLAYERS);
    assert_eq!(session.frames_behind_host(), 0);
    assert!(session.events().is_empty());
    assert_eq!(session.advance_frame(&[], 1, 1), Err(GGRSError::NotSynchronized));
    assert_eq!(session.network_stats(10), Err(GGRSError::NotSynchronized));
    assert!(session.network_stats(1000).is_ok());
    // the handshake request is on its way
    assert_eq!(session.send_all_messages().len(), 1);
}

#[test]
fn test_session_synchronizes_with_the_host() {
    let (mut session, _host) = running_session(10, 1);
    assert_eq!(
        session.events(),
        vec![
            GGRSEvent::Synchronizing { player_handle: 0, total: 5, count: 1 },
            GGRSEvent::Synchronizing { player_handle: 0, total: 5, count: 2 },
            GGRSEvent::Synchronizing { player_handle: 0, total: 5, count: 3 },
            GGRSEvent::Synchronizing { player_handle: 0, total: 5, count: 4 },
            GGRSEvent::Synchronized { player_handle: 0 },
        ]
    );
    assert!(session.events().is_empty());
}

#[test]
fn test_advance_without_input_hits_the_threshold() {
    let (mut session, _host) = running_session(10, 1);
    assert_eq!(session.advance_frame(&[], 0, 1), Err(GGRSError::PredictionThreshold));
    assert_eq!(session.frames_behind_host(), 0);
}

#[test]
fn test_advance_hands_out_the_inputs_of_each_player() {
    let (mut session, mut host) = running_session(10, 1);
    deliver(&mut session, &mut host, 0..3);
    assert_eq!(session.frames_behind_host(), 3);
    for frame in 0..3 {
        let requests = session.advance_frame(&[], 0, 1).unwrap();
        let mut first = PlayerInput::new(frame, INPUT_SIZE);
        first.buffer.copy_from_slice(&[frame as u8, 1]);
        let mut second = PlayerInput::new(frame, INPUT_SIZE);
        second.buffer.copy_from_slice(&[frame as u8 + 100, 2]);
        assert_eq!(requests, vec![GGRSRequest::AdvanceFrame { inputs: vec![first, second] }]);
    }
    assert_eq!(session.frames_behind_host(), 0);
    assert_eq!(session.advance_frame(&[], 0, 1), Err(GGRSError::PredictionThreshold));
}

#[test]
fn test_advance_polls_first() {
    let (mut session, mut host) = running_session(10, 1);
    host.send_input(merged(0), &status(), 0).unwrap();
    let messages = host.send_all_messages();
    let requests = session.advance_frame(&messages, 0, 1).unwrap();
    assert_eq!(frames_of(&requests), vec![vec![0, 0]]);
    // the input is acknowledged
    assert!(!session.send_all_messages().is_empty());
}

#[test]
fn test_spectator_catches_up() {
    let (mut session, mut host) = running_session(10, 2);
    deliver(&mut session, &mut host, 0..15);
    assert_eq!(session.frames_behind_host(), 15);
    let requests = session.advance_frame(&[], 0, 1).unwrap();
    assert_eq!(frames_of(&requests), vec![vec![0, 0], vec![1, 1]]);
    assert_eq!(session.frames_behind_host(), 13);
    let requests = session.advance_frame(&[], 0, 1).unwrap();
    assert_eq!(frames_of(&requests), vec![vec![2, 2], vec![3, 3]]);
    let requests = session.advance_frame(&[], 0, 1).unwrap();
    assert_eq!(frames_of(&requests), vec![vec![4, 4], vec![5, 5]]);
    // nine frames behind: not more than ten
    assert_eq!(session.frames_behind_host(), 9);
    let requests = session.advance_frame(&[], 0, 1).unwrap();
    assert_eq!(frames_of(&requests), vec![vec![6, 6]]);
}

#[test]
fn test_spectator_at_the_limit_does_not_catch_up() {
    let (mut session, mut host) = running_session(10, 2);
    deliver(&mut session, &mut host, 0..10);
    assert_eq!(session.frames_behind_host(), 10);
    let requests = session.advance_frame(&[], 0, 1).unwrap();
    assert_eq!(requests.len(), 1);
}

#[test]
fn test_spectator_too_far_behind() {
    let (mut session, mut host) = running_session(10, 1);
    deliver(&mut session, &mut host, 0..60);
    assert_eq!(session.frames_behind_host(), 60);
    let requests = session.advance_frame(&[], 0, 1).unwrap();
    assert_eq!(frames_of(&requests), vec![vec![0, 0]]);
    // frames 60 and 61 take the places of frames 0 and 1
    deliver(&mut session, &mut host, 60..62);
    assert_eq!(session.advance_frame(&[], 0, 1), Err(GGRSError::SpectatorTooFarBehind));
    assert_eq!(session.frames_behind_host(), 61);
}

#[test]
fn test_failed_catch_up_keeps_the_frames_before() {
    let (mut session, mut host) = running_session(1, 3);
    deliver(&mut session, &mut host, 0..2);
    assert_eq!(session.frames_behind_host(), 2);
    // three frames are due, two are there
    assert_eq!(session.advance_frame(&[], 0, 1), Err(GGRSError::PredictionThreshold));
    assert_eq!(session.frames_behind_host(), 0);
}

#[test]
fn test_input_of_a_player_who_left_belongs_to_no_frame() {
    let (mut session, mut host) = running_session(10, 1);
    let left = vec![
        ConnectionStatus::default(),
        ConnectionStatus { disconnected: true, last_frame: 0 },
    ];
    host.send_input(merged(0), &left, 0).unwrap();
    pump_once(&mut session, &mut host);
    host.send_input(merged(1), &left, 0).unwrap();
    pump_once(&mut session, &mut host);
    let requests = session.advance_frame(&[], 0, 1).unwrap();
    assert_eq!(frames_of(&requests), vec![vec![0, 0]]);
    let requests = session.advance_frame(&[], 0, 1).unwrap();
    assert_eq!(frames_of(&requests), vec![vec![1, NULL_FRAME]]);
}

#[test]
fn test_set_catchup_speed() {
    let (mut session, mut host) = running_session(10, 1);
    match session.set_catchup_speed(0) {
        Err(GGRSError::InvalidRequest { info }) => {
            assert_eq!(info, "Catchup speed cannot be smaller than 1.")
        }
        other => panic!("unexpected {:?}", other),
    }
    match session.set_catchup_speed(10) {
        Err(GGRSError::InvalidRequest { info }) => assert_eq!(
            info,
            "Catchup speed cannot be larger or equal than the allowed maximum frames behind host"
        ),
        other => panic!("unexpected {:?}", other),
    }
    assert_eq!(session.set_catchup_speed(9), Ok(()));
    deliver(&mut session, &mut host, 0..11);
    assert_eq!(session.advance_frame(&[], 0, 1).unwrap().len(), 9);
}

#[test]
fn test_set_max_frames_behind() {
    let (mut session, mut host) = running_session(10, 2);
    match session.set_max_frames_behind(0) {
        Err(GGRSError::InvalidRequest { info }) => {
            assert_eq!(info, "Max frames behind cannot be smaller than 2.")
        }
        other => panic!("unexpected {:?}", other),
    }
    match session.set_max_frames_behind(60) {
        Err(GGRSError::InvalidRequest { info }) => assert_eq!(
            info,
            "Max frames behind cannot be larger or equal than the Spectator buffer size (60)"
        ),
        other => panic!("unexpected {:?}", other),
    }
    assert_eq!(session.set_max_frames_behind(59), Ok(()));
    assert_eq!(session.set_max_frames_behind(3), Ok(()));
    deliver(&mut session, &mut host, 0..4);
    assert_eq!(session.advance_frame(&[], 0, 1).unwrap().len(), 2);
}

#[test]
fn test_host_falls_silent() {
    let (mut session, _host) = running_session(10, 1);
    session.events();
    session.poll_remote_clients(&[], 749, 1);
    assert!(session.events().is_empty());
    session.poll_remote_clients(&[], 750, 1);
    assert_eq!(
        session.events(),
        vec![GGRSEvent::NetworkInterrupted { player_handle: 0, disconnect_timeout: 1250 }]
    );
    session.poll_remote_clients(&[UdpMessage::dummy()], 800, 1);
    // a message of a stranger is not heard
    assert!(session.events().is_empty());
    session.poll_remote_clients(&[], 2000, 1);
    assert_eq!(session.events(), vec![GGRSEvent::Disconnected { player_handle: 0 }]);
    session.poll_remote_clients(&[], 5000, 1);
    assert!(session.events().is_empty());
}

#[test]
fn test_event_queue_keeps_the_latest() {
    let (mut session, _host) = running_session(10, 1);
    assert_eq!(session.events().len(), 5);
    // the host is heard and falls silent in turn: two events each time
    let keep_alive = UdpMessage {
        header: ggrs::network::udp_msg::MessageHeader { magic: 99 },
        body: ggrs::network::udp_msg::MessageBody::KeepAlive,
    };
    let mut now = 0;
    for _ in 0..60 {
        now += 800;
        session.poll_remote_clients(&[], now, 1);
        session.poll_remote_clients(&[keep_alive.clone()], now, 1);
    }
    let events = session.events();
    assert_eq!(events.len(), 100);
    assert_eq!(events[99], GGRSEvent::NetworkResumed { player_handle: 0 });
    assert_eq!(
        events[0],
        GGRSEvent::NetworkInterrupted { player_handle: 0, disconnect_timeout: 1250 }
    );
}
