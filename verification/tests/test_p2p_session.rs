use ggrs::error::GGRSError;
use ggrs::frame_info::PlayerInput;
use ggrs::network::udp_msg::UdpMessage;
use ggrs::sessions::p2p_session::P2PSession;
use ggrs::sessions::p2p_spectator_session::{SpectatorSession, SpectatorSessionBuilder};
use ggrs::sync_layer::GameState;
use ggrs::{GGRSEvent, GGRSRequest, SessionState, NULL_FRAME};

fn session(local_handle: usize, spectators: usize, magic: u16) -> P2PSession {
    P2PSession::new(2, 1, local_handle, spectators, 2000, 750, 60, magic, 0, magic as u32).unwrap()
}

/// The messages of `from` for the peer `to`, as that peer receives them.
fn addressed(
    outgoing: &[(usize, UdpMessage)],
    to: usize,
    from: usize,
) -> Vec<(usize, UdpMessage)> {
    outgoing.iter().filter(|(peer, _)| *peer == to).map(|(_, m)| (from, m.clone())).collect()
}

/// Carries the waiting messages between the two players, `rounds` times.
fn exchange(a: &mut P2PSession, b: &mut P2PSession, now: u128, rounds: usize) {
    for round in 0..rounds {
        let to_b = addressed(&a.send_all_messages(), 1, 0);
        b.poll_remote_clients(&to_b, now, 1000 + round as u32);
        let to_a = addressed(&b.send_all_messages(), 0, 1);
        a.poll_remote_clients(&to_a, now, 2000 + round as u32);
    }
}

fn running_pair() -> (P2PSession, P2PSession) {
    let mut a = session(0, 0, 11);
    let mut b = session(1, 0, 22);
    exchange(&mut a, &mut b, 0, 8);
    assert_eq!(a.current_state(), SessionState::Running);
    assert_eq!(b.current_state(), SessionState::Running);
    a.events();
    b.events();
    (a, b)
}

fn input_with(frame: i32, byte: u8) -> PlayerInput {
    let mut input = PlayerInput::new(frame, 1);
    input.buffer[0] = byte;
    input
}

fn save(frame: i32) -> GGRSRequest {
    GGRSRequest::SaveGameState { cell: frame as usize % 10, frame }
}

fn advance(frame: i32, a: u8, b: u8) -> GGRSRequest {
    GGRSRequest::AdvanceFrame { inputs: vec![input_with(frame, a), input_with(frame, b)] }
}

#[test]
fn test_new_p2p_session() {
    let mut a = session(0, 0, 11);
    assert_eq!(a.current_state(), SessionState::Synchronizing);
    assert_eq!(a.num_players(), 2);
    assert_eq!(a.current_frame(), 0);
    assert_eq!(a.last_confirmed_frame(), NULL_FRAME);
    assert!(a.events().is_empty());
    // the handshake with the remote player has begun
    let waiting = a.send_all_messages();
    assert_eq!(waiting.len(), 1);
    assert_eq!(waiting[0].0, 1);
    assert_eq!(a.add_local_input(0, &[1], 0), Err(GGRSError::NotSynchronized));
    assert_eq!(a.advance_frame(&[], 0, 1), Err(GGRSError::NotSynchronized));
    for (players, size, local, fps) in [(2, 1, 2, 60), (2, 1, 0, 0), (3, 40000, 0, 60)] {
        match P2PSession::new(players, size, local, 0, 2000, 750, fps, 1, 0, 1) {
            Err(GGRSError::InvalidRequest { .. }) => {}
            _ => panic!("a session that makes no sense was made"),
        }
    }
}

#[test]
fn test_session_without_peers_runs_at_once() {
    let mut alone = P2PSession::new(1, 1, 0, 0, 2000, 750, 60, 1, 0, 1).unwrap();
    assert_eq!(alone.current_state(), SessionState::Running);
    for frame in 0..20 {
        assert_eq!(alone.add_local_input(0, &[frame as u8], 0), Ok(()));
        let requests = alone.advance_frame(&[], 0, 1).unwrap();
        assert_eq!(
            requests,
            vec![
                save(frame),
                GGRSRequest::AdvanceFrame { inputs: vec![input_with(frame, frame as u8)] }
            ]
        );
        // the input of the only player is known as soon as it is added
        assert_eq!(alone.last_confirmed_frame(), frame);
    }
    assert!(alone.send_all_messages().is_empty());
}

#[test]
fn test_two_players_synchronize() {
    let mut a = session(0, 0, 11);
    let mut b = session(1, 0, 22);
    exchange(&mut a, &mut b, 0, 8);
    let events_a = a.events();
    let events_b = b.events();
    assert_eq!(events_a.len(), 5);
    assert_eq!(events_a[0], GGRSEvent::Synchronizing { player_handle: 1, total: 5, count: 1 });
    assert_eq!(events_a[4], GGRSEvent::Synchronized { player_handle: 1 });
    assert_eq!(events_b[4], GGRSEvent::Synchronized { player_handle: 0 });
    assert_eq!(a.current_state(), SessionState::Running);
    assert_eq!(b.current_state(), SessionState::Running);
    // the first frame
    assert_eq!(a.add_local_input(0, &[5], 0), Ok(()));
    assert_eq!(a.advance_frame(&[], 0, 1), Ok(vec![save(0), advance(0, 5, 0)]));
    assert_eq!(a.current_frame(), 1);
}

#[test]
fn test_inputs_reach_the_other_player() {
    let (mut a, mut b) = running_pair();
    for frame in 0..5 {
        a.add_local_input(0, &[10 + frame as u8], 0).unwrap();
        b.add_local_input(1, &[20 + frame as u8], 0).unwrap();
        exchange(&mut a, &mut b, 0, 2);
        assert_eq!(
            a.advance_frame(&[], 0, 1),
            Ok(vec![save(frame), advance(frame, 10 + frame as u8, 20 + frame as u8)])
        );
        assert_eq!(
            b.advance_frame(&[], 0, 1),
            Ok(vec![save(frame), advance(frame, 10 + frame as u8, 20 + frame as u8)])
        );
        assert_eq!(a.last_confirmed_frame(), frame);
        assert_eq!(b.last_confirmed_frame(), frame);
    }
}

#[test]
fn test_wrong_prediction_is_rolled_back() {
    let (mut a, mut b) = running_pair();
    // player 0 is two frames ahead of what it knows of player 1
    a.add_local_input(0, &[5], 0).unwrap();
    assert_eq!(a.advance_frame(&[], 0, 1), Ok(vec![save(0), advance(0, 5, 0)]));
    a.add_local_input(0, &[6], 0).unwrap();
    assert_eq!(a.advance_frame(&[], 0, 1), Ok(vec![save(1), advance(1, 6, 0)]));
    let to_b = addressed(&a.send_all_messages(), 1, 0);
    b.add_local_input(1, &[9], 0).unwrap();
    assert_eq!(b.advance_frame(&to_b, 0, 1), Ok(vec![save(0), advance(0, 5, 9)]));
    let to_a = addressed(&b.send_all_messages(), 0, 1);
    a.add_local_input(0, &[7], 0).unwrap();
    assert_eq!(
        a.advance_frame(&to_a, 0, 1),
        Ok(vec![
            GGRSRequest::LoadGameState { cell: 0, frame: 0 },
            save(0),
            advance(0, 5, 9),
            save(1),
            advance(1, 6, 9),
            save(2),
            advance(2, 7, 9),
        ])
    );
    assert_eq!(a.current_frame(), 3);
    // once the game has gone back, frame 0 counts as confirmed
    a.poll_remote_clients(&[], 0, 1);
    assert_eq!(a.last_confirmed_frame(), 0);
}

#[test]
fn test_prediction_window_is_bounded() {
    let (mut a, _b) = running_pair();
    for frame in 0..7 {
        assert_eq!(a.add_local_input(0, &[frame], 0), Ok(()));
        assert!(a.advance_frame(&[], 0, 1).is_ok());
    }
    assert_eq!(a.add_local_input(0, &[7], 0), Err(GGRSError::PredictionThreshold));
    assert_eq!(a.current_frame(), 7);
}

#[test]
fn test_local_input_errors() {
    let (mut a, _b) = running_pair();
    match a.add_local_input(1, &[0], 0) {
        Err(GGRSError::InvalidRequest { info }) => assert_eq!(info, "The player handle is invalid."),
        other => panic!("unexpected {:?}", other),
    }
    assert_eq!(a.add_local_input(0, &[0, 0], 0), Err(GGRSError::InvalidInput));
    assert_eq!(a.add_local_input(0, &[1], 0), Ok(()));
    // the frame has its input
    assert_eq!(a.add_local_input(0, &[1], 0), Err(GGRSError::InvalidInput));
}

#[test]
fn test_frame_delay_of_the_local_player() {
    let (mut a, mut b) = running_pair();
    assert!(a.set_frame_delay(2, 1).is_err());
    assert!(a.set_frame_delay(8, 0).is_err());
    assert_eq!(a.set_frame_delay(2, 0), Ok(()));
    for frame in 0..4 {
        a.add_local_input(0, &[10 + frame as u8], 0).unwrap();
        b.add_local_input(1, &[20 + frame as u8], 0).unwrap();
        exchange(&mut a, &mut b, 0, 2);
        // the inputs of player 0 take effect two frames later
        let delayed = if frame < 2 { 0 } else { 10 + frame as u8 - 2 };
        let expected = vec![save(frame), advance(frame, delayed, 20 + frame as u8)];
        assert_eq!(a.advance_frame(&[], 0, 1), Ok(expected.clone()));
        assert_eq!(b.advance_frame(&[], 0, 1), Ok(expected));
    }
}

#[test]
fn test_disconnect_player() {
    let (mut a, mut b) = running_pair();
    for frame in 0..3 {
        a.add_local_input(0, &[1], 0).unwrap();
        b.add_local_input(1, &[2], 0).unwrap();
        exchange(&mut a, &mut b, 0, 2);
        a.advance_frame(&[], 0, 1).unwrap();
        b.advance_frame(&[], 0, 1).unwrap();
        assert_eq!(a.last_confirmed_frame(), frame);
    }
    assert!(matches!(a.disconnect_player(0), Err(GGRSError::InvalidRequest { .. })));
    assert!(matches!(a.disconnect_player(2), Err(GGRSError::InvalidRequest { .. })));
    assert_eq!(a.disconnect_player(1), Ok(()));
    assert_eq!(a.disconnect_player(1), Err(GGRSError::PlayerDisconnected { handle: 1 }));
    assert_eq!(a.network_stats(1, 5000), Err(GGRSError::NotSynchronized));
    // the inputs of the player count up to the last confirmed frame
    a.add_local_input(0, &[1], 0).unwrap();
    assert_eq!(
        a.advance_frame(&[], 0, 1),
        Ok(vec![
            save(3),
            GGRSRequest::AdvanceFrame {
                inputs: vec![input_with(3, 1), PlayerInput::blank_input(1)]
            }
        ])
    );
    // the game goes on without the player
    for frame in 4..20 {
        assert_eq!(a.add_local_input(0, &[1], 0), Ok(()));
        assert!(a.advance_frame(&[], 0, 1).is_ok());
        assert_eq!(a.current_frame(), frame + 1);
    }
}

#[test]
fn test_silent_peer_is_given_up() {
    let (mut a, _b) = running_pair();
    a.poll_remote_clients(&[], 800, 1);
    assert_eq!(
        a.events(),
        vec![GGRSEvent::NetworkInterrupted { player_handle: 1, disconnect_timeout: 1250 }]
    );
    a.poll_remote_clients(&[], 2500, 1);
    assert_eq!(a.events(), vec![GGRSEvent::Disconnected { player_handle: 1 }]);
    a.poll_remote_clients(&[], 9000, 1);
    assert!(a.events().is_empty());
    assert_eq!(a.disconnect_player(1), Err(GGRSError::PlayerDisconnected { handle: 1 }));
}

#[test]
fn test_network_stats_of_a_peer() {
    let (a, _b) = running_pair();
    assert!(matches!(a.network_stats(0, 5000), Err(GGRSError::InvalidRequest { .. })));
    assert!(matches!(a.network_stats(2, 5000), Err(GGRSError::InvalidRequest { .. })));
    assert_eq!(a.network_stats(1, 500), Err(GGRSError::NotSynchronized));
    let stats = a.network_stats(1, 5000).unwrap();
    assert_eq!(stats.send_queue_len, 0);
    assert_eq!(stats.ping, 0);
}

#[test]
fn test_message_of_a_stranger_is_not_heard() {
    let (mut a, _b) = running_pair();
    a.send_all_messages();
    let message = UdpMessage {
        header: ggrs::network::udp_msg::MessageHeader { magic: 22 },
        body: ggrs::network::udp_msg::MessageBody::SyncRequest(
            ggrs::network::udp_msg::SyncRequest { random_request: 4 },
        ),
    };
    a.poll_remote_clients(&[(0, message.clone()), (7, message.clone())], 0, 1);
    assert!(a.send_all_messages().is_empty());
    a.poll_remote_clients(&[(1, message)], 0, 1);
    assert_eq!(a.send_all_messages().len(), 1);
}

#[test]
fn test_saved_states_of_a_session() {
    let mut alone = P2PSession::new(1, 1, 0, 0, 2000, 750, 60, 1, 0, 1).unwrap();
    alone.add_local_input(0, &[1], 0).unwrap();
    alone.advance_frame(&[], 0, 1).unwrap();
    let state = GameState { frame: 0, buffer: Some(vec![4, 2]), checksum: Some(42) };
    assert_eq!(alone.save_game_state(0, state.clone()), Ok(()));
    assert_eq!(alone.load_game_state(0), Some(&state));
    assert!(alone.save_game_state(1, state).is_err());
    assert!(alone.load_game_state(10).is_none());
}

/// Carries the waiting messages between two players and a spectator of the first.
fn exchange_with_spectator(
    a: &mut P2PSession,
    b: &mut P2PSession,
    spectator: &mut SpectatorSession,
    rounds: usize,
) {
    for round in 0..rounds {
        let from_a = a.send_all_messages();
        b.poll_remote_clients(&addressed(&from_a, 1, 0), 0, 1000 + round as u32);
        let to_spectator: Vec<UdpMessage> =
            addressed(&from_a, 2, 0).into_iter().map(|(_, m)| m).collect();
        spectator.poll_remote_clients(&to_spectator, 0, 3000 + round as u32);
        let mut to_a = addressed(&b.send_all_messages(), 0, 1);
        to_a.extend(spectator.send_all_messages().into_iter().map(|m| (2, m)));
        a.poll_remote_clients(&to_a, 0, 2000 + round as u32);
    }
}

#[test]
fn test_spectator_gets_the_confirmed_inputs() {
    let mut a = session(0, 1, 11);
    let mut b = session(1, 0, 22);
    let mut spectator = SpectatorSessionBuilder::new(2, 1).start_session(33, 0, 333);
    exchange_with_spectator(&mut a, &mut b, &mut spectator, 8);
    assert_eq!(a.current_state(), SessionState::Running);
    assert_eq!(spectator.current_state(), SessionState::Running);
    assert!(a.events().contains(&GGRSEvent::Synchronized { player_handle: 2 }));
    for frame in 0..6 {
        a.add_local_input(0, &[10 + frame as u8], 0).unwrap();
        b.add_local_input(1, &[20 + frame as u8], 0).unwrap();
        exchange_with_spectator(&mut a, &mut b, &mut spectator, 2);
        a.advance_frame(&[], 0, 1).unwrap();
        b.advance_frame(&[], 0, 1).unwrap();
    }
    exchange_with_spectator(&mut a, &mut b, &mut spectator, 2);
    assert_eq!(a.last_confirmed_frame(), 5);
    assert_eq!(spectator.frames_behind_host(), 6);
    for frame in 0..6 {
        assert_eq!(
            spectator.advance_frame(&[], 0, 1),
            Ok(vec![advance(frame, 10 + frame as u8, 20 + frame as u8)])
        );
    }
    assert_eq!(spectator.advance_frame(&[], 0, 1), Err(GGRSError::PredictionThreshold));
}

#[test]
fn test_wait_recommendation() {
    let (mut a, mut b) = running_pair();
    // player 1 says that it is a hundred frames behind
    let report = UdpMessage {
        header: ggrs::network::udp_msg::MessageHeader { magic: 22 },
        body: ggrs::network::udp_msg::MessageBody::QualityReport(
            ggrs::network::udp_msg::QualityReport { frame_advantage: 100, ping: 0 },
        ),
    };
    a.poll_remote_clients(&[(1, report)], 0, 1);
    let mut recommendations = Vec::new();
    for frame in 0..43 {
        a.add_local_input(0, &[1], 0).unwrap();
        b.add_local_input(1, &[2], 0).unwrap();
        exchange(&mut a, &mut b, 0, 2);
        for event in a.events() {
            match event {
                GGRSEvent::WaitRecommendation { skip_frames } => {
                    recommendations.push((frame, skip_frames))
                }
                other => panic!("unexpected {:?}", other),
            }
        }
        a.advance_frame(&[], 0, 1).unwrap();
        b.advance_frame(&[], 0, 1).unwrap();
    }
    // two frames of a hundred make an average of three over the window of
    // thirty, halved; the next recommendation comes forty frames later
    assert_eq!(recommendations, vec![(1, 3), (42, 50)]);
    assert!(b.events().is_empty());
}
