use ggrs::error::GGRSError;
use ggrs::frame_info::PlayerInput;
use ggrs::network::udp_msg::ConnectionStatus;
use ggrs::sync_layer::{GameState, SyncLayer};
use ggrs::{GGRSRequest, NULL_FRAME};

fn input_with(frame: i32, byte: u8) -> PlayerInput {
    let mut input = PlayerInput::new(frame, 1);
    input.buffer[0] = byte;
    input
}

fn connected() -> Vec<ConnectionStatus> {
    vec![ConnectionStatus::default(); 2]
}

fn save(frame: i32) -> GGRSRequest {
    GGRSRequest::SaveGameState { cell: frame as usize % 10, frame }
}

fn advance(frame: i32, a: u8, b: u8) -> GGRSRequest {
    GGRSRequest::AdvanceFrame { inputs: vec![input_with(frame, a), input_with(frame, b)] }
}

/// A layer for a local player 0 and a remote player 1, ten frames into the
/// game, with all inputs confirmed: those of player 1 are zero.
fn layer_at_frame_ten() -> SyncLayer {
    let mut layer = SyncLayer::new(2, 1, 8);
    for frame in 0..10 {
        assert_eq!(layer.add_local_input(0, input_with(frame, frame as u8)), Ok(frame));
        assert_eq!(layer.add_remote_input(1, input_with(frame, 0)), Ok(frame));
        let requests = layer.advance_frame(&connected()).unwrap();
        assert_eq!(requests, vec![save(frame), advance(frame, frame as u8, 0)]);
        layer.set_last_confirmed_frame(frame);
    }
    layer
}

#[test]
fn test_new_layer() {
    let layer = SyncLayer::new(3, 4, 8);
    assert_eq!(layer.current_frame(), 0);
    assert_eq!(layer.last_confirmed_frame(), NULL_FRAME);
    assert_eq!(layer.num_players(), 3);
    assert_eq!(layer.check_simulation(), (0, NULL_FRAME));
    assert_eq!(layer.saved_state(9), &GameState::blank());
    assert_eq!(layer.saved_state_by_frame(0), None);
}

#[test]
fn test_advance_saves_and_advances() {
    let layer = layer_at_frame_ten();
    assert_eq!(layer.current_frame(), 10);
    assert_eq!(layer.last_confirmed_frame(), 9);
}

#[test]
fn test_rollback_after_wrong_prediction() {
    let mut layer = layer_at_frame_ten();
    // the input of player 1 is predicted for the frames 10 to 13
    for frame in 10..14 {
        assert_eq!(layer.add_local_input(0, input_with(frame, frame as u8)), Ok(frame));
        let requests = layer.advance_frame(&connected()).unwrap();
        assert_eq!(requests, vec![save(frame), advance(frame, frame as u8, 0)]);
    }
    assert_eq!(layer.current_frame(), 14);
    assert_eq!(layer.check_simulation(), (0, NULL_FRAME));
    // the input of player 1 for frame 10 arrives, and is not as predicted
    assert_eq!(layer.add_remote_input(1, input_with(10, 1)), Ok(10));
    assert_eq!(layer.check_simulation(), (5, 10));
    assert_eq!(layer.add_local_input(0, input_with(14, 14)), Ok(14));
    let requests = layer.advance_frame(&connected()).unwrap();
    assert_eq!(
        requests,
        vec![
            GGRSRequest::LoadGameState { cell: 0, frame: 10 },
            save(10),
            advance(10, 10, 1),
            save(11),
            advance(11, 11, 1),
            save(12),
            advance(12, 12, 1),
            save(13),
            advance(13, 13, 1),
            save(14),
            advance(14, 14, 1),
        ]
    );
    assert_eq!(layer.current_frame(), 15);
    assert_eq!(layer.check_simulation(), (0, NULL_FRAME));
}

#[test]
fn test_right_prediction_needs_no_rollback() {
    let mut layer = layer_at_frame_ten();
    for frame in 10..13 {
        layer.add_local_input(0, input_with(frame, 0)).unwrap();
        layer.advance_frame(&connected()).unwrap();
    }
    for frame in 10..13 {
        assert_eq!(layer.add_remote_input(1, input_with(frame, 0)), Ok(frame));
    }
    assert_eq!(layer.check_simulation(), (0, NULL_FRAME));
    layer.add_local_input(0, input_with(13, 0)).unwrap();
    assert_eq!(
        layer.advance_frame(&connected()).unwrap(),
        vec![save(13), advance(13, 0, 0)]
    );
}

#[test]
fn test_rollback_with_foresight_gives_the_same_inputs() {
    // one layer learns the inputs of player 1 late, the other in time
    let mut late = layer_at_frame_ten();
    let mut timely = layer_at_frame_ten();
    let remote = [3u8, 1, 4, 1];
    let mut seen_in_time = Vec::new();
    for (i, frame) in (10..14).enumerate() {
        late.add_local_input(0, input_with(frame, 7)).unwrap();
        late.advance_frame(&connected()).unwrap();
        timely.add_local_input(0, input_with(frame, 7)).unwrap();
        timely.add_remote_input(1, input_with(frame, remote[i])).unwrap();
        seen_in_time.extend(timely.advance_frame(&connected()).unwrap());
    }
    for (i, frame) in (10..14).enumerate() {
        late.add_remote_input(1, input_with(frame, remote[i])).unwrap();
    }
    for layer in [&mut late, &mut timely] {
        layer.add_local_input(0, input_with(14, 7)).unwrap();
        layer.add_remote_input(1, input_with(14, 5)).unwrap();
    }
    let replayed = late.advance_frame(&connected()).unwrap();
    seen_in_time.extend(timely.advance_frame(&connected()).unwrap());
    assert_eq!(replayed[0], GGRSRequest::LoadGameState { cell: 0, frame: 10 });
    assert_eq!(replayed[1..], seen_in_time[..]);
    assert_eq!(late.current_frame(), timely.current_frame());
}

#[test]
fn test_prediction_threshold() {
    let mut layer = SyncLayer::new(2, 1, 8);
    for frame in 0..7 {
        assert_eq!(layer.add_local_input(0, input_with(frame, 1)), Ok(frame));
        layer.advance_frame(&connected()).unwrap();
    }
    // frame 7 is eight frames after the last confirmed frame, which is none
    assert_eq!(
        layer.add_local_input(0, input_with(7, 1)),
        Err(GGRSError::PredictionThreshold)
    );
    for frame in 0..3 {
        layer.add_remote_input(1, input_with(frame, 0)).unwrap();
    }
    layer.set_last_confirmed_frame(2);
    assert_eq!(layer.add_local_input(0, input_with(7, 1)), Ok(7));
}

#[test]
fn test_local_input_is_for_the_current_frame() {
    let mut layer = SyncLayer::new(2, 1, 8);
    assert_eq!(layer.add_local_input(0, input_with(1, 1)), Err(GGRSError::InvalidInput));
    assert_eq!(layer.add_local_input(2, input_with(0, 1)), Err(GGRSError::InvalidInput));
    assert_eq!(layer.add_local_input(0, PlayerInput::new(0, 2)), Err(GGRSError::InvalidInput));
    assert_eq!(layer.add_remote_input(2, input_with(0, 1)), Err(GGRSError::InvalidInput));
    assert_eq!(layer.add_remote_input(1, input_with(1, 1)), Err(GGRSError::InvalidInput));
    assert_eq!(layer.add_local_input(0, input_with(0, 1)), Ok(0));
}

#[test]
fn test_frame_delay() {
    let mut layer = SyncLayer::new(2, 1, 8);
    assert!(layer.set_frame_delay(2, 0).is_err());
    assert!(layer.set_frame_delay(0, 8).is_err());
    assert_eq!(layer.set_frame_delay(0, 2), Ok(()));
    assert_eq!(layer.add_local_input(0, input_with(0, 9)), Ok(2));
    layer.add_remote_input(1, input_with(0, 5)).unwrap();
    let requests = layer.advance_frame(&connected()).unwrap();
    assert_eq!(requests, vec![save(0), advance(0, 0, 5)]);
    assert_eq!(
        layer.confirmed_inputs(2, &connected()),
        Err(GGRSError::InvalidRequest {
            info: "There is no confirmed input for the requested frame.".to_owned()
        })
    );
}

#[test]
fn test_synchronized_inputs_of_a_player_who_left() {
    let mut layer = layer_at_frame_ten();
    let status = vec![
        ConnectionStatus::default(),
        ConnectionStatus { disconnected: true, last_frame: 9 },
    ];
    layer.add_local_input(0, input_with(10, 3)).unwrap();
    assert_eq!(
        layer.synchronized_inputs(10, &status),
        Ok(vec![input_with(10, 3), PlayerInput::blank_input(1)])
    );
    // up to their last frame their inputs count
    assert_eq!(
        layer.synchronized_inputs(9, &status),
        Ok(vec![input_with(9, 9), input_with(9, 0)])
    );
    assert_eq!(
        layer.confirmed_inputs(10, &status),
        Ok(vec![input_with(10, 3), PlayerInput::blank_input(1)])
    );
    assert_eq!(layer.confirmed_inputs(9, &connected()), Ok(vec![input_with(9, 9), input_with(9, 0)]));
    assert!(layer.confirmed_inputs(10, &connected()).is_err());
}

#[test]
fn test_confirmed_frames_are_discarded() {
    let mut layer = layer_at_frame_ten();
    // the confirmed frame is kept to predict from, the frames before it are not
    assert!(layer.confirmed_inputs(9, &connected()).is_ok());
    assert!(layer.confirmed_inputs(8, &connected()).is_err());
    assert_eq!(layer.synchronized_inputs(8, &connected()), Err(GGRSError::GeneralFailure));
    assert_eq!(
        layer.synchronized_inputs(10, &connected()),
        Ok(vec![input_with(10, 9), input_with(10, 0)])
    );
}

#[test]
fn test_confirmed_frame_stays_before_the_incorrect_frame() {
    let mut layer = layer_at_frame_ten();
    for frame in 10..13 {
        layer.add_local_input(0, input_with(frame, 0)).unwrap();
        layer.advance_frame(&connected()).unwrap();
    }
    layer.add_remote_input(1, input_with(10, 0)).unwrap();
    layer.add_remote_input(1, input_with(11, 7)).unwrap();
    layer.add_remote_input(1, input_with(12, 7)).unwrap();
    assert_eq!(layer.check_simulation(), (3, 11));
    layer.set_last_confirmed_frame(12);
    assert_eq!(layer.last_confirmed_frame(), 10);
    assert_eq!(layer.synchronized_inputs(12, &connected()), Err(GGRSError::GeneralFailure));
}

#[test]
fn test_saved_states() {
    let mut layer = SyncLayer::new(2, 1, 8);
    let request = layer.save_current_state();
    assert_eq!(request, GGRSRequest::SaveGameState { cell: 0, frame: 0 });
    let state = GameState { frame: 0, buffer: Some(vec![1, 2, 3]), checksum: Some(6) };
    assert_eq!(layer.save_game_state(0, state.clone()), Ok(()));
    assert_eq!(layer.saved_state(0), &state);
    assert_eq!(layer.saved_state_by_frame(0), Some(&state));
    assert_eq!(layer.saved_state_by_frame(10), None);
    assert_eq!(layer.saved_state_by_frame(-1), None);
    // a request to save the frame again keeps the state until the host saves the next
    assert_eq!(layer.save_current_state(), request);
    assert_eq!(layer.saved_state(0), &state);
    // the cell is marked for frame 0
    let other = GameState { frame: 1, buffer: None, checksum: None };
    match layer.save_game_state(0, other.clone()) {
        Err(GGRSError::InvalidRequest { info }) => {
            assert_eq!(info, "The cell is not marked for the frame of the state.")
        }
        other => panic!("unexpected {:?}", other),
    }
    assert!(layer.save_game_state(10, other).is_err());
    assert_eq!(layer.saved_state(0), &state);
}

#[test]
fn test_load_frame() {
    let mut layer = SyncLayer::new(2, 1, 8);
    for frame in 0..10 {
        layer.add_local_input(0, input_with(frame, frame as u8)).unwrap();
        layer.add_remote_input(1, input_with(frame, 0)).unwrap();
        layer.advance_frame(&connected()).unwrap();
        layer.set_last_confirmed_frame(frame.min(7));
    }
    assert_eq!(layer.load_frame(10), Err(GGRSError::GeneralFailure));
    assert_eq!(layer.load_frame(-1), Err(GGRSError::GeneralFailure));
    assert_eq!(layer.load_frame(12), Err(GGRSError::GeneralFailure));
    assert_eq!(layer.current_frame(), 10);
    assert_eq!(layer.load_frame(8), Ok(GGRSRequest::LoadGameState { cell: 8, frame: 8 }));
    assert_eq!(layer.current_frame(), 8);
    // the state of frame 9 is of no use any more
    assert_eq!(layer.saved_state_by_frame(9), None);
    assert!(layer.saved_state_by_frame(8).is_some());
    assert_eq!(
        layer.replay(2, &connected()).unwrap(),
        vec![save(8), advance(8, 8, 0), save(9), advance(9, 9, 0)]
    );
    assert_eq!(layer.current_frame(), 10);
    // the cell of frame 0 holds frame 10 after it was saved
    layer.add_local_input(0, input_with(10, 0)).unwrap();
    layer.advance_frame(&connected()).unwrap();
    assert_eq!(layer.load_frame(0), Err(GGRSError::GeneralFailure));
}
