use ggrs::error::GGRSError;
use ggrs::frame_info::PlayerInput;
use ggrs::sessions::sync_test_session::SyncTestSession;
use ggrs::sync_layer::GameState;
use ggrs::GGRSRequest;

const INPUT_SIZE: u16 = 4;

#[derive(Clone, Copy, PartialEq, Eq, Debug)]
struct StateStub {
    frame: i32,
    state: i32,
}

impl StateStub {
    fn advance_frame(&mut self, inputs: &[PlayerInput]) {
        let p0_inputs: u32 = bincode::deserialize(inputs[0].input()).unwrap();
        let p1_inputs: u32 = bincode::deserialize(inputs[1].input()).unwrap();
        if (p0_inputs + p1_inputs) % 2 == 0 {
            self.state += 2;
        } else {
            self.state -= 1;
        }
        self.frame += 1;
    }

    fn to_bytes(&self) -> Vec<u8> {
        let mut bytes = self.frame.to_le_bytes().to_vec();
        bytes.extend(self.state.to_le_bytes());
        bytes
    }

    fn from_bytes(bytes: &[u8]) -> Self {
        StateStub {
            frame: i32::from_le_bytes(bytes[0..4].try_into().unwrap()),
            state: i32::from_le_bytes(bytes[4..8].try_into().unwrap()),
        }
    }
}

/// A game that depends on nothing but its inputs, unless `drift` is set.
struct GameStub {
    gs: StateStub,
    drift: i32,
    advanced: usize,
}

impl GameStub {
    fn new() -> GameStub {
        GameStub { gs: StateStub { frame: 0, state: 0 }, drift: 0, advanced: 0 }
    }

    fn handle_requests(&mut self, requests: Vec<GGRSRequest>, sess: &mut SyncTestSession) {
        for request in requests {
            match request {
                GGRSRequest::LoadGameState { cell, frame } => {
                    let state = sess.load_game_state(cell).unwrap();
                    assert_eq!(state.frame, frame);
                    self.gs = StateStub::from_bytes(state.buffer.as_ref().unwrap());
                    assert_eq!(self.gs.frame, frame);
                }
                GGRSRequest::SaveGameState { cell, frame } => {
                    assert_eq!(self.gs.frame, frame);
                    let buffer = self.gs.to_bytes();
                    let checksum = buffer.iter().fold(17u64, |h, b| h.wrapping_mul(31) + *b as u64);
                    let state =
                        GameState { frame, buffer: Some(buffer), checksum: Some(checksum) };
                    sess.save_game_state(cell, state).unwrap();
                }
                GGRSRequest::AdvanceFrame { inputs } => {
                    self.gs.advance_frame(&inputs);
                    self.advanced += 1;
                    // a game that drifts gives another state each time it passes
                    self.gs.state += self.drift * self.advanced as i32;
                }
            }
        }
    }
}

#[test]
fn test_create_session() {
    assert!(ggrs::start_synctest_session(2, INPUT_SIZE, 2).is_ok());
}

#[test]
fn test_advance_frame_with_rollbacks() {
    let check_distance = 7;
    let mut stub = GameStub::new();
    let mut sess = ggrs::start_synctest_session(2, INPUT_SIZE, check_distance).unwrap();

    for i in 0..200 {
        let input: u32 = i;
        let mut serialized_input = Vec::new();
        serialized_input.push(bincode::serialize(&input).unwrap());
        serialized_input.push(bincode::serialize(&input).unwrap());
        let requests = sess.advance_frame(&serialized_input).unwrap();
        stub.handle_requests(requests, &mut sess);
        assert_eq!(stub.gs.frame, i as i32 + 1); // frame should have advanced
    }
}

#[test]
fn test_advance_frames_with_delayed_input() {
    let handle = 1;
    let check_distance = 7;
    let mut stub = GameStub::new();
    let mut sess = ggrs::start_synctest_session(2, INPUT_SIZE, check_distance).unwrap();
    assert!(sess.set_frame_delay(2, handle).is_ok());

    for i in 0..200 {
        let input: u32 = i;
        let mut serialized_input = Vec::new();
        serialized_input.push(bincode::serialize(&input).unwrap());
        serialized_input.push(bincode::serialize(&input).unwrap());
        let requests = sess.advance_frame(&serialized_input).unwrap();
        stub.handle_requests(requests, &mut sess);
        assert_eq!(stub.gs.frame, i as i32 + 1); // frame should have advanced
    }
}

#[test]
fn test_synctest_session_settings() {
    let mut sess = ggrs::start_synctest_session(2, INPUT_SIZE, 3).unwrap();
    assert_eq!(sess.num_players(), 2);
    assert_eq!(sess.check_distance(), 3);
    assert_eq!(sess.current_frame(), 0);
    assert!(sess.set_frame_delay(8, 0).is_err());
    assert!(sess.set_frame_delay(1, 2).is_err());
    assert!(sess.load_game_state(10).is_none());
    assert!(sess.load_game_state(9).is_some());
    match ggrs::start_synctest_session(2, INPUT_SIZE, 8) {
        Err(GGRSError::InvalidRequest { info }) => assert_eq!(info, "Check distance too big."),
        _ => panic!("a check distance of 8 was accepted"),
    }
    assert!(SyncTestSession::new(2, INPUT_SIZE, 7).is_ok());
}

#[test]
fn test_synctest_requests() {
    let mut stub = GameStub::new();
    let mut sess = ggrs::start_synctest_session(2, INPUT_SIZE, 2).unwrap();
    let inputs = vec![vec![1, 0, 0, 0], vec![2, 0, 0, 0]];
    let kinds = |requests: &[GGRSRequest]| -> Vec<(char, i32)> {
        requests
            .iter()
            .map(|r| match r {
                GGRSRequest::LoadGameState { frame, .. } => ('L', *frame),
                GGRSRequest::SaveGameState { frame, .. } => ('S', *frame),
                GGRSRequest::AdvanceFrame { inputs } => ('A', inputs[0].frame),
            })
            .collect()
    };
    for frame in 0..3 {
        let requests = sess.advance_frame(&inputs).unwrap();
        assert_eq!(kinds(&requests), vec![('S', frame), ('A', frame)]);
        stub.handle_requests(requests, &mut sess);
    }
    // from the fourth frame on the game goes back two frames first
    let requests = sess.advance_frame(&inputs).unwrap();
    assert_eq!(
        kinds(&requests),
        vec![('L', 1), ('S', 1), ('A', 1), ('S', 2), ('A', 2), ('S', 3), ('A', 3)]
    );
    match &requests[6] {
        GGRSRequest::AdvanceFrame { inputs } => {
            assert_eq!(inputs[0].buffer, vec![1, 0, 0, 0]);
            assert_eq!(inputs[1].buffer, vec![2, 0, 0, 0]);
        }
        other => panic!("unexpected {:?}", other),
    }
    stub.handle_requests(requests, &mut sess);
    assert_eq!(sess.current_frame(), 4);
    assert_eq!(stub.gs.frame, 4);
}

#[test]
fn test_synctest_without_rollbacks() {
    let mut stub = GameStub::new();
    let mut sess = ggrs::start_synctest_session(2, INPUT_SIZE, 0).unwrap();
    for frame in 0..20 {
        let requests = sess.advance_frame(&vec![vec![0; 4], vec![0; 4]]).unwrap();
        assert_eq!(requests.len(), 2);
        stub.handle_requests(requests, &mut sess);
        assert_eq!(stub.gs.frame, frame + 1);
    }
}

#[test]
fn test_synctest_rejects_wrong_inputs() {
    let mut sess = ggrs::start_synctest_session(2, INPUT_SIZE, 2).unwrap();
    assert_eq!(sess.advance_frame(&vec![vec![0; 4]]), Err(GGRSError::InvalidInput));
    assert_eq!(
        sess.advance_frame(&vec![vec![0; 4], vec![0; 3]]),
        Err(GGRSError::InvalidInput)
    );
    assert_eq!(sess.current_frame(), 0);
    assert!(sess.advance_frame(&vec![vec![0; 4], vec![0; 4]]).is_ok());
}

#[test]
fn test_synctest_finds_a_game_that_drifts() {
    let mut stub = GameStub::new();
    stub.drift = 1;
    let mut sess = ggrs::start_synctest_session(2, INPUT_SIZE, 2).unwrap();
    let inputs = vec![vec![0; 4], vec![0; 4]];
    let mut outcome = Ok(());
    for _ in 0..6 {
        match sess.advance_frame(&inputs) {
            Ok(requests) => stub.handle_requests(requests, &mut sess),
            Err(e) => {
                outcome = Err(e);
                break;
            }
        }
    }
    // frame 2 is the first whose state was saved a second time after the game had drifted
    assert_eq!(outcome, Err(GGRSError::MismatchedChecksum { frame: 2 }));
    assert_eq!(sess.current_frame(), 4);
}
