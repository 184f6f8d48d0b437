use ggrs::error::GGRSError;
use ggrs::frame_info::PlayerInput;
use ggrs::input_queue::{InputQueue, INPUT_QUEUE_LENGTH, MAX_PREDICTION_FRAMES};
use ggrs::NULL_FRAME;

fn input_with(frame: i32, bytes: [u8; 2]) -> PlayerInput {
    let mut input = PlayerInput::new(frame, 2);
    input.buffer.copy_from_slice(&bytes);
    input
}

fn queue_with(frames: i32) -> InputQueue {
    let mut queue = InputQueue::new(2);
    for frame in 0..frames {
        assert_eq!(queue.add_remote_input(input_with(frame, [frame as u8, 1])), Ok(frame));
    }
    queue
}

fn no_confirmed_input<T: std::fmt::Debug>(result: Result<T, GGRSError>) {
    match result {
        Err(GGRSError::InvalidRequest { info }) => {
            assert_eq!(info, "There is no confirmed input for the requested frame.")
        }
        other => panic!("unexpected {:?}", other),
    }
}

#[test]
fn test_new_queue_is_empty() {
    let queue = InputQueue::new(2);
    assert_eq!(queue.last_added_frame(), NULL_FRAME);
    assert_eq!(queue.first_incorrect_frame(), NULL_FRAME);
    assert_eq!(queue.frame_delay(), 0);
    no_confirmed_input(queue.confirmed_input(0));
}

#[test]
fn test_remote_inputs_come_in_order() {
    let mut queue = queue_with(3);
    assert_eq!(queue.last_added_frame(), 2);
    assert_eq!(queue.add_remote_input(input_with(4, [0, 0])), Err(GGRSError::InvalidInput));
    assert_eq!(queue.add_remote_input(input_with(2, [0, 0])), Err(GGRSError::InvalidInput));
    assert_eq!(queue.add_remote_input(PlayerInput::new(3, 3)), Err(GGRSError::InvalidInput));
    assert_eq!(queue.last_added_frame(), 2);
    assert_eq!(queue.add_remote_input(input_with(3, [9, 9])), Ok(3));
    assert_eq!(queue.confirmed_input(3), Ok(input_with(3, [9, 9])));
    assert_eq!(queue.confirmed_input(1), Ok(input_with(1, [1, 1])));
    no_confirmed_input(queue.confirmed_input(4));
    no_confirmed_input(queue.confirmed_input(-1));
}

#[test]
fn test_first_remote_input_is_for_frame_zero() {
    let mut queue = InputQueue::new(2);
    assert_eq!(queue.add_remote_input(input_with(1, [0, 0])), Err(GGRSError::InvalidInput));
    assert_eq!(queue.add_remote_input(input_with(0, [0, 0])), Ok(0));
}

#[test]
fn test_local_inputs_are_delayed() {
    let mut queue = InputQueue::new(2);
    assert_eq!(queue.set_frame_delay(2), Ok(()));
    assert_eq!(queue.frame_delay(), 2);
    assert_eq!(queue.add_input(input_with(0, [7, 7])), Ok(2));
    // the frames before the delayed frame hold zero bytes
    assert_eq!(queue.confirmed_input(0), Ok(input_with(0, [0, 0])));
    assert_eq!(queue.confirmed_input(1), Ok(input_with(1, [0, 0])));
    assert_eq!(queue.confirmed_input(2), Ok(input_with(2, [7, 7])));
    assert_eq!(queue.add_input(input_with(1, [8, 8])), Ok(3));
    assert_eq!(queue.confirmed_input(3), Ok(input_with(3, [8, 8])));
    assert_eq!(queue.last_added_frame(), 3);
    // the user's frames are in order
    assert_eq!(queue.add_input(input_with(3, [1, 1])), Err(GGRSError::InvalidInput));
    assert_eq!(queue.add_input(input_with(1, [1, 1])), Err(GGRSError::InvalidInput));
    assert_eq!(queue.add_input(PlayerInput::new(2, 1)), Err(GGRSError::InvalidInput));
    assert_eq!(queue.last_added_frame(), 3);
}

#[test]
fn test_delay_that_grows_and_shrinks() {
    let mut queue = InputQueue::new(2);
    assert_eq!(queue.add_input(input_with(0, [1, 1])), Ok(0));
    queue.set_frame_delay(3).unwrap();
    assert_eq!(queue.add_input(input_with(1, [2, 2])), Ok(4));
    assert_eq!(queue.confirmed_input(1), Ok(input_with(1, [0, 0])));
    assert_eq!(queue.confirmed_input(3), Ok(input_with(3, [0, 0])));
    assert_eq!(queue.confirmed_input(4), Ok(input_with(4, [2, 2])));
    // with a smaller delay the frame of the next input is taken already
    queue.set_frame_delay(1).unwrap();
    assert_eq!(queue.add_input(input_with(2, [3, 3])), Ok(NULL_FRAME));
    assert_eq!(queue.add_input(input_with(3, [4, 4])), Ok(NULL_FRAME));
    assert_eq!(queue.last_added_frame(), 4);
    assert_eq!(queue.add_input(input_with(4, [5, 5])), Ok(5));
    assert_eq!(queue.confirmed_input(5), Ok(input_with(5, [5, 5])));
}

#[test]
fn test_frame_delay_is_bounded() {
    let mut queue = InputQueue::new(2);
    assert_eq!(queue.set_frame_delay(MAX_PREDICTION_FRAMES as u32 - 1), Ok(()));
    match queue.set_frame_delay(MAX_PREDICTION_FRAMES as u32) {
        Err(GGRSError::InvalidRequest { info }) => {
            assert_eq!(info, "The frame delay has to be smaller than the prediction window.")
        }
        other => panic!("unexpected {:?}", other),
    }
    assert_eq!(queue.frame_delay(), 7);
}

#[test]
fn test_input_is_confirmed_or_predicted() {
    let mut queue = queue_with(5);
    assert_eq!(queue.input(3), Ok(input_with(3, [3, 1])));
    // the prediction is a copy of the last confirmed input
    assert_eq!(queue.input(5), Ok(input_with(5, [4, 1])));
    assert_eq!(queue.input(9), Ok(input_with(9, [4, 1])));
    assert_eq!(queue.first_incorrect_frame(), NULL_FRAME);
    // an empty queue predicts zero bytes
    let mut empty = InputQueue::new(2);
    assert_eq!(empty.input(0), Ok(input_with(0, [0, 0])));
    assert_eq!(empty.input(-1), Err(GGRSError::GeneralFailure));
}

#[test]
fn test_wrong_prediction_is_noticed() {
    let mut queue = queue_with(5);
    assert_eq!(queue.input(5), Ok(input_with(5, [4, 1])));
    assert_eq!(queue.input(6), Ok(input_with(6, [4, 1])));
    assert_eq!(queue.input(7), Ok(input_with(7, [4, 1])));
    // frame 5 is as predicted, frame 6 is not
    assert_eq!(queue.add_remote_input(input_with(5, [4, 1])), Ok(5));
    assert_eq!(queue.first_incorrect_frame(), NULL_FRAME);
    assert_eq!(queue.add_remote_input(input_with(6, [6, 6])), Ok(6));
    assert_eq!(queue.first_incorrect_frame(), 6);
    // the first incorrect frame stays the first
    assert_eq!(queue.add_remote_input(input_with(7, [7, 7])), Ok(7));
    assert_eq!(queue.first_incorrect_frame(), 6);
    // no input is handed out before the rollback
    assert_eq!(queue.input(6), Err(GGRSError::GeneralFailure));
    assert_eq!(queue.input(2), Err(GGRSError::GeneralFailure));
    queue.reset_prediction(6);
    assert_eq!(queue.first_incorrect_frame(), NULL_FRAME);
    assert_eq!(queue.input(6), Ok(input_with(6, [6, 6])));
    assert_eq!(queue.input(7), Ok(input_with(7, [7, 7])));
    assert_eq!(queue.input(8), Ok(input_with(8, [7, 7])));
}

#[test]
fn test_input_for_a_frame_that_was_not_predicted_is_not_compared() {
    let mut queue = queue_with(5);
    assert_eq!(queue.input(5), Ok(input_with(5, [4, 1])));
    assert_eq!(queue.add_remote_input(input_with(5, [4, 1])), Ok(5));
    // no prediction was handed out for frame 6
    assert_eq!(queue.add_remote_input(input_with(6, [9, 9])), Ok(6));
    assert_eq!(queue.first_incorrect_frame(), NULL_FRAME);
}

#[test]
fn test_prediction_stays_until_reset() {
    let mut queue = queue_with(5);
    assert_eq!(queue.input(5).unwrap().buffer, vec![4, 1]);
    // what arrives meanwhile is as predicted, or was not predicted
    assert_eq!(queue.add_remote_input(input_with(5, [4, 1])), Ok(5));
    assert_eq!(queue.add_remote_input(input_with(6, [8, 8])), Ok(6));
    queue.discard_confirmed_frames(3);
    assert_eq!(queue.input(7).unwrap().buffer, vec![4, 1]);
    assert_eq!(queue.input(20).unwrap().buffer, vec![4, 1]);
    queue.reset_prediction(7);
    assert_eq!(queue.input(7).unwrap().buffer, vec![8, 8]);
}

#[test]
fn test_confirmed_inputs_stay() {
    let mut queue = queue_with(6);
    let before = queue.confirmed_input(4).unwrap();
    queue.input(8).unwrap();
    assert_eq!(queue.confirmed_input(4).unwrap(), before);
    queue.add_remote_input(input_with(6, [1, 2])).unwrap();
    assert_eq!(queue.confirmed_input(4).unwrap(), before);
    queue.discard_confirmed_frames(3);
    assert_eq!(queue.confirmed_input(4).unwrap(), before);
    queue.reset_prediction(0);
    assert_eq!(queue.confirmed_input(4).unwrap(), before);
    queue.discard_confirmed_frames(4);
    no_confirmed_input(queue.confirmed_input(4));
}

#[test]
fn test_discard_keeps_the_latest() {
    let mut queue = queue_with(6);
    queue.discard_confirmed_frames(-1);
    assert_eq!(queue.confirmed_input(0), Ok(input_with(0, [0, 1])));
    queue.discard_confirmed_frames(2);
    no_confirmed_input(queue.confirmed_input(2));
    assert_eq!(queue.input(2), Err(GGRSError::GeneralFailure));
    assert_eq!(queue.confirmed_input(3), Ok(input_with(3, [3, 1])));
    queue.discard_confirmed_frames(1);
    assert_eq!(queue.confirmed_input(3), Ok(input_with(3, [3, 1])));
    queue.discard_confirmed_frames(100);
    no_confirmed_input(queue.confirmed_input(4));
    assert_eq!(queue.confirmed_input(5), Ok(input_with(5, [5, 1])));
    assert_eq!(queue.last_added_frame(), 5);
    assert_eq!(queue.input(6), Ok(input_with(6, [5, 1])));
    assert_eq!(queue.add_remote_input(input_with(6, [5, 1])), Ok(6));
}

#[test]
fn test_full_queue() {
    let mut queue = queue_with(INPUT_QUEUE_LENGTH as i32);
    assert_eq!(
        queue.add_remote_input(input_with(128, [0, 0])),
        Err(GGRSError::PredictionThreshold)
    );
    queue.discard_confirmed_frames(0);
    assert_eq!(queue.add_remote_input(input_with(128, [0, 0])), Ok(128));
    let mut local = InputQueue::new(2);
    local.set_frame_delay(7).unwrap();
    for frame in 0..120 {
        assert_eq!(local.add_input(input_with(frame, [1, 1])), Ok(frame + 7));
    }
    local.set_frame_delay(0).unwrap();
    for frame in 120..127 {
        assert_eq!(local.add_input(input_with(frame, [1, 1])), Ok(NULL_FRAME));
    }
    assert_eq!(local.add_input(input_with(127, [1, 1])), Ok(127));
    assert_eq!(local.add_input(input_with(128, [1, 1])), Err(GGRSError::PredictionThreshold));
}
