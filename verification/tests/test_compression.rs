use ggrs::frame_info::PlayerInput;
use ggrs::network::compression::{
    check_framing, decode, delta_decode, delta_encode, encode, unpack, CodecError,
};

fn input_with(frame: i32, bytes: &[u8]) -> PlayerInput {
    let mut input = PlayerInput::new(frame, bytes.len() as u16);
    input.buffer.copy_from_slice(bytes);
    input
}

#[test]
fn test_encode_decode() {
    let size = 4;
    let mut ref_input = PlayerInput::new(5, size);
    ref_input.buffer[3] = 1;
    let inp0 = PlayerInput::new(6, size);
    let inp1 = PlayerInput::new(7, size);
    let inp2 = PlayerInput::new(8, size);
    let inp3 = PlayerInput::new(9, size);
    let inp4 = PlayerInput::new(10, size);

    let pend_inp = vec![inp0, inp1, inp2, inp3, inp4];

    let encoded = encode(&ref_input, &pend_inp);
    let decoded = decode(&ref_input, 6, &encoded).unwrap();

    assert!(pend_inp == decoded);
}

#[test]
fn test_new_input_is_zeroed() {
    let input = PlayerInput::new(3, 6);
    assert_eq!(input.frame, 3);
    assert_eq!(input.size, 6);
    assert_eq!(input.buffer, vec![0u8; 6]);
    assert_eq!(input.input(), &[0u8; 6][..]);
    let blank = PlayerInput::blank_input(2);
    assert_eq!(blank.frame, -1);
    assert_eq!(blank.buffer, vec![0u8; 2]);
    assert_eq!(PlayerInput::new(0, 0).buffer, Vec::<u8>::new());
}

#[test]
fn test_input_equal() {
    let a = input_with(4, &[1, 2, 3]);
    let b = input_with(5, &[1, 2, 3]);
    let c = input_with(4, &[1, 2, 4]);
    assert!(a.equal(&a.duplicate(), false));
    assert!(!a.equal(&b, false));
    assert!(a.equal(&b, true));
    assert!(!a.equal(&c, true));
    assert!(!a.equal(&input_with(4, &[1, 2]), true));
}

#[test]
fn test_delta_encode_exact() {
    let reference = input_with(-1, &[0x0f, 0xf0]);
    let inputs = vec![input_with(0, &[0x0f, 0xf0]), input_with(7, &[0xff, 0x00])];
    assert_eq!(delta_encode(&reference, &inputs), vec![0x00, 0x00, 0xf0, 0xf0]);
    assert_eq!(delta_encode(&reference, &[]), Vec::<u8>::new());
}

#[test]
fn test_delta_decode_exact() {
    let reference = input_with(9, &[0x0f, 0xf0]);
    let decoded = delta_decode(&reference, 10, &[0x00, 0x00, 0xf0, 0xf0]);
    assert_eq!(decoded, vec![input_with(10, &[0x0f, 0xf0]), input_with(11, &[0xff, 0x00])]);
    assert_eq!(delta_decode(&reference, 10, &[]), vec![]);
}

#[test]
fn test_delta_round_trip() {
    let reference = input_with(41, &[1, 2, 3]);
    let inputs = vec![
        input_with(42, &[0, 0, 0]),
        input_with(43, &[255, 254, 253]),
        input_with(44, &[1, 2, 3]),
    ];
    let delta = delta_encode(&reference, &inputs);
    assert_eq!(delta_decode(&reference, 42, &delta), inputs);
}

#[test]
fn test_encode_exact_stream() {
    // five times [0, 0, 0, 1]: a run of three zero bytes, then one byte copied
    let mut reference = PlayerInput::new(5, 4);
    reference.buffer[3] = 1;
    let inputs: Vec<PlayerInput> = (6..11).map(|f| PlayerInput::new(f, 4)).collect();
    let stream = encode(&reference, &inputs);
    assert_eq!(stream, vec![13, 2, 1, 13, 2, 1, 13, 2, 1, 13, 2, 1, 13, 2, 1]);
    assert_ne!(stream, delta_encode(&reference, &inputs));
}

#[test]
fn test_encode_empty_run() {
    let reference = PlayerInput::new(-1, 4);
    let stream = encode(&reference, &[]);
    assert_eq!(stream, vec![0]);
    assert_eq!(decode(&reference, 0, &stream), Ok(vec![]));
}

#[test]
fn test_decode_exact_inputs() {
    let reference = PlayerInput::new(2, 4);
    let decoded = decode(&reference, 3, &[11, 4, 85, 84, 13, 2, 183]).unwrap();
    assert_eq!(
        decoded,
        vec![input_with(3, &[255, 255, 85, 84]), input_with(4, &[0, 0, 0, 183])]
    );
}

#[test]
fn test_codec_round_trip_varied() {
    let reference = input_with(-1, &[0x55, 0xaa, 0x00, 0xff, 0x10]);
    let inputs: Vec<PlayerInput> = (0..40)
        .map(|f: i32| {
            let b = f as u8;
            input_with(100 + f, &[b, 0xaa, b.wrapping_mul(37), 0xff ^ (b & 1), 0x10])
        })
        .collect();
    let stream = encode(&reference, &inputs);
    assert!(check_framing(&stream));
    assert_eq!(decode(&reference, 100, &stream), Ok(inputs));
}

#[test]
fn test_decode_malformed() {
    let reference = PlayerInput::new(0, 4);
    // a header that is cut off
    assert_eq!(decode(&reference, 0, &[0x80]), Err(CodecError::Malformed));
    // four bytes announced, one present
    assert_eq!(decode(&reference, 0, &[8, 1]), Err(CodecError::Malformed));
    // a header of ten bytes
    assert_eq!(
        decode(&reference, 0, &[0x81, 0x80, 0x80, 0x80, 0x80, 0x80, 0x80, 0x80, 0x80, 0x00]),
        Err(CodecError::Malformed)
    );
    // a run of 2^31 bytes
    assert_eq!(
        decode(&reference, 0, &[0x81, 0x80, 0x80, 0x80, 0x20]),
        Err(CodecError::Malformed)
    );
}

#[test]
fn test_check_framing() {
    assert!(check_framing(&[]));
    assert!(check_framing(&[0]));
    assert!(check_framing(&[11, 4, 85, 84, 13, 2, 183]));
    // a run of 2^31 - 1 bytes is the longest that passes
    assert!(check_framing(&[0xfd, 0xff, 0xff, 0xff, 0x1f]));
    assert!(!check_framing(&[0x81, 0x80, 0x80, 0x80, 0x20]));
    // two runs that pass one by one, but not together
    assert!(!check_framing(&[0xfd, 0xff, 0xff, 0xff, 0x1f, 5]));
    assert!(!check_framing(&[2]));
    assert!(!check_framing(&[5, 0x80]));
}

#[test]
fn test_decode_size_mismatch() {
    let reference = PlayerInput::new(0, 4);
    // a run of three zero bytes
    assert_eq!(decode(&reference, 0, &[13]), Err(CodecError::SizeMismatch));
    assert_eq!(unpack(&reference, 0, &[0, 0, 0]), Err(CodecError::SizeMismatch));
    let empty = PlayerInput::new(0, 0);
    assert_eq!(decode(&empty, 0, &[0]), Err(CodecError::SizeMismatch));
}

#[test]
fn test_decode_frame_out_of_range() {
    let reference = PlayerInput::new(0, 4);
    // a run of eight zero bytes: two inputs
    assert_eq!(decode(&reference, i32::MAX, &[33]), Err(CodecError::FrameOutOfRange));
    let last = decode(&reference, i32::MAX - 1, &[33]).unwrap();
    assert_eq!(last[1].frame, i32::MAX);
    assert_eq!(unpack(&reference, i32::MAX, &[0; 4]).unwrap()[0].frame, i32::MAX);
    assert_eq!(unpack(&reference, -3, &[0; 8]).unwrap()[1].frame, -2);
}
