//! Compression of a run of inputs: XOR against a reference input, then
//! run-length encoding of what is left.
//!
//! Consecutive inputs differ little from one another, so the XOR of each with a
//! reference leaves mostly zero bytes, which the run-length encoder packs
//! tightly. The frames are not part of the payload: the message around it
//! carries the frame of the first input.
use vstd::arithmetic::div_mod::{lemma_fundamental_div_mod, lemma_fundamental_div_mod_converse};
use vstd::prelude::*;

use crate::frame_info::{views, InputView, PlayerInput};
use crate::{Frame, NULL_FRAME};

verus! {

/// The most bytes that a compressed stream may stand for. Every machine can
/// hold a buffer of this length.
pub const MAX_STREAM_BYTES: usize = 0x7fff_ffff;

/// Why a payload was not decoded.
#[derive(Copy, Clone, Debug, PartialEq, Eq, Structural)]
pub enum CodecError {
    /// The stream is not a whole sequence of records, or stands for more than
    /// `MAX_STREAM_BYTES` bytes.
    Malformed,
    /// The stream does not hold a whole number of inputs of the reference's size.
    SizeMismatch,
    /// The inputs would be numbered past the last frame.
    FrameOutOfRange,
}

// ----------------------------------------------------------------------------
// The delta layer
// ----------------------------------------------------------------------------

/// The inputs laid end to end, each byte XORed with the reference's byte at
/// the same offset.
pub open spec fn delta_encoded(reference: Seq<u8>, inputs: Seq<InputView>) -> Seq<u8> {
    Seq::new(
        inputs.len() * reference.len(),
        |k: int|
            reference[k % (reference.len() as int)] ^ inputs[k / (reference.len() as int)].bytes[k
                % (reference.len() as int)],
    )
}

/// The inputs that `data` holds: `data` cut into pieces of the reference's
/// length, each XORed with the reference and numbered from `start` on.
pub open spec fn delta_decoded(reference: Seq<u8>, start: int, data: Seq<u8>) -> Seq<InputView> {
    Seq::new(
        (data.len() / reference.len()) as nat,
        |i: int|
            InputView {
                frame: start + i,
                bytes: Seq::new(
                    reference.len(),
                    |j: int| reference[j] ^ data[reference.len() * i + j],
                ),
            },
    )
}

/// Every input has as many bytes as the reference.
pub open spec fn sizes_match(reference: Seq<u8>, inputs: Seq<InputView>) -> bool {
    forall|i: int| 0 <= i < inputs.len() ==> (#[trigger] inputs[i]).bytes.len() == reference.len()
}

/// The inputs are numbered `start`, `start + 1`, and so on.
pub open spec fn run_starts_at(inputs: Seq<InputView>, start: int) -> bool {
    forall|i: int| 0 <= i < inputs.len() ==> (#[trigger] inputs[i]).frame == start + i
}

/// The inputs follow the reference frame by frame, unless the reference
/// belongs to no frame.
pub open spec fn follows_reference(reference: InputView, inputs: Seq<InputView>) -> bool {
    reference.frame == NULL_FRAME || run_starts_at(inputs, reference.frame + 1)
}

proof fn lemma_xor_twice(r: u8, x: u8)
    ensures
        r ^ (r ^ x) == x,
{
    assert(r ^ (r ^ x) == x) by (bit_vector);
}

/// Position `i * d + j` lies in piece `i` at offset `j`, and before the end of `n` pieces.
pub proof fn lemma_position(i: int, j: int, d: int, n: int)
    requires
        0 <= i < n,
        0 <= j < d,
    ensures
        0 <= i * d + j < n * d,
        (i * d + j) / d == i,
        (i * d + j) % d == j,
        d * i + j == i * d + j,
{
    assert(i * d + j < n * d) by (nonlinear_arith)
        requires
            0 <= i < n,
            0 <= j < d,
    ;
    assert(0 <= i * d + j) by (nonlinear_arith)
        requires
            0 <= i,
            0 <= j,
            0 < d,
    ;
    assert(d * i == i * d) by (nonlinear_arith);
    lemma_fundamental_div_mod_converse(i * d + j, d, i, j);
}

/// Undoing the delta restores the inputs: a run of inputs of the reference's
/// size, numbered from `start`, comes back unchanged from its delta.
pub proof fn lemma_delta_round_trip(reference: Seq<u8>, start: int, inputs: Seq<InputView>)
    requires
        reference.len() > 0,
        sizes_match(reference, inputs),
        run_starts_at(inputs, start),
    ensures
        delta_decoded(reference, start, delta_encoded(reference, inputs)) == inputs,
{
    let d = reference.len() as int;
    let n = inputs.len() as int;
    let data = delta_encoded(reference, inputs);
    let back = delta_decoded(reference, start, data);
    assert(data.len() == n * d);
    assert((n * d) / d == n) by (nonlinear_arith)
        requires
            d > 0,
            n >= 0,
    ;
    assert(back.len() == n);
    assert forall|i: int| 0 <= i < n implies back[i] == inputs[i] by {
        assert(inputs[i].bytes.len() == d);
        assert forall|j: int| 0 <= j < d implies back[i].bytes[j] == inputs[i].bytes[j] by {
            lemma_position(i, j, d, n);
            lemma_xor_twice(reference[j], inputs[i].bytes[j]);
        }
        assert(back[i].bytes =~= inputs[i].bytes);
    }
    assert(back =~= inputs);
}

/// XORs each input with the reference, byte by byte, and lays the results end to end.
pub fn delta_encode(reference: &PlayerInput, pending_input: &[PlayerInput]) -> (bytes: Vec<u8>)
    requires
        reference.wf(),
        forall|i: int|
            0 <= i < pending_input@.len() ==> (#[trigger] pending_input@[i]).wf()
                && pending_input@[i].size == reference.size,
        follows_reference(reference@, views(pending_input@)),
    ensures
        bytes@ == delta_encoded(reference.buffer@, views(pending_input@)),
{
    let ref_bytes = reference.input();
    let size = ref_bytes.len();
    let ghost inputs = views(pending_input@);
    let ghost d = size as int;
    let ghost n = pending_input@.len() as int;
    let mut bytes: Vec<u8> = Vec::new();
    let mut i: usize = 0;
    while i < pending_input.len()
        invariant
            i <= pending_input.len(),
            size == reference.buffer@.len(),
            ref_bytes@ == reference.buffer@,
            inputs == views(pending_input@),
            d == size,
            n == pending_input@.len(),
            forall|i: int|
                0 <= i < pending_input@.len() ==> (#[trigger] pending_input@[i]).wf()
                    && pending_input@[i].size == reference.size,
            reference.wf(),
            bytes@.len() == i * d,
            forall|k: int|
                0 <= k < bytes@.len() ==> bytes@[k] == delta_encoded(
                    reference.buffer@,
                    inputs,
                )[k],
        decreases pending_input.len() - i,
    {
        let input = &pending_input[i];
        let input_bytes = input.input();
        assert(pending_input@[i as int].wf());
        let mut j: usize = 0;
        while j < size
            invariant
                j <= size,
                i < pending_input.len(),
                size == reference.buffer@.len(),
                ref_bytes@ == reference.buffer@,
                input_bytes@ == pending_input@[i as int].buffer@,
                input_bytes@.len() == size,
                inputs == views(pending_input@),
                d == size,
                n == pending_input@.len(),
                bytes@.len() == i * d + j,
                forall|k: int|
                    0 <= k < bytes@.len() ==> bytes@[k] == delta_encoded(
                        reference.buffer@,
                        inputs,
                    )[k],
            decreases size - j,
        {
            proof {
                lemma_position(i as int, j as int, d, n);
            }
            bytes.push(ref_bytes[j] ^ input_bytes[j]);
            j += 1;
        }
        proof {
            assert(i * d + d == (i + 1) * d) by (nonlinear_arith);
        }
        i += 1;
    }
    assert(bytes@ =~= delta_encoded(reference.buffer@, inputs));
    bytes
}

/// Cuts `data` into inputs of the reference's size, XORs each with the
/// reference, and numbers them from `start_frame` on.
pub fn delta_decode(reference: &PlayerInput, start_frame: Frame, data: &[u8]) -> (output: Vec<
    PlayerInput,
>)
    requires
        reference.wf(),
        reference.size > 0,
        data@.len() % (reference.size as nat) == 0,
        data@.len() > 0 ==> start_frame + data@.len() / (reference.size as nat) - 1 <= i32::MAX,
    ensures
        views(output@) == delta_decoded(reference.buffer@, start_frame as int, data@),
        forall|i: int|
            0 <= i < output@.len() ==> (#[trigger] output@[i]).wf() && output@[i].size
                == reference.size,
{
    let size = reference.size as usize;
    let out_size = data.len() / size;
    let ghost d = size as int;
    let ghost n = out_size as int;
    let ghost want = delta_decoded(reference.buffer@, start_frame as int, data@);
    proof {
        lemma_fundamental_div_mod(data@.len() as int, d);
        assert(d * n == n * d) by (nonlinear_arith);
    }
    let mut output: Vec<PlayerInput> = Vec::new();
    let mut inp: usize = 0;
    while inp < out_size
        invariant
            inp <= out_size,
            reference.wf(),
            size == reference.size,
            size > 0,
            d == size,
            n == out_size,
            data@.len() == n * d,
            data@.len() <= usize::MAX,
            n > 0 ==> start_frame + n - 1 <= i32::MAX,
            want == delta_decoded(reference.buffer@, start_frame as int, data@),
            want.len() == n,
            output@.len() == inp,
            forall|i: int|
                0 <= i < inp ==> (#[trigger] output@[i]).wf() && output@[i].size == reference.size
                    && output@[i]@ == want[i],
        decreases out_size - inp,
    {
        assert(start_frame + inp <= i32::MAX);
        let frame = (start_frame as i64 + inp as i64) as i32;
        let mut game_input = PlayerInput::new(frame, reference.size);
        let mut i: usize = 0;
        while i < size
            invariant
                i <= size,
                inp < out_size,
                reference.wf(),
                size == reference.size,
                d == size,
                n == out_size,
                data@.len() == n * d,
                data@.len() <= usize::MAX,
                game_input.frame == frame,
                game_input.size == reference.size,
                game_input.buffer@.len() == size,
                forall|j: int|
                    0 <= j < i ==> game_input.buffer@[j] == reference.buffer@[j] ^ data@[d * inp
                        + j],
            decreases size - i,
        {
            proof {
                lemma_position(inp as int, i as int, d, n);
            }
            let byte = reference.buffer[i] ^ data[size * inp + i];
            game_input.buffer.set(i, byte);
            i += 1;
        }
        assert(game_input.buffer@ =~= want[inp as int].bytes);
        output.push(game_input);
        inp += 1;
    }
    assert(views(output@) =~= want);
    output
}

// ----------------------------------------------------------------------------
// The run-length layer
// ----------------------------------------------------------------------------

/// The header that starts at `at`, if it ends within `room` bytes and within
/// `data`: the number it holds, and how many bytes follow its first.
///
/// A header is a number in base 128, lowest digit first, one digit to a byte;
/// every byte but the last has its top bit set.
pub open spec fn header_at(data: Seq<u8>, at: int, room: nat) -> Option<(nat, nat)>
    decreases room,
{
    if room == 0 || at < 0 || at >= data.len() {
        None
    } else if data[at] < 128 {
        Some((data[at] as nat, 0nat))
    } else {
        match header_at(data, at + 1, (room - 1) as nat) {
            Some((rest, more)) => Some(((data[at] - 128 + 128 * rest) as nat, more + 1)),
            None => None,
        }
    }
}

/// The bytes that the records from `at` to the end of `data` stand for, if
/// they are whole.
///
/// A record starts with a header of at most nine bytes. An odd header `h`
/// stands for `h / 4` equal bytes, all 255 if `h / 2` is odd and all 0
/// otherwise. An even header `h` is followed by `h / 2` bytes that stand for
/// themselves.
pub open spec fn records_from(data: Seq<u8>, at: int) -> Option<Seq<u8>>
    decreases
        (if at < data.len() {
            data.len() - at
        } else {
            0
        }),
{
    if at >= data.len() {
        Some(Seq::empty())
    } else {
        match header_at(data, at, 9) {
            None => None,
            Some((head, more)) => {
                let next = at + 1 + more;
                if head % 2 == 1 {
                    let fill = if (head / 2) % 2 == 1 {
                        255u8
                    } else {
                        0u8
                    };
                    match records_from(data, next) {
                        Some(rest) => Some(Seq::new(head / 4, |i: int| fill) + rest),
                        None => None,
                    }
                } else {
                    let len = head / 2;
                    if next + len > data.len() {
                        None
                    } else {
                        match records_from(data, next + len) {
                            Some(rest) => Some(data.subrange(next, next + len) + rest),
                            None => None,
                        }
                    }
                }
            },
        }
    }
}

/// The bytes that a run-length encoded stream stands for; `None` if the
/// stream is not a whole sequence of records or stands for more than
/// `MAX_STREAM_BYTES` bytes.
pub open spec fn stream_contents(stream: Seq<u8>) -> Option<Seq<u8>> {
    match records_from(stream, 0) {
        Some(bytes) => if bytes.len() <= MAX_STREAM_BYTES {
            Some(bytes)
        } else {
            None
        },
        None => None,
    }
}

/// What the run-length encoder makes of a buffer.
pub uninterp spec fn rle_encoded(buf: Seq<u8>) -> Seq<u8>;

/// `bitfield_rle::encode`: the run-length encoding of `buf`.
///
/// The encoder packs each run of equal 0 or 255 bytes into a header and
/// copies the bytes between such runs behind a header that gives their
/// number. Its output is therefore a whole sequence of records that stands
/// for `buf`. A buffer within `MAX_STREAM_BYTES` keeps every header within
/// five bytes.
#[verifier::external_body]
fn rle_encode(buf: &Vec<u8>) -> (stream: Vec<u8>)
    requires
        buf@.len() <= MAX_STREAM_BYTES,
    ensures
        stream@ == rle_encoded(buf@),
        stream_contents(stream@) == Some(buf@),
{
    bitfield_rle::encode(buf)
}

/// `bitfield_rle::decode`: the bytes that `stream` stands for.
///
/// The decoder reads past the end of a stream whose last header is cut off,
/// overflows on a header of ten bytes or more, and allocates what the headers
/// announce before it looks at the rest: `requires` leaves such streams out.
/// Its one error is a record that runs past the end of the stream, which a
/// whole sequence of records does not have.
#[verifier::external_body]
fn rle_decode(stream: &[u8]) -> (buf: Option<Vec<u8>>)
    requires
        stream_contents(stream@) is Some,
    ensures
        buf is Some,
        buf.unwrap()@ == stream_contents(stream@).unwrap(),
{
    match bitfield_rle::decode(stream) {
        Ok(bytes) => Some(bytes),
        Err(_) => None,
    }
}

/// An upper bound of the number that a header of `room` bytes can hold.
spec fn header_bound(room: nat) -> nat {
    if room == 0 {
        1
    } else if room == 1 {
        0x80
    } else if room == 2 {
        0x4000
    } else if room == 3 {
        0x20_0000
    } else if room == 4 {
        0x1000_0000
    } else if room == 5 {
        0x8_0000_0000
    } else if room == 6 {
        0x400_0000_0000
    } else if room == 7 {
        0x2_0000_0000_0000
    } else if room == 8 {
        0x100_0000_0000_0000
    } else {
        0x8000_0000_0000_0000
    }
}

/// Reads the header that starts at `at`: the number it holds, and how many
/// bytes follow its first.
fn read_header(data: &[u8], at: usize, room: u8) -> (header: Option<(u64, usize)>)
    requires
        room <= 9,
        at <= data@.len(),
    ensures
        match header_at(data@, at as int, room as nat) {
            Some((head, more)) => header == Some((head as u64, more as usize)) && head
                < header_bound(room as nat) && more < room && at + 1 + more <= data@.len(),
            None => header is None,
        },
    decreases room,
{
    if room == 0 || at >= data.len() {
        return None;
    }
    let byte = data[at];
    if byte < 128 {
        return Some((byte as u64, 0));
    }
    match read_header(data, at + 1, room - 1) {
        Some((rest, more)) => Some(((byte - 128) as u64 + 128 * rest, more + 1)),
        None => None,
    }
}

/// A whole sequence of records stands for at least as many bytes as any of its tails.
proof fn lemma_records_step(data: Seq<u8>, at: int)
    requires
        0 <= at < data.len(),
    ensures
        match header_at(data, at, 9) {
            None => records_from(data, at) is None,
            Some((head, more)) => {
                let next = at + 1 + more;
                if head % 2 == 1 {
                    match records_from(data, next) {
                        Some(rest) => records_from(data, at) matches Some(all) && all.len()
                            == head / 4 + rest.len(),
                        None => records_from(data, at) is None,
                    }
                } else if next + head / 2 > data.len() {
                    records_from(data, at) is None
                } else {
                    match records_from(data, next + head / 2) {
                        Some(rest) => records_from(data, at) matches Some(all) && all.len()
                            == head / 2 + rest.len(),
                        None => records_from(data, at) is None,
                    }
                }
            },
        },
{
}

/// Whether `stream` is a whole sequence of records that stands for at most
/// `MAX_STREAM_BYTES` bytes.
pub fn check_framing(stream: &[u8]) -> (whole: bool)
    ensures
        whole == stream_contents(stream@).is_some(),
{
    let mut at: usize = 0;
    let mut total: u64 = 0;
    while at < stream.len()
        invariant
            at <= stream.len(),
            total <= MAX_STREAM_BYTES,
            stream_contents(stream@).is_some() <==> (records_from(stream@, at as int) matches Some(
                rest,
            ) && total + rest.len() <= MAX_STREAM_BYTES),
        decreases stream.len() - at,
    {
        proof {
            lemma_records_step(stream@, at as int);
        }
        match read_header(stream, at, 9) {
            None => {
                return false;
            },
            Some((head, more)) => {
                let next = at + 1 + more;
                if head % 2 == 1 {
                    let len = head / 4;
                    if len > MAX_STREAM_BYTES as u64 - total {
                        return false;
                    }
                    total = total + len;
                    at = next;
                } else {
                    let len = head / 2;
                    if len > (stream.len() - next) as u64 {
                        return false;
                    }
                    if len > MAX_STREAM_BYTES as u64 - total {
                        return false;
                    }
                    total = total + len;
                    at = next + len as usize;
                }
            },
        }
    }
    true
}

// ----------------------------------------------------------------------------
// The codec
// ----------------------------------------------------------------------------

/// `stream` is a compressed form of `inputs` against `reference`: it stands
/// for their delta.
pub open spec fn encodes(stream: Seq<u8>, reference: Seq<u8>, inputs: Seq<InputView>) -> bool {
    stream_contents(stream) == Some(delta_encoded(reference, inputs))
}

/// What unpacking the bytes `buf` gives: the inputs they hold, or the reason
/// why they hold none.
pub open spec fn unpacked(reference: Seq<u8>, start: int, buf: Seq<u8>) -> Result<
    Seq<InputView>,
    CodecError,
> {
    if reference.len() == 0 || buf.len() % reference.len() != 0 {
        Err(CodecError::SizeMismatch)
    } else if buf.len() > 0 && start + buf.len() / reference.len() - 1 > i32::MAX {
        Err(CodecError::FrameOutOfRange)
    } else {
        Ok(delta_decoded(reference, start, buf))
    }
}

/// What decoding `stream` gives.
pub open spec fn decoded(reference: Seq<u8>, start: int, stream: Seq<u8>) -> Result<
    Seq<InputView>,
    CodecError,
> {
    match stream_contents(stream) {
        None => Err(CodecError::Malformed),
        Some(buf) => unpacked(reference, start, buf),
    }
}

/// The view of a decoding result.
pub open spec fn result_view(result: Result<Vec<PlayerInput>, CodecError>) -> Result<
    Seq<InputView>,
    CodecError,
> {
    match result {
        Ok(inputs) => Ok(views(inputs@)),
        Err(e) => Err(e),
    }
}

/// Decoding inverts encoding: every compressed form of a run of inputs that
/// have the reference's size and are numbered from `start` decodes to that run.
pub proof fn lemma_codec_round_trip(
    reference: Seq<u8>,
    start: int,
    inputs: Seq<InputView>,
    stream: Seq<u8>,
)
    requires
        reference.len() > 0,
        sizes_match(reference, inputs),
        run_starts_at(inputs, start),
        inputs.len() > 0 ==> start + inputs.len() - 1 <= i32::MAX,
        encodes(stream, reference, inputs),
    ensures
        decoded(reference, start, stream) == Ok::<Seq<InputView>, CodecError>(inputs),
{
    let d = reference.len() as int;
    let n = inputs.len() as int;
    let buf = delta_encoded(reference, inputs);
    assert(buf.len() == n * d);
    assert((n * d) % d == 0 && (n * d) / d == n) by (nonlinear_arith)
        requires
            d > 0,
            n >= 0,
    ;
    assert(n == 0 ==> n * d == 0) by (nonlinear_arith);
    lemma_delta_round_trip(reference, start, inputs);
}

/// What decoding gives is a run: inputs of the reference's size, numbered
/// from `start` on, none of them past the last frame.
pub proof fn lemma_decoded_run(reference: Seq<u8>, start: int, stream: Seq<u8>)
    ensures
        decoded(reference, start, stream) matches Ok(inputs) ==> run_starts_at(inputs, start)
            && sizes_match(reference, inputs) && (inputs.len() > 0 ==> start + inputs.len() - 1
            <= i32::MAX),
{
}

/// Compresses a run of inputs against a reference input.
///
/// The result is a compressed form of the inputs, so [`decode`] gives them
/// back when it is handed the same reference and the frame of the first.
pub fn encode(reference: &PlayerInput, pending_input: &[PlayerInput]) -> (stream: Vec<u8>)
    requires
        reference.wf(),
        forall|i: int|
            0 <= i < pending_input@.len() ==> (#[trigger] pending_input@[i]).wf()
                && pending_input@[i].size == reference.size,
        follows_reference(reference@, views(pending_input@)),
        pending_input@.len() * reference.size <= MAX_STREAM_BYTES,
    ensures
        stream@ == rle_encoded(delta_encoded(reference.buffer@, views(pending_input@))),
        encodes(stream@, reference.buffer@, views(pending_input@)),
        forall|start: int|
            reference.size > 0 && #[trigger] run_starts_at(views(pending_input@), start)
                ==> decoded(reference.buffer@, start, stream@) == Ok::<
                Seq<InputView>,
                CodecError,
            >(views(pending_input@)),
{
    // first, XOR the inputs with the reference: this leaves mostly zero bytes
    let buf = delta_encode(reference, pending_input);
    // then, pack the runs of equal bytes
    let stream = rle_encode(&buf);
    proof {
        let inputs = views(pending_input@);
        assert forall|start: int|
            reference.size > 0 && #[trigger] run_starts_at(inputs, start) implies decoded(
            reference.buffer@,
            start,
            stream@,
        ) == Ok::<Seq<InputView>, CodecError>(inputs) by {
            assert(sizes_match(reference.buffer@, inputs)) by {
                assert forall|i: int| 0 <= i < inputs.len() implies (#[trigger] inputs[i]).bytes.len()
                    == reference.buffer@.len() by {
                    assert(pending_input@[i].wf());
                }
            }
            if inputs.len() > 0 {
                let last = inputs.len() - 1;
                assert(inputs[last].frame == start + last);
                assert(inputs[last].frame == pending_input@[last].frame);
            }
            lemma_codec_round_trip(reference.buffer@, start, inputs, stream@);
        }
    }
    stream
}

/// Unpacks the bytes that a stream stood for into inputs numbered from
/// `start_frame` on.
pub fn unpack(reference: &PlayerInput, start_frame: Frame, buf: &[u8]) -> (result: Result<
    Vec<PlayerInput>,
    CodecError,
>)
    requires
        reference.wf(),
    ensures
        result_view(result) == unpacked(reference.buffer@, start_frame as int, buf@),
        result matches Ok(inputs) ==> forall|i: int|
            0 <= i < inputs@.len() ==> (#[trigger] inputs@[i]).wf() && inputs@[i].size
                == reference.size,
{
    if reference.size == 0 {
        return Err(CodecError::SizeMismatch);
    }
    let size = reference.size as usize;
    if buf.len() % size != 0 {
        return Err(CodecError::SizeMismatch);
    }
    let count = buf.len() / size;
    if count > 0 && count as u64 - 1 > (i32::MAX as i64 - start_frame as i64) as u64 {
        return Err(CodecError::FrameOutOfRange);
    }
    proof {
        lemma_fundamental_div_mod(buf@.len() as int, size as int);
        if buf@.len() > 0 && count == 0 {
            assert(false);
        }
    }
    Ok(delta_decode(reference, start_frame, buf))
}

/// Decompresses a payload into the inputs it holds, numbered from
/// `start_frame` on.
///
/// # Errors
/// - `Malformed` if the payload is not a whole sequence of records.
/// - `SizeMismatch` if it does not hold a whole number of inputs.
/// - `FrameOutOfRange` if the inputs would be numbered past the last frame.
pub fn decode(reference: &PlayerInput, start_frame: Frame, data: &[u8]) -> (result: Result<
    Vec<PlayerInput>,
    CodecError,
>)
    requires
        reference.wf(),
    ensures
        result_view(result) == decoded(reference.buffer@, start_frame as int, data@),
        result matches Ok(inputs) ==> forall|i: int|
            0 <= i < inputs@.len() ==> (#[trigger] inputs@[i]).wf() && inputs@[i].size
                == reference.size,
{
    if !check_framing(data) {
        return Err(CodecError::Malformed);
    }
    // undo the run-length encoding first
    match rle_decode(data) {
        // then the delta
        Some(buf) => unpack(reference, start_frame, buf.as_slice()),
        None => Err(CodecError::Malformed),
    }
}

} // verus!
