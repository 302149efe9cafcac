//! WebSocket framing: server-to-client text frames, client-to-server masked frames.
use vstd::prelude::*;

verus! {

/// The opcode of a frame that the server accepts from a client.
#[derive(Clone, Copy, Debug, PartialEq, Eq, Structural)]
pub enum Opcode {
    Text,
    Close,
}

/// Why a client frame was rejected.
#[derive(Clone, Copy, Debug, PartialEq, Eq, Structural)]
pub enum FrameError {
    /// The bytes do not hold a complete, masked frame.
    Malformed,
    /// A fragmented frame, reserved bits set, or an opcode other than text or close.
    Unsupported,
}

/// A decoded client frame: its opcode and its unmasked payload.
pub struct ClientFrame {
    pub opcode: Opcode,
    pub payload: Vec<u8>,
}

/// The eight bytes of `n` in big-endian order.
pub open spec fn be_u64_bytes(n: nat) -> Seq<u8> {
    seq![
        ((n / 0x100000000000000) % 256) as u8,
        ((n / 0x1000000000000) % 256) as u8,
        ((n / 0x10000000000) % 256) as u8,
        ((n / 0x100000000) % 256) as u8,
        ((n / 0x1000000) % 256) as u8,
        ((n / 0x10000) % 256) as u8,
        ((n / 0x100) % 256) as u8,
        (n % 256) as u8,
    ]
}

/// The number that eight big-endian bytes stand for.
pub open spec fn be_u64_value(b: Seq<u8>) -> nat {
    (b[0] as nat) * 0x100000000000000 + (b[1] as nat) * 0x1000000000000 + (b[2] as nat)
        * 0x10000000000 + (b[3] as nat) * 0x100000000 + (b[4] as nat) * 0x1000000 + (b[5] as nat)
        * 0x10000 + (b[6] as nat) * 0x100 + (b[7] as nat)
}

/// The payload-length field of an unmasked frame carrying `n` bytes.
pub open spec fn length_field(n: nat) -> Seq<u8> {
    if n < 126 {
        seq![n as u8]
    } else if n < 65536 {
        seq![126u8, (n / 256) as u8, (n % 256) as u8]
    } else {
        seq![127u8] + be_u64_bytes(n)
    }
}

/// The server frame that carries `payload` as one final text message, unmasked.
pub open spec fn text_frame(payload: Seq<u8>) -> Seq<u8> {
    seq![0x81u8] + length_field(payload.len()) + payload
}

/// `data` with each byte XOR-ed with the mask key byte at its position modulo four.
pub open spec fn apply_mask(data: Seq<u8>, key: Seq<u8>) -> Seq<u8> {
    Seq::new(data.len(), |i: int| data[i] ^ key[i % 4])
}

/// Where the mask key (or, in an unmasked frame, the payload) starts, given the second byte.
pub open spec fn header_len(b1: u8) -> int {
    if b1 % 128 < 126 {
        2
    } else if b1 % 128 == 126 {
        4
    } else {
        10
    }
}

/// The payload length that a frame's header declares; meaningful once the header is complete.
pub open spec fn declared_len(raw: Seq<u8>) -> nat {
    if raw[1] % 128 < 126 {
        (raw[1] % 128) as nat
    } else if raw[1] % 128 == 126 {
        (raw[2] as nat) * 256 + (raw[3] as nat)
    } else {
        be_u64_value(raw.subrange(2, 10))
    }
}

/// What a client frame decodes to: its opcode and unmasked payload, or why it is refused.
/// Bytes after the frame are not looked at.
pub open spec fn decode_spec(raw: Seq<u8>) -> Result<(Opcode, Seq<u8>), FrameError> {
    if raw.len() < 2 {
        Err(FrameError::Malformed)
    } else if raw[0] / 16 != 8 || (raw[0] % 16 != 1 && raw[0] % 16 != 8) {
        Err(FrameError::Unsupported)
    } else if raw[1] < 128 || raw.len() < header_len(raw[1]) + 4 {
        Err(FrameError::Malformed)
    } else if declared_len(raw) > raw.len() - header_len(raw[1]) - 4 {
        Err(FrameError::Malformed)
    } else {
        let h = header_len(raw[1]);
        let op = if raw[0] % 16 == 1 {
            Opcode::Text
        } else {
            Opcode::Close
        };
        Ok(
            (
                op,
                apply_mask(raw.subrange(h + 4, h + 4 + declared_len(raw)), raw.subrange(h, h + 4)),
            ),
        )
    }
}

/// What a client does to an unmasked frame before sending it: set the mask bit, put the key
/// after the length field, and mask everything after it. `None` when the header is incomplete.
pub open spec fn mask_spec(frame: Seq<u8>, key: Seq<u8>) -> Option<Seq<u8>> {
    if frame.len() < 2 || frame.len() < header_len(frame[1]) {
        None
    } else {
        let h = header_len(frame[1]);
        Some(
            masked_header(frame, frame[1], h) + key + apply_mask(
                frame.subrange(h, frame.len() as int),
                key,
            ),
        )
    }
}

/// The first `h` bytes of a masked frame made from the unmasked `frame` whose second byte is `b1`.
pub open spec fn masked_header(frame: Seq<u8>, b1: u8, h: int) -> Seq<u8> {
    seq![frame[0], if b1 >= 128 { b1 } else { (b1 + 128) as u8 }] + frame.subrange(2, h)
}

/// Encodes `payload` as a final, unmasked text frame, choosing the shortest length encoding.
pub fn encode_text_frame(payload: &[u8]) -> (r: Vec<u8>)
    ensures
        r@ == text_frame(payload@),
{
    let n: usize = payload.len();
    let mut r: Vec<u8> = Vec::with_capacity(n);
    r.push(0x81u8);
    if n < 126 {
        r.push(n as u8);
    } else if n < 65536 {
        r.push(126u8);
        r.push((n / 256) as u8);
        r.push((n % 256) as u8);
    } else {
        let m: u64 = n as u64;
        r.push(127u8);
        r.push(((m / 0x100000000000000) % 256) as u8);
        r.push(((m / 0x1000000000000) % 256) as u8);
        r.push(((m / 0x10000000000) % 256) as u8);
        r.push(((m / 0x100000000) % 256) as u8);
        r.push(((m / 0x1000000) % 256) as u8);
        r.push(((m / 0x10000) % 256) as u8);
        r.push(((m / 0x100) % 256) as u8);
        r.push((m % 256) as u8);
    }
    let ghost head = r@;
    assert(head == seq![0x81u8] + length_field(n as nat));
    let mut i: usize = 0;
    while i < n
        invariant
            n == payload@.len(),
            i <= n,
            r@ == head + payload@.subrange(0, i as int),
        decreases n - i,
    {
        r.push(payload[i]);
        i = i + 1;
        assert(payload@.subrange(0, i as int) == payload@.subrange(0, i - 1) + seq![payload@[i - 1]]);
    }
    assert(payload@.subrange(0, n as int) == payload@);
    r
}

impl View for ClientFrame {
    type V = (Opcode, Seq<u8>);

    open spec fn view(&self) -> (Opcode, Seq<u8>) {
        (self.opcode, self.payload@)
    }
}

/// Decodes one masked client frame from the start of `raw`.
pub fn decode_client_frame(raw: &[u8]) -> (r: Result<ClientFrame, FrameError>)
    ensures
        decode_spec(raw@) == match r {
            Ok(f) => Ok(f@),
            Err(e) => Err(e),
        },
{
    let len: usize = raw.len();
    if len < 2 {
        return Err(FrameError::Malformed);
    }
    let b0: u8 = raw[0];
    let b1: u8 = raw[1];
    if b0 / 16 != 8 || (b0 % 16 != 1 && b0 % 16 != 8) {
        return Err(FrameError::Unsupported);
    }
    let short: u8 = b1 % 128;
    let h: usize = if short < 126 {
        2
    } else if short == 126 {
        4
    } else {
        10
    };
    if b1 < 128 || len < h + 4 {
        return Err(FrameError::Malformed);
    }
    let declared: u64 = if short < 126 {
        short as u64
    } else if short == 126 {
        (raw[2] as u64) * 256 + (raw[3] as u64)
    } else {
        (raw[2] as u64) * 0x100000000000000 + (raw[3] as u64) * 0x1000000000000 + (raw[4] as u64)
            * 0x10000000000 + (raw[5] as u64) * 0x100000000 + (raw[6] as u64) * 0x1000000 + (
        raw[7] as u64) * 0x10000 + (raw[8] as u64) * 0x100 + (raw[9] as u64)
    };
    assert(declared == declared_len(raw@));
    let avail: usize = len - h - 4;
    if declared > avail as u64 {
        return Err(FrameError::Malformed);
    }
    let n: usize = declared as usize;
    let start: usize = h + 4;
    let ghost key = raw@.subrange(h as int, h + 4);
    let ghost body = raw@.subrange(start as int, start + n);
    let mut payload: Vec<u8> = Vec::with_capacity(n);
    let mut i: usize = 0;
    while i < n
        invariant
            len == raw@.len(),
            start == h + 4,
            start + n <= len,
            i <= n,
            key == raw@.subrange(h as int, h + 4),
            body == raw@.subrange(start as int, start + n),
            payload@ == apply_mask(body, key).subrange(0, i as int),
        decreases n - i,
    {
        let m: u8 = raw[h + i % 4];
        payload.push(raw[start + i] ^ m);
        i = i + 1;
        assert(payload@ =~= apply_mask(body, key).subrange(0, i as int));
    }
    assert(payload@ =~= apply_mask(body, key));
    let opcode = if b0 % 16 == 1 {
        Opcode::Text
    } else {
        Opcode::Close
    };
    Ok(ClientFrame { opcode, payload })
}

/// Masks an unmasked frame with `key` as a client would before sending it.
/// Returns `None` when `frame` is too short to hold its own length field.
pub fn mask_frame(frame: &[u8], key: &[u8; 4]) -> (r: Option<Vec<u8>>)
    ensures
        mask_spec(frame@, key@) == match r {
            Some(v) => Some(v@),
            None => None::<Seq<u8>>,
        },
{
    let len: usize = frame.len();
    if len < 2 {
        return None;
    }
    let b1: u8 = frame[1];
    let short: u8 = b1 % 128;
    let h: usize = if short < 126 {
        2
    } else if short == 126 {
        4
    } else {
        10
    };
    if len < h {
        return None;
    }
    let mut r: Vec<u8> = Vec::with_capacity(len);
    r.push(frame[0]);
    r.push(if b1 >= 128 { b1 } else { b1 + 128 });
    assert(r@ =~= masked_header(frame@, b1, 2));
    let mut j: usize = 2;
    while j < h
        invariant
            2 <= j <= h <= len,
            len == frame@.len(),
            r@.len() == j,
            b1 == frame@[1],
            r@ == masked_header(frame@, b1, j as int),
        decreases h - j,
    {
        r.push(frame[j]);
        j = j + 1;
        assert(r@ =~= masked_header(frame@, b1, j as int));
    }
    let mut k: usize = 0;
    while k < 4
        invariant
            k <= 4,
            r@.len() == h + k,
            r@.subrange(0, h as int) == masked_header(frame@, b1, h as int),
            r@.subrange(h as int, h + k) == key@.subrange(0, k as int),
        decreases 4 - k,
    {
        r.push(key[k]);
        k = k + 1;
        assert(r@.subrange(h as int, h + k) =~= key@.subrange(0, k as int));
    }
    let ghost rest = frame@.subrange(h as int, len as int);
    let mut i: usize = h;
    while i < len
        invariant
            h <= i <= len,
            len == frame@.len(),
            rest == frame@.subrange(h as int, len as int),
            r@.len() == i + 4,
            r@.subrange(0, h as int) == masked_header(frame@, b1, h as int),
            r@.subrange(h as int, h + 4) == key@,
            r@.subrange(h + 4, i + 4) == apply_mask(rest, key@).subrange(0, i - h),
        decreases len - i,
    {
        r.push(frame[i] ^ key[(i - h) % 4]);
        i = i + 1;
        assert(r@.subrange(h + 4, i + 4) =~= apply_mask(rest, key@).subrange(0, i - h));
    }
    assert(apply_mask(rest, key@).subrange(0, len - h) =~= apply_mask(rest, key@));
    assert(r@ =~= r@.subrange(0, h as int) + r@.subrange(h as int, h + 4) + r@.subrange(
        h + 4,
        len + 4,
    ));
    Some(r)
}

/// Masking a byte twice with the same key byte gives the byte back.
proof fn lemma_mask_twice(data: Seq<u8>, key: Seq<u8>)
    ensures
        apply_mask(apply_mask(data, key), key) == data,
{
    assert forall|i: int| 0 <= i < data.len() implies apply_mask(apply_mask(data, key), key)[i]
        == data[i] by {
        let b = data[i];
        let k = key[i % 4];
        assert((b ^ k) ^ k == b) by (bit_vector);
    }
    assert(apply_mask(apply_mask(data, key), key) =~= data);
}

/// A text frame that the server would send, masked by a client with any key, decodes to a text
/// frame with the original payload, for every payload shorter than 65536 bytes.
pub proof fn lemma_masked_text_frame_round_trip(payload: Seq<u8>, key: Seq<u8>)
    requires
        payload.len() < 65536,
        key.len() == 4,
    ensures
        mask_spec(text_frame(payload), key) is Some,
        decode_spec(mask_spec(text_frame(payload), key)->Some_0) == Ok::<(Opcode, Seq<u8>), FrameError>(
            (Opcode::Text, payload),
        ),
{
    let n = payload.len();
    let f = text_frame(payload);
    let h: int = if n < 126 {
        2
    } else {
        4
    };
    assert(header_len(f[1]) == h);
    assert(f.subrange(h, f.len() as int) =~= payload);
    let m = mask_spec(f, key)->Some_0;
    let masked = apply_mask(payload, key);
    assert(m =~= masked_header(f, f[1], h) + key + masked);
    assert(m[0] == 0x81u8);
    assert(m[1] as int == f[1] as int + 128);
    assert(header_len(m[1]) == h);
    assert(declared_len(m) == n);
    assert(m.subrange(h, h + 4) =~= key);
    assert(m.subrange(h + 4, h + 4 + n) =~= masked);
    lemma_mask_twice(payload, key);
}

/// Reads the fixed eight-byte answer frame that browsers send: a final, masked text frame with a
/// two-byte payload. Returns the two unmasked bytes (question digit, answer digit).
pub fn ws_parse_incoming(buf: &[u8; 8]) -> (r: Option<(u8, u8)>)
    ensures
        r == (if buf@[0] == 0x81 && buf@[1] == 0x82 {
            Some((buf@[2] ^ buf@[6], buf@[3] ^ buf@[7]))
        } else {
            None
        }),
{
    if buf[0] != 0x81 || buf[1] != 0x82 {
        return None;
    }
    let q: u8 = buf[2] ^ buf[6];
    let a: u8 = buf[3] ^ buf[7];
    Some((q, a))
}

} // verus!
