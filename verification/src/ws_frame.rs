//! WebSocket frames (RFC 6455 framing): encoding a frame to bytes and
//! parsing one frame off the front of a byte buffer.
//!
//! The central law: parsing the encoding of a frame, followed by any other
//! bytes, gives back exactly that frame and the length of its encoding
//! (`lemma_parse_encode`).
use vstd::prelude::*;
use crate::bytes::{be_bytes, be_value, lemma_be_roundtrip, lemma_be_value_bound, be_bytes_exec, read_be, lemma_pow256_values, utf8_to_string};
use vstd::utf8::{valid_utf8, decode_utf8};
use crate::codec::{inflate_raw, raw_inflate};

verus! {

/// The frame kinds that this library reads and writes.
#[derive(Debug, Clone, Copy, PartialEq, Eq, Structural)]
pub enum Opcode {
    Continuation,
    Text,
    Binary,
    Close,
    Ping,
    Pong,
}

/// The 4-bit code of each opcode on the wire.
pub open spec fn opcode_code(op: Opcode) -> u8 {
    match op {
        Opcode::Continuation => 0x0,
        Opcode::Text => 0x1,
        Opcode::Binary => 0x2,
        Opcode::Close => 0x8,
        Opcode::Ping => 0x9,
        Opcode::Pong => 0xA,
    }
}

/// The opcode that a 4-bit code stands for, if any.
pub open spec fn opcode_of(value: u8) -> Option<Opcode> {
    if value == 0x0 {
        Some(Opcode::Continuation)
    } else if value == 0x1 {
        Some(Opcode::Text)
    } else if value == 0x2 {
        Some(Opcode::Binary)
    } else if value == 0x8 {
        Some(Opcode::Close)
    } else if value == 0x9 {
        Some(Opcode::Ping)
    } else if value == 0xA {
        Some(Opcode::Pong)
    } else {
        None
    }
}

impl Opcode {
    pub fn from_u8(value: u8) -> (r: Option<Opcode>)
        ensures
            r == opcode_of(value),
    {
        match value {
            0x0 => Some(Opcode::Continuation),
            0x1 => Some(Opcode::Text),
            0x2 => Some(Opcode::Binary),
            0x8 => Some(Opcode::Close),
            0x9 => Some(Opcode::Ping),
            0xA => Some(Opcode::Pong),
            _ => None,
        }
    }

    pub fn code(&self) -> (r: u8)
        ensures
            r == opcode_code(*self),
    {
        match self {
            Opcode::Continuation => 0x0,
            Opcode::Text => 0x1,
            Opcode::Binary => 0x2,
            Opcode::Close => 0x8,
            Opcode::Ping => 0x9,
            Opcode::Pong => 0xA,
        }
    }
}

/// A WebSocket frame. `payload` holds the unmasked application data; when
/// `mask` is present the payload is masked with it on the wire.
#[derive(Debug, Clone)]
pub struct WebSocketFrame {
    pub fin: bool,
    pub rsv1: bool,
    pub rsv2: bool,
    pub rsv3: bool,
    pub opcode: Opcode,
    pub mask: Option<[u8; 4]>,
    pub payload: Vec<u8>,
}

/// The mathematical content of a frame.
pub struct FrameModel {
    pub fin: bool,
    pub rsv1: bool,
    pub rsv2: bool,
    pub rsv3: bool,
    pub opcode: Opcode,
    pub mask: Option<[u8; 4]>,
    pub payload: Seq<u8>,
}

impl View for WebSocketFrame {
    type V = FrameModel;

    open spec fn view(&self) -> FrameModel {
        FrameModel {
            fin: self.fin,
            rsv1: self.rsv1,
            rsv2: self.rsv2,
            rsv3: self.rsv3,
            opcode: self.opcode,
            mask: self.mask,
            payload: self.payload@,
        }
    }
}

pub open spec fn bit(b: bool, weight: nat) -> nat {
    if b {
        weight
    } else {
        0
    }
}

/// The first byte of a frame: FIN, RSV1-3 and the opcode.
pub open spec fn first_byte(f: FrameModel) -> u8 {
    (opcode_code(f.opcode) + bit(f.fin, 128) + bit(f.rsv1, 64) + bit(f.rsv2, 32) + bit(
        f.rsv3,
        16,
    )) as u8
}

/// The payload-length field (second byte and extended length) for a given mask bit.
pub open spec fn length_field(masked: bool, len: nat) -> Seq<u8> {
    let m = bit(masked, 128);
    if len < 126 {
        seq![(m + len) as u8]
    } else if len < 65536 {
        seq![(m + 126) as u8] + be_bytes(len, 2)
    } else {
        seq![(m + 127) as u8] + be_bytes(len, 8)
    }
}

/// XOR of every payload byte with the mask byte at its position modulo 4.
pub open spec fn apply_mask(p: Seq<u8>, m: [u8; 4]) -> Seq<u8> {
    Seq::new(p.len(), |i: int| p[i] ^ m@[i % 4])
}

/// The bytes of a frame on the wire.
pub open spec fn encode_spec(f: FrameModel) -> Seq<u8> {
    seq![first_byte(f)] + length_field(f.mask is Some, f.payload.len()) + match f.mask {
        Some(m) => m@ + apply_mask(f.payload, m),
        None => f.payload,
    }
}

/// The payload length announced by the header and where the header ends,
/// or `None` when the buffer is too short to hold the extended length.
pub open spec fn header_length(data: Seq<u8>) -> Option<(nat, nat)>
    recommends
        data.len() >= 2,
{
    let ind = data[1] % 128;
    if ind < 126 {
        Some((ind as nat, 2))
    } else if ind == 126 {
        if data.len() < 4 {
            None
        } else {
            Some((be_value(data.subrange(2, 4)), 4))
        }
    } else {
        if data.len() < 10 {
            None
        } else {
            Some((((be_value(data.subrange(2, 10)) as u64) as usize) as nat, 10))
        }
    }
}

/// Parsing one frame off the front of `data`: the frame and the number of
/// bytes it occupies, or `None` when the bytes do not (yet) hold a whole
/// frame or the opcode is unknown.
pub open spec fn parse_spec(data: Seq<u8>) -> Option<(FrameModel, nat)> {
    if data.len() < 2 {
        None
    } else {
        let b0 = data[0];
        let b1 = data[1];
        match opcode_of(b0 % 16) {
            None => None,
            Some(op) => match header_length(data) {
                None => None,
                Some((len, off)) => {
                    let masked = b1 >= 128;
                    if masked && data.len() < off + 4 {
                        None
                    } else {
                        let start: nat = if masked { off + 4 } else { off };
                        if data.len() < start + len {
                            None
                        } else {
                            let mask: Option<[u8; 4]> = if masked {
                                Some(
                                    [data[off as int], data[off as int + 1], data[off as int + 2], data[off as int + 3]],
                                )
                            } else {
                                None
                            };
                            let raw = data.subrange(start as int, (start + len) as int);
                            let payload = match mask {
                                Some(m) => apply_mask(raw, m),
                                None => raw,
                            };
                            Some(
                                (
                                    FrameModel {
                                        fin: b0 >= 128,
                                        rsv1: (b0 / 64) % 2 == 1,
                                        rsv2: (b0 / 32) % 2 == 1,
                                        rsv3: (b0 / 16) % 2 == 1,
                                        opcode: op,
                                        mask,
                                        payload,
                                    },
                                    start + len,
                                ),
                            )
                        }
                    }
                },
            },
        }
    }
}

// ---------------------------------------------------------------------------
// Lemmas
// ---------------------------------------------------------------------------

proof fn lemma_xor_involution(x: u8, k: u8)
    ensures
        (x ^ k) ^ k == x,
{
    assert((x ^ k) ^ k == x) by (bit_vector);
}

/// Masking twice with the same mask gives back the payload.
pub proof fn lemma_mask_involution(p: Seq<u8>, m: [u8; 4])
    ensures
        apply_mask(apply_mask(p, m), m) == p,
{
    assert forall|i: int| 0 <= i < p.len() implies #[trigger] apply_mask(apply_mask(p, m), m)[i]
        == p[i] by {
        lemma_xor_involution(p[i], m@[i % 4]);
    }
    assert(apply_mask(apply_mask(p, m), m) =~= p);
}

proof fn lemma_first_byte_fields(f: FrameModel)
    ensures
        first_byte(f) % 16 == opcode_code(f.opcode),
        (first_byte(f) >= 128) == f.fin,
        ((first_byte(f) / 64) % 2 == 1) == f.rsv1,
        ((first_byte(f) / 32) % 2 == 1) == f.rsv2,
        ((first_byte(f) / 16) % 2 == 1) == f.rsv3,
{
}

/// Parsing the encoding of a frame, followed by any bytes, yields that frame
/// and the length of its encoding.
pub proof fn lemma_parse_encode(f: FrameModel, rest: Seq<u8>)
    requires
        f.payload.len() <= usize::MAX,
    ensures
        parse_spec(encode_spec(f) + rest) == Some((f, encode_spec(f).len())),
{
    let e = encode_spec(f);
    let data = e + rest;
    let len = f.payload.len();
    let lf = length_field(f.mask is Some, len);
    lemma_first_byte_fields(f);
    lemma_pow256_values();
    assert(data[0] == first_byte(f));
    assert(data[1] == lf[0]);
    let off: nat = lf.len() + 1;
    if len < 126 {
        assert(header_length(data) == Some((len, 2nat)));
    } else if len < 65536 {
        lemma_be_roundtrip(len, 2);
        assert(data.subrange(2, 4) =~= be_bytes(len, 2));
        assert(header_length(data) == Some((len, 4nat)));
    } else {
        lemma_be_roundtrip(len, 8);
        assert(data.subrange(2, 10) =~= be_bytes(len, 8));
        assert(header_length(data) == Some((len, 10nat)));
    }
    let (hl, hoff) = header_length(data)->0;
    assert(hoff == off);
    match f.mask {
        Some(m) => {
            assert(data[1] >= 128);
            assert(data[off as int] == m@[0]);
            assert(data[off as int + 1] == m@[1]);
            assert(data[off as int + 2] == m@[2]);
            assert(data[off as int + 3] == m@[3]);
            assert([data[off as int], data[off as int + 1], data[off as int + 2], data[off as int + 3]] =~= m);
            let start = off + 4;
            assert(data.subrange(start as int, (start + len) as int) =~= apply_mask(f.payload, m));
            lemma_mask_involution(f.payload, m);
        },
        None => {
            assert(data[1] < 128);
            assert(data.subrange(off as int, (off + len) as int) =~= f.payload);
        },
    }
    let r = parse_spec(data)->0;
    assert(r.0 == f);
}

/// A frame parsed off some bytes is parsed the same off any longer bytes
/// that start with them, and lies within them.
proof fn lemma_parse_prefix(d: Seq<u8>, x: Seq<u8>)
    requires
        parse_spec(d) is Some,
    ensures
        parse_spec(d + x) == parse_spec(d),
        (parse_spec(d)->0).1 <= d.len(),
{
    let dd = d + x;
    assert(dd[0] == d[0]);
    assert(dd[1] == d[1]);
    let ind = d[1] % 128;
    if ind == 126 {
        assert(dd.subrange(2, 4) =~= d.subrange(2, 4));
    } else if ind == 127 {
        assert(dd.subrange(2, 10) =~= d.subrange(2, 10));
    }
    assert(header_length(dd) == header_length(d));
    let (len, off) = header_length(d)->0;
    let masked = d[1] >= 128;
    let start: nat = if masked { off + 4 } else { off };
    if masked {
        assert(dd[off as int] == d[off as int]);
        assert(dd[off as int + 1] == d[off as int + 1]);
        assert(dd[off as int + 2] == d[off as int + 2]);
        assert(dd[off as int + 3] == d[off as int + 3]);
    }
    assert(dd.subrange(start as int, (start + len) as int) =~= d.subrange(start as int, (start + len) as int));
}

/// No proper prefix of a frame's encoding parses: a truncated frame gives
/// `None`.
pub proof fn lemma_truncated_frame_incomplete(f: FrameModel, k: int)
    requires
        f.payload.len() <= usize::MAX,
        0 <= k < encode_spec(f).len(),
    ensures
        parse_spec(encode_spec(f).take(k)) is None,
{
    let e = encode_spec(f);
    if parse_spec(e.take(k)) is Some {
        lemma_parse_prefix(e.take(k), e.skip(k));
        assert(e.take(k) + e.skip(k) =~= e);
        lemma_parse_encode(f, Seq::empty());
        assert(e + Seq::<u8>::empty() =~= e);
    }
}

// ---------------------------------------------------------------------------
// Executable code
// ---------------------------------------------------------------------------

/// Masks (or unmasks) a payload.
pub fn mask_payload(p: &[u8], m: [u8; 4]) -> (r: Vec<u8>)
    ensures
        r@ == apply_mask(p@, m),
{
    let mut r: Vec<u8> = Vec::new();
    let mut i: usize = 0;
    while i < p.len()
        invariant
            i <= p.len(),
            r@.len() == i,
            forall|j: int| 0 <= j < i ==> r@[j] == p@[j] ^ m@[j % 4],
        decreases p.len() - i,
    {
        r.push(p[i] ^ m[i % 4]);
        i = i + 1;
    }
    assert(r@ =~= apply_mask(p@, m));
    r
}

/// Appends `src` to `dst`.
pub fn append_bytes(dst: &mut Vec<u8>, src: &[u8])
    ensures
        final(dst)@ == old(dst)@ + src@,
{
    let mut i: usize = 0;
    while i < src.len()
        invariant
            i <= src.len(),
            dst@ == old(dst)@ + src@.take(i as int),
        decreases src.len() - i,
    {
        dst.push(src[i]);
        i = i + 1;
        assert(dst@ =~= old(dst)@ + src@.take(i as int));
    }
    assert(src@.take(src.len() as int) =~= src@);
}

impl WebSocketFrame {
    /// The bytes of this frame on the wire.
    pub fn encode(&self) -> (r: Vec<u8>)
        ensures
            r@ == encode_spec(self@),
    {
        let len = self.payload.len();
        let mut first: u8 = self.opcode.code();
        if self.fin {
            first = first + 128;
        }
        if self.rsv1 {
            first = first + 64;
        }
        if self.rsv2 {
            first = first + 32;
        }
        if self.rsv3 {
            first = first + 16;
        }
        let mut buf: Vec<u8> = Vec::new();
        buf.push(first);
        let mask_bit: u8 = if self.mask.is_some() { 128 } else { 0 };
        proof {
            lemma_pow256_values();
        }
        if len < 126 {
            buf.push(mask_bit + (len as u8));
        } else if len < 65536 {
            buf.push(mask_bit + 126);
            let ext = be_bytes_exec(len as u64, 2);
            append_bytes(&mut buf, &ext);
        } else {
            buf.push(mask_bit + 127);
            let ext = be_bytes_exec(len as u64, 8);
            append_bytes(&mut buf, &ext);
        }
        assert(buf@ =~= seq![first_byte(self@)] + length_field(self.mask is Some, len as nat));
        match self.mask {
            Some(m) => {
                let ms: [u8; 4] = m;
                let mv = vec![ms[0], ms[1], ms[2], ms[3]];
                assert(mv@ =~= m@);
                append_bytes(&mut buf, &mv);
                let masked = mask_payload(&self.payload, m);
                append_bytes(&mut buf, &masked);
            },
            None => {
                append_bytes(&mut buf, &self.payload);
            },
        }
        assert(buf@ =~= encode_spec(self@));
        buf
    }

    /// Parses one frame off the front of `data`, with the number of bytes it
    /// occupies.
    pub fn parse(data: &[u8]) -> (r: Option<(WebSocketFrame, usize)>)
        ensures
            match parse_spec(data@) {
                Some((m, n)) => (r matches Some((f, k)) && f@ == m && k == n),
                None => r is None,
            },
    {
        if data.len() < 2 {
            return None;
        }
        let first_byte = data[0];
        let second_byte = data[1];
        let fin = (first_byte & 0x80) != 0;
        let rsv1 = (first_byte & 0x40) != 0;
        let rsv2 = (first_byte & 0x20) != 0;
        let rsv3 = (first_byte & 0x10) != 0;
        proof {
            assert(((first_byte & 0x80) != 0) == (first_byte >= 128)) by (bit_vector);
            assert(((first_byte & 0x40) != 0) == ((first_byte / 64) % 2 == 1)) by (bit_vector);
            assert(((first_byte & 0x20) != 0) == ((first_byte / 32) % 2 == 1)) by (bit_vector);
            assert(((first_byte & 0x10) != 0) == ((first_byte / 16) % 2 == 1)) by (bit_vector);
            assert((first_byte & 0x0F) == first_byte % 16) by (bit_vector);
            assert(((second_byte & 0x80) != 0) == (second_byte >= 128)) by (bit_vector);
            assert((second_byte & 0x7F) == second_byte % 128) by (bit_vector);
        }
        let opcode = match Opcode::from_u8(first_byte & 0x0F) {
            Some(op) => op,
            None => return None,
        };
        let masked = (second_byte & 0x80) != 0;
        let indicator = second_byte & 0x7F;
        let mut offset: usize = 2;
        let payload_len: usize;
        if indicator < 126 {
            payload_len = indicator as usize;
        } else if indicator == 126 {
            if data.len() < 4 {
                return None;
            }
            let v = read_be(data, 2, 2);
            proof {
                lemma_be_value_bound(data@.subrange(2, 4));
                lemma_pow256_values();
            }
            payload_len = v as usize;
            offset = 4;
        } else {
            if data.len() < 10 {
                return None;
            }
            let v = read_be(data, 2, 8);
            payload_len = v as usize;
            offset = 10;
        }
        assert(data@[1] == second_byte);
        assert(header_length(data@) == Some((payload_len as nat, offset as nat)));
        let mask: Option<[u8; 4]> = if masked {
            if data.len() - offset < 4 {
                return None;
            }
            let m: [u8; 4] = [data[offset], data[offset + 1], data[offset + 2], data[offset + 3]];
            offset = offset + 4;
            Some(m)
        } else {
            None
        };
        if data.len() - offset < payload_len {
            return None;
        }
        let end = offset + payload_len;
        let mut raw: Vec<u8> = Vec::new();
        let mut i: usize = offset;
        while i < end
            invariant
                offset <= i <= end <= data.len(),
                raw@ == data@.subrange(offset as int, i as int),
            decreases end - i,
        {
            raw.push(data[i]);
            i = i + 1;
            assert(raw@ =~= data@.subrange(offset as int, i as int));
        }
        let payload = match mask {
            Some(m) => mask_payload(&raw, m),
            None => raw,
        };
        let frame = WebSocketFrame { fin, rsv1, rsv2, rsv3, opcode, mask, payload };
        Some((frame, end))
    }

    /// The status code of a close frame (its first two payload bytes).
    pub fn close_code(&self) -> (r: Option<u16>)
        ensures
            r == (if self.opcode == Opcode::Close && self.payload@.len() >= 2 {
                Some((self.payload@[0] * 256 + self.payload@[1]) as u16)
            } else {
                None
            }),
    {
        if self.opcode == Opcode::Close && self.payload.len() >= 2 {
            Some((self.payload[0] as u16) * 256 + (self.payload[1] as u16))
        } else {
            None
        }
    }

    /// The reason text of a close frame: the payload after the status code,
    /// when it is valid UTF-8.
    pub fn close_reason(&self) -> (r: Option<String>)
        ensures
            self.opcode == Opcode::Close && self.payload@.len() > 2 && valid_utf8(
                self.payload@.skip(2),
            ) ==> (r matches Some(s) && s@ == decode_utf8(self.payload@.skip(2))),
            !(self.opcode == Opcode::Close && self.payload@.len() > 2 && valid_utf8(
                self.payload@.skip(2),
            )) ==> r is None,
    {
        if self.opcode == Opcode::Close && self.payload.len() > 2 {
            let mut rest: Vec<u8> = Vec::new();
            let mut i: usize = 2;
            while i < self.payload.len()
                invariant
                    2 <= i <= self.payload.len(),
                    rest@ == self.payload@.subrange(2, i as int),
                decreases self.payload.len() - i,
            {
                rest.push(self.payload[i]);
                i = i + 1;
                assert(rest@ =~= self.payload@.subrange(2, i as int));
            }
            assert(rest@ =~= self.payload@.skip(2));
            utf8_to_string(&rest)
        } else {
            None
        }
    }
}

/// The payload of a frame sent with per-message compression (RSV1 set):
/// the DEFLATE block is completed with the empty stored-block trailer and
/// inflated; when inflating fails, or the frame is not compressed, the
/// payload is returned as it is.
pub open spec fn decompressed_spec(f: FrameModel) -> Seq<u8> {
    if !f.rsv1 || f.payload.len() == 0 {
        f.payload
    } else {
        match inflate_raw(f.payload + seq![0x00u8, 0x00u8, 0xffu8, 0xffu8]) {
            Some(d) => d,
            None => f.payload,
        }
    }
}

impl WebSocketFrame {
    pub fn decompress_payload(&self) -> (r: Vec<u8>)
        ensures
            r@ == decompressed_spec(self@),
    {
        let mut copy: Vec<u8> = Vec::new();
        append_bytes(&mut copy, &self.payload);
        if !self.rsv1 || self.payload.len() == 0 {
            return copy;
        }
        let mut data: Vec<u8> = Vec::new();
        append_bytes(&mut data, &self.payload);
        data.push(0x00);
        data.push(0x00);
        data.push(0xff);
        data.push(0xff);
        assert(data@ =~= self.payload@ + seq![0x00u8, 0x00u8, 0xffu8, 0xffu8]);
        match raw_inflate(&data) {
            Some(d) => d,
            None => copy,
        }
    }
}

/// What a writer sends: a client masks every frame that carries no mask yet
/// with a fresh mask; a server sends frames as they are.
pub fn prepare_outgoing_frame(frame: WebSocketFrame, is_client: bool, fresh_mask: [u8; 4]) -> (r:
    WebSocketFrame)
    ensures
        r@.payload == frame@.payload,
        r@.opcode == frame@.opcode,
        r.fin == frame.fin && r.rsv1 == frame.rsv1 && r.rsv2 == frame.rsv2 && r.rsv3 == frame.rsv3,
        r.mask == (if is_client && frame.mask is None {
            Some(fresh_mask)
        } else {
            frame.mask
        }),
{
    let mut frame = frame;
    if is_client && frame.mask.is_none() {
        frame.mask = Some(fresh_mask);
    }
    frame
}

} // verus!
