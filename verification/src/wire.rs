//! The WebSocket wire format used by the pairing channel and the relay:
//! Base64, the handshake accept key, and frame encoding and decoding.

use vstd::prelude::*;

use crate::sha1::{be64, sha1, sha1_spec};
use crate::text::push_char;
use vstd::string::StringSliceAdditionalSpecFns;

verus! {

/// The GUID that RFC 6455 appends to the client key.
pub const WS_GUID: &'static str = "258EAFA5-E914-47DA-95CA-C5AB0DC85B11";

/// Largest payload that a frame reader takes in (4 MiB).
pub const MAX_FRAME_PAYLOAD: u64 = 4194304;

// ------------------------------------------------------------------ base64

/// The Base64 digit of a 6-bit value.
pub open spec fn b64_char(v: u32) -> char {
    if v < 26 {
        (('A' as u32) + v) as char
    } else if v < 52 {
        (('a' as u32) + (v - 26)) as char
    } else if v < 62 {
        (('0' as u32) + (v - 52)) as char
    } else if v == 62 {
        '+'
    } else {
        '/'
    }
}

/// The four Base64 characters of a group of one to three bytes (`=`-padded).
pub open spec fn b64_group(c: Seq<u8>) -> Seq<char> {
    let b0 = c[0] as u32;
    let b1 = if c.len() > 1 {
        c[1] as u32
    } else {
        0u32
    };
    let b2 = if c.len() > 2 {
        c[2] as u32
    } else {
        0u32
    };
    let n = (b0 << 16u32) | (b1 << 8u32) | b2;
    seq![
        b64_char((n >> 18u32) & 63u32),
        b64_char((n >> 12u32) & 63u32),
        if c.len() > 1 {
            b64_char((n >> 6u32) & 63u32)
        } else {
            '='
        },
        if c.len() > 2 {
            b64_char(n & 63u32)
        } else {
            '='
        }
    ]
}

/// Standard Base64 with padding.
pub open spec fn base64_spec(d: Seq<u8>) -> Seq<char>
    decreases d.len(),
{
    if d.len() == 0 {
        Seq::<char>::empty()
    } else if d.len() <= 3 {
        b64_group(d)
    } else {
        b64_group(d.take(3)) + base64_spec(d.skip(3))
    }
}

/// The Base64 digit of a 6-bit value.
fn b64_digit(v: u32) -> (c: char)
    requires
        v < 64,
    ensures
        c == b64_char(v),
{
    let code: u32 = if v < 26 {
        65 + v
    } else if v < 52 {
        97 + (v - 26)
    } else if v < 62 {
        48 + (v - 52)
    } else if v == 62 {
        43
    } else {
        47
    };
    let b: u8 = code as u8;
    b as char
}

/// Standard Base64 encoding with padding.
pub fn base64(data: &[u8]) -> (s: String)
    ensures
        s@ == base64_spec(data@),
{
    let mut out = String::new();
    let mut i: usize = 0;
    let n = data.len();
    assert(data@.skip(0) =~= data@);
    while i < n
        invariant
            n == data@.len(),
            i <= n,
            out@ + base64_spec(data@.skip(i as int)) == base64_spec(data@),
        decreases n - i,
    {
        let rest = n - i;
        let b0 = data[i] as u32;
        let b1: u32 = if rest > 1 {
            data[i + 1] as u32
        } else {
            0
        };
        let b2: u32 = if rest > 2 {
            data[i + 2] as u32
        } else {
            0
        };
        let v = (b0 << 16u32) | (b1 << 8u32) | b2;
        assert((v >> 18u32) & 63u32 < 64) by (bit_vector);
        assert((v >> 12u32) & 63u32 < 64) by (bit_vector);
        assert((v >> 6u32) & 63u32 < 64) by (bit_vector);
        assert(v & 63u32 < 64) by (bit_vector);
        let ghost before = out@;
        let ghost tail = data@.skip(i as int);
        let ghost group = if rest <= 3 {
            tail
        } else {
            tail.take(3)
        };
        assert(group[0] == data@[i as int]);
        assert(rest > 1 ==> group[1] == data@[i + 1]);
        assert(rest > 2 ==> group[2] == data@[i + 2]);
        push_char(&mut out, b64_digit((v >> 18u32) & 63u32));
        push_char(&mut out, b64_digit((v >> 12u32) & 63u32));
        if rest > 1 {
            push_char(&mut out, b64_digit((v >> 6u32) & 63u32));
        } else {
            push_char(&mut out, '=');
        }
        if rest > 2 {
            push_char(&mut out, b64_digit(v & 63u32));
        } else {
            push_char(&mut out, '=');
        }
        assert(out@ =~= before + b64_group(group));
        if rest <= 3 {
            i = n;
            assert(data@.skip(i as int) =~= Seq::<u8>::empty());
            assert(base64_spec(tail) == b64_group(tail));
            assert(out@ + base64_spec(data@.skip(i as int)) =~= before + base64_spec(tail));
        } else {
            i = i + 3;
            assert(tail.skip(3) =~= data@.skip(i as int));
            assert(out@ + base64_spec(data@.skip(i as int)) =~= before + base64_spec(tail));
        }
    }
    assert(data@.skip(n as int) =~= Seq::<u8>::empty());
    assert(out@ + base64_spec(data@.skip(n as int)) =~= out@);
    out
}

// ------------------------------------------------------------------ handshake

/// The `Sec-WebSocket-Accept` value for a client key.
pub open spec fn ws_accept_spec(client_key: Seq<u8>) -> Seq<char> {
    base64_spec(sha1_spec(client_key + WS_GUID.spec_bytes()))
}

/// `Sec-WebSocket-Accept`: Base64 of SHA-1 over the client key followed by the GUID.
pub fn ws_accept(client_key: &str) -> (s: String)
    ensures
        s@ == ws_accept_spec(client_key.spec_bytes()),
{
    let key = client_key.as_bytes();
    let guid = WS_GUID.as_bytes();
    let mut hashed: Vec<u8> = Vec::new();
    let mut i: usize = 0;
    while i < key.len()
        invariant
            i <= key@.len(),
            hashed@ == key@.take(i as int),
        decreases key@.len() - i,
    {
        hashed.push(key[i]);
        i = i + 1;
        assert(hashed@ =~= key@.take(i as int));
    }
    assert(key@.take(key@.len() as int) =~= key@);
    let mut j: usize = 0;
    while j < guid.len()
        invariant
            j <= guid@.len(),
            hashed@ == key@ + guid@.take(j as int),
        decreases guid@.len() - j,
    {
        hashed.push(guid[j]);
        j = j + 1;
        assert(hashed@ =~= key@ + guid@.take(j as int));
    }
    assert(guid@.take(guid@.len() as int) =~= guid@);
    proof {
        reveal_strlit("258EAFA5-E914-47DA-95CA-C5AB0DC85B11");
        vstd::string::is_ascii_spec_bytes(WS_GUID);
    }
    let digest = sha1(hashed.as_slice());
    base64(digest.as_slice())
}


// ------------------------------------------------------------------ frames

/// The length bytes of a frame header (after the first byte); `mask_bit` is `0x80` for a
/// masked frame and `0` otherwise.
pub open spec fn len_field(len: nat, mask_bit: u8) -> Seq<u8> {
    if len < 126 {
        seq![mask_bit | (len as u8)]
    } else if len < 65536 {
        seq![mask_bit | 126u8, ((len as u16) >> 8u16) as u8, (len as u16) as u8]
    } else {
        seq![mask_bit | 127u8] + be64(len as u64)
    }
}

/// An unmasked frame (as a server sends it), with FIN set.
pub open spec fn frame_spec(opcode: u8, payload: Seq<u8>) -> Seq<u8> {
    seq![0x80u8 | opcode] + len_field(payload.len(), 0u8) + payload
}

/// `p` with every byte XOR-ed with the 4-byte mask, cyclically.
pub open spec fn xor_mask(p: Seq<u8>, mask: Seq<u8>) -> Seq<u8> {
    Seq::new(p.len(), |i: int| p[i] ^ mask[i % 4])
}

/// A masked frame (as a client sends it), with FIN set.
pub open spec fn masked_frame_spec(opcode: u8, payload: Seq<u8>, mask: Seq<u8>) -> Seq<u8> {
    seq![0x80u8 | opcode] + len_field(payload.len(), 0x80u8) + mask + xor_mask(payload, mask)
}

/// Appends the length bytes of a frame header.
fn push_len_field(out: &mut Vec<u8>, len: usize, mask_bit: u8)
    ensures
        final(out)@ == old(out)@ + len_field(len as nat, mask_bit),
{
    if len < 126 {
        out.push(mask_bit | (len as u8));
    } else if len < 65536 {
        let x: u16 = len as u16;
        out.push(mask_bit | 126u8);
        out.push(#[verifier::truncate] ((x >> 8u16) as u8));
        out.push(#[verifier::truncate] (x as u8));
    } else {
        let x: u64 = len as u64;
        out.push(mask_bit | 127u8);
        out.push(#[verifier::truncate] ((x >> 56u64) as u8));
        out.push(#[verifier::truncate] ((x >> 48u64) as u8));
        out.push(#[verifier::truncate] ((x >> 40u64) as u8));
        out.push(#[verifier::truncate] ((x >> 32u64) as u8));
        out.push(#[verifier::truncate] ((x >> 24u64) as u8));
        out.push(#[verifier::truncate] ((x >> 16u64) as u8));
        out.push(#[verifier::truncate] ((x >> 8u64) as u8));
        out.push(#[verifier::truncate] (x as u8));
    }
    assert(out@ =~= old(out)@ + len_field(len as nat, mask_bit));
}

/// Appends `p` to `out`.
fn push_bytes(out: &mut Vec<u8>, p: &[u8])
    ensures
        final(out)@ == old(out)@ + p@,
{
    let mut i: usize = 0;
    while i < p.len()
        invariant
            i <= p@.len(),
            out@ == old(out)@ + p@.take(i as int),
        decreases p@.len() - i,
    {
        out.push(p[i]);
        i = i + 1;
        assert(out@ =~= old(out)@ + p@.take(i as int));
    }
    assert(p@.take(p@.len() as int) =~= p@);
}

/// The bytes of an unmasked frame with FIN set (server to client).
pub fn encode_frame(opcode: u8, payload: &[u8]) -> (out: Vec<u8>)
    ensures
        out@ == frame_spec(opcode, payload@),
{
    let mut out: Vec<u8> = Vec::new();
    out.push(0x80u8 | opcode);
    push_len_field(&mut out, payload.len(), 0u8);
    push_bytes(&mut out, payload);
    assert(out@ =~= frame_spec(opcode, payload@));
    out
}

/// The bytes of a masked frame with FIN set (client to server), under a 4-byte mask.
pub fn encode_masked_frame(opcode: u8, payload: &[u8], mask: [u8; 4]) -> (out: Vec<u8>)
    ensures
        out@ == masked_frame_spec(opcode, payload@, mask@),
{
    let mut out: Vec<u8> = Vec::new();
    out.push(0x80u8 | opcode);
    push_len_field(&mut out, payload.len(), 0x80u8);
    push_bytes(&mut out, mask.as_slice());
    let ghost head = out@;
    let mut i: usize = 0;
    while i < payload.len()
        invariant
            i <= payload@.len(),
            out@ == head + xor_mask(payload@, mask@).take(i as int),
        decreases payload@.len() - i,
    {
        out.push(payload[i] ^ mask[i % 4]);
        i = i + 1;
        assert(out@ =~= head + xor_mask(payload@, mask@).take(i as int));
    }
    assert(xor_mask(payload@, mask@).take(payload@.len() as int) =~= xor_mask(payload@, mask@));
    assert(out@ =~= masked_frame_spec(opcode, payload@, mask@));
    out
}

/// Number of extended length bytes announced by the second header byte.
pub open spec fn ext_len(b1: u8) -> nat {
    if b1 & 0x7fu8 == 126u8 {
        2
    } else if b1 & 0x7fu8 == 127u8 {
        8
    } else {
        0
    }
}

/// Whether the second header byte announces a masked payload.
pub open spec fn is_masked(b1: u8) -> bool {
    b1 & 0x80u8 != 0u8
}

/// Length of the whole frame header announced by the second header byte.
pub open spec fn header_len(b1: u8) -> nat {
    2 + ext_len(b1) + (if is_masked(b1) {
        4nat
    } else {
        0nat
    })
}

/// A big-endian 16-bit value at byte position `i`.
pub open spec fn be16_at(b: Seq<u8>, i: int) -> u16 {
    ((b[i] as u16) << 8u16) | (b[i + 1] as u16)
}

/// A big-endian 64-bit value at byte position `i`.
pub open spec fn be64_at(b: Seq<u8>, i: int) -> u64 {
    ((b[i] as u64) << 56u64) | ((b[i + 1] as u64) << 48u64) | ((b[i + 2] as u64) << 40u64) | ((b[i
        + 3] as u64) << 32u64) | ((b[i + 4] as u64) << 24u64) | ((b[i + 5] as u64) << 16u64) | ((b[i
        + 6] as u64) << 8u64) | (b[i + 7] as u64)
}

/// The payload length that a complete header announces.
pub open spec fn announced_len(buf: Seq<u8>) -> u64 {
    let l = buf[1] & 0x7fu8;
    if l == 126u8 {
        be16_at(buf, 2) as u64
    } else if l == 127u8 {
        be64_at(buf, 2)
    } else {
        l as u64
    }
}

/// Reading one frame from the start of `buf`, taking at most `cap` payload bytes:
/// the first header byte (FIN, opcode), the announced length, the (unmasked) payload
/// read, and the bytes consumed; `None` while `buf` holds too few bytes.
pub open spec fn decode_spec(buf: Seq<u8>, cap: u64) -> Option<(u8, u64, Seq<u8>, nat)> {
    if buf.len() < 2 {
        None
    } else {
        let hl = header_len(buf[1]);
        if buf.len() < hl {
            None
        } else {
            let len = announced_len(buf);
            let take = if len < cap {
                len
            } else {
                cap
            };
            if buf.len() < hl + take {
                None
            } else {
                let raw = buf.subrange(hl as int, hl + take);
                let p = if is_masked(buf[1]) {
                    xor_mask(raw, buf.subrange(hl - 4, hl as int))
                } else {
                    raw
                };
                Some((buf[0], len, p, (hl + take) as nat))
            }
        }
    }
}

/// One frame read from a buffer.
pub struct DecodedFrame {
    /// First header byte: FIN flag and opcode.
    pub head: u8,
    /// The payload length that the header announced.
    pub len: u64,
    /// The payload read (unmasked), at most the cap.
    pub payload: Vec<u8>,
    /// Bytes of the buffer that the frame took.
    pub consumed: usize,
}

/// The header length and announced payload length of the frame at the start of `buf`,
/// once its whole header is there.
pub fn frame_header(buf: &[u8]) -> (r: Option<(usize, u64)>)
    ensures
        r is Some <==> (buf@.len() >= 2 && buf@.len() >= header_len(buf@[1])),
        r matches Some((hl, len)) ==> hl == header_len(buf@[1]) && len == announced_len(buf@),
{
    let n = buf.len();
    if n < 2 {
        return None;
    }
    let b1 = buf[1];
    let l = b1 & 0x7fu8;
    let ext: usize = if l == 126u8 {
        2
    } else if l == 127u8 {
        8
    } else {
        0
    };
    let masked = b1 & 0x80u8 != 0u8;
    let hl: usize = 2 + ext + if masked {
        4
    } else {
        0
    };
    if n < hl {
        return None;
    }
    let len: u64 = if l == 126u8 {
        (((buf[2] as u16) << 8u16) | (buf[3] as u16)) as u64
    } else if l == 127u8 {
        ((buf[2] as u64) << 56u64) | ((buf[3] as u64) << 48u64) | ((buf[4] as u64) << 40u64) | ((
        buf[5] as u64) << 32u64) | ((buf[6] as u64) << 24u64) | ((buf[7] as u64) << 16u64) | ((
        buf[8] as u64) << 8u64) | (buf[9] as u64)
    } else {
        l as u64
    };
    Some((hl, len))
}

/// Reads one frame from the start of `buf`, taking at most `cap` payload bytes;
/// `None` while `buf` holds too few bytes for it.
pub fn decode_frame(buf: &[u8], cap: u64) -> (r: Option<DecodedFrame>)
    ensures
        r is Some <==> decode_spec(buf@, cap) is Some,
        r matches Some(f) ==> decode_spec(buf@, cap) == Some(
            (f.head, f.len, f.payload@, f.consumed as nat),
        ),
{
    let n = buf.len();
    let (hl, len) = match frame_header(buf) {
        Some(h) => h,
        None => return None,
    };
    let masked = buf[1] & 0x80u8 != 0u8;
    let take: u64 = if len < cap {
        len
    } else {
        cap
    };
    if ((n - hl) as u64) < take {
        return None;
    }
    let take_n = take as usize;
    let mut payload: Vec<u8> = Vec::new();
    let mut i: usize = 0;
    let ghost raw = buf@.subrange(hl as int, hl + take_n);
    let ghost mask = buf@.subrange(hl - 4, hl as int);
    while i < take_n
        invariant
            hl + take_n <= n == buf@.len(),
            i <= take_n,
            raw == buf@.subrange(hl as int, hl + take_n),
            masked ==> hl >= 4 && mask == buf@.subrange(hl - 4, hl as int),
            payload@ == (if masked {
                xor_mask(raw, mask)
            } else {
                raw
            }).take(i as int),
        decreases take_n - i,
    {
        let b = buf[hl + i];
        if masked {
            let m = buf[hl - 4 + i % 4];
            payload.push(b ^ m);
        } else {
            payload.push(b);
        }
        i = i + 1;
        assert(payload@ =~= (if masked {
            xor_mask(raw, mask)
        } else {
            raw
        }).take(i as int));
    }
    assert((if masked {
        xor_mask(raw, mask)
    } else {
        raw
    }).take(take_n as int) =~= (if masked {
        xor_mask(raw, mask)
    } else {
        raw
    }));
    Some(DecodedFrame { head: buf[0], len, payload, consumed: hl + take_n })
}

// ------------------------------------------------------------------ frame laws

/// What the first length byte of a frame written with `len_field` says.
proof fn lemma_len_field_first(len: nat, mask_bit: u8)
    requires
        mask_bit == 0u8 || mask_bit == 0x80u8,
    ensures
        is_masked(len_field(len, mask_bit)[0]) == (mask_bit == 0x80u8),
        ext_len(len_field(len, mask_bit)[0]) == (if len < 126 {
            0nat
        } else if len < 65536 {
            2nat
        } else {
            8nat
        }),
        len < 126 ==> len_field(len, mask_bit)[0] & 0x7fu8 == len as u8,
{
    let b = len_field(len, mask_bit)[0];
    if len < 126 {
        let x = len as u8;
        assert(x < 126);
        assert((0u8 | x) & 0x80u8 == 0u8 && (0u8 | x) & 0x7fu8 == x) by (bit_vector)
            requires
                x < 126u8,
        ;
        assert((0x80u8 | x) & 0x80u8 != 0u8 && (0x80u8 | x) & 0x7fu8 == x) by (bit_vector)
            requires
                x < 126u8,
        ;
    } else if len < 65536 {
        assert((0u8 | 126u8) & 0x80u8 == 0u8 && (0u8 | 126u8) & 0x7fu8 == 126u8) by (bit_vector);
        assert((0x80u8 | 126u8) & 0x80u8 != 0u8 && (0x80u8 | 126u8) & 0x7fu8 == 126u8)
            by (bit_vector);
    } else {
        assert((0u8 | 127u8) & 0x80u8 == 0u8 && (0u8 | 127u8) & 0x7fu8 == 127u8) by (bit_vector);
        assert((0x80u8 | 127u8) & 0x80u8 != 0u8 && (0x80u8 | 127u8) & 0x7fu8 == 127u8)
            by (bit_vector);
    }
}

/// A 16-bit value is read back from its two big-endian bytes.
proof fn lemma_be16(x: u16)
    ensures
        (((x >> 8u16) as u8) as u16) << 8u16 | ((x as u8) as u16) == x,
{
    assert((((x >> 8u16) as u8) as u16) << 8u16 | ((x as u8) as u16) == x) by (bit_vector);
}

/// A 64-bit value is read back from its eight big-endian bytes.
proof fn lemma_be64(x: u64)
    ensures
        be64_at(be64(x), 0) == x,
{
    let b = be64(x);
    assert(b[0] == (x >> 56u64) as u8);
    assert(b[7] == x as u8);
    assert(((((x >> 56u64) as u8) as u64) << 56u64) | ((((x >> 48u64) as u8) as u64) << 48u64)
        | ((((x >> 40u64) as u8) as u64) << 40u64) | ((((x >> 32u64) as u8) as u64) << 32u64) | ((((x
        >> 24u64) as u8) as u64) << 24u64) | ((((x >> 16u64) as u8) as u64) << 16u64) | ((((x
        >> 8u64) as u8) as u64) << 8u64) | ((x as u8) as u64) == x) by (bit_vector);
}

/// The payload length is read back from a header written with `len_field`.
proof fn lemma_announced_len(buf: Seq<u8>, op: u8, len: nat, mask_bit: u8)
    requires
        mask_bit == 0u8 || mask_bit == 0x80u8,
        len <= u64::MAX,
        buf.len() >= 1 + len_field(len, mask_bit).len(),
        buf[0] == 0x80u8 | op,
        forall|i: int|
            0 <= i < len_field(len, mask_bit).len() ==> buf[1 + i] == len_field(len, mask_bit)[i],
    ensures
        announced_len(buf) == len as u64,
{
    lemma_len_field_first(len, mask_bit);
    let f = len_field(len, mask_bit);
    if len < 126 {
    } else if len < 65536 {
        assert(buf[2] == f[1] && buf[3] == f[2]);
        lemma_be16(len as u16);
    } else {
        let b = be64(len as u64);
        assert forall|i: int| 0 <= i < 8 implies buf[2 + i] == b[i] by {
            assert(buf[1 + (1 + i)] == f[1 + i]);
        }
        lemma_be64(len as u64);
        assert(be64_at(buf, 2) == be64_at(b, 0));
    }
}

/// Law: a frame written by a server is read back whole, whatever follows it, when its
/// payload is within the reader's cap.
pub proof fn law_frame_roundtrip(op: u8, p: Seq<u8>, rest: Seq<u8>, cap: u64)
    requires
        p.len() <= cap,
    ensures
        decode_spec(frame_spec(op, p) + rest, cap) == Some(
            (0x80u8 | op, p.len() as u64, p, frame_spec(op, p).len()),
        ),
{
    let f = len_field(p.len(), 0u8);
    let buf = frame_spec(op, p) + rest;
    lemma_len_field_first(p.len(), 0u8);
    assert(buf[1] == f[0]);
    assert forall|i: int| 0 <= i < f.len() implies buf[1 + i] == f[i] by {}
    lemma_announced_len(buf, op, p.len(), 0u8);
    let hl = header_len(buf[1]);
    assert(hl == 1 + f.len());
    assert(buf.subrange(hl as int, hl as int + p.len()) =~= p);
}

/// XOR-ing twice with the same mask gives the payload back.
proof fn lemma_xor_twice(p: Seq<u8>, mask: Seq<u8>)
    requires
        mask.len() == 4,
    ensures
        xor_mask(xor_mask(p, mask), mask) == p,
{
    assert forall|i: int| 0 <= i < p.len() implies xor_mask(xor_mask(p, mask), mask)[i] == p[i] by {
        let a = p[i];
        let m = mask[i % 4];
        assert((a ^ m) ^ m == a) by (bit_vector);
    }
    assert(xor_mask(xor_mask(p, mask), mask) =~= p);
}

/// Law: every frame written with `masked_frame_spec` (every frame a client sends: its
/// answers, its pongs and its closing frame) has the mask bit set in its second byte,
/// and carries the mask right after its length bytes.
pub proof fn law_client_frame_masked(op: u8, p: Seq<u8>, mask: Seq<u8>)
    requires
        mask.len() == 4,
    ensures
        is_masked(masked_frame_spec(op, p, mask)[1]),
        masked_frame_spec(op, p, mask).subrange(
            header_len(masked_frame_spec(op, p, mask)[1]) - 4,
            header_len(masked_frame_spec(op, p, mask)[1]) as int,
        ) == mask,
{
    let f = len_field(p.len(), 0x80u8);
    let buf = masked_frame_spec(op, p, mask);
    lemma_len_field_first(p.len(), 0x80u8);
    assert(buf[1] == f[0]);
    let hl = header_len(buf[1]);
    assert(hl == 1 + f.len() + 4);
    assert(buf.subrange(hl - 4, hl as int) =~= mask);
}

/// Law: a frame written by a client under any mask is read back unmasked, whatever follows
/// it, when its payload is within the reader's cap.
pub proof fn law_masked_frame_roundtrip(op: u8, p: Seq<u8>, mask: Seq<u8>, rest: Seq<u8>, cap: u64)
    requires
        mask.len() == 4,
        p.len() <= cap,
    ensures
        decode_spec(masked_frame_spec(op, p, mask) + rest, cap) == Some(
            (0x80u8 | op, p.len() as u64, p, masked_frame_spec(op, p, mask).len()),
        ),
{
    let f = len_field(p.len(), 0x80u8);
    let buf = masked_frame_spec(op, p, mask) + rest;
    lemma_len_field_first(p.len(), 0x80u8);
    assert(buf[1] == f[0]);
    assert forall|i: int| 0 <= i < f.len() implies buf[1 + i] == f[i] by {}
    lemma_announced_len(buf, op, p.len(), 0x80u8);
    let hl = header_len(buf[1]);
    assert(hl == 1 + f.len() + 4);
    assert(buf.subrange(hl - 4, hl as int) =~= mask);
    assert(buf.subrange(hl as int, hl as int + p.len()) =~= xor_mask(p, mask));
    lemma_xor_twice(p, mask);
}

} // verus!
