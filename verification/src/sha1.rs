//! SHA-1 (FIPS 180-4), as the WebSocket handshake needs it.

use vstd::prelude::*;

verus! {

/// The SHA-1 chaining state: five 32-bit words.
pub type Sha1State = (u32, u32, u32, u32, u32);

/// Left rotation of a 32-bit word by `n` (1..=31) places.
pub open spec fn rotl(x: u32, n: u32) -> u32 {
    (x << n) | (x >> ((32 - n) as u32))
}

/// The big-endian 32-bit word at byte position `i` of `b`.
pub open spec fn be_word(b: Seq<u8>, i: int) -> u32 {
    ((b[i] as u32) << 24u32) | ((b[i + 1] as u32) << 16u32) | ((b[i + 2] as u32) << 8u32) | (b[i
        + 3] as u32)
}

/// Word `i` (0..80) of the message schedule of a 64-byte block.
pub open spec fn schedule(block: Seq<u8>, i: nat) -> u32
    decreases i,
{
    if i < 16 {
        be_word(block, 4 * i as int)
    } else {
        rotl(
            schedule(block, (i - 3) as nat) ^ schedule(block, (i - 8) as nat) ^ schedule(
                block,
                (i - 14) as nat,
            ) ^ schedule(block, (i - 16) as nat),
            1,
        )
    }
}

/// The round function and constant of round `i`.
pub open spec fn round_fk(i: nat, b: u32, c: u32, d: u32) -> (u32, u32) {
    if i < 20 {
        ((b & c) | ((!b) & d), 0x5A827999u32)
    } else if i < 40 {
        (b ^ c ^ d, 0x6ED9EBA1u32)
    } else if i < 60 {
        ((b & c) | (b & d) | (c & d), 0x8F1BBCDCu32)
    } else {
        (b ^ c ^ d, 0xCA62C1D6u32)
    }
}

/// One round of the compression function.
pub open spec fn round_step(st: Sha1State, i: nat, w: u32) -> Sha1State {
    let (a, b, c, d, e) = st;
    let (f, k) = round_fk(i, b, c, d);
    let tmp = rotl(a, 5).wrapping_add(f).wrapping_add(e).wrapping_add(k).wrapping_add(w);
    (tmp, a, rotl(b, 30), c, d)
}

/// The working state after the first `i` rounds on a block.
pub open spec fn rounds(block: Seq<u8>, st: Sha1State, i: nat) -> Sha1State
    decreases i,
{
    if i == 0 {
        st
    } else {
        let i1 = (i - 1) as nat;
        round_step(rounds(block, st, i1), i1, schedule(block, i1))
    }
}

/// The compression function: the chaining state after one 64-byte block.
pub open spec fn compress(h: Sha1State, block: Seq<u8>) -> Sha1State {
    let (a, b, c, d, e) = rounds(block, h, 80);
    (h.0.wrapping_add(a), h.1.wrapping_add(b), h.2.wrapping_add(c), h.3.wrapping_add(d), h.4.wrapping_add(e))
}

/// The initial chaining state.
pub open spec fn sha1_init() -> Sha1State {
    (0x67452301u32, 0xEFCDAB89u32, 0x98BADCFEu32, 0x10325476u32, 0xC3D2E1F0u32)
}

/// The chaining state after the first `n` blocks of `msg`.
pub open spec fn process_blocks(msg: Seq<u8>, n: nat) -> Sha1State
    decreases n,
{
    if n == 0 {
        sha1_init()
    } else {
        let n1 = (n - 1) as nat;
        compress(process_blocks(msg, n1), msg.subrange(64 * n1 as int, 64 * n1 as int + 64))
    }
}

/// Number of zero bytes of padding after the `0x80` byte for a message of `len` bytes.
pub open spec fn zero_pad_len(len: nat) -> nat {
    ((119 - (len % 64) as int) % 64) as nat
}

/// The eight big-endian bytes of `x`.
pub open spec fn be64(x: u64) -> Seq<u8> {
    seq![
        (x >> 56u64) as u8,
        (x >> 48u64) as u8,
        (x >> 40u64) as u8,
        (x >> 32u64) as u8,
        (x >> 24u64) as u8,
        (x >> 16u64) as u8,
        (x >> 8u64) as u8,
        x as u8
    ]
}

/// The padded message: `0x80`, zeros to 56 mod 64, and the bit length (mod 2^64).
pub open spec fn padded(m: Seq<u8>) -> Seq<u8> {
    m + seq![0x80u8] + Seq::new(zero_pad_len(m.len()), |i: int| 0u8) + be64(
        (m.len() as u64).wrapping_mul(8),
    )
}

/// Byte `k` (0..4) of the big-endian encoding of `x`.
pub open spec fn be_byte(x: u32, k: int) -> u8 {
    if k == 0 {
        (x >> 24u32) as u8
    } else if k == 1 {
        (x >> 16u32) as u8
    } else if k == 2 {
        (x >> 8u32) as u8
    } else {
        x as u8
    }
}

/// Word `j` (0..5) of a chaining state.
pub open spec fn state_word(h: Sha1State, j: int) -> u32 {
    if j == 0 {
        h.0
    } else if j == 1 {
        h.1
    } else if j == 2 {
        h.2
    } else if j == 3 {
        h.3
    } else {
        h.4
    }
}

/// The 20-byte digest of a chaining state.
pub open spec fn digest_bytes(h: Sha1State) -> Seq<u8> {
    Seq::new(20, |j: int| be_byte(state_word(h, j / 4), j % 4))
}

/// The SHA-1 digest of `m`.
pub open spec fn sha1_spec(m: Seq<u8>) -> Seq<u8> {
    let p = padded(m);
    digest_bytes(process_blocks(p, p.len() / 64))
}

/// The padded length is a whole number of blocks.
proof fn lemma_padded_len(n: nat)
    ensures
        (n + 1 + zero_pad_len(n) + 8) % 64 == 0,
        zero_pad_len(n) < 64,
{
}

fn rotl1(x: u32) -> (r: u32)
    ensures
        r == rotl(x, 1),
{
    (x << 1u32) | (x >> 31u32)
}

fn rotl5(x: u32) -> (r: u32)
    ensures
        r == rotl(x, 5),
{
    (x << 5u32) | (x >> 27u32)
}

fn rotl30(x: u32) -> (r: u32)
    ensures
        r == rotl(x, 30),
{
    (x << 30u32) | (x >> 2u32)
}

/// The message schedule of the block at `msg[base..base + 64]`.
fn message_schedule(msg: &[u8], base: usize) -> (w: [u32; 80])
    requires
        base + 64 <= msg@.len(),
    ensures
        forall|i: int|
            0 <= i < 80 ==> w@[i] == schedule(
                msg@.subrange(base as int, base + 64),
                i as nat,
            ),
{
    let ghost block = msg@.subrange(base as int, base + 64);
    let mut w = [0u32; 80];
    let mut i: usize = 0;
    while i < 16
        invariant
            i <= 16,
            base + 64 <= msg.len(),
            block == msg@.subrange(base as int, base + 64),
            forall|j: int| 0 <= j < i ==> w@[j] == schedule(block, j as nat),
        decreases 16 - i,
    {
        let p = base + 4 * i;
        assert(block[4 * i as int] == msg@[p as int]);
        assert(block[4 * i + 1] == msg@[p + 1]);
        assert(block[4 * i + 2] == msg@[p + 2]);
        assert(block[4 * i + 3] == msg@[p + 3]);
        w[i] = ((msg[p] as u32) << 24u32) | ((msg[p + 1] as u32) << 16u32) | ((msg[p + 2] as u32)
            << 8u32) | (msg[p + 3] as u32);
        i = i + 1;
    }
    while i < 80
        invariant
            16 <= i <= 80,
            block == msg@.subrange(base as int, base + 64),
            forall|j: int| 0 <= j < i ==> w@[j] == schedule(block, j as nat),
        decreases 80 - i,
    {
        w[i] = rotl1(w[i - 3] ^ w[i - 8] ^ w[i - 14] ^ w[i - 16]);
        i = i + 1;
    }
    w
}

/// The chaining state after one more block, at `msg[base..base + 64]`.
fn compress_block(h: Sha1State, msg: &[u8], base: usize) -> (r: Sha1State)
    requires
        base + 64 <= msg@.len(),
    ensures
        r == compress(h, msg@.subrange(base as int, base + 64)),
{
    let ghost block = msg@.subrange(base as int, base + 64);
    let w = message_schedule(msg, base);
    let (mut a, mut b, mut c, mut d, mut e) = h;
    let mut i: usize = 0;
    while i < 80
        invariant
            i <= 80,
            block == msg@.subrange(base as int, base + 64),
            forall|j: int| 0 <= j < 80 ==> w@[j] == schedule(block, j as nat),
            (a, b, c, d, e) == rounds(block, h, i as nat),
        decreases 80 - i,
    {
        let (f, k): (u32, u32) = if i < 20 {
            ((b & c) | ((!b) & d), 0x5A827999u32)
        } else if i < 40 {
            (b ^ c ^ d, 0x6ED9EBA1u32)
        } else if i < 60 {
            ((b & c) | (b & d) | (c & d), 0x8F1BBCDCu32)
        } else {
            (b ^ c ^ d, 0xCA62C1D6u32)
        };
        let tmp = rotl5(a).wrapping_add(f).wrapping_add(e).wrapping_add(k).wrapping_add(w[i]);
        e = d;
        d = c;
        c = rotl30(b);
        b = a;
        a = tmp;
        i = i + 1;
    }
    (h.0.wrapping_add(a), h.1.wrapping_add(b), h.2.wrapping_add(c), h.3.wrapping_add(d), h.4.wrapping_add(e))
}

/// The SHA-1 digest of `data`.
pub fn sha1(data: &[u8]) -> (out: [u8; 20])
    ensures
        out@ == sha1_spec(data@),
{
    let n = data.len();
    let full = n / 64;
    let ghost p = padded(data@);
    let ml: u64 = (n as u64).wrapping_mul(8);
    // The last, partial block of the message with its padding: one or two blocks.
    let mut tail: Vec<u8> = Vec::new();
    let mut i = 64 * full;
    while i < n
        invariant
            64 * full <= i <= n,
            n == data@.len(),
            tail@ == data@.subrange(64 * full, i as int),
        decreases n - i,
    {
        tail.push(data[i]);
        i = i + 1;
        assert(tail@ =~= data@.subrange(64 * full, i as int));
    }
    tail.push(0x80);
    let ghost r = (n - 64 * full) as nat;
    assert(r < 64);
    assert(zero_pad_len(n as nat) == zero_pad_len(r)) by {
        assert((n as nat) % 64 == r % 64);
    }
    while tail.len() % 64 != 56
        invariant
            r < 64,
            r + 1 <= tail@.len() <= r + 1 + zero_pad_len(r),
            tail@ == data@.subrange(64 * full, n as int) + seq![0x80u8] + Seq::new(
                (tail@.len() - r - 1) as nat,
                |i: int| 0u8,
            ),
        decreases r + 1 + zero_pad_len(r) - tail@.len(),
    {
        proof {
            lemma_padded_len(r);
            let z = (tail@.len() - r - 1) as int;
            assert(z < zero_pad_len(r)) by {
                if z == zero_pad_len(r) {
                    assert(tail@.len() % 64 == 56);
                }
            }
        }
        tail.push(0);
        assert(tail@ =~= data@.subrange(64 * full, n as int) + seq![0x80u8] + Seq::new(
            (tail@.len() - r - 1) as nat,
            |i: int| 0u8,
        ));
    }
    proof {
        lemma_padded_len(r);
        let z = (tail@.len() - r - 1) as int;
        assert(z == zero_pad_len(r)) by {
            assert((r + 1 + z) % 64 == 56);
        }
    }
    tail.push(#[verifier::truncate] ((ml >> 56u64) as u8));
    tail.push(#[verifier::truncate] ((ml >> 48u64) as u8));
    tail.push(#[verifier::truncate] ((ml >> 40u64) as u8));
    tail.push(#[verifier::truncate] ((ml >> 32u64) as u8));
    tail.push(#[verifier::truncate] ((ml >> 24u64) as u8));
    tail.push(#[verifier::truncate] ((ml >> 16u64) as u8));
    tail.push(#[verifier::truncate] ((ml >> 8u64) as u8));
    tail.push(#[verifier::truncate] (ml as u8));
    proof {
        assert(data@ =~= data@.subrange(0, 64 * full) + data@.subrange(64 * full, n as int));
        assert(p =~= data@.subrange(0, 64 * full) + tail@);
        lemma_padded_len(r);
        assert(tail@.len() % 64 == 0);
    }
    let tb = tail.len() / 64;
    let mut h: Sha1State = (0x67452301u32, 0xEFCDAB89u32, 0x98BADCFEu32, 0x10325476u32, 0xC3D2E1F0u32);
    let mut c: usize = 0;
    while c < full
        invariant
            c <= full,
            64 * full <= n == data@.len(),
            p == data@.subrange(0, 64 * full) + tail@,
            h == process_blocks(p, c as nat),
        decreases full - c,
    {
        assert(p.subrange(64 * c as int, 64 * c as int + 64) =~= data@.subrange(
            64 * c as int,
            64 * c as int + 64,
        ));
        h = compress_block(h, data, 64 * c);
        c = c + 1;
    }
    let mut t: usize = 0;
    while t < tb
        invariant
            t <= tb,
            tb * 64 == tail@.len(),
            tail@.len() == tail.len(),
            64 * full <= data@.len(),
            p == data@.subrange(0, 64 * full) + tail@,
            h == process_blocks(p, (full + t) as nat),
        decreases tb - t,
    {
        assert(64 * t + 64 <= 64 * tb) by (nonlinear_arith)
            requires
                t < tb,
        ;
        assert(64 * (full + t) == 64 * full + 64 * t);
        assert(p.subrange(64 * (full + t) as int, 64 * (full + t) as int + 64) =~= tail@.subrange(
            64 * t as int,
            64 * t as int + 64,
        ));
        h = compress_block(h, tail.as_slice(), 64 * t);
        t = t + 1;
    }
    assert(p.len() / 64 == full + tb);
    let mut out = [0u8; 20];
    let words: [u32; 5] = [h.0, h.1, h.2, h.3, h.4];
    let mut j: usize = 0;
    while j < 5
        invariant
            j <= 5,
            forall|q: int| 0 <= q < 5 ==> words@[q] == state_word(h, q),
            forall|q: int| 0 <= q < 4 * j ==> out@[q] == be_byte(state_word(h, q / 4), q % 4),
        decreases 5 - j,
    {
        let x = words[j];
        out[4 * j] = #[verifier::truncate] ((x >> 24u32) as u8);
        out[4 * j + 1] = #[verifier::truncate] ((x >> 16u32) as u8);
        out[4 * j + 2] = #[verifier::truncate] ((x >> 8u32) as u8);
        out[4 * j + 3] = #[verifier::truncate] (x as u8);
        j = j + 1;
    }
    assert(out@ =~= digest_bytes(h));
    out
}

} // verus!
