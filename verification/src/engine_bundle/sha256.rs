//! SHA-256, for checking the engine's files where the program is built.

use crate::hashing;
use vstd::prelude::*;

verus! {

/// The constant of a round.
pub open spec fn round_constant(i: usize) -> u32 {
    match i {
        0 => 0x428a2f98,
        1 => 0x71374491,
        2 => 0xb5c0fbcf,
        3 => 0xe9b5dba5,
        4 => 0x3956c25b,
        5 => 0x59f111f1,
        6 => 0x923f82a4,
        7 => 0xab1c5ed5,
        8 => 0xd807aa98,
        9 => 0x12835b01,
        10 => 0x243185be,
        11 => 0x550c7dc3,
        12 => 0x72be5d74,
        13 => 0x80deb1fe,
        14 => 0x9bdc06a7,
        15 => 0xc19bf174,
        16 => 0xe49b69c1,
        17 => 0xefbe4786,
        18 => 0x0fc19dc6,
        19 => 0x240ca1cc,
        20 => 0x2de92c6f,
        21 => 0x4a7484aa,
        22 => 0x5cb0a9dc,
        23 => 0x76f988da,
        24 => 0x983e5152,
        25 => 0xa831c66d,
        26 => 0xb00327c8,
        27 => 0xbf597fc7,
        28 => 0xc6e00bf3,
        29 => 0xd5a79147,
        30 => 0x06ca6351,
        31 => 0x14292967,
        32 => 0x27b70a85,
        33 => 0x2e1b2138,
        34 => 0x4d2c6dfc,
        35 => 0x53380d13,
        36 => 0x650a7354,
        37 => 0x766a0abb,
        38 => 0x81c2c92e,
        39 => 0x92722c85,
        40 => 0xa2bfe8a1,
        41 => 0xa81a664b,
        42 => 0xc24b8b70,
        43 => 0xc76c51a3,
        44 => 0xd192e819,
        45 => 0xd6990624,
        46 => 0xf40e3585,
        47 => 0x106aa070,
        48 => 0x19a4c116,
        49 => 0x1e376c08,
        50 => 0x2748774c,
        51 => 0x34b0bcb5,
        52 => 0x391c0cb3,
        53 => 0x4ed8aa4a,
        54 => 0x5b9cca4f,
        55 => 0x682e6ff3,
        56 => 0x748f82ee,
        57 => 0x78a5636f,
        58 => 0x84c87814,
        59 => 0x8cc70208,
        60 => 0x90befffa,
        61 => 0xa4506ceb,
        62 => 0xbef9a3f7,
        _ => 0xc67178f2,
    }
}

fn constant(i: usize) -> (r: u32)
    ensures
        r == round_constant(i),
{
    match i {
        0 => 0x428a2f98,
        1 => 0x71374491,
        2 => 0xb5c0fbcf,
        3 => 0xe9b5dba5,
        4 => 0x3956c25b,
        5 => 0x59f111f1,
        6 => 0x923f82a4,
        7 => 0xab1c5ed5,
        8 => 0xd807aa98,
        9 => 0x12835b01,
        10 => 0x243185be,
        11 => 0x550c7dc3,
        12 => 0x72be5d74,
        13 => 0x80deb1fe,
        14 => 0x9bdc06a7,
        15 => 0xc19bf174,
        16 => 0xe49b69c1,
        17 => 0xefbe4786,
        18 => 0x0fc19dc6,
        19 => 0x240ca1cc,
        20 => 0x2de92c6f,
        21 => 0x4a7484aa,
        22 => 0x5cb0a9dc,
        23 => 0x76f988da,
        24 => 0x983e5152,
        25 => 0xa831c66d,
        26 => 0xb00327c8,
        27 => 0xbf597fc7,
        28 => 0xc6e00bf3,
        29 => 0xd5a79147,
        30 => 0x06ca6351,
        31 => 0x14292967,
        32 => 0x27b70a85,
        33 => 0x2e1b2138,
        34 => 0x4d2c6dfc,
        35 => 0x53380d13,
        36 => 0x650a7354,
        37 => 0x766a0abb,
        38 => 0x81c2c92e,
        39 => 0x92722c85,
        40 => 0xa2bfe8a1,
        41 => 0xa81a664b,
        42 => 0xc24b8b70,
        43 => 0xc76c51a3,
        44 => 0xd192e819,
        45 => 0xd6990624,
        46 => 0xf40e3585,
        47 => 0x106aa070,
        48 => 0x19a4c116,
        49 => 0x1e376c08,
        50 => 0x2748774c,
        51 => 0x34b0bcb5,
        52 => 0x391c0cb3,
        53 => 0x4ed8aa4a,
        54 => 0x5b9cca4f,
        55 => 0x682e6ff3,
        56 => 0x748f82ee,
        57 => 0x78a5636f,
        58 => 0x84c87814,
        59 => 0x8cc70208,
        60 => 0x90befffa,
        61 => 0xa4506ceb,
        62 => 0xbef9a3f7,
        _ => 0xc67178f2,
    }
}

/// Rotates the bits to the right.
pub open spec fn rotated(x: u32, n: u32) -> u32 {
    (x >> n) | (x << ((32 - n) as u32))
}

fn rotate(x: u32, n: u32) -> (r: u32)
    requires
        0 < n < 32,
    ensures
        r == rotated(x, n),
{
    (x >> n) | (x << (32 - n))
}

/// Adds without carrying over.
pub open spec fn sum(a: u32, b: u32) -> u32 {
    a.wrapping_add(b)
}

/// The `i`-th word of the schedule of a block.
pub open spec fn word_at(block: Seq<u32>, i: int) -> u32
    decreases i,
{
    if i < 16 {
        block[i]
    } else {
        let x = word_at(block, i - 15);
        let y = word_at(block, i - 2);
        let s0 = rotated(x, 7) ^ rotated(x, 18) ^ (x >> 3u32);
        let s1 = rotated(y, 17) ^ rotated(y, 19) ^ (y >> 10u32);
        sum(sum(sum(word_at(block, i - 16), s0), word_at(block, i - 7)), s1)
    }
}

/// The eight words that a hash is made of.
#[derive(Clone, Copy, Debug, PartialEq, Eq, Structural)]
pub struct Words {
    pub a: u32,
    pub b: u32,
    pub c: u32,
    pub d: u32,
    pub e: u32,
    pub f: u32,
    pub g: u32,
    pub h: u32,
}

/// One round.
pub open spec fn one_round(v: Words, k: u32, w: u32) -> Words {
    let s1 = rotated(v.e, 6) ^ rotated(v.e, 11) ^ rotated(v.e, 25);
    let ch = (v.e & v.f) ^ (!v.e & v.g);
    let t1 = sum(sum(sum(sum(v.h, s1), ch), k), w);
    let s0 = rotated(v.a, 2) ^ rotated(v.a, 13) ^ rotated(v.a, 22);
    let maj = (v.a & v.b) ^ (v.a & v.c) ^ (v.b & v.c);
    let t2 = sum(s0, maj);
    Words {
        a: sum(t1, t2),
        b: v.a,
        c: v.b,
        d: v.c,
        e: sum(v.d, t1),
        f: v.e,
        g: v.f,
        h: v.g,
    }
}

/// The first `i` rounds.
pub open spec fn rounds(v: Words, block: Seq<u32>, i: int) -> Words
    decreases i,
{
    if i <= 0 {
        v
    } else {
        one_round(rounds(v, block, i - 1), round_constant((i - 1) as usize), word_at(block, i - 1))
    }
}

/// A block taken in.
pub open spec fn compressed(v: Words, block: Seq<u32>) -> Words {
    let r = rounds(v, block, 64);
    Words {
        a: sum(v.a, r.a),
        b: sum(v.b, r.b),
        c: sum(v.c, r.c),
        d: sum(v.d, r.d),
        e: sum(v.e, r.e),
        f: sum(v.f, r.f),
        g: sum(v.g, r.g),
        h: sum(v.h, r.h),
    }
}

/// The words that the hash starts with.
pub open spec fn initial() -> Words {
    Words {
        a: 0x6a09e667,
        b: 0xbb67ae85,
        c: 0x3c6ef372,
        d: 0xa54ff53a,
        e: 0x510e527f,
        f: 0x9b05688c,
        g: 0x1f83d9ab,
        h: 0x5be0cd19,
    }
}

/// Four bytes as a word, the first one highest.
pub open spec fn be_word(m: Seq<u8>, at: int) -> u32 {
    (m[at] * 0x100_0000 + m[at + 1] * 0x1_0000 + m[at + 2] * 0x100 + m[at + 3]) as u32
}

/// The sixteen words of the `i`-th block of a message.
pub open spec fn block_of(m: Seq<u8>, i: int) -> Seq<u32> {
    Seq::new(16, |k: int| be_word(m, 64 * i + 4 * k))
}

/// The first `n` blocks of a message taken in.
pub open spec fn absorbed(m: Seq<u8>, n: int) -> Words
    decreases n,
{
    if n <= 0 {
        initial()
    } else {
        compressed(absorbed(m, n - 1), block_of(m, n - 1))
    }
}

/// How many zeros fill a message of `n` bytes up.
pub open spec fn fill(n: nat) -> nat {
    ((119 - n % 64) % 64) as nat
}

/// The byte of a number that stands `k` bytes from its end.
pub open spec fn byte_of(x: u64, k: nat) -> u8 {
    (if k == 0 {
        x % 256
    } else if k == 1 {
        x / 0x100 % 256
    } else if k == 2 {
        x / 0x1_0000 % 256
    } else if k == 3 {
        x / 0x100_0000 % 256
    } else if k == 4 {
        x / 0x1_0000_0000 % 256
    } else if k == 5 {
        x / 0x100_0000_0000 % 256
    } else if k == 6 {
        x / 0x1_0000_0000_0000 % 256
    } else {
        x / 0x100_0000_0000_0000 % 256
    }) as u8
}

/// A number as eight bytes, the highest one first.
pub open spec fn be_bytes(x: u64) -> Seq<u8> {
    Seq::new(8, |i: int| byte_of(x, (7 - i) as nat))
}

/// A message filled up to whole blocks: a one bit, zeros, and its length in bits.
pub open spec fn filled(data: Seq<u8>) -> Seq<u8> {
    data.push(0x80) + Seq::new(fill(data.len()), |i: int| 0u8) + be_bytes(
        (data.len() as u64).wrapping_mul(8),
    )
}

/// The eight words of the hash of a message.
pub open spec fn hash_words(data: Seq<u8>) -> Words {
    let m = filled(data);
    absorbed(m, m.len() as int / 64)
}

/// A word as four bytes, the highest one first.
pub open spec fn word_bytes(w: u32) -> Seq<u8> {
    seq![
        (w / 0x100_0000) as u8,
        (w / 0x1_0000 % 256) as u8,
        (w / 0x100 % 256) as u8,
        (w % 256) as u8,
    ]
}

/// The 32 bytes of a hash.
pub open spec fn hash_bytes(v: Words) -> Seq<u8> {
    word_bytes(v.a) + word_bytes(v.b) + word_bytes(v.c) + word_bytes(v.d) + word_bytes(v.e)
        + word_bytes(v.f) + word_bytes(v.g) + word_bytes(v.h)
}

fn schedule(block: &Vec<u32>) -> (w: Vec<u32>)
    requires
        block@.len() == 16,
    ensures
        w@.len() == 64,
        forall|i: int| 0 <= i < 64 ==> #[trigger] w@[i] == word_at(block@, i),
{
    let mut w: Vec<u32> = Vec::new();
    let mut i: usize = 0;
    while i < 16
        invariant
            i <= 16,
            block@.len() == 16,
            w@.len() == i,
            forall|k: int| 0 <= k < i ==> #[trigger] w@[k] == word_at(block@, k),
        decreases 16 - i,
    {
        w.push(block[i]);
        i = i + 1;
    }
    while i < 64
        invariant
            16 <= i <= 64,
            w@.len() == i,
            forall|k: int| 0 <= k < i ==> #[trigger] w@[k] == word_at(block@, k),
        decreases 64 - i,
    {
        let x: u32 = w[i - 15];
        let y: u32 = w[i - 2];
        let s0: u32 = rotate(x, 7) ^ rotate(x, 18) ^ (x >> 3u32);
        let s1: u32 = rotate(y, 17) ^ rotate(y, 19) ^ (y >> 10u32);
        let next: u32 = w[i - 16].wrapping_add(s0).wrapping_add(w[i - 7]).wrapping_add(s1);
        proof {
            assert(w@[i - 15] == word_at(block@, i - 15));
            assert(w@[i - 2] == word_at(block@, i - 2));
            assert(w@[i - 16] == word_at(block@, i - 16));
            assert(w@[i - 7] == word_at(block@, i - 7));
        }
        w.push(next);
        i = i + 1;
    }
    w
}

fn round(v: Words, k: u32, w: u32) -> (r: Words)
    ensures
        r == one_round(v, k, w),
{
    let s1: u32 = rotate(v.e, 6) ^ rotate(v.e, 11) ^ rotate(v.e, 25);
    let ch: u32 = (v.e & v.f) ^ (!v.e & v.g);
    let t1: u32 = v.h.wrapping_add(s1).wrapping_add(ch).wrapping_add(k).wrapping_add(w);
    let s0: u32 = rotate(v.a, 2) ^ rotate(v.a, 13) ^ rotate(v.a, 22);
    let maj: u32 = (v.a & v.b) ^ (v.a & v.c) ^ (v.b & v.c);
    let t2: u32 = s0.wrapping_add(maj);
    Words {
        a: t1.wrapping_add(t2),
        b: v.a,
        c: v.b,
        d: v.c,
        e: v.d.wrapping_add(t1),
        f: v.e,
        g: v.f,
        h: v.g,
    }
}

fn compress(v: Words, block: &Vec<u32>) -> (r: Words)
    requires
        block@.len() == 16,
    ensures
        r == compressed(v, block@),
{
    let w = schedule(block);
    let mut s = v;
    let mut i: usize = 0;
    while i < 64
        invariant
            i <= 64,
            w@.len() == 64,
            forall|k: int| 0 <= k < 64 ==> #[trigger] w@[k] == word_at(block@, k),
            s == rounds(v, block@, i as int),
        decreases 64 - i,
    {
        s = round(s, constant(i), w[i]);
        i = i + 1;
    }
    Words {
        a: v.a.wrapping_add(s.a),
        b: v.b.wrapping_add(s.b),
        c: v.c.wrapping_add(s.c),
        d: v.d.wrapping_add(s.d),
        e: v.e.wrapping_add(s.e),
        f: v.f.wrapping_add(s.f),
        g: v.g.wrapping_add(s.g),
        h: v.h.wrapping_add(s.h),
    }
}

fn push_number(out: &mut Vec<u8>, x: u64)
    ensures
        final(out)@ == old(out)@ + be_bytes(x),
{
    let ghost before = out@;
    out.push((x / 0x100_0000_0000_0000 % 256) as u8);
    out.push((x / 0x1_0000_0000_0000 % 256) as u8);
    out.push((x / 0x100_0000_0000 % 256) as u8);
    out.push((x / 0x1_0000_0000 % 256) as u8);
    out.push((x / 0x100_0000 % 256) as u8);
    out.push((x / 0x1_0000 % 256) as u8);
    out.push((x / 0x100 % 256) as u8);
    out.push((x % 256) as u8);
    assert(out@ =~= before + be_bytes(x));
}

fn push_word(out: &mut Vec<u8>, w: u32)
    ensures
        final(out)@ == old(out)@ + word_bytes(w),
{
    let ghost before = out@;
    out.push((w / 0x100_0000) as u8);
    out.push((w / 0x1_0000 % 256) as u8);
    out.push((w / 0x100 % 256) as u8);
    out.push((w % 256) as u8);
    assert(out@ =~= before + word_bytes(w));
}

fn fill_up(data: &Vec<u8>) -> (m: Vec<u8>)
    ensures
        m@ == filled(data@),
        m@.len() % 64 == 0,
{
    let n: usize = data.len();
    let mut m: Vec<u8> = Vec::new();
    let mut i: usize = 0;
    while i < n
        invariant
            i <= n,
            n == data@.len(),
            m@ == data@.take(i as int),
        decreases n - i,
    {
        m.push(data[i]);
        assert(m@ =~= data@.take(i + 1));
        i = i + 1;
    }
    assert(data@.take(i as int) =~= data@);
    m.push(0x80);
    let zeros: usize = (119 - n % 64) % 64;
    let ghost start = data@.push(0x80);
    let mut k: usize = 0;
    assert(start + Seq::new(0, |i: int| 0u8) =~= start);
    while k < zeros
        invariant
            k <= zeros,
            m@ == start + Seq::new(k as nat, |i: int| 0u8),
        decreases zeros - k,
    {
        m.push(0);
        assert(m@ =~= start + Seq::new((k + 1) as nat, |i: int| 0u8));
        k = k + 1;
    }
    let bits: u64 = (n as u64).wrapping_mul(8);
    push_number(&mut m, bits);
    proof {
        let z = fill(data@.len());
        assert(m@.len() == n + 1 + z + 8);
        assert((n + 9 + (119 - n % 64) % 64) % 64 == 0);
    }
    m
}

fn read_block(m: &Vec<u8>, i: usize) -> (r: Vec<u32>)
    requires
        64 * i + 64 <= m@.len(),
    ensures
        r@ == block_of(m@, i as int),
{
    let mut r: Vec<u32> = Vec::new();
    let n: usize = m.len();
    let mut k: usize = 0;
    while k < 16
        invariant
            k <= 16,
            n == m@.len(),
            64 * i + 64 <= n,
            r@.len() == k,
            forall|t: int| 0 <= t < k ==> #[trigger] r@[t] == be_word(m@, 64 * i + 4 * t),
        decreases 16 - k,
    {
        let at: usize = 64 * i + 4 * k;
        let w: u32 = (m[at] as u32) * 0x100_0000 + (m[at + 1] as u32) * 0x1_0000 + (m[at
            + 2] as u32) * 0x100 + (m[at + 3] as u32);
        r.push(w);
        k = k + 1;
    }
    assert(r@ =~= block_of(m@, i as int));
    r
}

/// The SHA-256 of some bytes, as 32 bytes.
pub fn sha256(data: &Vec<u8>) -> (r: Vec<u8>)
    ensures
        r@ == hash_bytes(hash_words(data@)),
{
    let m = fill_up(data);
    let blocks: usize = m.len() / 64;
    let mut v = Words {
        a: 0x6a09e667,
        b: 0xbb67ae85,
        c: 0x3c6ef372,
        d: 0xa54ff53a,
        e: 0x510e527f,
        f: 0x9b05688c,
        g: 0x1f83d9ab,
        h: 0x5be0cd19,
    };
    let mut i: usize = 0;
    while i < blocks
        invariant
            i <= blocks,
            blocks == m@.len() / 64,
            v == absorbed(m@, i as int),
        decreases blocks - i,
    {
        let block = read_block(&m, i);
        v = compress(v, &block);
        i = i + 1;
    }
    let mut out: Vec<u8> = Vec::new();
    push_word(&mut out, v.a);
    push_word(&mut out, v.b);
    push_word(&mut out, v.c);
    push_word(&mut out, v.d);
    push_word(&mut out, v.e);
    push_word(&mut out, v.f);
    push_word(&mut out, v.g);
    push_word(&mut out, v.h);
    assert(out@ =~= hash_bytes(v));
    out
}

/// The SHA-256 of some bytes in lower-case hexadecimal.
pub fn sha256_hex(data: &Vec<u8>) -> (r: String)
    ensures
        r@ == hashing::hex_text(hash_bytes(hash_words(data@))),
{
    let bytes = sha256(data);
    hashing::hex(&bytes)
}

} // verus!
