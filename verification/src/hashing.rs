//! The hash of a file's content.

use vstd::prelude::*;

verus! {

/// `blake3::Hasher`, the state of a hash that is being computed.
#[verifier::external_type_specification]
#[verifier::external_body]
pub struct ExHasher(blake3::Hasher);

/// The bytes that were put into a hasher, in order.
pub uninterp spec fn absorbed(hasher: blake3::Hasher) -> Seq<u8>;

/// What `blake3::Hasher::finalize` gives for some bytes.
pub uninterp spec fn blake3_hash(bytes: Seq<u8>) -> Seq<u8>;

/// Calls `blake3::Hasher::new`: a hasher that has taken nothing in.
#[verifier::external_body]
fn new_hasher() -> (h: blake3::Hasher)
    ensures
        absorbed(h) == Seq::<u8>::empty(),
{
    blake3::Hasher::new()
}

/// Calls `blake3::Hasher::update`: the bytes are put behind the others. A hasher
/// counts what it took in with 64 bits.
#[verifier::external_body]
fn update(h: &mut blake3::Hasher, bytes: &Vec<u8>)
    requires
        absorbed(*old(h)).len() + bytes@.len() <= u64::MAX,
    ensures
        absorbed(*final(h)) == absorbed(*old(h)) + bytes@,
{
    h.update(bytes.as_slice());
}

/// Calls `blake3::Hasher::finalize`: the hash of all bytes that were put in, 32 bytes
/// that depend on those alone.
#[verifier::external_body]
fn digest(h: &blake3::Hasher) -> (r: Vec<u8>)
    ensures
        r@ == blake3_hash(absorbed(*h)),
        r@.len() == 32,
{
    h.finalize().as_bytes().to_vec()
}

/// The lower-case hexadecimal digit of a number below 16.
pub open spec fn hex_char(d: nat) -> char {
    if d < 10 {
        ((48 + d) as u8) as char
    } else {
        ((87 + d) as u8) as char
    }
}

/// Bytes in lower-case hexadecimal, two digits each.
pub open spec fn hex_text(bytes: Seq<u8>) -> Seq<char>
    decreases bytes.len(),
{
    if bytes.len() == 0 {
        Seq::empty()
    } else {
        hex_text(bytes.drop_last()).push(hex_char((bytes.last() / 16) as nat)).push(
            hex_char((bytes.last() % 16) as nat),
        )
    }
}

fn hex_digit(d: u8) -> (c: char)
    requires
        d < 16,
    ensures
        c == hex_char(d as nat),
{
    if d < 10 {
        (48 + d) as char
    } else {
        (87 + d) as char
    }
}

/// Writes bytes in lower-case hexadecimal.
pub fn hex(bytes: &Vec<u8>) -> (r: String)
    ensures
        r@ == hex_text(bytes@),
{
    let mut r = String::new();
    let mut i: usize = 0;
    assert(bytes@.take(0) =~= Seq::<u8>::empty());
    while i < bytes.len()
        invariant
            i <= bytes@.len(),
            r@ == hex_text(bytes@.take(i as int)),
        decreases bytes.len() - i,
    {
        let b: u8 = bytes[i];
        proof {
            assert(bytes@.take(i + 1).drop_last() =~= bytes@.take(i as int));
            assert(bytes@.take(i + 1).last() == b);
        }
        r.push(hex_digit(b / 16));
        r.push(hex_digit(b % 16));
        i = i + 1;
    }
    assert(bytes@.take(i as int) =~= bytes@);
    r
}

/// Every byte is written with two digits.
pub proof fn law_hex_length(bytes: Seq<u8>)
    ensures
        hex_text(bytes).len() == 2 * bytes.len(),
    decreases bytes.len(),
{
    if bytes.len() > 0 {
        law_hex_length(bytes.drop_last());
    }
}

/// Different bytes are written differently.
pub proof fn law_hex_tells_apart(a: Seq<u8>, b: Seq<u8>)
    requires
        hex_text(a) == hex_text(b),
    ensures
        a == b,
    decreases a.len(),
{
    law_hex_length(a);
    law_hex_length(b);
    if a.len() > 0 {
        let x = hex_text(a);
        let y = hex_text(b);
        let n = x.len() as int;
        assert(x.drop_last().drop_last() =~= hex_text(a.drop_last()));
        assert(y.drop_last().drop_last() =~= hex_text(b.drop_last()));
        law_hex_tells_apart(a.drop_last(), b.drop_last());
        assert(x[n - 1] == hex_char((a.last() % 16) as nat));
        assert(y[n - 1] == hex_char((b.last() % 16) as nat));
        assert(x[n - 2] == hex_char((a.last() / 16) as nat));
        assert(y[n - 2] == hex_char((b.last() / 16) as nat));
        hex_char_tells_apart((a.last() % 16) as nat, (b.last() % 16) as nat);
        hex_char_tells_apart((a.last() / 16) as nat, (b.last() / 16) as nat);
        assert(a.last() == b.last());
        assert(a =~= a.drop_last().push(a.last()));
        assert(b =~= b.drop_last().push(b.last()));
    } else {
        assert(a =~= b);
    }
}

proof fn hex_char_tells_apart(x: nat, y: nat)
    requires
        x < 16,
        y < 16,
        hex_char(x) == hex_char(y),
    ensures
        x == y,
{
}

/// The text that stands for a content.
pub open spec fn content_mark(bytes: Seq<u8>) -> Seq<char> {
    "blake3:"@ + hex_text(blake3_hash(bytes))
}

/// The hash of a file that is read block by block.
pub struct FileHasher {
    hasher: blake3::Hasher,
}

impl View for FileHasher {
    type V = Seq<u8>;

    closed spec fn view(&self) -> Seq<u8> {
        absorbed(self.hasher)
    }
}

impl FileHasher {
    /// Nothing read yet.
    pub fn new() -> (r: FileHasher)
        ensures
            r@ == Seq::<u8>::empty(),
    {
        FileHasher { hasher: new_hasher() }
    }

    /// Takes the next block in.
    pub fn feed(&mut self, block: &Vec<u8>)
        requires
            old(self)@.len() + block@.len() <= u64::MAX,
        ensures
            final(self)@ == old(self)@ + block@,
    {
        update(&mut self.hasher, block);
    }

    /// The text that stands for what was read.
    pub fn finish(&self) -> (r: String)
        ensures
            r@ == content_mark(self@),
    {
        let mut r = "blake3:".to_owned();
        let bytes = digest(&self.hasher);
        r.append(hex(&bytes).as_str());
        r
    }
}

/// Blocks put together.
pub open spec fn joined(blocks: Seq<Vec<u8>>) -> Seq<u8>
    decreases blocks.len(),
{
    if blocks.len() == 0 {
        Seq::empty()
    } else {
        joined(blocks.drop_last()) + blocks.last()@
    }
}

/// What was read so far is no longer than the whole.
proof fn joined_grows(blocks: Seq<Vec<u8>>, k: int)
    requires
        0 <= k <= blocks.len(),
    ensures
        joined(blocks.take(k)).len() <= joined(blocks).len(),
    decreases blocks.len(),
{
    if k == blocks.len() {
        assert(blocks.take(k) =~= blocks);
    } else {
        joined_grows(blocks.drop_last(), k);
        assert(blocks.drop_last().take(k) =~= blocks.take(k));
    }
}

/// The text that stands for a content, read in blocks: however it was cut, the same
/// content has the same text.
pub fn full_hash(blocks: &Vec<Vec<u8>>) -> (r: String)
    requires
        joined(blocks@).len() <= u64::MAX,
    ensures
        r@ == content_mark(joined(blocks@)),
{
    let mut h = FileHasher::new();
    let mut i: usize = 0;
    assert(blocks@.take(0) =~= Seq::<Vec<u8>>::empty());
    while i < blocks.len()
        invariant
            i <= blocks@.len(),
            joined(blocks@).len() <= u64::MAX,
            h@ == joined(blocks@.take(i as int)),
        decreases blocks.len() - i,
    {
        proof {
            joined_grows(blocks@, i + 1);
            assert(blocks@.take(i + 1).drop_last() =~= blocks@.take(i as int));
            assert(blocks@.take(i + 1).last() == blocks@[i as int]);
        }
        h.feed(&blocks[i]);
        i = i + 1;
    }
    assert(blocks@.take(i as int) =~= blocks@);
    h.finish()
}

/// The hexadecimal digits, and bytes one after the other: the high digit first.
pub proof fn law_hex_digits(bytes: Seq<u8>, b: u8, d: nat)
    ensures
        d < 10 ==> hex_char(d) as int == '0' as int + d,
        10 <= d < 16 ==> hex_char(d) as int == 'a' as int + d - 10,
        hex_text(Seq::empty()) == Seq::<char>::empty(),
        hex_text(bytes.push(b)) == hex_text(bytes) + seq![
            hex_char((b / 16) as nat),
            hex_char((b % 16) as nat),
        ],
{
    assert(bytes.push(b).drop_last() =~= bytes);
    assert(hex_text(bytes.push(b)) =~= hex_text(bytes) + seq![
        hex_char((b / 16) as nat),
        hex_char((b % 16) as nat),
    ]);
}

/// However a content was cut into blocks, put together it is the content.
pub proof fn law_blocks_are_put_together(blocks: Seq<Vec<u8>>, last: Vec<u8>)
    ensures
        joined(Seq::empty()) == Seq::<u8>::empty(),
        joined(blocks.push(last)) == joined(blocks) + last@,
{
    assert(blocks.push(last).drop_last() =~= blocks);
}

} // verus!
