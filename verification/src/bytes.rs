//! Byte strings: little-endian integers and lists of equally long blocks.
use vstd::prelude::*;

verus! {

/// The four bytes of `x`, lowest first.
pub open spec fn le32(x: u32) -> Seq<u8> {
    seq![
        (x % 256) as u8,
        ((x / 256) % 256) as u8,
        ((x / 65536) % 256) as u8,
        (x / 16777216) as u8,
    ]
}

/// The number whose little-endian form is `s`.
pub open spec fn from_le32(s: Seq<u8>) -> u32 {
    (s[0] + 256 * s[1] + 65536 * s[2] + 16777216 * s[3]) as u32
}

/// The eight bytes of `x`, lowest first.
pub open spec fn le64(x: u64) -> Seq<u8> {
    le32((x % 0x1_0000_0000) as u32) + le32((x / 0x1_0000_0000) as u32)
}

/// The number whose little-endian form is `s`.
pub open spec fn from_le64(s: Seq<u8>) -> u64 {
    (from_le32(s.subrange(0, 4)) + 0x1_0000_0000 * from_le32(s.subrange(4, 8))) as u64
}

pub proof fn lemma_le32(x: u32)
    ensures
        le32(x).len() == 4,
        from_le32(le32(x)) == x,
{
}

pub proof fn lemma_from_le32(s: Seq<u8>)
    requires
        s.len() == 4,
    ensures
        le32(from_le32(s)) == s,
{
    let (b0, b1, b2, b3) = (s[0] as u32, s[1] as u32, s[2] as u32, s[3] as u32);
    let x = from_le32(s);
    assert(x == (b0 + 256 * b1 + 65536 * b2 + 16777216 * b3) as u32);
    assert(x % 256 == b0 && (x / 256) % 256 == b1 && (x / 65536) % 256 == b2 && x / 16777216 == b3)
        by (bit_vector)
        requires
            b0 < 256,
            b1 < 256,
            b2 < 256,
            b3 < 256,
            x == (b0 + 256 * b1 + 65536 * b2 + 16777216 * b3) as u32,
    ;
    assert(le32(x) =~= s);
}

pub proof fn lemma_le64(x: u64)
    ensures
        le64(x).len() == 8,
        from_le64(le64(x)) == x,
{
    let lo = (x % 0x1_0000_0000) as u32;
    let hi = (x / 0x1_0000_0000) as u32;
    lemma_le32(lo);
    lemma_le32(hi);
    assert(le64(x).subrange(0, 4) =~= le32(lo));
    assert(le64(x).subrange(4, 8) =~= le32(hi));
}

pub proof fn lemma_from_le64(s: Seq<u8>)
    requires
        s.len() == 8,
    ensures
        le64(from_le64(s)) == s,
{
    let lo = from_le32(s.subrange(0, 4));
    let hi = from_le32(s.subrange(4, 8));
    lemma_from_le32(s.subrange(0, 4));
    lemma_from_le32(s.subrange(4, 8));
    let x = from_le64(s);
    let (wide_lo, wide_hi) = (lo as u64, hi as u64);
    assert(x % 0x1_0000_0000 == wide_lo && x / 0x1_0000_0000 == wide_hi) by (bit_vector)
        requires
            wide_lo < 0x1_0000_0000,
            wide_hi < 0x1_0000_0000,
            x == (wide_lo + 0x1_0000_0000 * wide_hi) as u64,
    ;
    assert(le64(x) =~= s);
}

/// Two equal byte strings split at one place have equal parts.
pub proof fn lemma_same_split(a: Seq<u8>, b: Seq<u8>, c: Seq<u8>, d: Seq<u8>)
    requires
        a + b == c + d,
        a.len() == c.len(),
    ensures
        a == c,
        b == d,
{
    let n = a.len() as int;
    assert((a + b).subrange(0, n) =~= a);
    assert((c + d).subrange(0, n) =~= c);
    assert((a + b).subrange(n, (a + b).len() as int) =~= b);
    assert((c + d).subrange(n, (c + d).len() as int) =~= d);
}

/// Appends the bytes of `x`, lowest first.
pub fn push_le32(out: &mut Vec<u8>, x: u32)
    ensures
        final(out)@ == old(out)@ + le32(x),
{
    out.push((x % 256) as u8);
    out.push(((x / 256) % 256) as u8);
    out.push(((x / 65536) % 256) as u8);
    out.push((x / 16777216) as u8);
    assert(out@ =~= old(out)@ + le32(x));
}

/// Appends the bytes of `x`, lowest first.
pub fn push_le64(out: &mut Vec<u8>, x: u64)
    ensures
        final(out)@ == old(out)@ + le64(x),
{
    push_le32(out, (x % 0x1_0000_0000) as u32);
    push_le32(out, (x / 0x1_0000_0000) as u32);
    assert(out@ =~= old(out)@ + le64(x));
}

/// Reads four bytes at `at`.
pub fn read_le32(bytes: &[u8], at: usize) -> (x: u32)
    requires
        at + 4 <= bytes@.len(),
    ensures
        x == from_le32(bytes@.subrange(at as int, at + 4)),
{
    let ghost s = bytes@.subrange(at as int, at + 4);
    assert(s[0] == bytes@[at as int]);
    assert(s[1] == bytes@[at + 1]);
    assert(s[2] == bytes@[at + 2]);
    assert(s[3] == bytes@[at + 3]);
    (bytes[at] as u32) + 256 * (bytes[at + 1] as u32) + 65536 * (bytes[at + 2] as u32) + 16777216
        * (bytes[at + 3] as u32)
}

/// Reads eight bytes at `at`.
pub fn read_le64(bytes: &[u8], at: usize) -> (x: u64)
    requires
        at + 8 <= bytes@.len(),
    ensures
        x == from_le64(bytes@.subrange(at as int, at + 8)),
{
    let ghost s = bytes@.subrange(at as int, at + 8);
    assert(s.subrange(0, 4) =~= bytes@.subrange(at as int, at + 4));
    assert(s.subrange(4, 8) =~= bytes@.subrange(at + 4, at + 8));
    let lo: u32 = read_le32(bytes, at);
    assert(at + 8 <= bytes.len());
    let hi: u32 = read_le32(bytes, at + 4);
    (lo as u64) + 0x1_0000_0000 * (hi as u64)
}

/// Whether two byte strings are the same.
pub fn bytes_eq(a: &[u8], b: &[u8]) -> (same: bool)
    ensures
        same == (a@ == b@),
{
    if a.len() != b.len() {
        return false;
    }
    let mut i: usize = 0;
    while i < a.len()
        invariant
            i <= a@.len(),
            a@.len() == b@.len(),
            forall|k: int| 0 <= k < i ==> a@[k] == b@[k],
        decreases a@.len() - i,
    {
        if a[i] != b[i] {
            return false;
        }
        i = i + 1;
    }
    assert(a@ =~= b@);
    true
}

/// Appends `src` to `out`.
pub fn push_all(out: &mut Vec<u8>, src: &[u8])
    ensures
        final(out)@ == old(out)@ + src@,
{
    let mut i: usize = 0;
    while i < src.len()
        invariant
            i <= src@.len(),
            out@ == old(out)@ + src@.subrange(0, i as int),
        decreases src@.len() - i,
    {
        out.push(src[i]);
        i = i + 1;
        assert(src@.subrange(0, i as int) =~= src@.subrange(0, i - 1).push(src@[i - 1]));
        assert(out@ =~= old(out)@ + src@.subrange(0, i as int));
    }
    assert(src@.subrange(0, i as int) =~= src@);
}

/// An owned copy of `src`.
pub fn to_vec(src: &[u8]) -> (out: Vec<u8>)
    ensures
        out@ == src@,
{
    let mut out: Vec<u8> = Vec::new();
    push_all(&mut out, src);
    assert(out@ =~= src@);
    out
}

/// The 32 bytes at `at`.
pub fn array32_at(bytes: &[u8], at: usize) -> (out: [u8; 32])
    requires
        at + 32 <= bytes@.len(),
    ensures
        out@ == bytes@.subrange(at as int, at + 32),
{
    let mut out: [u8; 32] = [0u8; 32];
    let len: usize = bytes.len();
    let mut i: usize = 0;
    while i < 32
        invariant
            i <= 32,
            at + 32 <= bytes@.len(),
            bytes@.len() == len,
            forall|k: int| 0 <= k < i ==> out@[k] == bytes@[at + k],
        decreases 32 - i,
    {
        out[i] = bytes[at + i];
        i = i + 1;
    }
    assert(out@ =~= bytes@.subrange(at as int, at + 32));
    out
}

/// The blocks one after the other.
pub open spec fn concat(blocks: Seq<Seq<u8>>) -> Seq<u8>
    decreases blocks.len(),
{
    if blocks.len() == 0 {
        Seq::empty()
    } else {
        concat(blocks.drop_last()) + blocks.last()
    }
}

/// Whether every block has `width` bytes.
pub open spec fn all_width(blocks: Seq<Seq<u8>>, width: int) -> bool {
    forall|i: int| 0 <= i < blocks.len() ==> (#[trigger] blocks[i]).len() == width
}

/// `bytes` cut into blocks of `width` bytes; a shorter rest is left out.
pub open spec fn blocks_of(bytes: Seq<u8>, width: int) -> Seq<Seq<u8>> {
    Seq::new((bytes.len() as int / width) as nat, |i: int| bytes.subrange(i * width, i * width + width))
}

/// The contents of a list of 32-byte arrays.
pub open spec fn views(list: Seq<[u8; 32]>) -> Seq<Seq<u8>> {
    list.map_values(|e: [u8; 32]| e@)
}

/// The contents of a list of byte vectors.
pub open spec fn vec_views(list: Seq<Vec<u8>>) -> Seq<Seq<u8>> {
    list.map_values(|e: Vec<u8>| e@)
}

pub proof fn lemma_concat_push(blocks: Seq<Seq<u8>>, block: Seq<u8>)
    ensures
        concat(blocks.push(block)) == concat(blocks) + block,
{
    assert(blocks.push(block).drop_last() =~= blocks);
}

pub proof fn lemma_concat_add(a: Seq<Seq<u8>>, b: Seq<Seq<u8>>)
    ensures
        concat(a + b) == concat(a) + concat(b),
    decreases b.len(),
{
    if b.len() == 0 {
        assert(a + b =~= a);
        assert(concat(a) + concat(b) =~= concat(a));
    } else {
        lemma_concat_add(a, b.drop_last());
        assert((a + b).drop_last() =~= a + b.drop_last());
        assert(concat(a + b) =~= concat(a) + concat(b));
    }
}

pub proof fn lemma_concat_len(blocks: Seq<Seq<u8>>, width: int)
    requires
        all_width(blocks, width),
    ensures
        concat(blocks).len() == blocks.len() * width,
    decreases blocks.len(),
{
    if blocks.len() > 0 {
        lemma_concat_len(blocks.drop_last(), width);
        assert((blocks.len() - 1) * width + width == blocks.len() * width) by (nonlinear_arith);
    }
}

pub proof fn lemma_concat_block(blocks: Seq<Seq<u8>>, width: int, i: int)
    requires
        all_width(blocks, width),
        0 <= i < blocks.len(),
        width >= 0,
    ensures
        0 <= i * width,
        i * width + width <= concat(blocks).len(),
        concat(blocks).subrange(i * width, i * width + width) == blocks[i],
    decreases blocks.len(),
{
    lemma_concat_len(blocks, width);
    lemma_concat_len(blocks.drop_last(), width);
    assert(0 <= i * width) by (nonlinear_arith)
        requires
            0 <= i,
            width >= 0,
    ;
    assert(i * width + width <= blocks.len() * width) by (nonlinear_arith)
        requires
            0 <= i < blocks.len(),
            width >= 0,
    ;
    if i == blocks.len() - 1 {
        assert(concat(blocks).subrange(i * width, i * width + width) =~= blocks[i]);
    } else {
        lemma_concat_block(blocks.drop_last(), width, i);
        assert(concat(blocks).subrange(i * width, i * width + width) =~= concat(
            blocks.drop_last(),
        ).subrange(i * width, i * width + width));
        assert(blocks.drop_last()[i] == blocks[i]);
    }
}

/// Cutting up what was joined gives the blocks back.
pub proof fn lemma_blocks_of_concat(blocks: Seq<Seq<u8>>, width: int)
    requires
        all_width(blocks, width),
        width > 0,
    ensures
        blocks_of(concat(blocks), width) == blocks,
        concat(blocks).len() == blocks.len() * width,
        concat(blocks).len() % (width as nat) == 0,
{
    lemma_concat_len(blocks, width);
    let n = blocks.len();
    assert((n * width) / width == n && (n * width) % width == 0) by (nonlinear_arith)
        requires
            width > 0,
    ;
    assert forall|i: int| 0 <= i < n implies blocks_of(concat(blocks), width)[i] == blocks[i] by {
        lemma_concat_block(blocks, width, i);
    }
    assert(blocks_of(concat(blocks), width) =~= blocks);
}

/// Joining the blocks of a byte string gives it back when no rest was left out.
pub proof fn lemma_concat_blocks_of(bytes: Seq<u8>, width: int)
    requires
        width > 0,
        bytes.len() as int % width == 0,
    ensures
        concat(blocks_of(bytes, width)) == bytes,
        all_width(blocks_of(bytes, width), width),
        blocks_of(bytes, width).len() * width == bytes.len(),
    decreases bytes.len(),
{
    let n = bytes.len() as int / width;
    assert(n * width == bytes.len()) by (nonlinear_arith)
        requires
            width > 0,
            bytes.len() as int % width == 0,
            n == bytes.len() as int / width,
    ;
    let blocks = blocks_of(bytes, width);
    assert forall|i: int| 0 <= i < n implies (#[trigger] blocks[i]).len() == width by {
        assert(0 <= i * width && i * width + width <= n * width) by (nonlinear_arith)
            requires
                0 <= i < n,
                width > 0,
        ;
    }
    lemma_concat_len(blocks, width);
    assert forall|k: int| 0 <= k < bytes.len() implies concat(blocks)[k] == bytes[k] by {
        let i = k / width;
        let j = k % width;
        assert(0 <= i < n && i * width + j == k && 0 <= j < width) by (nonlinear_arith)
            requires
                width > 0,
                0 <= k < n * width,
                i == k / width,
                j == k % width,
        ;
        lemma_concat_block(blocks, width, i);
        assert(concat(blocks)[k] == concat(blocks).subrange(i * width, i * width + width)[j]);
        assert(blocks[i][j] == bytes[k]);
    }
    assert(concat(blocks) =~= bytes);
}

/// Equally long blocks are told apart by their concatenation.
pub proof fn lemma_concat_injective(a: Seq<Seq<u8>>, b: Seq<Seq<u8>>, width: int)
    requires
        all_width(a, width),
        all_width(b, width),
        width > 0,
        concat(a) == concat(b),
    ensures
        a == b,
{
    lemma_blocks_of_concat(a, width);
    lemma_blocks_of_concat(b, width);
}

/// Appends the entries of `list` in order.
pub fn push_arrays(out: &mut Vec<u8>, list: &[[u8; 32]])
    ensures
        final(out)@ == old(out)@ + concat(views(list@)),
{
    let mut i: usize = 0;
    while i < list.len()
        invariant
            i <= list@.len(),
            out@ == old(out)@ + concat(views(list@.subrange(0, i as int))),
        decreases list@.len() - i,
    {
        push_all(out, list[i].as_slice());
        proof {
            let before = views(list@.subrange(0, i as int));
            assert(views(list@.subrange(0, i + 1)) =~= before.push(list@[i as int]@));
            lemma_concat_push(before, list@[i as int]@);
            assert(out@ =~= old(out)@ + concat(views(list@.subrange(0, i + 1))));
        }
        i = i + 1;
    }
    assert(list@.subrange(0, i as int) =~= list@);
}

/// Appends the members of `list` in order.
pub fn push_vecs(out: &mut Vec<u8>, list: &[Vec<u8>])
    ensures
        final(out)@ == old(out)@ + concat(vec_views(list@)),
{
    let mut i: usize = 0;
    while i < list.len()
        invariant
            i <= list@.len(),
            out@ == old(out)@ + concat(vec_views(list@.subrange(0, i as int))),
        decreases list@.len() - i,
    {
        push_all(out, list[i].as_slice());
        proof {
            let before = vec_views(list@.subrange(0, i as int));
            assert(vec_views(list@.subrange(0, i + 1)) =~= before.push(list@[i as int]@));
            lemma_concat_push(before, list@[i as int]@);
            assert(out@ =~= old(out)@ + concat(vec_views(list@.subrange(0, i + 1))));
        }
        i = i + 1;
    }
    assert(list@.subrange(0, i as int) =~= list@);
}

/// Cuts `bytes` into 32-byte arrays.
pub fn split_arrays(bytes: &[u8]) -> (list: Vec<[u8; 32]>)
    requires
        bytes@.len() % 32 == 0,
    ensures
        views(list@) == blocks_of(bytes@, 32),
{
    let mut list: Vec<[u8; 32]> = Vec::new();
    let mut at: usize = 0;
    while at < bytes.len()
        invariant
            at <= bytes@.len(),
            bytes@.len() % 32 == 0,
            at == list@.len() * 32,
            forall|k: int|
                0 <= k < list@.len() ==> (#[trigger] list@[k])@ == bytes@.subrange(k * 32, k * 32 + 32),
        decreases bytes@.len() - at,
    {
        let block = array32_at(bytes, at);
        list.push(block);
        at = at + 32;
    }
    assert(views(list@) =~= blocks_of(bytes@, 32));
    list
}

/// Cuts `bytes` into vectors of `width` bytes.
pub fn split_vecs(bytes: &[u8], width: usize) -> (list: Vec<Vec<u8>>)
    requires
        width > 0,
        bytes@.len() as int % width as int == 0,
    ensures
        vec_views(list@) == blocks_of(bytes@, width as int),
{
    let mut list: Vec<Vec<u8>> = Vec::new();
    let mut at: usize = 0;
    proof {
        lemma_concat_blocks_of(bytes@, width as int);
    }
    let ghost n = bytes@.len() as int / width as int;
    while at < bytes.len()
        invariant
            at <= bytes@.len(),
            width > 0,
            at == list@.len() * width,
            n * width == bytes@.len(),
            forall|k: int|
                0 <= k < list@.len() ==> (#[trigger] list@[k])@ == bytes@.subrange(
                    k * width,
                    k * width + width,
                ),
        decreases bytes@.len() - at,
    {
        proof {
            let k = list@.len() as int;
            assert(k * width + width <= n * width) by (nonlinear_arith)
                requires
                    k * width < n * width,
                    width > 0,
            ;
            assert((k + 1) * width == k * width + width) by (nonlinear_arith);
        }
        let block = to_vec(&bytes[at..at + width]);
        list.push(block);
        at = at + width;
    }
    proof {
        assert(list@.len() == n) by (nonlinear_arith)
            requires
                list@.len() * width == n * width,
                width > 0,
        ;
    }
    assert(vec_views(list@) =~= blocks_of(bytes@, width as int));
    list
}

/// A number is written lowest byte first: byte `i` of its form is worth 256 to the `i`.
pub proof fn law_the_lowest_byte_comes_first(x: u32, y: u64)
    ensures
        le32(x).len() == 4,
        x == le32(x)[0] + 256 * le32(x)[1] + 65536 * le32(x)[2] + 16777216 * le32(x)[3],
        le64(y).len() == 8,
        y == le64(y)[0] + 256 * le64(y)[1] + 65536 * le64(y)[2] + 16777216 * le64(y)[3]
            + 0x1_0000_0000 * (le64(y)[4] + 256 * le64(y)[5] + 65536 * le64(y)[6] + 16777216
            * le64(y)[7]),
{
    let lo = (y % 0x1_0000_0000) as u32;
    let hi = (y / 0x1_0000_0000) as u32;
    assert(le64(y)[0] == le32(lo)[0] && le64(y)[1] == le32(lo)[1] && le64(y)[2] == le32(lo)[2]
        && le64(y)[3] == le32(lo)[3]);
    assert(le64(y)[4] == le32(hi)[0] && le64(y)[5] == le32(hi)[1] && le64(y)[6] == le32(hi)[2]
        && le64(y)[7] == le32(hi)[3]);
    lemma_le32(lo);
    lemma_le32(hi);
}

} // verus!
