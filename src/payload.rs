use vstd::prelude::*;

use byteorder::{BigEndian, ByteOrder, LittleEndian};
use vstd::arithmetic::div_mod::lemma_fundamental_div_mod_converse;

use crate::common::Endian;

verus! {

/// The word whose bytes, most significant first, are `b0 b1 b2 b3`.
pub open spec fn word_from(b0: u8, b1: u8, b2: u8, b3: u8) -> u32 {
    ((b0 as u32) << 24u32) | ((b1 as u32) << 16u32) | ((b2 as u32) << 8u32) | (b3 as u32)
}

/// Byte `k` (`0 <= k < 4`, most significant first) of `w`.
pub open spec fn be_byte(w: u32, k: int) -> u8 {
    if k == 0 {
        (w >> 24u32) as u8
    } else if k == 1 {
        (w >> 16u32) as u8
    } else if k == 2 {
        (w >> 8u32) as u8
    } else {
        w as u8
    }
}

/// Byte `k` of the four that hold `w` in byte order `e`.
pub open spec fn byte_of(e: Endian, w: u32, k: int) -> u8 {
    match e {
        Endian::Big => be_byte(w, k),
        Endian::Little => be_byte(w, 3 - k),
    }
}

/// Word `i` of `s`, read from bytes `4 * i .. 4 * i + 4` in byte order `e`.
pub open spec fn word_at(e: Endian, s: Seq<u8>, i: int) -> u32 {
    match e {
        Endian::Big => word_from(s[4 * i], s[4 * i + 1], s[4 * i + 2], s[4 * i + 3]),
        Endian::Little => word_from(s[4 * i + 3], s[4 * i + 2], s[4 * i + 1], s[4 * i]),
    }
}

/// The words that the bytes `s` hold, four bytes each, in byte order `e`.
pub open spec fn words_of(e: Endian, s: Seq<u8>) -> Seq<u32> {
    Seq::new(s.len() / 4, |i: int| word_at(e, s, i))
}

/// The bytes of the words `w`, four for each, in byte order `e`.
pub open spec fn bytes_of(e: Endian, w: Seq<u32>) -> Seq<u8> {
    Seq::new(4 * w.len(), |j: int| byte_of(e, w[j / 4], j % 4))
}

/// `s` with its rows of `row_len` samples in reverse order: the top row of the
/// result is the bottom row of `s`.
pub open spec fn flipped(s: Seq<u32>, height: int, row_len: int) -> Seq<u32> {
    Seq::new(s.len(), |i: int| s[(height - 1 - i / row_len) * row_len + i % row_len])
}

proof fn lemma_word_bytes(w: u32)
    ensures
        word_from(be_byte(w, 0), be_byte(w, 1), be_byte(w, 2), be_byte(w, 3)) == w,
{
    assert(((((w >> 24u32) as u8) as u32) << 24u32) | ((((w >> 16u32) as u8) as u32) << 16u32)
        | ((((w >> 8u32) as u8) as u32) << 8u32) | ((w as u8) as u32) == w) by (bit_vector);
}

/// Reading back the bytes of some words gives those words.
pub proof fn lemma_words_of_bytes(e: Endian, w: Seq<u32>)
    ensures
        words_of(e, bytes_of(e, w)) == w,
{
    let b = bytes_of(e, w);
    assert forall|i: int| 0 <= i < w.len() implies #[trigger] word_at(e, b, i) == w[i] by {
        assert forall|k: int| 0 <= k < 4 implies b[4 * i + k] == byte_of(e, w[i], k) by {
            lemma_fundamental_div_mod_converse(4 * i + k, 4, i, k);
        }
        lemma_word_bytes(w[i]);
    }
    assert(words_of(e, b) =~= w);
}

/// Splits `i` into the row and the column that it stands at.
proof fn lemma_row_col(i: int, row_len: int, r: int, c: int)
    requires
        row_len > 0,
        0 <= c < row_len,
        i == r * row_len + c,
    ensures
        i / row_len == r,
        i % row_len == c,
{
    lemma_fundamental_div_mod_converse(i, row_len, r, c);
}

/// Flipping the rows twice gives the samples back.
pub proof fn lemma_flip_involutive(s: Seq<u32>, height: int, row_len: int)
    requires
        0 <= height,
        0 <= row_len,
        s.len() == height * row_len,
    ensures
        flipped(flipped(s, height, row_len), height, row_len) == s,
{
    let f = flipped(s, height, row_len);
    assert forall|i: int| 0 <= i < s.len() implies #[trigger] flipped(f, height, row_len)[i]
        == s[i] by {
        assert(row_len > 0) by (nonlinear_arith)
            requires
                0 <= i < s.len(),
                s.len() == height * row_len,
                0 <= row_len,
        ;
        let r = i / row_len;
        let c = i % row_len;
        vstd::arithmetic::div_mod::lemma_fundamental_div_mod(i, row_len);
        vstd::arithmetic::div_mod::lemma_mod_pos_bound(i, row_len);
        assert(0 <= r < height) by (nonlinear_arith)
            requires
                i == row_len * r + c,
                0 <= c < row_len,
                0 <= i < height * row_len,
        ;
        let j = (height - 1 - r) * row_len + c;
        lemma_row_col(j, row_len, height - 1 - r, c);
        assert(0 <= j < s.len()) by (nonlinear_arith)
            requires
                j == (height - 1 - r) * row_len + c,
                0 <= r < height,
                0 <= c < row_len,
                s.len() == height * row_len,
        ;
        assert(flipped(f, height, row_len)[i] == f[j]);
        assert(f[j] == s[(height - 1 - (height - 1 - r)) * row_len + c]);
        assert(r * row_len == row_len * r) by (nonlinear_arith);
    }
    assert(flipped(f, height, row_len) =~= s);
}

/// Relies on byteorder's `BigEndian::read_u32_into`: word `i` of `dst` becomes
/// bytes `4 * i .. 4 * i + 4` of `src`, most significant first. It panics
/// unless `src` holds four bytes for each word of `dst`.
#[verifier::external_body]
fn read_u32s_big(src: &[u8], dst: &mut Vec<u32>)
    requires
        src@.len() == 4 * old(dst)@.len(),
    ensures
        final(dst)@ == words_of(Endian::Big, src@),
{
    BigEndian::read_u32_into(src, dst.as_mut_slice())
}

/// Relies on byteorder's `LittleEndian::read_u32_into`: word `i` of `dst`
/// becomes bytes `4 * i .. 4 * i + 4` of `src`, least significant first. It
/// panics unless `src` holds four bytes for each word of `dst`.
#[verifier::external_body]
fn read_u32s_little(src: &[u8], dst: &mut Vec<u32>)
    requires
        src@.len() == 4 * old(dst)@.len(),
    ensures
        final(dst)@ == words_of(Endian::Little, src@),
{
    LittleEndian::read_u32_into(src, dst.as_mut_slice())
}

/// Relies on byteorder's `BigEndian::write_u32_into`: bytes
/// `4 * i .. 4 * i + 4` of `dst` become word `i` of `src`, most significant
/// first. It panics unless `dst` holds four bytes for each word of `src`.
#[verifier::external_body]
fn write_u32s_big(src: &[u32], dst: &mut Vec<u8>)
    requires
        old(dst)@.len() == 4 * src@.len(),
    ensures
        final(dst)@ == bytes_of(Endian::Big, src@),
{
    BigEndian::write_u32_into(src, dst.as_mut_slice())
}

/// Relies on byteorder's `LittleEndian::write_u32_into`: bytes
/// `4 * i .. 4 * i + 4` of `dst` become word `i` of `src`, least significant
/// first. It panics unless `dst` holds four bytes for each word of `src`.
#[verifier::external_body]
fn write_u32s_little(src: &[u32], dst: &mut Vec<u8>)
    requires
        old(dst)@.len() == 4 * src@.len(),
    ensures
        final(dst)@ == bytes_of(Endian::Little, src@),
{
    LittleEndian::write_u32_into(src, dst.as_mut_slice())
}

fn zeros_u32(n: usize) -> (r: Vec<u32>)
    ensures
        r@.len() == n,
{
    let mut r: Vec<u32> = Vec::with_capacity(n);
    while r.len() < n
        invariant
            r@.len() <= n,
        decreases n - r@.len(),
    {
        r.push(0u32);
    }
    r
}

fn zeros_u8(n: usize) -> (r: Vec<u8>)
    ensures
        r@.len() == n,
{
    let mut r: Vec<u8> = Vec::with_capacity(n);
    while r.len() < n
        invariant
            r@.len() <= n,
        decreases n - r@.len(),
    {
        r.push(0u8);
    }
    r
}

/// The samples that `src` holds, four bytes each, in byte order `e`.
pub fn read_words(e: Endian, src: &[u8]) -> (r: Vec<u32>)
    requires
        src@.len() % 4 == 0,
    ensures
        r@ == words_of(e, src@),
{
    let mut dst = zeros_u32(src.len() / 4);
    match e {
        Endian::Big => read_u32s_big(src, &mut dst),
        Endian::Little => read_u32s_little(src, &mut dst),
    }
    dst
}

/// The bytes of the samples `src`, four for each, in byte order `e`.
pub fn write_words(e: Endian, src: &[u32]) -> (r: Vec<u8>)
    requires
        4 * src@.len() <= usize::MAX,
    ensures
        r@ == bytes_of(e, src@),
{
    let mut dst = zeros_u8(4 * src.len());
    match e {
        Endian::Big => write_u32s_big(src, &mut dst),
        Endian::Little => write_u32s_little(src, &mut dst),
    }
    dst
}

/// The samples with their rows of `row_len` samples in reverse order, so that
/// row `r` from the top trades places with row `height - 1 - r`; a middle row
/// stays where it is.
pub fn flip_vertical(data: &[u32], height: usize, row_len: usize) -> (r: Vec<u32>)
    requires
        data@.len() == height * row_len,
    ensures
        r@ == flipped(data@, height as int, row_len as int),
{
    let n: usize = data.len();
    let mut out: Vec<u32> = Vec::with_capacity(n);
    let mut r: usize = 0;
    while r < height
        invariant
            n == data@.len(),
            r <= height,
            data@.len() == height * row_len,
            out@.len() == r * row_len,
            forall|j: int|
                0 <= j < out@.len() ==> #[trigger] out@[j] == data@[(height - 1 - j / row_len as int)
                    * row_len + j % row_len as int],
        decreases height - r,
    {
        assert((height - 1 - r) * row_len + row_len <= data@.len()) by (nonlinear_arith)
            requires
                r < height,
                data@.len() == height * row_len,
        ;
        let base: usize = (height - 1 - r) * row_len;
        let mut c: usize = 0;
        while c < row_len
            invariant
                n == data@.len(),
                r < height,
                c <= row_len,
                base == (height - 1 - r) * row_len,
                base + row_len <= data@.len(),
                data@.len() == height * row_len,
                out@.len() == r * row_len + c,
                forall|j: int|
                    0 <= j < out@.len() ==> #[trigger] out@[j] == data@[(height - 1 - j / row_len as int)
                        * row_len + j % row_len as int],
            decreases row_len - c,
        {
            proof {
                lemma_row_col(r * row_len + c, row_len as int, r as int, c as int);
            }
            out.push(data[base + c]);
            c = c + 1;
        }
        assert(out@.len() == (r + 1) * row_len) by (nonlinear_arith)
            requires
                out@.len() == r * row_len + row_len,
        ;
        r = r + 1;
    }
    assert(out@ =~= flipped(data@, height as int, row_len as int));
    out
}

} // verus!
