use vstd::prelude::*;

use crate::common::PfmError;

verus! {

/// ASCII whitespace: space, tab, line feed, form feed and carriage return.
pub open spec fn is_ws(b: u8) -> bool {
    b == 0x20u8 || b == 0x09u8 || b == 0x0Au8 || b == 0x0Cu8 || b == 0x0Du8
}

/// The first index at or after `i` that holds no whitespace (or the end).
pub open spec fn skip_ws(s: Seq<u8>, i: int) -> int
    decreases s.len() - i,
{
    if i < 0 || i >= s.len() || !is_ws(s[i]) {
        i
    } else {
        skip_ws(s, i + 1)
    }
}

/// The first index at or after `i` that holds whitespace (or the end).
pub open spec fn skip_word(s: Seq<u8>, i: int) -> int
    decreases s.len() - i,
{
    if i < 0 || i >= s.len() || is_ws(s[i]) {
        i
    } else {
        skip_word(s, i + 1)
    }
}

/// The next token of `s` and what follows it, or `None` when only whitespace
/// is left.
pub open spec fn next_token(s: Seq<u8>) -> Option<(Seq<u8>, Seq<u8>)> {
    let start = skip_ws(s, 0);
    let end = skip_word(s, start);
    if start >= s.len() {
        None
    } else {
        Some((s.subrange(start, end), s.subrange(end, s.len() as int)))
    }
}

/// The first index `j` at or after `i` that holds no whitespace is `skip_ws`.
proof fn lemma_skip_ws_at(s: Seq<u8>, i: int, j: int)
    requires
        0 <= i <= j <= s.len(),
        j < s.len() ==> !is_ws(s[j]),
        forall|k: int| i <= k < j ==> is_ws(#[trigger] s[k]),
    ensures
        skip_ws(s, i) == j,
    decreases j - i,
{
    if i < j {
        lemma_skip_ws_at(s, i + 1, j);
    }
}

/// The first index `j` at or after `i` that holds whitespace is `skip_word`.
proof fn lemma_skip_word_at(s: Seq<u8>, i: int, j: int)
    requires
        0 <= i <= j <= s.len(),
        j < s.len() ==> is_ws(s[j]),
        forall|k: int| i <= k < j ==> !is_ws(#[trigger] s[k]),
    ensures
        skip_word(s, i) == j,
    decreases j - i,
{
    if i < j {
        lemma_skip_word_at(s, i + 1, j);
    }
}

/// A token between whitespace and a whitespace byte (or the end) is the next
/// token, and what follows it is left over.
pub proof fn lemma_next_token_of(pre: Seq<u8>, tok: Seq<u8>, post: Seq<u8>)
    requires
        forall|i: int| 0 <= i < pre.len() ==> is_ws(#[trigger] pre[i]),
        tok.len() > 0,
        forall|i: int| 0 <= i < tok.len() ==> !is_ws(#[trigger] tok[i]),
        post.len() > 0 ==> is_ws(post[0]),
    ensures
        next_token(pre + tok + post) == Some((tok, post)),
{
    let s = pre + tok + post;
    let a = pre.len() as int;
    let b = a + tok.len();
    assert forall|k: int| 0 <= k < a implies is_ws(#[trigger] s[k]) by {
        assert(s[k] == pre[k]);
    }
    assert(s[a] == tok[0]);
    lemma_skip_ws_at(s, 0, a);
    assert forall|k: int| a <= k < b implies !is_ws(#[trigger] s[k]) by {
        assert(s[k] == tok[k - a]);
    }
    if b < s.len() {
        assert(s[b] == post[0]);
    }
    lemma_skip_word_at(s, a, b);
    assert(s.subrange(a, b) =~= tok);
    assert(s.subrange(b, s.len() as int) =~= post);
}

fn is_ascii_ws(b: u8) -> (r: bool)
    ensures
        r == is_ws(b),
{
    b == 0x20u8 || b == 0x09u8 || b == 0x0Au8 || b == 0x0Cu8 || b == 0x0Du8
}

/// Skips leading whitespace, then takes the longest run of non-whitespace bytes
/// as one token. Returns the token and the bytes after it; the whitespace byte
/// that ends the token is not consumed.
pub fn read_until_space(buffer: &[u8]) -> (r: Result<(&[u8], &[u8]), PfmError>)
    ensures
        match next_token(buffer@) {
            None => r == Err::<(&[u8], &[u8]), PfmError>(PfmError::UnexpectedEof),
            Some((tok, rest)) => r.is_ok() && r.unwrap().0@ == tok && r.unwrap().1@ == rest,
        },
        r.is_ok() ==> r.unwrap().0@.len() > 0,
{
    let mut start: usize = 0;
    while start < buffer.len() && is_ascii_ws(buffer[start])
        invariant
            start <= buffer@.len(),
            forall|k: int| 0 <= k < start ==> is_ws(#[trigger] buffer@[k]),
        decreases buffer@.len() - start,
    {
        start = start + 1;
    }
    proof {
        lemma_skip_ws_at(buffer@, 0, start as int);
    }
    if start >= buffer.len() {
        return Err(PfmError::UnexpectedEof);
    }
    let mut end: usize = start;
    while end < buffer.len() && !is_ascii_ws(buffer[end])
        invariant
            start <= end <= buffer@.len(),
            forall|k: int| start <= k < end ==> !is_ws(#[trigger] buffer@[k]),
        decreases buffer@.len() - end,
    {
        end = end + 1;
    }
    proof {
        lemma_skip_word_at(buffer@, start as int, end as int);
    }
    Ok((&buffer[start..end], &buffer[end..buffer.len()]))
}

/// An ASCII decimal digit.
pub open spec fn is_digit(b: u8) -> bool {
    0x30u8 <= b <= 0x39u8
}

/// Every byte is an ASCII decimal digit.
pub open spec fn all_digits(s: Seq<u8>) -> bool {
    forall|i: int| 0 <= i < s.len() ==> is_digit(#[trigger] s[i])
}

/// The number that a run of decimal digits denotes.
pub open spec fn digits_value(s: Seq<u8>) -> nat
    decreases s.len(),
{
    if s.len() == 0 {
        0
    } else {
        digits_value(s.drop_last()) * 10 + (s.last() - 0x30u8) as nat
    }
}

/// The digits of an unsigned decimal token: one leading `+` is allowed.
pub open spec fn unsigned_digits(t: Seq<u8>) -> Seq<u8> {
    if t.len() > 0 && t[0] == 0x2Bu8 {
        t.subrange(1, t.len() as int)
    } else {
        t
    }
}

/// The value of an unsigned decimal token, when it is one and fits in `usize`.
pub open spec fn decimal_value(t: Seq<u8>) -> Option<nat> {
    let d = unsigned_digits(t);
    if d.len() > 0 && all_digits(d) && digits_value(d) <= usize::MAX {
        Some(digits_value(d))
    } else {
        None
    }
}

/// The shortest decimal text of `n`.
pub open spec fn decimal_text(n: nat) -> Seq<u8>
    decreases n,
{
    if n < 10 {
        seq![(0x30 + n) as u8]
    } else {
        decimal_text(n / 10).push((0x30 + n % 10) as u8)
    }
}

/// More digits never make a smaller number.
proof fn lemma_digits_value_grows(s: Seq<u8>, i: int, j: int)
    requires
        0 <= i <= j <= s.len(),
        all_digits(s),
    ensures
        digits_value(s.subrange(0, i)) <= digits_value(s.subrange(0, j)),
    decreases j - i,
{
    if i < j {
        lemma_digits_value_grows(s, i, j - 1);
        assert(s.subrange(0, j).drop_last() =~= s.subrange(0, j - 1));
    }
}

/// The decimal text of a number is a run of digits that reads back as it.
pub proof fn lemma_decimal_text(n: nat)
    ensures
        decimal_text(n).len() > 0,
        all_digits(decimal_text(n)),
        decimal_text(n)[0] != 0x2Bu8,
        digits_value(decimal_text(n)) == n,
        forall|i: int| 0 <= i < decimal_text(n).len() ==> !is_ws(#[trigger] decimal_text(n)[i]),
    decreases n,
{
    let t = decimal_text(n);
    if n >= 10 {
        lemma_decimal_text(n / 10);
        assert(t.drop_last() =~= decimal_text(n / 10));
        assert(t.last() == (0x30 + n % 10) as u8);
        assert(n == (n / 10) * 10 + n % 10);
    } else {
        assert(t.drop_last() =~= Seq::<u8>::empty());
        assert(digits_value(t.drop_last()) == 0);
        assert(t.last() == (0x30 + n) as u8);
    }
    assert(digits_value(t) == digits_value(t.drop_last()) * 10 + (t.last() - 0x30u8) as nat);
}

/// The decimal text of a number that fits in `usize` reads back as it.
pub proof fn lemma_decimal_value_of_text(n: nat)
    requires
        n <= usize::MAX,
    ensures
        decimal_value(decimal_text(n)) == Some(n),
{
    lemma_decimal_text(n);
    assert(unsigned_digits(decimal_text(n)) == decimal_text(n));
}

/// Reads an unsigned decimal token, as `usize`'s `FromStr` does: an optional
/// `+`, then one or more digits whose value fits in `usize`. Any other token
/// gives `err`.
pub fn parse_token(t: &[u8], err: PfmError) -> (r: Result<usize, PfmError>)
    ensures
        match decimal_value(t@) {
            Some(n) => r == Ok::<usize, PfmError>(n as usize),
            None => r == Err::<usize, PfmError>(err),
        },
{
    let off: usize = if t.len() > 0 && t[0] == 0x2Bu8 { 1 } else { 0 };
    let ghost d = unsigned_digits(t@);
    assert(d =~= t@.subrange(off as int, t@.len() as int));
    if off >= t.len() {
        return Err(err);
    }
    let mut v: usize = 0;
    let mut i: usize = off;
    while i < t.len()
        invariant
            off <= i <= t@.len(),
            d == unsigned_digits(t@),
            d =~= t@.subrange(off as int, t@.len() as int),
            forall|k: int| 0 <= k < i - off ==> is_digit(#[trigger] d[k]),
            v == digits_value(d.subrange(0, i - off)),
        decreases t@.len() - i,
    {
        let b = t[i];
        if b < 0x30u8 || b > 0x39u8 {
            assert(!is_digit(d[i - off]));
            assert(!all_digits(d));
            return Err(err);
        }
        let ghost next = d.subrange(0, i + 1 - off);
        assert(next.drop_last() =~= d.subrange(0, i - off));
        assert(next.last() == b);
        assert(digits_value(next) == v * 10 + (b - 0x30u8) as nat);
        match v.checked_mul(10) {
            None => {
                proof {
                    lemma_overflow_stays(d, (i + 1 - off) as int);
                }
                return Err(err);
            },
            Some(w) => match w.checked_add((b - 0x30u8) as usize) {
                None => {
                    proof {
                        lemma_overflow_stays(d, (i + 1 - off) as int);
                    }
                    return Err(err);
                },
                Some(x) => {
                    v = x;
                },
            },
        }
        i = i + 1;
    }
    assert(d.subrange(0, i - off) =~= d);
    Ok(v)
}

/// Once a prefix of digits exceeds `usize`, so does the whole run, or it holds
/// a non-digit.
proof fn lemma_overflow_stays(d: Seq<u8>, i: int)
    requires
        0 < i <= d.len(),
        forall|k: int| 0 <= k < i ==> is_digit(#[trigger] d[k]),
        digits_value(d.subrange(0, i)) > usize::MAX,
    ensures
        !(all_digits(d) && digits_value(d) <= usize::MAX),
{
    if all_digits(d) {
        lemma_digits_value_grows(d, i, d.len() as int);
        assert(d.subrange(0, d.len() as int) =~= d);
    }
}

/// Appends the shortest decimal text of `n`.
pub fn push_decimal(buf: &mut Vec<u8>, n: usize)
    ensures
        final(buf)@ == old(buf)@ + decimal_text(n as nat),
    decreases n,
{
    if n < 10 {
        buf.push((0x30 + n) as u8);
    } else {
        push_decimal(buf, n / 10);
        buf.push((0x30 + n % 10) as u8);
    }
    assert(final(buf)@ =~= old(buf)@ + decimal_text(n as nat));
}

} // verus!
