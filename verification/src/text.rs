use vstd::prelude::*;
use vstd::utf8::{
    valid_utf8, encode_utf8, is_char_boundary, is_leading_byte_width_1, partial_valid_utf8,
    partial_valid_utf8_extend_ascii_block, valid_utf8_split, valid_utf8_concat,
    encode_utf8_valid_utf8, length_of_first_scalar, pop_first_scalar, is_continuation_byte,
    is_char_boundary_start_end_of_seq, is_char_boundary_iff_not_is_continuation_byte,
};

verus! {

/// Byte value of the line feed character, which terminates a line.
pub const LINE_FEED: u8 = 0x0a;

/// Replace the half-open byte interval `[start, end)` of `s` with `content`.
pub open spec fn splice_bytes(s: Seq<u8>, start: int, end: int, content: Seq<u8>) -> Seq<u8>
    recommends
        0 <= start <= end <= s.len(),
{
    s.subrange(0, start) + content + s.subrange(end, s.len() as int)
}

/// The byte offsets, strictly after position `i`, at which a line begins in `s`:
/// one for each line feed at or after `i`, pointing just past that line feed.
pub open spec fn line_starts_from(s: Seq<u8>, i: int) -> Seq<int>
    decreases s.len() - i when 0 <= i <= s.len()
{
    if i >= s.len() {
        Seq::empty()
    } else if s[i] == LINE_FEED {
        seq![i + 1] + line_starts_from(s, i + 1)
    } else {
        line_starts_from(s, i + 1)
    }
}

/// The canonical line-offset index of `s`: offset 0, followed by the byte
/// offset just past each line feed, in increasing order.
pub open spec fn line_starts(s: Seq<u8>) -> Seq<int> {
    seq![0int] + line_starts_from(s, 0)
}

/// The integer values of a sequence of byte offsets.
pub open spec fn offsets_view(v: Seq<usize>) -> Seq<int> {
    v.map_values(|x: usize| x as int)
}

proof fn lemma_line_starts_from_props(s: Seq<u8>, j: int)
    requires
        0 <= j <= s.len(),
    ensures
        forall|k: int| 0 <= k < line_starts_from(s, j).len() ==> {
            &&& j + 1 <= #[trigger] line_starts_from(s, j)[k] <= s.len()
            &&& s[line_starts_from(s, j)[k] - 1] == LINE_FEED
        },
        forall|k1: int, k2: int|
            0 <= k1 < k2 < line_starts_from(s, j).len() ==> line_starts_from(s, j)[k1]
                < line_starts_from(s, j)[k2],
    decreases s.len() - j,
{
    if j < s.len() {
        lemma_line_starts_from_props(s, j + 1);
        let rest = line_starts_from(s, j + 1);
        if s[j] == LINE_FEED {
            let cur = line_starts_from(s, j);
            assert(cur =~= seq![j + 1] + rest);
            assert(cur[0] == j + 1);
            assert(forall|k: int| 1 <= k < cur.len() ==> #[trigger] cur[k] == rest[k - 1]);
        } else {
            assert(line_starts_from(s, j) =~= rest);
        }
    }
}

pub proof fn lemma_line_starts_props(s: Seq<u8>)
    ensures
        line_starts(s).len() >= 1,
        line_starts(s)[0] == 0,
        forall|k: int| 0 <= k < line_starts(s).len() ==> 0 <= #[trigger] line_starts(s)[k]
            <= s.len(),
        forall|k1: int, k2: int|
            0 <= k1 < k2 < line_starts(s).len() ==> line_starts(s)[k1] < line_starts(s)[k2],
        forall|k: int| 1 <= k < line_starts(s).len() ==> s[#[trigger] line_starts(s)[k] - 1]
            == LINE_FEED,
{
    lemma_line_starts_from_props(s, 0);
}

proof fn lemma_line_starts_from_take(s: Seq<u8>, i: int, j: int)
    requires
        0 <= j <= i < s.len(),
    ensures
        line_starts_from(s.take(i + 1), j) == line_starts_from(s.take(i), j) + (if s[i]
            == LINE_FEED {
            seq![i + 1]
        } else {
            Seq::<int>::empty()
        }),
    decreases i - j,
{
    let tail = if s[i] == LINE_FEED { seq![i + 1] } else { Seq::<int>::empty() };
    if j == i {
        assert(line_starts_from(s.take(i), j) =~= Seq::<int>::empty());
        if s[i] == LINE_FEED {
            assert(line_starts_from(s.take(i + 1), j) =~= seq![i + 1] + line_starts_from(
                s.take(i + 1),
                j + 1,
            ));
            assert(line_starts_from(s.take(i + 1), j + 1) =~= Seq::<int>::empty());
            assert(line_starts_from(s.take(i + 1), j) =~= line_starts_from(s.take(i), j) + tail);
        } else {
            assert(line_starts_from(s.take(i + 1), j) =~= line_starts_from(s.take(i + 1), j + 1));
            assert(line_starts_from(s.take(i + 1), j + 1) =~= Seq::<int>::empty());
            assert(line_starts_from(s.take(i + 1), j) =~= line_starts_from(s.take(i), j) + tail);
        }
    } else {
        lemma_line_starts_from_take(s, i, j + 1);
        assert(s.take(i + 1)[j] == s[j]);
        assert(s.take(i)[j] == s[j]);
        if s[j] == LINE_FEED {
            assert(line_starts_from(s.take(i + 1), j) =~= seq![j + 1] + line_starts_from(
                s.take(i + 1),
                j + 1,
            ));
            assert(line_starts_from(s.take(i), j) =~= seq![j + 1] + line_starts_from(
                s.take(i),
                j + 1,
            ));
            assert((seq![j + 1] + line_starts_from(s.take(i), j + 1)) + tail =~= seq![j + 1] + (
            line_starts_from(s.take(i), j + 1) + tail));
        }
    }
}

proof fn lemma_line_starts_take(s: Seq<u8>, i: int)
    requires
        0 <= i < s.len(),
    ensures
        line_starts(s.take(i + 1)) == line_starts(s.take(i)) + (if s[i] == LINE_FEED {
            seq![i + 1]
        } else {
            Seq::<int>::empty()
        }),
{
    lemma_line_starts_from_take(s, i, 0);
    let tail = if s[i] == LINE_FEED { seq![i + 1] } else { Seq::<int>::empty() };
    assert(seq![0int] + (line_starts_from(s.take(i), 0) + tail) =~= (seq![0int]
        + line_starts_from(s.take(i), 0)) + tail);
}

/// Compute the canonical line-offset index of `s`.
pub fn compute_line_starts(s: &Vec<u8>) -> (r: Vec<usize>)
    ensures
        offsets_view(r@) == line_starts(s@),
{
    let mut r: Vec<usize> = Vec::new();
    r.push(0);
    assert(offsets_view(r@) =~= line_starts(s@.take(0)));
    let mut i: usize = 0;
    while i < s.len()
        invariant
            0 <= i <= s@.len(),
            offsets_view(r@) == line_starts(s@.take(i as int)),
        decreases s@.len() - i,
    {
        proof {
            lemma_line_starts_take(s@, i as int);
        }
        if s[i] == LINE_FEED {
            r.push(i + 1);
            assert(offsets_view(r@) =~= line_starts(s@.take(i as int)) + seq![i + 1]);
        } else {
            assert(line_starts(s@.take(i + 1)) =~= line_starts(s@.take(i as int)));
        }
        i = i + 1;
    }
    assert(s@.take(s@.len() as int) =~= s@);
    r
}

/// The decimal digits of `n`, most significant first, as ASCII bytes.
pub open spec fn dec_rep(n: int) -> Seq<u8>
    decreases n,
{
    if n < 10 {
        seq![(0x30 + n) as u8]
    } else {
        dec_rep(n / 10).push((0x30 + n % 10) as u8)
    }
}

pub proof fn lemma_dec_rep_ascii(n: int)
    requires
        n >= 0,
    ensures
        forall|i: int| 0 <= i < dec_rep(n).len() ==> #[trigger] dec_rep(n)[i] < 0x80,
        dec_rep(n).len() >= 1,
    decreases n,
{
    if n >= 10 {
        lemma_dec_rep_ascii(n / 10);
    }
}

/// Append the decimal digits of `n` to `out`.
pub fn push_dec_digits(n: usize, out: &mut Vec<u8>)
    ensures
        final(out)@ == old(out)@ + dec_rep(n as int),
    decreases n,
{
    if n < 10 {
        out.push(0x30 + n as u8);
        assert(final(out)@ =~= old(out)@ + dec_rep(n as int));
    } else {
        push_dec_digits(n / 10, out);
        out.push(0x30 + (n % 10) as u8);
        assert(final(out)@ =~= old(out)@ + dec_rep(n as int));
    }
}

/// True when every byte of `s` is an ASCII byte.
pub open spec fn all_ascii(s: Seq<u8>) -> bool {
    forall|i: int| 0 <= i < s.len() ==> #[trigger] s[i] < 0x80
}

pub proof fn lemma_ascii_valid_utf8(s: Seq<u8>)
    requires
        all_ascii(s),
    ensures
        valid_utf8(s),
{
    assert(s.subrange(0, 0) =~= Seq::<u8>::empty());
    assert(valid_utf8(s.subrange(0, 0)));
    assert(partial_valid_utf8(s, 0));
    assert(forall|i: int| 0 <= i < s.len() ==> is_leading_byte_width_1(#[trigger] s[i]));
    partial_valid_utf8_extend_ascii_block(s, 0, s.len() as int);
    assert(s.subrange(0, s.len() as int) =~= s);
}

/// After an ASCII byte of a valid UTF-8 sequence, a character boundary follows.
pub proof fn lemma_boundary_after_ascii(s: Seq<u8>, p: int)
    requires
        valid_utf8(s),
        0 <= p < s.len(),
        s[p] < 0x80,
    ensures
        is_char_boundary(s, p + 1),
    decreases s.len(),
{
    let len0 = length_of_first_scalar(s);
    if p >= len0 {
        lemma_boundary_after_ascii(pop_first_scalar(s), p - len0);
    } else {
        // The first scalar occupies bytes [0, len0). Its continuation bytes,
        // at positions 1..len0, all have the continuation form, and its leading
        // byte is ASCII only when the scalar is one byte wide; so an ASCII byte
        // inside the first scalar forces p == 0 and len0 == 1.
        assert(p == 0 && len0 == 1);
        is_char_boundary_start_end_of_seq(pop_first_scalar(s));
    }
}

/// A character boundary of `s` below `k` is a boundary of the prefix `s[..k]`,
/// provided `k` itself is a boundary.
pub proof fn lemma_boundary_in_prefix(s: Seq<u8>, k: int, idx: int)
    requires
        valid_utf8(s),
        is_char_boundary(s, k),
        is_char_boundary(s, idx),
        0 <= idx <= k <= s.len(),
    ensures
        is_char_boundary(s.subrange(0, k), idx),
{
    valid_utf8_split(s, k);
    let prefix = s.subrange(0, k);
    if idx == k {
        is_char_boundary_start_end_of_seq(prefix);
    } else if idx == 0 {
        is_char_boundary_start_end_of_seq(prefix);
    } else {
        is_char_boundary_iff_not_is_continuation_byte(s, idx);
        is_char_boundary_iff_not_is_continuation_byte(prefix, idx);
    }
}

/// Append all bytes of `src` to `out`.
pub fn push_bytes(out: &mut Vec<u8>, src: &Vec<u8>)
    ensures
        final(out)@ == old(out)@ + src@,
{
    let mut i: usize = 0;
    while i < src.len()
        invariant
            0 <= i <= src@.len(),
            out@ == old(out)@ + src@.take(i as int),
        decreases src@.len() - i,
    {
        out.push(src[i]);
        assert(out@ =~= old(out)@ + src@.take(i + 1));
        i = i + 1;
    }
    assert(out@ =~= old(out)@ + src@);
}

/// Append the bytes of `src[from..to]` to `out`.
pub fn push_byte_range(out: &mut Vec<u8>, src: &Vec<u8>, from: usize, to: usize)
    requires
        from <= to <= src@.len(),
    ensures
        final(out)@ == old(out)@ + src@.subrange(from as int, to as int),
{
    let mut i: usize = from;
    while i < to
        invariant
            from <= i <= to <= src@.len(),
            out@ == old(out)@ + src@.subrange(from as int, i as int),
        decreases to - i,
    {
        out.push(src[i]);
        assert(out@ =~= old(out)@ + src@.subrange(from as int, i + 1));
        i = i + 1;
    }
}

/// True when the byte vectors hold the same bytes.
pub fn bytes_eq(a: &Vec<u8>, b: &Vec<u8>) -> (r: bool)
    ensures
        r == (a@ == b@),
{
    if a.len() != b.len() {
        assert(a@ != b@);
        return false;
    }
    let mut i: usize = 0;
    while i < a.len()
        invariant
            0 <= i <= a@.len(),
            a@.len() == b@.len(),
            forall|j: int| 0 <= j < i ==> a@[j] == b@[j],
        decreases a@.len() - i,
    {
        if a[i] != b[i] {
            return false;
        }
        i = i + 1;
    }
    assert(a@ =~= b@);
    true
}

/// UTF-8 encoding is injective: equal encodings come from equal texts.
pub proof fn lemma_encode_utf8_injective(x: Seq<char>, y: Seq<char>)
    requires
        encode_utf8(x) == encode_utf8(y),
    ensures
        x == y,
{
    vstd::utf8::encode_utf8_decode_utf8(x);
    vstd::utf8::encode_utf8_decode_utf8(y);
}

/// True when the two strings hold the same characters.
pub fn str_eq(a: &str, b: &str) -> (r: bool)
    ensures
        r == (a@ == b@),
{
    let n = a.unicode_len();
    if n != b.unicode_len() {
        assert(a@ != b@);
        return false;
    }
    let mut i: usize = 0;
    while i < n
        invariant
            0 <= i <= n,
            n == a@.len() && n == b@.len(),
            forall|j: int| 0 <= j < i ==> a@[j] == b@[j],
        decreases n - i,
    {
        if a.get_char(i) != b.get_char(i) {
            return false;
        }
        i = i + 1;
    }
    assert(a@ =~= b@);
    true
}

/// Relies on std's `String::from_utf8`: on valid UTF-8 input it returns `Ok`
/// with the string holding exactly the given bytes.
#[verifier::external_body]
pub fn bytes_to_string(v: Vec<u8>) -> (r: String)
    requires
        valid_utf8(v@),
    ensures
        encode_utf8(r@) == v@,
{
    match String::from_utf8(v) {
        Ok(s) => s,
        Err(_) => String::new(),
    }
}

/// Relies on std's `str::from_utf8`: on valid UTF-8 input it returns `Ok`
/// with the slice viewing exactly the given bytes.
#[verifier::external_body]
pub fn bytes_as_str(v: &Vec<u8>) -> (r: &str)
    requires
        valid_utf8(v@),
    ensures
        encode_utf8(r@) == v@,
{
    match core::str::from_utf8(v.as_slice()) {
        Ok(s) => s,
        Err(_) => "",
    }
}

} // verus!
