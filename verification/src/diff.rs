use crate::text::{
    all_ascii, bytes_eq, bytes_to_string, dec_rep, lemma_ascii_valid_utf8,
    lemma_boundary_after_ascii, lemma_dec_rep_ascii, push_byte_range, push_bytes, push_dec_digits,
    LINE_FEED,
};
use vstd::math::min;
use vstd::prelude::*;
use vstd::string::StrSliceExecFns;
use vstd::utf8::{
    encode_utf8, encode_utf8_valid_utf8, is_char_boundary, is_char_boundary_start_end_of_seq,
    is_char_boundary_iff_not_is_continuation_byte, valid_utf8, valid_utf8_concat, valid_utf8_split,
};

verus! {

/// The offset of the first line break at or after `i`: the position of the
/// next line feed, or the end of `s`.
pub open spec fn next_break(s: Seq<u8>, i: int) -> int
    decreases s.len() - i when 0 <= i <= s.len()
{
    if i >= s.len() {
        i
    } else if s[i] == LINE_FEED {
        i
    } else {
        next_break(s, i + 1)
    }
}

proof fn lemma_next_break_props(s: Seq<u8>, i: int)
    requires
        0 <= i <= s.len(),
    ensures
        i <= next_break(s, i) <= s.len(),
        next_break(s, i) < s.len() ==> s[next_break(s, i)] == LINE_FEED,
        forall|m: int| i <= m < next_break(s, i) ==> s[m] != LINE_FEED,
    decreases s.len() - i,
{
    if i < s.len() && s[i] != LINE_FEED {
        lemma_next_break_props(s, i + 1);
    }
}

/// The lines of `s` from offset `i` on: each segment runs up to and including
/// the next line feed; a final segment without one runs to the end.
pub open spec fn split_lines_from(s: Seq<u8>, i: int) -> Seq<Seq<u8>>
    decreases s.len() - i when 0 <= i <= s.len() via split_lines_from_decreases
{
    if i >= s.len() {
        Seq::empty()
    } else {
        let j = if next_break(s, i) < s.len() {
            next_break(s, i) + 1
        } else {
            s.len() as int
        };
        seq![s.subrange(i, j)] + split_lines_from(s, j)
    }
}

#[via_fn]
proof fn split_lines_from_decreases(s: Seq<u8>, i: int) {
    if i < s.len() {
        lemma_next_break_props(s, i);
    }
}

/// The lines of `s`.
pub open spec fn split_lines(s: Seq<u8>) -> Seq<Seq<u8>> {
    split_lines_from(s, 0)
}

/// The views of a vector of lines.
pub open spec fn lines_view(v: Seq<Vec<u8>>) -> Seq<Seq<u8>> {
    v.map_values(|l: Vec<u8>| l@)
}

/// Every line of valid UTF-8 text is itself valid UTF-8.
proof fn lemma_split_lines_from_valid(s: Seq<u8>, i: int)
    requires
        valid_utf8(s),
        0 <= i <= s.len(),
        is_char_boundary(s, i),
    ensures
        forall|k: int|
            0 <= k < split_lines_from(s, i).len() ==> valid_utf8(
                #[trigger] split_lines_from(s, i)[k],
            ),
    decreases s.len() - i,
{
    if i < s.len() {
        lemma_next_break_props(s, i);
        let nb = next_break(s, i);
        let j = if nb < s.len() {
            nb + 1
        } else {
            s.len() as int
        };
        if nb < s.len() {
            lemma_boundary_after_ascii(s, nb);
        } else {
            is_char_boundary_start_end_of_seq(s);
        }
        lemma_subrange_valid(s, i, j);
        lemma_split_lines_from_valid(s, j);
        assert forall|k: int| 0 <= k < split_lines_from(s, i).len() implies valid_utf8(
            #[trigger] split_lines_from(s, i)[k],
        ) by {
            if k == 0 {
                assert(split_lines_from(s, i)[0] == s.subrange(i, j));
            } else {
                assert(split_lines_from(s, i)[k] == split_lines_from(s, j)[k - 1]);
            }
        }
    }
}

/// A subrange of valid UTF-8 text between two character boundaries is valid.
proof fn lemma_subrange_valid(s: Seq<u8>, from: int, to: int)
    requires
        valid_utf8(s),
        0 <= from <= to <= s.len(),
        is_char_boundary(s, from),
        is_char_boundary(s, to),
    ensures
        valid_utf8(s.subrange(from, to)),
{
    valid_utf8_split(s, from);
    let suffix = s.subrange(from, s.len() as int);
    let idx = to - from;
    if idx == suffix.len() {
        is_char_boundary_start_end_of_seq(suffix);
        assert(is_char_boundary(suffix, idx));
    } else if idx == 0 {
        is_char_boundary_start_end_of_seq(suffix);
        assert(is_char_boundary(suffix, idx));
    } else {
        is_char_boundary_iff_not_is_continuation_byte(s, to);
        assert(suffix[idx] == s[to]);
        is_char_boundary_iff_not_is_continuation_byte(suffix, idx);
    }
    valid_utf8_split(suffix, idx);
    assert(s.subrange(from, to) =~= suffix.subrange(0, idx));
}

/// How many lines the two files share at the start.
pub open spec fn common_prefix_len(a: Seq<Seq<u8>>, b: Seq<Seq<u8>>) -> int
    decreases a.len(),
{
    if a.len() == 0 || b.len() == 0 {
        0
    } else if a.first() == b.first() {
        1 + common_prefix_len(a.drop_first(), b.drop_first())
    } else {
        0
    }
}

proof fn lemma_common_prefix_props(a: Seq<Seq<u8>>, b: Seq<Seq<u8>>)
    ensures
        ({
            let p = common_prefix_len(a, b);
            &&& 0 <= p <= a.len() && p <= b.len()
            &&& forall|j: int| 0 <= j < p ==> a[j] == b[j]
            &&& (p < a.len() && p < b.len()) ==> a[p] != b[p]
        }),
    decreases a.len(),
{
    if a.len() > 0 && b.len() > 0 && a.first() == b.first() {
        lemma_common_prefix_props(a.drop_first(), b.drop_first());
        let p = common_prefix_len(a, b);
        assert(forall|j: int| 1 <= j < p ==> a[j] == a.drop_first()[j - 1]);
        assert(forall|j: int| 1 <= j < p ==> b[j] == b.drop_first()[j - 1]);
        if p < a.len() && p < b.len() {
            assert(a[p] == a.drop_first()[p - 1]);
            assert(b[p] == b.drop_first()[p - 1]);
        }
    }
}

/// How many lines the two files share at the end.
pub open spec fn common_suffix_len(a: Seq<Seq<u8>>, b: Seq<Seq<u8>>) -> int
    decreases a.len(),
{
    if a.len() == 0 || b.len() == 0 {
        0
    } else if a.last() == b.last() {
        1 + common_suffix_len(a.drop_last(), b.drop_last())
    } else {
        0
    }
}

proof fn lemma_common_suffix_props(a: Seq<Seq<u8>>, b: Seq<Seq<u8>>)
    ensures
        ({
            let q = common_suffix_len(a, b);
            &&& 0 <= q <= a.len() && q <= b.len()
            &&& forall|j: int| 0 <= j < q ==> #[trigger] a[a.len() - 1 - j] == b[b.len() - 1 - j]
            &&& (q < a.len() && q < b.len()) ==> a[a.len() - 1 - q] != b[b.len() - 1 - q]
        }),
    decreases a.len(),
{
    if a.len() > 0 && b.len() > 0 && a.last() == b.last() {
        lemma_common_suffix_props(a.drop_last(), b.drop_last());
        let q = common_suffix_len(a, b);
        let adl = a.drop_last();
        let bdl = b.drop_last();
        assert forall|j: int| 0 <= j < q implies #[trigger] a[a.len() - 1 - j] == b[b.len() - 1
            - j] by {
            if j == 0 {
                assert(a[a.len() - 1] == a.last());
                assert(b[b.len() - 1] == b.last());
            } else {
                assert(adl[adl.len() - 1 - (j - 1)] == bdl[bdl.len() - 1 - (j - 1)]);
                assert(adl[a.len() - 1 - j] == a[a.len() - 1 - j]);
                assert(bdl[b.len() - 1 - j] == b[b.len() - 1 - j]);
            }
        }
        if q < a.len() && q < b.len() {
            assert(adl[adl.len() - 1 - (q - 1)] != bdl[bdl.len() - 1 - (q - 1)]);
            assert(adl[a.len() - 1 - q] == a[a.len() - 1 - q]);
            assert(bdl[b.len() - 1 - q] == b[b.len() - 1 - q]);
        }
    }
}

/// One rendered diff line: the tag byte, the line, and a line feed when the
/// line does not already end with one.
pub open spec fn render_one(tag: u8, line: Seq<u8>) -> Seq<u8> {
    seq![tag] + line + (if line.len() > 0 && line.last() == LINE_FEED {
        Seq::<u8>::empty()
    } else {
        seq![LINE_FEED]
    })
}

/// The given lines rendered one after another under the tag byte.
pub open spec fn render_lines(tag: u8, lines: Seq<Seq<u8>>) -> Seq<u8>
    decreases lines.len(),
{
    if lines.len() == 0 {
        Seq::empty()
    } else {
        render_one(tag, lines.first()) + render_lines(tag, lines.drop_first())
    }
}

proof fn lemma_render_snoc(tag: u8, lines: Seq<Seq<u8>>, x: Seq<u8>)
    ensures
        render_lines(tag, lines.push(x)) == render_lines(tag, lines) + render_one(tag, x),
    decreases lines.len(),
{
    if lines.len() == 0 {
        assert(lines.push(x).first() == x);
        assert(lines.push(x).drop_first() =~= Seq::<Seq<u8>>::empty());
        assert(render_lines(tag, Seq::<Seq<u8>>::empty()) =~= Seq::<u8>::empty());
        assert(render_lines(tag, lines.push(x)) =~= render_one(tag, x));
        assert(render_lines(tag, lines) + render_one(tag, x) =~= render_one(tag, x));
    } else {
        lemma_render_snoc(tag, lines.drop_first(), x);
        assert(lines.push(x).first() == lines.first());
        assert(lines.push(x).drop_first() =~= lines.drop_first().push(x));
        assert(render_one(tag, lines.first()) + (render_lines(tag, lines.drop_first())
            + render_one(tag, x)) =~= (render_one(tag, lines.first()) + render_lines(
            tag,
            lines.drop_first(),
        )) + render_one(tag, x));
    }
}

proof fn lemma_render_valid(tag: u8, lines: Seq<Seq<u8>>)
    requires
        tag < 0x80,
        forall|k: int| 0 <= k < lines.len() ==> valid_utf8(#[trigger] lines[k]),
    ensures
        valid_utf8(render_lines(tag, lines)),
    decreases lines.len(),
{
    if lines.len() == 0 {
        assert(valid_utf8(render_lines(tag, lines)));
    } else {
        assert(forall|k: int|
            0 <= k < lines.drop_first().len() ==> lines.drop_first()[k] == lines[k + 1]);
        lemma_render_valid(tag, lines.drop_first());
        let line = lines.first();
        assert(all_ascii(seq![tag]));
        lemma_ascii_valid_utf8(seq![tag]);
        assert(all_ascii(seq![LINE_FEED]));
        lemma_ascii_valid_utf8(seq![LINE_FEED]);
        valid_utf8_concat(seq![tag], line);
        if !(line.len() > 0 && line.last() == LINE_FEED) {
            valid_utf8_concat(seq![tag] + line, seq![LINE_FEED]);
            assert(render_one(tag, line) =~= (seq![tag] + line) + seq![LINE_FEED]);
        } else {
            assert(render_one(tag, line) =~= seq![tag] + line);
        }
        valid_utf8_concat(render_one(tag, line), render_lines(tag, lines.drop_first()));
    }
}

/// The unified diff from `a` to `b`: headers naming the original and the
/// formatted text, one hunk header, then up to three lines of context around
/// the removed and added middle lines.
pub open spec fn diff_bytes(a: Seq<u8>, b: Seq<u8>) -> Seq<u8> {
    let al = split_lines(a);
    let bl = split_lines(b);
    let p = common_prefix_len(al, bl);
    let q = common_suffix_len(al.skip(p), bl.skip(p));
    let cb = min(3, p);
    let ca = min(3, q);
    let oldc = cb + (al.len() - p - q) + ca;
    let newc = cb + (bl.len() - p - q) + ca;
    let astart = if oldc == 0 {
        p - cb
    } else {
        p - cb + 1
    };
    let bstart = if newc == 0 {
        p - cb
    } else {
        p - cb + 1
    };
    encode_utf8("--- original\n+++ formatted\n@@ -"@) + dec_rep(astart) + encode_utf8(","@)
        + dec_rep(oldc) + encode_utf8(" +"@) + dec_rep(bstart) + encode_utf8(","@) + dec_rep(newc)
        + encode_utf8(" @@\n"@) + render_lines(0x20, al.subrange(p - cb, p)) + render_lines(
        0x2d,
        al.subrange(p, al.len() - q),
    ) + render_lines(0x2b, bl.subrange(p, bl.len() - q)) + render_lines(
        0x20,
        al.subrange(al.len() - q, al.len() - q + ca),
    )
}

/// Split the text into its lines.
fn split_into_lines(s: &Vec<u8>) -> (r: Vec<Vec<u8>>)
    ensures
        lines_view(r@) == split_lines(s@),
{
    let mut r: Vec<Vec<u8>> = Vec::new();
    let mut i: usize = 0;
    assert(lines_view(r@) =~= Seq::<Seq<u8>>::empty());
    assert(lines_view(r@) + split_lines_from(s@, 0) =~= split_lines(s@));
    while i < s.len()
        invariant
            0 <= i <= s@.len(),
            lines_view(r@) + split_lines_from(s@, i as int) == split_lines(s@),
        decreases s@.len() - i,
    {
        proof {
            lemma_next_break_props(s@, i as int);
        }
        let mut k: usize = i;
        while k < s.len() && s[k] != LINE_FEED
            invariant
                i <= k <= s@.len(),
                forall|m: int| i <= m < k ==> s@[m] != LINE_FEED,
            decreases s@.len() - k,
        {
            k = k + 1;
        }
        proof {
            let nb = next_break(s@, i as int);
            if (k as int) < nb {
                assert(s@[k as int] != LINE_FEED);
            }
            if (k as int) > nb {
                assert(s@[nb] != LINE_FEED);
            }
            assert(k as int == nb);
        }
        let j = if k < s.len() {
            k + 1
        } else {
            s.len()
        };
        let mut line: Vec<u8> = Vec::new();
        push_byte_range(&mut line, s, i, j);
        let ghost lv_before = lines_view(r@);
        let ghost sub = s@.subrange(i as int, j as int);
        r.push(line);
        proof {
            assert(lines_view(r@) =~= lv_before.push(sub));
            assert(split_lines_from(s@, i as int) == seq![sub] + split_lines_from(s@, j as int));
            assert(lv_before.push(sub) + split_lines_from(s@, j as int) =~= lv_before + (seq![sub]
                + split_lines_from(s@, j as int)));
        }
        i = j;
    }
    proof {
        assert(split_lines_from(s@, s@.len() as int) =~= Seq::<Seq<u8>>::empty());
        assert(lines_view(r@) =~= split_lines(s@));
    }
    r
}

/// How many lines the two files share at the start.
fn common_prefix(a: &Vec<Vec<u8>>, b: &Vec<Vec<u8>>) -> (p: usize)
    ensures
        p as int == common_prefix_len(lines_view(a@), lines_view(b@)),
        p <= a@.len() && p <= b@.len(),
{
    let ghost av = lines_view(a@);
    let ghost bv = lines_view(b@);
    proof {
        lemma_common_prefix_props(av, bv);
    }
    let ghost cp = common_prefix_len(av, bv);
    let mut i: usize = 0;
    while i < a.len() && i < b.len() && bytes_eq(&a[i], &b[i])
        invariant
            0 <= i <= a@.len() && i <= b@.len(),
            cp == common_prefix_len(av, bv),
            av == lines_view(a@) && bv == lines_view(b@),
            0 <= cp <= av.len() && cp <= bv.len(),
            forall|j: int| 0 <= j < cp ==> av[j] == bv[j],
            (cp < av.len() && cp < bv.len()) ==> av[cp] != bv[cp],
            i as int <= cp,
        decreases a@.len() - i,
    {
        proof {
            assert(av[i as int] == bv[i as int]);
            if cp == i as int {
                assert(av[cp] != bv[cp]);
            }
        }
        i = i + 1;
    }
    proof {
        if (i as int) < cp {
            assert(av[i as int] == bv[i as int]);
        }
    }
    i
}

/// How many lines the two files share at the end, past the common prefix `p`.
fn common_suffix(a: &Vec<Vec<u8>>, b: &Vec<Vec<u8>>, p: usize) -> (q: usize)
    requires
        p <= a@.len(),
        p <= b@.len(),
    ensures
        q as int == common_suffix_len(
            lines_view(a@).skip(p as int),
            lines_view(b@).skip(p as int),
        ),
        q <= a@.len() - p && q <= b@.len() - p,
{
    let ghost av = lines_view(a@).skip(p as int);
    let ghost bv = lines_view(b@).skip(p as int);
    proof {
        lemma_common_suffix_props(av, bv);
    }
    let ghost cq = common_suffix_len(av, bv);
    let la = a.len() - p;
    let lb = b.len() - p;
    let mut i: usize = 0;
    while i < la && i < lb && bytes_eq(&a[a.len() - 1 - i], &b[b.len() - 1 - i])
        invariant
            0 <= i <= la && i <= lb,
            la == a@.len() - p && lb == b@.len() - p,
            p <= a@.len() && p <= b@.len(),
            cq == common_suffix_len(av, bv),
            av == lines_view(a@).skip(p as int) && bv == lines_view(b@).skip(p as int),
            0 <= cq <= av.len() && cq <= bv.len(),
            forall|j: int| 0 <= j < cq ==> #[trigger] av[av.len() - 1 - j] == bv[bv.len() - 1
                - j],
            (cq < av.len() && cq < bv.len()) ==> av[av.len() - 1 - cq] != bv[bv.len() - 1 - cq],
            i as int <= cq,
        decreases la - i,
    {
        proof {
            assert(av[av.len() - 1 - i] == lines_view(a@)[a@.len() - 1 - i]);
            assert(bv[bv.len() - 1 - i] == lines_view(b@)[b@.len() - 1 - i]);
            if cq == i as int {
                assert(av[av.len() - 1 - cq] != bv[bv.len() - 1 - cq]);
            }
        }
        i = i + 1;
    }
    proof {
        if (i as int) < cq {
            assert(av[av.len() - 1 - i] == bv[bv.len() - 1 - i]);
            assert(av[av.len() - 1 - i] == lines_view(a@)[a@.len() - 1 - i]);
            assert(bv[bv.len() - 1 - i] == lines_view(b@)[b@.len() - 1 - i]);
        }
    }
    i
}

/// Append the lines `[from, to)` rendered under the tag byte.
fn render_range(out: &mut Vec<u8>, lines: &Vec<Vec<u8>>, from: usize, to: usize, tag: u8)
    requires
        from <= to <= lines@.len(),
        tag < 0x80,
        valid_utf8(old(out)@),
        forall|k: int| from <= k < to ==> valid_utf8(#[trigger] lines_view(lines@)[k]),
    ensures
        final(out)@ == old(out)@ + render_lines(tag, lines_view(lines@).subrange(
            from as int,
            to as int,
        )),
        valid_utf8(final(out)@),
{
    let mut i: usize = from;
    assert(out@ =~= old(out)@ + render_lines(
        tag,
        lines_view(lines@).subrange(from as int, from as int),
    ));
    while i < to
        invariant
            from <= i <= to <= lines@.len(),
            tag < 0x80,
            valid_utf8(out@),
            forall|k: int| from <= k < to ==> valid_utf8(#[trigger] lines_view(lines@)[k]),
            out@ == old(out)@ + render_lines(tag, lines_view(lines@).subrange(
                from as int,
                i as int,
            )),
        decreases to - i,
    {
        let ghost before = out@;
        let ghost line_v = lines_view(lines@)[i as int];
        out.push(tag);
        push_bytes(out, &lines[i]);
        let line_len = lines[i].len();
        let ends_with_feed = line_len > 0 && lines[i][line_len - 1] == LINE_FEED;
        if !ends_with_feed {
            out.push(LINE_FEED);
        }
        proof {
            assert(out@ =~= before + render_one(tag, line_v));
            assert(all_ascii(render_one(tag, line_v).subrange(0, 1)));
            lemma_ascii_valid_utf8(seq![tag]);
            lemma_ascii_valid_utf8(seq![LINE_FEED]);
            valid_utf8_concat(seq![tag], line_v);
            if !(line_v.len() > 0 && line_v.last() == LINE_FEED) {
                valid_utf8_concat(seq![tag] + line_v, seq![LINE_FEED]);
                assert(render_one(tag, line_v) =~= (seq![tag] + line_v) + seq![LINE_FEED]);
            } else {
                assert(render_one(tag, line_v) =~= seq![tag] + line_v);
            }
            valid_utf8_concat(before, render_one(tag, line_v));
            lemma_render_snoc(
                tag,
                lines_view(lines@).subrange(from as int, i as int),
                line_v,
            );
            assert(lines_view(lines@).subrange(from as int, i + 1) =~= lines_view(
                lines@,
            ).subrange(from as int, i as int).push(line_v));
            assert(before + render_one(tag, line_v) =~= old(out)@ + render_lines(
                tag,
                lines_view(lines@).subrange(from as int, i + 1),
            ));
        }
        i = i + 1;
    }
}

/// The unified diff from `a` to `b` as text, with headers `original` and
/// `formatted` and up to three lines of context around the change.
#[verifier::rlimit(100)]
#[verifier::spinoff_prover]
pub fn unified_diff(a: &Vec<u8>, b: &Vec<u8>) -> (r: String)
    requires
        valid_utf8(a@),
        valid_utf8(b@),
    ensures
        encode_utf8(r@) == diff_bytes(a@, b@),
{
    proof {
        is_char_boundary_start_end_of_seq(a@);
        is_char_boundary_start_end_of_seq(b@);
        lemma_split_lines_from_valid(a@, 0);
        lemma_split_lines_from_valid(b@, 0);
    }
    let al = split_into_lines(a);
    let bl = split_into_lines(b);
    let p = common_prefix(&al, &bl);
    let q = common_suffix(&al, &bl, p);
    let cb = if p < 3 {
        p
    } else {
        3
    };
    let ca = if q < 3 {
        q
    } else {
        3
    };
    let oldc = cb + (al.len() - p - q) + ca;
    let newc = cb + (bl.len() - p - q) + ca;
    let astart = if oldc == 0 {
        p - cb
    } else {
        p - cb + 1
    };
    let bstart = if newc == 0 {
        p - cb
    } else {
        p - cb + 1
    };
    let mut out: Vec<u8> = Vec::new();
    let head = "--- original\n+++ formatted\n@@ -".as_bytes_vec();
    let comma = ",".as_bytes_vec();
    let plus = " +".as_bytes_vec();
    let close = " @@\n".as_bytes_vec();
    proof {
        encode_utf8_valid_utf8("--- original\n+++ formatted\n@@ -"@);
        encode_utf8_valid_utf8(","@);
        encode_utf8_valid_utf8(" +"@);
        encode_utf8_valid_utf8(" @@\n"@);
        lemma_dec_rep_ascii(astart as int);
        lemma_dec_rep_ascii(oldc as int);
        lemma_dec_rep_ascii(bstart as int);
        lemma_dec_rep_ascii(newc as int);
        lemma_ascii_valid_utf8(dec_rep(astart as int));
        lemma_ascii_valid_utf8(dec_rep(oldc as int));
        lemma_ascii_valid_utf8(dec_rep(bstart as int));
        lemma_ascii_valid_utf8(dec_rep(newc as int));
    }
    push_bytes(&mut out, &head);
    proof {
        valid_utf8_concat(Seq::<u8>::empty(), head@);
        assert(Seq::<u8>::empty() + head@ =~= head@);
    }
    push_dec_digits(astart, &mut out);
    proof {
        valid_utf8_concat(head@, dec_rep(astart as int));
    }
    push_bytes(&mut out, &comma);
    let ghost acc1 = out@;
    proof {
        valid_utf8_concat(head@ + dec_rep(astart as int), comma@);
        assert(acc1 =~= (head@ + dec_rep(astart as int)) + comma@);
    }
    push_dec_digits(oldc, &mut out);
    proof {
        valid_utf8_concat(acc1, dec_rep(oldc as int));
    }
    push_bytes(&mut out, &plus);
    let ghost acc2 = out@;
    proof {
        valid_utf8_concat(acc1 + dec_rep(oldc as int), plus@);
        assert(acc2 =~= (acc1 + dec_rep(oldc as int)) + plus@);
    }
    push_dec_digits(bstart, &mut out);
    proof {
        valid_utf8_concat(acc2, dec_rep(bstart as int));
    }
    push_bytes(&mut out, &comma);
    let ghost acc3 = out@;
    proof {
        valid_utf8_concat(acc2 + dec_rep(bstart as int), comma@);
        assert(acc3 =~= (acc2 + dec_rep(bstart as int)) + comma@);
    }
    push_dec_digits(newc, &mut out);
    proof {
        valid_utf8_concat(acc3, dec_rep(newc as int));
    }
    push_bytes(&mut out, &close);
    let ghost acc4 = out@;
    proof {
        valid_utf8_concat(acc3 + dec_rep(newc as int), close@);
        assert(acc4 =~= (acc3 + dec_rep(newc as int)) + close@);
    }
    render_range(&mut out, &al, p - cb, p, 0x20);
    render_range(&mut out, &al, p, al.len() - q, 0x2d);
    render_range(&mut out, &bl, p, bl.len() - q, 0x2b);
    render_range(&mut out, &al, al.len() - q, al.len() - q + ca, 0x20);
    proof {
        assert(out@ =~= diff_bytes(a@, b@));
    }
    bytes_to_string(out)
}

} // verus!
