use crate::edit::{edit_views, Edit, EditView};
use crate::text::{lemma_boundary_in_prefix, splice_bytes};
use vstd::prelude::*;
use vstd::utf8::{is_char_boundary, valid_utf8, valid_utf8_concat, valid_utf8_split};

verus! {

/// Every edit lies within `src`, starts no later than it ends, cuts `src` at
/// character boundaries, and carries valid UTF-8 replacement bytes.
pub open spec fn edits_wf_for(edits: Seq<EditView>, src: Seq<u8>) -> bool {
    forall|i: int| 0 <= i < edits.len() ==> {
        &&& 0 <= (#[trigger] edits[i]).start <= edits[i].end <= src.len()
        &&& is_char_boundary(src, edits[i].start)
        &&& is_char_boundary(src, edits[i].end)
        &&& valid_utf8(edits[i].bytes)
    }
}

/// Every edit's range lies within a source of `len` bytes.
pub open spec fn edits_ranges_ok(edits: Seq<EditView>, len: int) -> bool {
    forall|i: int| 0 <= i < edits.len() ==> 0 <= (#[trigger] edits[i]).start <= edits[i].end
        <= len
}

/// The edits are ordered by ascending start offset.
pub open spec fn edits_sorted(edits: Seq<EditView>) -> bool {
    forall|i: int, j: int| 0 <= i < j < edits.len() ==> edits[i].start <= edits[j].start
}

/// No edit reaches past the start of the next one.
pub open spec fn edits_nonoverlapping(edits: Seq<EditView>) -> bool {
    forall|i: int| 0 <= i && i + 1 < edits.len() ==> (#[trigger] edits[i]).end <= edits[i
        + 1].start
}

/// Insert `e` after every element whose start does not exceed `e.start`,
/// keeping the relative order of equal starts stable.
pub open spec fn insert_by_start(s: Seq<EditView>, e: EditView) -> Seq<EditView>
    decreases s.len(),
{
    if s.len() == 0 {
        seq![e]
    } else if e.start < s.last().start {
        insert_by_start(s.drop_last(), e).push(s.last())
    } else {
        s.push(e)
    }
}

/// Stable sort of the edits by ascending start offset.
pub open spec fn sort_by_start(s: Seq<EditView>) -> Seq<EditView>
    decreases s.len(),
{
    if s.len() == 0 {
        Seq::empty()
    } else {
        insert_by_start(sort_by_start(s.drop_last()), s.last())
    }
}

/// In a sorted, adjacently non-overlapping list of well-formed ranges, every
/// edit ends no later than any later edit starts.
pub proof fn lemma_edits_pairwise_disjoint(edits: Seq<EditView>, len: int)
    requires
        edits_ranges_ok(edits, len),
        edits_sorted(edits),
        edits_nonoverlapping(edits),
    ensures
        forall|i: int, j: int|
            0 <= i < j < edits.len() ==> (#[trigger] edits[i]).end <= (#[trigger] edits[j]).start,
{
    assert forall|i: int, j: int| 0 <= i < j < edits.len() implies (#[trigger] edits[i]).end <= (
    #[trigger] edits[j]).start by {
        lemma_edits_disjoint_chain(edits, len, i, j);
    }
}

proof fn lemma_edits_disjoint_chain(edits: Seq<EditView>, len: int, i: int, j: int)
    requires
        edits_ranges_ok(edits, len),
        edits_sorted(edits),
        edits_nonoverlapping(edits),
        0 <= i < j < edits.len(),
    ensures
        edits[i].end <= edits[j].start,
    decreases j - i,
{
    if j == i + 1 {
    } else {
        lemma_edits_disjoint_chain(edits, len, i, j - 1);
    }
}

/// The result of replacing each edit's byte range of `s` with its bytes, all
/// against the same snapshot `s`, as one simultaneous rewrite.
pub open spec fn apply_edits_atomic(s: Seq<u8>, edits: Seq<EditView>) -> Seq<u8>
    recommends
        edits_ranges_ok(edits, s.len() as int),
        edits_sorted(edits),
        edits_nonoverlapping(edits),
    decreases edits.len(),
{
    if edits.len() == 0 {
        s
    } else {
        let e = edits.last();
        apply_edits_atomic(s.subrange(0, e.start), edits.drop_last()) + e.bytes + s.subrange(
            e.end,
            s.len() as int,
        )
    }
}

/// The result of splicing the edits into `s` one at a time, in descending
/// order of start offset.
pub open spec fn apply_edits_desc(s: Seq<u8>, edits: Seq<EditView>) -> Seq<u8>
    decreases edits.len(),
{
    if edits.len() == 0 {
        s
    } else {
        let e = edits.last();
        apply_edits_desc(splice_bytes(s, e.start, e.end, e.bytes), edits.drop_last())
    }
}

/// Peeling the first (lowest-offset, last-applied) edit off a descending
/// application: the remaining edits are applied first, the first edit last.
pub proof fn lemma_apply_desc_first(s: Seq<u8>, edits: Seq<EditView>)
    requires
        edits.len() > 0,
    ensures
        apply_edits_desc(s, edits) == splice_bytes(
            apply_edits_desc(s, edits.drop_first()),
            edits.first().start,
            edits.first().end,
            edits.first().bytes,
        ),
    decreases edits.len(),
{
    if edits.len() == 1 {
        let e = edits.last();
        assert(edits.first() == e);
        assert(edits.drop_last() =~= edits.drop_first());
        assert(edits.drop_last().len() == 0);
        assert(apply_edits_desc(s, edits) == apply_edits_desc(
            splice_bytes(s, e.start, e.end, e.bytes),
            edits.drop_last(),
        ));
        assert(apply_edits_desc(splice_bytes(s, e.start, e.end, e.bytes), edits.drop_last())
            == splice_bytes(s, e.start, e.end, e.bytes));
        assert(apply_edits_desc(s, edits.drop_first()) == s);
    } else {
        let e = edits.last();
        let f = edits.first();
        let s1 = splice_bytes(s, e.start, e.end, e.bytes);
        lemma_apply_desc_first(s1, edits.drop_last());
        assert(edits.drop_last().first() == f);
        assert(edits.drop_last().drop_first() =~= edits.drop_first().drop_last());
        assert(edits.drop_first().last() == e);
        assert(apply_edits_desc(s, edits) == apply_edits_desc(s1, edits.drop_last()));
        assert(apply_edits_desc(s1, edits.drop_last()) == splice_bytes(
            apply_edits_desc(s1, edits.drop_first().drop_last()),
            f.start,
            f.end,
            f.bytes,
        ));
        assert(apply_edits_desc(s, edits.drop_first()) == apply_edits_desc(
            s1,
            edits.drop_first().drop_last(),
        ));
    }
}

/// Splicing within the prefix leaves an appended tail untouched.
proof fn lemma_apply_desc_split(prefix: Seq<u8>, tail: Seq<u8>, edits: Seq<EditView>)
    requires
        edits_ranges_ok(edits, prefix.len() as int),
        edits_sorted(edits),
        edits_nonoverlapping(edits),
    ensures
        apply_edits_desc(prefix + tail, edits) == apply_edits_desc(prefix, edits) + tail,
    decreases edits.len(),
{
    if edits.len() == 0 {
    } else {
        let e = edits.last();
        let rest = edits.drop_last();
        let s1 = splice_bytes(prefix + tail, e.start, e.end, e.bytes);
        let p1 = splice_bytes(prefix, e.start, e.end, e.bytes);
        assert(s1 =~= p1 + tail);
        lemma_suffix_facts(edits, prefix.len() as int);
        assert(p1.len() >= e.start) by {
            assert(p1.len() == e.start + e.bytes.len() + (prefix.len() - e.end));
        }
        assert(edits_ranges_ok(rest, p1.len() as int)) by {
            assert(forall|i: int| 0 <= i < rest.len() ==> rest[i] == edits[i]);
        }
        lemma_apply_desc_split(p1, tail, rest);
        assert(apply_edits_desc(prefix + tail, edits) == apply_edits_desc(s1, rest));
        assert(apply_edits_desc(prefix, edits) == apply_edits_desc(p1, rest));
    }
}

proof fn lemma_suffix_facts(edits: Seq<EditView>, len: int)
    requires
        edits_ranges_ok(edits, len),
        edits_sorted(edits),
        edits_nonoverlapping(edits),
        edits.len() > 0,
    ensures
        edits_ranges_ok(edits.drop_last(), edits.last().start),
        edits_sorted(edits.drop_last()),
        edits_nonoverlapping(edits.drop_last()),
{
    let rest = edits.drop_last();
    lemma_edits_pairwise_disjoint(edits, len);
    assert(forall|i: int| 0 <= i < rest.len() ==> rest[i] == edits[i]);
}

/// Applying a sorted, non-overlapping edit set in descending start order
/// yields the same text as one simultaneous rewrite of the snapshot.
pub proof fn lemma_apply_desc_is_atomic(s: Seq<u8>, edits: Seq<EditView>)
    requires
        edits_ranges_ok(edits, s.len() as int),
        edits_sorted(edits),
        edits_nonoverlapping(edits),
    ensures
        apply_edits_desc(s, edits) == apply_edits_atomic(s, edits),
    decreases edits.len(),
{
    if edits.len() > 0 {
        let e = edits.last();
        let rest = edits.drop_last();
        let prefix = s.subrange(0, e.start);
        let tail = e.bytes + s.subrange(e.end, s.len() as int);
        lemma_suffix_facts(edits, s.len() as int);
        assert(splice_bytes(s, e.start, e.end, e.bytes) =~= prefix + tail);
        lemma_apply_desc_split(prefix, tail, rest);
        lemma_apply_desc_is_atomic(prefix, rest);
        assert(apply_edits_atomic(prefix, rest) + tail =~= apply_edits_atomic(prefix, rest)
            + e.bytes + s.subrange(e.end, s.len() as int));
    }
}

/// A simultaneous rewrite of a valid UTF-8 snapshot at character boundaries,
/// with valid UTF-8 replacements, is itself valid UTF-8.
pub proof fn lemma_atomic_valid(s: Seq<u8>, edits: Seq<EditView>)
    requires
        valid_utf8(s),
        edits_wf_for(edits, s),
        edits_sorted(edits),
        edits_nonoverlapping(edits),
    ensures
        valid_utf8(apply_edits_atomic(s, edits)),
    decreases edits.len(),
{
    if edits.len() > 0 {
        let e = edits.last();
        let rest = edits.drop_last();
        let prefix = s.subrange(0, e.start);
        lemma_suffix_facts(edits, s.len() as int);
        lemma_edits_pairwise_disjoint(edits, s.len() as int);
        valid_utf8_split(s, e.start);
        valid_utf8_split(s, e.end);
        assert(edits_wf_for(rest, prefix)) by {
            assert forall|i: int| 0 <= i < rest.len() implies {
                &&& 0 <= (#[trigger] rest[i]).start <= rest[i].end <= prefix.len()
                &&& is_char_boundary(prefix, rest[i].start)
                &&& is_char_boundary(prefix, rest[i].end)
                &&& valid_utf8(rest[i].bytes)
            } by {
                assert(rest[i] == edits[i]);
                assert(edits[i].end <= e.start);
                lemma_boundary_in_prefix(s, e.start, edits[i].start);
                lemma_boundary_in_prefix(s, e.start, edits[i].end);
            }
        }
        lemma_atomic_valid(prefix, rest);
        valid_utf8_concat(apply_edits_atomic(prefix, rest), e.bytes);
        valid_utf8_concat(
            apply_edits_atomic(prefix, rest) + e.bytes,
            s.subrange(e.end, s.len() as int),
        );
    }
}

/// A simultaneous rewrite whose edits all start at or after `k` keeps the
/// first `k` bytes of the snapshot in place.
pub proof fn lemma_atomic_prefix(s: Seq<u8>, edits: Seq<EditView>, k: int)
    requires
        edits_ranges_ok(edits, s.len() as int),
        edits_sorted(edits),
        edits_nonoverlapping(edits),
        0 <= k <= s.len(),
        forall|i: int| 0 <= i < edits.len() ==> (#[trigger] edits[i]).start >= k,
    ensures
        apply_edits_atomic(s, edits).len() >= k,
        apply_edits_atomic(s, edits).subrange(0, k) == s.subrange(0, k),
    decreases edits.len(),
{
    if edits.len() == 0 {
        assert(apply_edits_atomic(s, edits).subrange(0, k) =~= s.subrange(0, k));
    } else {
        let e = edits.last();
        let rest = edits.drop_last();
        let prefix = s.subrange(0, e.start);
        lemma_suffix_facts(edits, s.len() as int);
        assert(forall|i: int| 0 <= i < rest.len() ==> (#[trigger] rest[i]).start >= k);
        lemma_atomic_prefix(prefix, rest, k);
        let inner = apply_edits_atomic(prefix, rest);
        assert(apply_edits_atomic(s, edits).subrange(0, k) =~= inner.subrange(0, k));
        assert(prefix.subrange(0, k) =~= s.subrange(0, k));
    }
}

/// Sort the edits by ascending start offset, stably.
fn sort_edits(edits: Vec<Edit>) -> (r: Vec<Edit>)
    ensures
        edit_views(r@) == sort_by_start(edit_views(edits@)),
        edits_sorted(edit_views(r@)),
{
    let ghost orig = edits@;
    let mut rest = edits;
    let mut r: Vec<Edit> = Vec::new();
    let ghost mut idx: int = 0;
    assert(edit_views(r@) =~= sort_by_start(edit_views(orig.take(0))));
    assert(rest@ =~= orig.skip(0));
    while rest.len() > 0
        invariant
            0 <= idx <= orig.len(),
            idx + rest@.len() == orig.len(),
            rest@ == orig.skip(idx),
            edit_views(r@) == sort_by_start(edit_views(orig.take(idx))),
            edits_sorted(edit_views(r@)),
        decreases rest@.len(),
    {
        let e = rest.remove(0);
        proof {
            assert(orig.skip(idx)[0] == orig[idx]);
            assert(orig.skip(idx).remove(0) =~= orig.skip(idx + 1));
        }
        let mut pos: usize = r.len();
        while pos > 0 && e.range.0 < r[pos - 1].range.0
            invariant
                0 <= pos <= r@.len(),
                forall|j: int| pos <= j < r@.len() ==> e@.start < edit_views(r@)[j].start,
            decreases pos,
        {
            pos = pos - 1;
        }
        proof {
            lemma_insert_by_start_at(edit_views(r@), e@, pos as int);
        }
        let ghost r_before = r@;
        r.insert(pos, e);
        proof {
            assert(r@ =~= r_before.subrange(0, pos as int) + seq![e] + r_before.subrange(
                pos as int,
                r_before.len() as int,
            ));
            assert(edit_views(r@) =~= edit_views(r_before).subrange(0, pos as int) + seq![e@]
                + edit_views(r_before).subrange(pos as int, r_before.len() as int));
            assert(orig.take(idx + 1).drop_last() =~= orig.take(idx));
            assert(orig.take(idx + 1).last() == orig[idx]);
            assert(edit_views(orig.take(idx + 1)).drop_last() =~= edit_views(orig.take(idx)));
            assert(edit_views(orig.take(idx + 1)).last() == orig[idx]@);
            assert(edit_views(r@) =~= sort_by_start(edit_views(orig.take(idx + 1))));
        }
        proof {
            idx = idx + 1;
        }
    }
    proof {
        assert(orig.take(orig.len() as int) =~= orig);
    }
    r
}

proof fn lemma_insert_by_start_at(s: Seq<EditView>, e: EditView, pos: int)
    requires
        edits_sorted(s),
        0 <= pos <= s.len(),
        forall|j: int| pos <= j < s.len() ==> e.start < s[j].start,
        pos > 0 ==> s[pos - 1].start <= e.start,
    ensures
        insert_by_start(s, e) == s.subrange(0, pos) + seq![e] + s.subrange(pos, s.len() as int),
        edits_sorted(s.subrange(0, pos) + seq![e] + s.subrange(pos, s.len() as int)),
    decreases s.len(),
{
    let result = s.subrange(0, pos) + seq![e] + s.subrange(pos, s.len() as int);
    if s.len() == 0 {
        assert(insert_by_start(s, e) =~= result);
    } else if pos == s.len() {
        assert(insert_by_start(s, e) =~= result);
    } else {
        assert(e.start < s.last().start);
        let inner = s.drop_last();
        assert(edits_sorted(inner) && (pos > 0 ==> inner[pos - 1].start <= e.start));
        lemma_insert_by_start_at(inner, e, pos);
        assert(insert_by_start(s, e) =~= (inner.subrange(0, pos) + seq![e] + inner.subrange(
            pos,
            inner.len() as int,
        )).push(s.last()));
        assert((inner.subrange(0, pos) + seq![e] + inner.subrange(pos, inner.len() as int)).push(
            s.last(),
        ) =~= result);
    }
    assert(edits_sorted(result)) by {
        assert(forall|j: int| 0 <= j < pos ==> result[j] == s[j]);
        assert(result[pos] == e);
        assert(forall|j: int| pos < j < result.len() ==> result[j] == s[j - 1]);
    }
}

/// Find two adjacent edits whose ranges overlap, if any.
fn find_conflict(sorted: &Vec<Edit>) -> (r: Option<((usize, usize), (usize, usize))>)
    ensures
        match r {
            None => edits_nonoverlapping(edit_views(sorted@)),
            Some((a, b)) => exists|i: int|
                0 <= i && i + 1 < sorted@.len() && (#[trigger] sorted@[i]).range == a && sorted@[i
                    + 1].range == b && sorted@[i]@.end > sorted@[i + 1]@.start,
        },
{
    let mut i: usize = 0;
    if sorted.len() == 0 {
        return None;
    }
    while i < sorted.len() - 1
        invariant
            sorted@.len() > 0,
            0 <= i < sorted@.len(),
            forall|j: int| 0 <= j < i ==> (#[trigger] edit_views(sorted@)[j]).end <= edit_views(
                sorted@,
            )[j + 1].start,
        decreases sorted@.len() - i,
    {
        if sorted[i].range.1 > sorted[i + 1].range.0 {
            return Some((sorted[i].range, sorted[i + 1].range));
        }
        i = i + 1;
    }
    None
}

/// Inserting a well-formed edit into a well-formed list keeps it well formed.
proof fn lemma_insert_preserves_wf(s: Seq<EditView>, e: EditView, src: Seq<u8>)
    requires
        edits_wf_for(s, src),
        edits_wf_for(seq![e], src),
    ensures
        edits_wf_for(insert_by_start(s, e), src),
    decreases s.len(),
{
    if s.len() == 0 {
        assert(insert_by_start(s, e) =~= seq![e]);
        assert(edits_wf_for(seq![e], src));
    } else if e.start < s.last().start {
        assert(edits_wf_for(s.drop_last(), src)) by {
            assert(forall|i: int| 0 <= i < s.len() - 1 ==> s.drop_last()[i] == s[i]);
        }
        lemma_insert_preserves_wf(s.drop_last(), e, src);
        let inner = insert_by_start(s.drop_last(), e);
        let pushed = inner.push(s.last());
        assert forall|i: int| 0 <= i < pushed.len() implies {
            &&& 0 <= (#[trigger] pushed[i]).start <= pushed[i].end <= src.len()
            &&& is_char_boundary(src, pushed[i].start)
            &&& is_char_boundary(src, pushed[i].end)
            &&& valid_utf8(pushed[i].bytes)
        } by {
            if i < inner.len() {
                assert(pushed[i] == inner[i]);
            } else {
                assert(pushed[i] == s.last());
            }
        }
    } else {
        assert(seq![e][0] == e);
        assert forall|i: int| 0 <= i < s.push(e).len() implies {
            &&& 0 <= (#[trigger] s.push(e)[i]).start <= s.push(e)[i].end <= src.len()
            &&& is_char_boundary(src, s.push(e)[i].start)
            &&& is_char_boundary(src, s.push(e)[i].end)
            &&& valid_utf8(s.push(e)[i].bytes)
        } by {
            if i < s.len() {
                assert(s.push(e)[i] == s[i]);
            } else {
                assert(s.push(e)[i] == e);
            }
        }
    }
}

/// Sorting a well-formed edit list keeps it well formed.
pub proof fn lemma_sort_preserves_wf(s: Seq<EditView>, src: Seq<u8>)
    requires
        edits_wf_for(s, src),
    ensures
        edits_wf_for(sort_by_start(s), src),
    decreases s.len(),
{
    if s.len() > 0 {
        assert(edits_wf_for(s.drop_last(), src)) by {
            assert(forall|i: int| 0 <= i < s.len() - 1 ==> s.drop_last()[i] == s[i]);
        }
        lemma_sort_preserves_wf(s.drop_last(), src);
        assert(edits_wf_for(seq![s.last()], src));
        lemma_insert_preserves_wf(sort_by_start(s.drop_last()), s.last(), src);
    }
}

/// The stable sort keeps every edit: its result has the input's length.
pub proof fn lemma_sort_len(s: Seq<EditView>)
    ensures
        sort_by_start(s).len() == s.len(),
    decreases s.len(),
{
    if s.len() > 0 {
        lemma_sort_len(s.drop_last());
        lemma_insert_len(sort_by_start(s.drop_last()), s.last());
    }
}

proof fn lemma_insert_len(s: Seq<EditView>, e: EditView)
    ensures
        insert_by_start(s, e).len() == s.len() + 1,
    decreases s.len(),
{
    if s.len() > 0 && e.start < s.last().start {
        lemma_insert_len(s.drop_last(), e);
    }
}

/// Two adjacent edits of `sv` at positions `i` and `i + 1` cover the ranges
/// `a` and `b` and overlap.
pub open spec fn has_conflict_at(
    sv: Seq<EditView>,
    i: int,
    a: (usize, usize),
    b: (usize, usize),
) -> bool {
    &&& 0 <= i
    &&& i + 1 < sv.len()
    &&& sv[i].start == a.0 as int
    &&& sv[i].end == a.1 as int
    &&& sv[i + 1].start == b.0 as int
    &&& sv[i + 1].end == b.1 as int
    &&& sv[i].end > sv[i + 1].start
}

/// Normalize the edit set of one pass: sort it stably by start offset and
/// reject it whole when two edits overlap. On success the sorted edits come
/// back; on conflict the two offending ranges come back and no edit from the
/// set may be applied.
#[verifier::rlimit(60)]
#[verifier::spinoff_prover]
pub fn normalize_edits(edits: Vec<Edit>) -> (r: Result<
    Vec<Edit>,
    ((usize, usize), (usize, usize)),
>)
    ensures
        r matches Ok(sorted) ==> {
            &&& edit_views(sorted@) == sort_by_start(edit_views(edits@))
            &&& edits_sorted(edit_views(sorted@))
            &&& edits_nonoverlapping(edit_views(sorted@))
        },
        r matches Err(ranges) ==> {
            &&& !edits_nonoverlapping(sort_by_start(edit_views(edits@)))
            &&& exists|i: int|
                has_conflict_at(sort_by_start(edit_views(edits@)), i, ranges.0, ranges.1)
        },
{
    let ghost orig_views = edit_views(edits@);
    let sorted = sort_edits(edits);
    let conflict = find_conflict(&sorted);
    let r: Result<Vec<Edit>, ((usize, usize), (usize, usize))> = match conflict {
        None => Ok(sorted),
        Some((a, b)) => Err((a, b)),
    };
    proof {
        if r is Err {
            let ranges = r->Err_0;
            let sv = sort_by_start(orig_views);
            assert(sv == edit_views(sorted@));
            let i = choose|i: int|
                0 <= i && i + 1 < sorted@.len() && (#[trigger] sorted@[i]).range == ranges.0
                    && sorted@[i + 1].range == ranges.1 && sorted@[i]@.end > sorted@[i
                    + 1]@.start;
            assert(sv[i] == sorted@[i]@);
            assert(sv[i + 1] == sorted@[i + 1]@);
            assert(has_conflict_at(sv, i, ranges.0, ranges.1));
            assert(!edits_nonoverlapping(sv)) by {
                assert(!(sv[i].end <= sv[i + 1].start));
            }
        }
    }
    r
}

} // verus!
