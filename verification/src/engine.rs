use crate::context::FormatterContext;
use crate::diff::{diff_bytes, unified_diff};
use crate::edit::{edit_views, Edit};
use crate::language_provider::LanguageProvider;
use crate::normalize::{
    apply_edits_atomic, apply_edits_desc, edits_nonoverlapping, edits_ranges_ok, edits_sorted,
    edits_wf_for, has_conflict_at, lemma_apply_desc_first, lemma_apply_desc_is_atomic,
    lemma_atomic_prefix, lemma_atomic_valid, lemma_edits_pairwise_disjoint, lemma_sort_len,
    lemma_sort_preserves_wf, normalize_edits, sort_by_start,
};
use crate::outcome::{Diagnostic, DiagnosticSeverity, FileFormatOutcome};
use crate::parse_state::ParseState;
use crate::parser_core::Parser;
use crate::pipeline_core::Pipeline;
use crate::text::{
    bytes_eq, bytes_to_string, dec_rep, lemma_ascii_valid_utf8, lemma_dec_rep_ascii,
    lemma_encode_utf8_injective, push_bytes, push_dec_digits, splice_bytes,
};
use vstd::prelude::*;
use vstd::string::StrSliceExecFns;
use vstd::utf8::{encode_utf8, encode_utf8_valid_utf8, valid_utf8, valid_utf8_concat};

verus! {

/// The formatting engine: it owns a parser bound to one language and an
/// ordered pipeline of passes, and drives each input text through the
/// pipeline.
#[verifier::reject_recursive_types(Config)]
pub struct Engine<Language: LanguageProvider, Config> {
    pub pipeline: Pipeline<Config>,
    pub parser: Parser<Language>,
}

/// The label under which the engine attributes diagnostics of the pass at
/// position `i`.
pub open spec fn pass_label_bytes(i: int) -> Seq<u8> {
    encode_utf8("pass#"@) + dec_rep(i)
}

fn pass_label(i: usize) -> (r: String)
    ensures
        encode_utf8(r@) == pass_label_bytes(i as int),
{
    let mut v = "pass#".as_bytes_vec();
    push_dec_digits(i, &mut v);
    proof {
        encode_utf8_valid_utf8("pass#"@);
        lemma_dec_rep_ascii(i as int);
        lemma_ascii_valid_utf8(dec_rep(i as int));
        valid_utf8_concat(encode_utf8("pass#"@), dec_rep(i as int));
    }
    bytes_to_string(v)
}

/// The message of the diagnostic reporting two conflicting edit ranges.
pub open spec fn conflict_message_bytes(a: (usize, usize), b: (usize, usize)) -> Seq<u8> {
    encode_utf8("conflicting edits at bytes "@) + dec_rep(a.0 as int) + encode_utf8(".."@)
        + dec_rep(a.1 as int) + encode_utf8(" and "@) + dec_rep(b.0 as int) + encode_utf8(".."@)
        + dec_rep(b.1 as int)
}

fn conflict_message(a: (usize, usize), b: (usize, usize)) -> (r: String)
    ensures
        encode_utf8(r@) == conflict_message_bytes(a, b),
{
    let mut v = "conflicting edits at bytes ".as_bytes_vec();
    push_dec_digits(a.0, &mut v);
    let dots = "..".as_bytes_vec();
    let and_sep = " and ".as_bytes_vec();
    push_bytes(&mut v, &dots);
    push_dec_digits(a.1, &mut v);
    push_bytes(&mut v, &and_sep);
    push_dec_digits(b.0, &mut v);
    push_bytes(&mut v, &dots);
    push_dec_digits(b.1, &mut v);
    proof {
        encode_utf8_valid_utf8("conflicting edits at bytes "@);
        encode_utf8_valid_utf8(".."@);
        encode_utf8_valid_utf8(" and "@);
        lemma_dec_rep_ascii(a.0 as int);
        lemma_dec_rep_ascii(a.1 as int);
        lemma_dec_rep_ascii(b.0 as int);
        lemma_dec_rep_ascii(b.1 as int);
        lemma_ascii_valid_utf8(dec_rep(a.0 as int));
        lemma_ascii_valid_utf8(dec_rep(a.1 as int));
        lemma_ascii_valid_utf8(dec_rep(b.0 as int));
        lemma_ascii_valid_utf8(dec_rep(b.1 as int));
        lemma_valid_concat_chain(a, b);
        assert(v@ =~= conflict_message_bytes(a, b));
    }
    bytes_to_string(v)
}

proof fn lemma_valid_concat_chain(a: (usize, usize), b: (usize, usize))
    requires
        valid_utf8(encode_utf8("conflicting edits at bytes "@)),
        valid_utf8(encode_utf8(".."@)),
        valid_utf8(encode_utf8(" and "@)),
        valid_utf8(dec_rep(a.0 as int)),
        valid_utf8(dec_rep(a.1 as int)),
        valid_utf8(dec_rep(b.0 as int)),
        valid_utf8(dec_rep(b.1 as int)),
    ensures
        valid_utf8(conflict_message_bytes(a, b)),
{
    let p1 = encode_utf8("conflicting edits at bytes "@);
    let p2 = dec_rep(a.0 as int);
    let p3 = encode_utf8(".."@);
    let p4 = dec_rep(a.1 as int);
    let p5 = encode_utf8(" and "@);
    let p6 = dec_rep(b.0 as int);
    let p7 = dec_rep(b.1 as int);
    valid_utf8_concat(p1, p2);
    valid_utf8_concat(p1 + p2, p3);
    valid_utf8_concat(p1 + p2 + p3, p4);
    valid_utf8_concat(p1 + p2 + p3 + p4, p5);
    valid_utf8_concat(p1 + p2 + p3 + p4 + p5, p6);
    valid_utf8_concat(p1 + p2 + p3 + p4 + p5 + p6, p3);
    valid_utf8_concat(p1 + p2 + p3 + p4 + p5 + p6 + p3, p7);
}

fn clone_opt_string(o: &Option<String>) -> (r: Option<String>)
    ensures
        r == *o,
{
    match o {
        Some(s) => Some(s.clone()),
        None => None,
    }
}

/// Normalize one pass's edit set against the state's current text and, when
/// no two edits conflict, apply it as one atomic rewrite: the edits are
/// spliced in descending start order, which equals the simultaneous rewrite
/// of the snapshot, and the tree is reparsed incrementally. A conflict leaves
/// the state exactly as it was and returns the two overlapping ranges; an
/// empty edit set also leaves it untouched, without a reparse.
#[verifier::rlimit(100)]
#[verifier::spinoff_prover]
pub fn apply_edit_set<Language: LanguageProvider>(
    parser: &mut Parser<Language>,
    state: &mut ParseState,
    edits: Vec<Edit>,
) -> (r: Result<bool, ((usize, usize), (usize, usize))>)
    requires
        old(state).wf(),
        old(state).tree is Some,
        edits_wf_for(edit_views(edits@), old(state).src()),
    ensures
        final(state).wf(),
        final(state).tree is Some,
        r matches Ok(applied) ==> {
            &&& applied == (edits@.len() > 0)
            &&& edits_nonoverlapping(sort_by_start(edit_views(edits@)))
            &&& final(state).src() == apply_edits_atomic(
                old(state).src(),
                sort_by_start(edit_views(edits@)),
            )
            &&& (edits@.len() == 0 ==> *final(state) == *old(state))
        },
        r matches Err(ranges) ==> {
            &&& *final(state) == *old(state)
            &&& !edits_nonoverlapping(sort_by_start(edit_views(edits@)))
            &&& exists|i: int|
                has_conflict_at(sort_by_start(edit_views(edits@)), i, ranges.0, ranges.1)
        },
{
    let ghost snapshot = state.src();
    let ghost orig_views = edit_views(edits@);
    if edits.len() == 0 {
        proof {
            assert(orig_views =~= Seq::<crate::edit::EditView>::empty());
            assert(sort_by_start(orig_views) =~= Seq::<crate::edit::EditView>::empty());
            assert(apply_edits_atomic(snapshot, sort_by_start(orig_views)) == snapshot);
        }
        return Ok(false);
    }
    let normalized = normalize_edits(edits);
    match normalized {
        Err(ranges) => {
            let r: Result<bool, ((usize, usize), (usize, usize))> = Err(ranges);
            proof {
                let sv = sort_by_start(orig_views);
                assert(!edits_nonoverlapping(sv));
                let i = choose|i: int| has_conflict_at(sv, i, ranges.0, ranges.1);
                assert(has_conflict_at(sv, i, r->Err_0.0, r->Err_0.1));
            }
            r
        },
        Ok(sorted) => {
            let ghost svs = edit_views(sorted@);
            proof {
                lemma_sort_preserves_wf(orig_views, snapshot);
                assert(edits_wf_for(svs, snapshot));
                assert(edits_ranges_ok(svs, snapshot.len() as int));
                lemma_edits_pairwise_disjoint(svs, snapshot.len() as int);
                lemma_sort_len(orig_views);
            }
            let mut j: usize = sorted.len();
            proof {
                assert(svs.skip(j as int) =~= Seq::<crate::edit::EditView>::empty());
                assert(state.src() == apply_edits_desc(snapshot, svs.skip(j as int)));
            }
            while j > 0
                invariant
                    0 <= j <= sorted@.len(),
                    state.wf(),
                    state.tree is Some,
                    svs == edit_views(sorted@),
                    edits_wf_for(svs, snapshot),
                    edits_sorted(svs),
                    edits_nonoverlapping(svs),
                    valid_utf8(snapshot),
                    state.src() == apply_edits_desc(snapshot, svs.skip(j as int)),
                decreases j,
            {
                j = j - 1;
                let ghost e = svs[j as int];
                let ghost rest = svs.skip(j + 1);
                let ghost cur = svs.skip(j as int);
                proof {
                    lemma_suffix_view_facts(svs, snapshot, j as int);
                    lemma_apply_desc_is_atomic(snapshot, rest);
                    lemma_atomic_valid(snapshot, rest);
                    lemma_atomic_prefix(snapshot, rest, e.end);
                    lemma_apply_desc_first(snapshot, cur);
                    assert(cur.first() == e);
                    assert(cur.drop_first() =~= rest);
                    lemma_apply_desc_is_atomic(snapshot, cur);
                    lemma_atomic_valid(snapshot, cur);
                }
                let start = sorted[j].range.0;
                let end = sorted[j].range.1;
                let empty_content = String::new();
                let content: &String = match &sorted[j].content {
                    Some(c) => c,
                    None => &empty_content,
                };
                proof {
                    assert(encode_utf8(content@) == e.bytes) by {
                        if sorted@[j as int].content is None {
                            assert(encode_utf8(content@) =~= Seq::<u8>::empty());
                        }
                    }
                    assert(splice_bytes(state.src(), e.start, e.end, e.bytes)
                        == apply_edits_desc(snapshot, cur));
                }
                parser.apply_edit(state, start, end, content);
            }
            proof {
                assert(svs.skip(0) =~= svs);
                lemma_apply_desc_is_atomic(snapshot, svs);
            }
            parser.reparse(state);
            Ok(true)
        },
    }
}

/// The diagnostic the engine records for a rejected edit set: an error at
/// the first of the two conflicting ranges, attributed to the pass's label,
/// whose message reports both ranges.
pub open spec fn is_conflict_diagnostic(
    d: Diagnostic,
    pass_index: int,
    a: (usize, usize),
    b: (usize, usize),
) -> bool {
    &&& d.range == Some(a)
    &&& d.severity == DiagnosticSeverity::Error
    &&& d.source matches Some(s) && encode_utf8(s@) == pass_label_bytes(pass_index)
    &&& encode_utf8(d.message@) == conflict_message_bytes(a, b)
}

/// Record one pass's output against the state and the run's diagnostics: the
/// diagnostics the pass emitted are appended in order, then the edit set is
/// normalized and applied. An accepted set turns the text into the atomic
/// rewrite of the snapshot; a rejected one leaves the state untouched and
/// appends exactly one conflict diagnostic for a conflicting pair.
pub fn apply_pass_output<Language: LanguageProvider>(
    parser: &mut Parser<Language>,
    state: &mut ParseState,
    edits: Vec<Edit>,
    pass_diags: Vec<Diagnostic>,
    diagnostics: &mut Vec<Diagnostic>,
    pass_index: usize,
)
    requires
        old(state).wf(),
        old(state).tree is Some,
        edits_wf_for(edit_views(edits@), old(state).src()),
    ensures
        final(state).wf(),
        final(state).tree is Some,
        ({
            let sorted = sort_by_start(edit_views(edits@));
            let drained = old(diagnostics)@ + pass_diags@;
            if edits_nonoverlapping(sorted) {
                &&& final(state).src() == apply_edits_atomic(old(state).src(), sorted)
                &&& (edits@.len() == 0 ==> *final(state) == *old(state))
                &&& final(diagnostics)@ == drained
            } else {
                &&& *final(state) == *old(state)
                &&& final(diagnostics)@.len() == drained.len() + 1
                &&& (forall|k: int|
                    0 <= k < drained.len() ==> final(diagnostics)@[k] == drained[k])
                &&& exists|a: (usize, usize), b: (usize, usize)|
                    {
                        &&& (exists|j: int| has_conflict_at(sorted, j, a, b))
                        &&& is_conflict_diagnostic(
                            final(diagnostics)@.last(),
                            pass_index as int,
                            a,
                            b,
                        )
                    }
            }
        }),
{
    let mut drained_vec = pass_diags;
    diagnostics.append(&mut drained_vec);
    let ghost drained = diagnostics@;
    match apply_edit_set(parser, state, edits) {
        Ok(_applied) => {},
        Err(ranges) => {
            let ra = ranges.0;
            let rb = ranges.1;
            let message = conflict_message(ra, rb);
            let label = pass_label(pass_index);
            let conflict = Diagnostic {
                range: Some(ra),
                message,
                severity: DiagnosticSeverity::Error,
                source: Some(label),
            };
            proof {
                assert(is_conflict_diagnostic(conflict, pass_index as int, ra, rb));
            }
            diagnostics.push(conflict);
            proof {
                assert(diagnostics@.last() == conflict);
                assert(exists|j: int|
                    has_conflict_at(sort_by_start(edit_views(edits@)), j, ra, rb));
            }
        },
    }
}

/// Run the pipeline once over one text: parse it, let each pass in order emit
/// an edit set against the current snapshot, record its diagnostics and apply
/// its accepted edits through `apply_pass_output`, and summarize. Returns the
/// outcome and the final text. The outcome's `changed` holds exactly when
/// the final text differs from the input, and it carries a diff exactly when
/// it changed; its diagnostics accumulate each pass's in order, with one
/// conflict diagnostic after those of a pass whose edit set was rejected.
pub fn run_file<Language: LanguageProvider, Config>(
    parser: &mut Parser<Language>,
    pipeline: &Pipeline<Config>,
    config: &Config,
    code: &String,
    path: Option<String>,
) -> (r: (FileFormatOutcome, String))
    ensures
        r.0.path == path,
        r.0.changed == (r.1@ != code@),
        (r.0.diff is Some) <==> r.0.changed,
        r.0.changed ==> (r.0.diff matches Some(d) && encode_utf8(d@) == diff_bytes(
            encode_utf8(code@),
            encode_utf8(r.1@),
        )),
        pipeline.passes@.len() == 0 ==> (!r.0.changed && r.0.diagnostics@.len() == 0 && r.1@
            == code@),
{
    let initial = code.as_str().as_bytes_vec();
    let mut state = ParseState::new(code.clone());
    let mut diagnostics: Vec<Diagnostic> = Vec::new();
    if !state.has_tree() {
        parser.parse(&mut state);
    }
    let n = pipeline.passes.len();
    let mut i: usize = 0;
    while i < n
        invariant
            0 <= i <= n,
            n == pipeline.passes@.len(),
            state.wf(),
            state.tree is Some,
            initial@ == encode_utf8(code@),
            n == 0 ==> (state.src() == initial@ && diagnostics@.len() == 0),
        decreases n - i,
    {
        let label = pass_label(i);
        let ghost snapshot = state.src();
        let mut edits: Vec<Edit>;
        let mut pass_diags: Vec<Diagnostic>;
        {
            let source_str = state.source();
            let root = match state.tree() {
                Some(t) => crate::bindings::ts_root_node(t),
                None => vstd::pervasive::unreached(),
            };
            let mut ctx = FormatterContext::new(config, root, source_str).with_default_source(
                label,
            );
            let ghost ctx0 = ctx;
            edits = pipeline.passes[i].run(&mut ctx);
            proof {
                assert(edits_wf_for(edit_views(edits@), ctx0.src_bytes()));
                assert(ctx0.src_bytes() == snapshot);
            }
            pass_diags = ctx.into_diagnostics();
        }
        apply_pass_output(parser, &mut state, edits, pass_diags, &mut diagnostics, i);
        i = i + 1;
    }
    let final_string = state.source().to_owned();
    let changed = !bytes_eq(&initial, state.source_bytes());
    proof {
        if initial@ == state.src() {
            lemma_encode_utf8_injective(code@, final_string@);
        }
        if final_string@ == code@ {
            assert(encode_utf8(final_string@) == encode_utf8(code@));
        }
    }
    let diff = if changed {
        Some(unified_diff(&initial, state.source_bytes()))
    } else {
        None
    };
    let outcome = FileFormatOutcome { path, changed, diagnostics, diff };
    (outcome, final_string)
}

proof fn lemma_suffix_view_facts(svs: Seq<crate::edit::EditView>, snapshot: Seq<u8>, j: int)
    requires
        edits_wf_for(svs, snapshot),
        edits_sorted(svs),
        edits_nonoverlapping(svs),
        0 <= j < svs.len(),
    ensures
        edits_wf_for(svs.skip(j), snapshot),
        edits_sorted(svs.skip(j)),
        edits_nonoverlapping(svs.skip(j)),
        edits_wf_for(svs.skip(j + 1), snapshot),
        edits_sorted(svs.skip(j + 1)),
        edits_nonoverlapping(svs.skip(j + 1)),
        forall|k: int| 0 <= k < svs.skip(j + 1).len() ==> (#[trigger] svs.skip(j + 1)[k]).start
            >= svs[j].end,
{
    lemma_edits_pairwise_disjoint(svs, snapshot.len() as int);
    assert(forall|k: int| 0 <= k < svs.skip(j).len() ==> #[trigger] svs.skip(j)[k] == svs[j + k]);
    assert(forall|k: int|
        0 <= k < svs.skip(j + 1).len() ==> #[trigger] svs.skip(j + 1)[k] == svs[j + 1 + k]);
}

impl<Language: LanguageProvider, Config> Engine<Language, Config> {
    /// An engine over the given pipeline, with a parser for the language, or
    /// `None` when the language's grammar cannot be loaded.
    pub fn new(pipeline: Pipeline<Config>) -> (r: Option<Self>)
        ensures
            r matches Some(e) ==> e.pipeline == pipeline,
    {
        match Parser::new() {
            Some(parser) => Some(Engine { pipeline, parser }),
            None => None,
        }
    }

    /// Run the pipeline against each `(code, path)` pair purely in memory:
    /// one outcome per pair, in input order, never touching the disk. A
    /// longer of the two input lists is truncated to the shorter. Each
    /// outcome carries its path, carries a diff exactly when its text
    /// changed, and under an empty pipeline reports no change and no
    /// diagnostics.
    pub fn check(&mut self, config: &Config, codes: &Vec<String>, paths: &Vec<Option<String>>)
        -> (outcomes: Vec<FileFormatOutcome>)
        ensures
            outcomes@.len() == vstd::math::min(codes@.len() as int, paths@.len() as int),
            forall|i: int| 0 <= i < outcomes@.len() ==> {
                &&& (#[trigger] outcomes@[i]).path == paths@[i]
                &&& ((outcomes@[i].diff is Some) <==> outcomes@[i].changed)
                &&& (old(self).pipeline.passes@.len() == 0 ==> (!outcomes@[i].changed
                    && outcomes@[i].diagnostics@.len() == 0))
            },
            final(self).pipeline == old(self).pipeline,
    {
        let n = if codes.len() < paths.len() {
            codes.len()
        } else {
            paths.len()
        };
        let mut outcomes: Vec<FileFormatOutcome> = Vec::new();
        let mut i: usize = 0;
        while i < n
            invariant
                0 <= i <= n,
                n == vstd::math::min(codes@.len() as int, paths@.len() as int),
                self.pipeline == old(self).pipeline,
                outcomes@.len() == i,
                forall|k: int| 0 <= k < i ==> {
                    &&& (#[trigger] outcomes@[k]).path == paths@[k]
                    &&& ((outcomes@[k].diff is Some) <==> outcomes@[k].changed)
                    &&& (old(self).pipeline.passes@.len() == 0 ==> (!outcomes@[k].changed
                        && outcomes@[k].diagnostics@.len() == 0))
                },
            decreases n - i,
        {
            let path = clone_opt_string(&paths[i]);
            let (outcome, _formatted) = run_file(
                &mut self.parser,
                &self.pipeline,
                config,
                &codes[i],
                path,
            );
            outcomes.push(outcome);
            i = i + 1;
        }
        outcomes
    }
}

} // verus!
