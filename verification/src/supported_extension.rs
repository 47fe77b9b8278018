use crate::text::str_eq;
use vstd::prelude::*;
use vstd::string::StrSliceExecFns;

verus! {

/// The Unicode-lowercased form of a character sequence, as std's
/// `str::to_lowercase` computes it.
pub uninterp spec fn lower_of(s: Seq<char>) -> Seq<char>;

/// Relies on std's `str::to_lowercase`: the result depends on the
/// characters alone.
#[verifier::external_body]
fn lowercase(s: &str) -> (r: String)
    ensures
        r@ == lower_of(s@),
{
    s.to_lowercase()
}

/// The position of the last occurrence of `c` in `s`, or -1 when absent.
pub open spec fn last_index_of(s: Seq<char>, c: char) -> int
    decreases s.len(),
{
    if s.len() == 0 {
        -1
    } else if s.last() == c {
        s.len() - 1
    } else {
        last_index_of(s.drop_last(), c)
    }
}

pub proof fn lemma_last_index_of_props(s: Seq<char>, c: char)
    ensures
        ({
            let r = last_index_of(s, c);
            &&& -1 <= r < s.len()
            &&& r >= 0 ==> s[r] == c
            &&& forall|j: int| r < j < s.len() ==> s[j] != c
        }),
    decreases s.len(),
{
    if s.len() > 0 && s.last() != c {
        lemma_last_index_of_props(s.drop_last(), c);
        assert(forall|j: int| 0 <= j < s.len() - 1 ==> s[j] == s.drop_last()[j]);
    }
}

/// The extension of a path: the part of its final `/`-separated component
/// after the last dot, provided that dot is not the component's first
/// character. A component without such a dot has no extension.
pub open spec fn extension_of(p: Seq<char>) -> Option<Seq<char>> {
    let name = p.subrange(last_index_of(p, '/') + 1, p.len() as int);
    let dot = last_index_of(name, '.');
    if dot >= 1 {
        Some(name.subrange(dot + 1, name.len() as int))
    } else {
        None
    }
}

/// True when the path's extension, Unicode-lowercased, is one of `exts`.
pub open spec fn spec_matches(exts: Seq<Seq<char>>, p: Seq<char>) -> bool {
    match extension_of(p) {
        Some(e) => exts.contains(lower_of(e)),
        None => false,
    }
}

/// The set of file extensions one language's formatter accepts.
pub struct SupportedExtension {
    pub extensions: Vec<String>,
}

impl View for SupportedExtension {
    type V = Seq<Seq<char>>;

    open spec fn view(&self) -> Seq<Seq<char>> {
        self.extensions@.map_values(|s: String| s@)
    }
}

impl SupportedExtension {
    /// A new set holding the given extensions, which should be lower case and
    /// written without dots.
    pub fn new(extensions: Vec<String>) -> (r: Self)
        ensures
            r@ == extensions@.map_values(|s: String| s@),
    {
        SupportedExtension { extensions }
    }

    /// True when the given extension, written without a dot and lowercased,
    /// is in this set.
    fn contains(&self, extension: &str) -> (r: bool)
        ensures
            r == self@.contains(lower_of(extension@)),
    {
        let lowered = lowercase(extension);
        let n = self.extensions.len();
        let mut k: usize = 0;
        while k < n
            invariant
                0 <= k <= n,
                n == self.extensions@.len(),
                lowered@ == lower_of(extension@),
                forall|j: int| 0 <= j < k ==> self@[j] != lower_of(extension@),
            decreases n - k,
        {
            if str_eq(self.extensions[k].as_str(), lowered.as_str()) {
                assert(self@[k as int] == lower_of(extension@));
                return true;
            }
            assert(self@[k as int] != lower_of(extension@));
            k = k + 1;
        }
        assert(!self@.contains(lower_of(extension@)));
        false
    }

    /// True when the path's extension, Unicode-lowercased, is one of this
    /// set. Path components are separated by `/`.
    pub fn matches(&self, path: &str) -> (r: bool)
        ensures
            r == spec_matches(self@, path@),
    {
        proof {
            lemma_last_index_of_props(path@, '/');
            lemma_last_index_of_props(path@, '.');
        }
        let n = path.unicode_len();
        let slash = find_last(path, '/');
        let dot = find_last(path, '.');
        let ghost name = path@.subrange(last_index_of(path@, '/') + 1, path@.len() as int);
        proof {
            lemma_last_index_in_suffix(path@, last_index_of(path@, '/') + 1, '.');
            lemma_last_index_of_props(name, '.');
        }
        let start = match (dot, slash) {
            (Some(d), Some(s)) => {
                assert(d < n && s < n);
                if d > s && d - s >= 2 {
                    d + 1
                } else {
                    proof {
                        assert(last_index_of(name, '.') < 1);
                    }
                    return false;
                }
            },
            (Some(d), None) => {
                assert(d < n);
                if d >= 1 {
                    d + 1
                } else {
                    proof {
                        assert(last_index_of(name, '.') < 1);
                    }
                    return false;
                }
            },
            (None, _) => {
                proof {
                    assert(last_index_of(name, '.') == -1);
                }
                return false;
            },
        };
        let ext = path.substring_char(start, n);
        proof {
            let d = last_index_of(path@, '.');
            let s = last_index_of(path@, '/');
            assert(last_index_of(name, '.') == d - (s + 1));
            assert(ext@ =~= name.subrange(last_index_of(name, '.') + 1, name.len() as int));
        }
        self.contains(ext)
    }
}

/// The position of the last occurrence of `c` in `s`, when there is one.
fn find_last(s: &str, c: char) -> (r: Option<usize>)
    ensures
        match r {
            Some(k) => k as int == last_index_of(s@, c),
            None => last_index_of(s@, c) == -1,
        },
{
    proof {
        lemma_last_index_of_props(s@, c);
    }
    let n = s.unicode_len();
    let ghost g = last_index_of(s@, c);
    let mut i: usize = n;
    while i > 0
        invariant
            0 <= i <= n,
            n == s@.len(),
            g == last_index_of(s@, c),
            -1 <= g < s@.len(),
            g >= 0 ==> s@[g] == c,
            forall|j: int| g < j < s@.len() ==> s@[j] != c,
            g < i as int,
        decreases i,
    {
        i = i - 1;
        if s.get_char(i) == c {
            proof {
                if g < i as int {
                    assert(s@[i as int] != c);
                }
            }
            return Some(i);
        }
        proof {
            if g == i as int {
                assert(s@[i as int] == c);
            }
        }
    }
    proof {
        if g >= 0 {
            assert(s@[g] == c);
        }
    }
    None
}

/// The last occurrence of `c` in the suffix of `p` from `from` relates to the
/// last occurrence in `p` itself.
proof fn lemma_last_index_in_suffix(p: Seq<char>, from: int, c: char)
    requires
        0 <= from <= p.len(),
    ensures
        ({
            let suffix = p.subrange(from, p.len() as int);
            let g = last_index_of(p, c);
            last_index_of(suffix, c) == if g >= from {
                g - from
            } else {
                -1
            }
        }),
{
    let suffix = p.subrange(from, p.len() as int);
    let g = last_index_of(p, c);
    let l = last_index_of(suffix, c);
    lemma_last_index_of_props(p, c);
    lemma_last_index_of_props(suffix, c);
    if g >= from {
        assert(suffix[g - from] == c);
        assert(l >= g - from);
        if l > g - from {
            assert(p[l + from] == c);
            assert(false);
        }
    } else {
        if l >= 0 {
            assert(p[l + from] == c);
            assert(false);
        }
    }
}

} // verus!
