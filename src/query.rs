//! Composition of a search from its free text and its filters.
use vstd::prelude::*;
use crate::text::{Separator, lower_of, runs, split_runs, to_lower, trim, trimmed, views};

verus! {

/// The lowercase form of each of `words`.
pub open spec fn lowered(words: Seq<Seq<char>>) -> Seq<Seq<char>> {
    words.map_values(|w: Seq<char>| lower_of(w))
}

/// Whether the query `q` holds more than blanks.
pub open spec fn has_text(q: Seq<char>) -> bool {
    trimmed(q).len() > 0
}

/// The words of `q` that drive highlighting: its blank-separated words that
/// hold no `:` (field-qualified terms never do), in lowercase.
pub open spec fn highlight_words(q: Seq<char>) -> Seq<Seq<char>> {
    lowered(runs(q, Separator::Blank.matches()).filter(|w: Seq<char>| !w.contains(':')))
}

/// The directory clauses of a path filter: each non-empty `/`-separated
/// segment, in lowercase, on its own.
pub open spec fn directory_words(prefix: Seq<char>) -> Seq<Seq<char>> {
    lowered(runs(prefix, Separator::Slash.matches()))
}

/// The clauses of one search, all of which a document must match.
pub struct SearchPlan {
    /// The free-text query, parsed by the engine over file names and contents;
    /// none when the query holds only blanks.
    pub text: Option<String>,
    /// The exact extension to match, in lowercase.
    pub extension: Option<String>,
    /// The exact directory terms to match, one per path segment.
    pub directory_terms: Vec<String>,
    /// The terms whose first match places the excerpt and the line number.
    pub highlight_terms: Vec<String>,
}

/// Whether `p` is the plan for query `q`, extension filter `ext` and path
/// filter `prefix`, at least one of which says something.
pub open spec fn is_plan_of(
    p: SearchPlan,
    q: Seq<char>,
    ext: Option<Seq<char>>,
    prefix: Option<Seq<char>>,
) -> bool {
    &&& (p.text is Some <==> has_text(q))
    &&& (p.text matches Some(t) ==> t@ == q)
    &&& match ext {
        Some(e) => p.extension matches Some(x) && x@ == lower_of(e),
        None => p.extension is None,
    }
    &&& views(p.directory_terms@) == match prefix {
        Some(s) => directory_words(s),
        None => Seq::empty(),
    }
    &&& views(p.highlight_terms@) == if has_text(q) {
        highlight_words(q)
    } else {
        Seq::empty()
    }
}

/// The characters of an optional string slice.
pub open spec fn opt_str_view(o: Option<&str>) -> Option<Seq<char>> {
    match o {
        Some(s) => Some(s@),
        None => None,
    }
}

/// Whether `s` holds the character `c`.
pub fn has_char(s: &str, c: char) -> (r: bool)
    ensures
        r == s@.contains(c),
{
    let n = s.unicode_len();
    let mut i: usize = 0;
    while i < n
        invariant
            n == s@.len(),
            i <= n,
            forall|k: int| 0 <= k < i ==> s@[k] != c,
        decreases n - i,
    {
        if s.get_char(i) == c {
            return true;
        }
        i += 1;
    }
    false
}

/// The lowercase form of each of `words`.
fn lower_words(words: &Vec<String>) -> (r: Vec<String>)
    ensures
        views(r@) == lowered(views(words@)),
{
    let mut out: Vec<String> = Vec::new();
    let mut k: usize = 0;
    while k < words.len()
        invariant
            k <= words@.len(),
            views(out@) == lowered(views(words@.take(k as int))),
        decreases words@.len() - k,
    {
        let w = to_lower(words[k].as_str());
        let ghost before = out@;
        out.push(w);
        assert(views(out@) =~= views(before).push(w@));
        assert(views(words@.take(k + 1)) =~= views(words@.take(k as int)).push(words@[k as int]@));
        k += 1;
    }
    assert(words@.take(k as int) =~= words@);
    out
}

/// The words of `words` that hold no `:`.
fn without_fields(words: Vec<String>) -> (r: Vec<String>)
    ensures
        views(r@) == views(words@).filter(|w: Seq<char>| !w.contains(':')),
{
    let ghost keep = |w: Seq<char>| !w.contains(':');
    let mut out: Vec<String> = Vec::new();
    let mut k: usize = 0;
    while k < words.len()
        invariant
            k <= words@.len(),
            keep == (|w: Seq<char>| !w.contains(':')),
            views(out@) == views(words@.take(k as int)).filter(keep),
        decreases words@.len() - k,
    {
        let ghost before = out@;
        assert(views(words@.take(k + 1)) =~= views(words@.take(k as int)).push(words@[k as int]@));
        reveal(Seq::filter);
        assert(views(words@.take(k + 1)).drop_last() =~= views(words@.take(k as int)));
        if !has_char(words[k].as_str(), ':') {
            let w = words[k].clone();
            out.push(w);
            assert(views(out@) =~= views(before).push(w@));
        }
        k += 1;
    }
    assert(words@.take(k as int) =~= words@);
    out
}

impl SearchPlan {
    /// The clauses for query `query`, extension filter `file_type` and path
    /// filter `path_prefix`; none when the query holds only blanks and there is
    /// no filter, so that an empty request never matches every document.
    pub fn new(query: &str, file_type: Option<&str>, path_prefix: Option<&str>) -> (r: Option<
        SearchPlan,
    >)
        ensures
            r is None <==> !has_text(query@) && file_type is None && path_prefix is None,
            r matches Some(p) ==> is_plan_of(
                p,
                query@,
                opt_str_view(file_type),
                opt_str_view(path_prefix),
            ),
    {
        let text_present = trim(query).unicode_len() > 0;
        if !text_present && file_type.is_none() && path_prefix.is_none() {
            return None;
        }
        let text = if text_present {
            Some(String::from_str(query))
        } else {
            None
        };
        let extension = match file_type {
            Some(e) => Some(to_lower(e)),
            None => None,
        };
        let directory_terms = match path_prefix {
            Some(s) => lower_words(&split_runs(s, Separator::Slash)),
            None => {
                let v: Vec<String> = Vec::new();
                assert(views(v@) =~= Seq::<Seq<char>>::empty());
                v
            },
        };
        let highlight_terms = if text_present {
            lower_words(&without_fields(split_runs(query, Separator::Blank)))
        } else {
            let v: Vec<String> = Vec::new();
            assert(views(v@) =~= Seq::<Seq<char>>::empty());
            v
        };
        Some(SearchPlan { text, extension, directory_terms, highlight_terms })
    }
}

/// With no free text and only an extension filter, a search has exactly one
/// clause: the lowercase extension, matched exactly.
pub proof fn lemma_extension_filter_alone(p: SearchPlan, q: Seq<char>, ext: Seq<char>)
    requires
        !has_text(q),
        is_plan_of(p, q, Some(ext), None),
    ensures
        p.text is None,
        p.extension matches Some(x) && x@ == lower_of(ext),
        p.directory_terms@.len() == 0,
        p.highlight_terms@.len() == 0,
{
    assert(views(p.directory_terms@).len() == p.directory_terms@.len());
    assert(views(p.highlight_terms@).len() == p.highlight_terms@.len());
}

/// A path filter adds one exact directory clause per non-empty segment, in
/// lowercase; adding an extension filter adds its clause and leaves the
/// directory clauses as they are.
pub proof fn lemma_path_filter_segments(
    with_ext: SearchPlan,
    without_ext: SearchPlan,
    q: Seq<char>,
    ext: Seq<char>,
    prefix: Seq<char>,
)
    requires
        is_plan_of(without_ext, q, None, Some(prefix)),
        is_plan_of(with_ext, q, Some(ext), Some(prefix)),
    ensures
        views(without_ext.directory_terms@) == lowered(runs(prefix, Separator::Slash.matches())),
        views(with_ext.directory_terms@) == views(without_ext.directory_terms@),
        without_ext.extension is None,
        with_ext.extension matches Some(x) && x@ == lower_of(ext),
        (with_ext.text is Some) == (without_ext.text is Some),
{
}

} // verus!
