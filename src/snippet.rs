//! Result excerpts: where the first query term matches, the excerpt of a
//! fixed byte window around it (never cutting a character in two), and the
//! line number of the match.
use vstd::prelude::*;
use vstd::utf8::*;
use vstd::string::StringSliceAdditionalSpecFns;
use crate::text::{count_byte, first_occurrence, lemma_first_occurrence_inside, lower_of, to_lower, trim, trimmed, count_byte_before, find_bytes};

verus! {

broadcast use group_utf8_lib;

/// `...`, the marker around every excerpt.
pub open spec fn ellipsis() -> Seq<char> {
    seq!['.', '.', '.']
}

/// The UTF-8 bytes of each string of `terms`.
pub open spec fn term_bytes(terms: Seq<String>) -> Seq<Seq<u8>> {
    terms.map_values(|t: String| encode_utf8(t@))
}

/// The UTF-8 bytes of the lowercase form of each string of `terms`.
pub open spec fn lowered_term_bytes(terms: Seq<String>) -> Seq<Seq<u8>> {
    terms.map_values(|t: String| encode_utf8(lower_of(t@)))
}

/// The offset of the first occurrence in `hay` of the first term, in the
/// given order, that occurs at all.
pub open spec fn first_term_match(hay: Seq<u8>, terms: Seq<Seq<u8>>) -> Option<nat>
    decreases terms.len(),
{
    if terms.len() == 0 {
        None
    } else {
        match first_occurrence(hay, terms[0]) {
            Some(p) => Some(p),
            None => first_term_match(hay, terms.drop_first()),
        }
    }
}

/// Where the terms match `content`, both compared in lowercase: a byte offset
/// into the lowercase form of `content`.
pub open spec fn match_offset(content: Seq<char>, terms: Seq<String>) -> Option<nat> {
    first_term_match(encode_utf8(lower_of(content)), lowered_term_bytes(terms))
}

/// First byte of the window: `window / 2` bytes before `pos`, at least 0.
pub open spec fn window_start(pos: nat, window: nat) -> int {
    if pos >= window / 2 {
        pos - window / 2
    } else {
        0
    }
}

/// End of the window: `window / 2` bytes after `pos`, at most `len`.
pub open spec fn window_end(len: nat, pos: nat, window: nat) -> int {
    if pos + window / 2 <= len {
        (pos + window / 2) as int
    } else {
        len as int
    }
}

/// The nearest character boundary of `bytes` at or below `i`.
pub open spec fn floor_boundary(bytes: Seq<u8>, i: int) -> int
    decreases i,
{
    if i <= 0 {
        0
    } else if is_char_boundary(bytes, i) {
        i
    } else {
        floor_boundary(bytes, i - 1)
    }
}

/// The nearest character boundary of `bytes` at or above `i`.
pub open spec fn ceil_boundary(bytes: Seq<u8>, i: int) -> int
    decreases bytes.len() - i,
{
    if i >= bytes.len() {
        bytes.len() as int
    } else if is_char_boundary(bytes, i) {
        i
    } else {
        ceil_boundary(bytes, i + 1)
    }
}

/// First byte of the excerpt of `content` around byte `pos`.
pub open spec fn snippet_start(content: Seq<char>, pos: nat, window: nat) -> int {
    floor_boundary(encode_utf8(content), window_start(pos, window))
}

/// End of the excerpt of `content` around byte `pos`.
pub open spec fn snippet_end(content: Seq<char>, pos: nat, window: nat) -> int {
    let bytes = encode_utf8(content);
    ceil_boundary(bytes, window_end(bytes.len(), pos, window))
}

/// The excerpt of `content` around byte `pos`: the characters between
/// `snippet_start` and `snippet_end`, trimmed, between two `...` markers.
pub open spec fn snippet_text(content: Seq<char>, pos: nat, window: nat) -> Seq<char> {
    let bytes = encode_utf8(content);
    ellipsis() + trimmed(
        decode_utf8(
            bytes.subrange(snippet_start(content, pos, window), snippet_end(content, pos, window)),
        ),
    ) + ellipsis()
}

proof fn lemma_floor_boundary(bytes: Seq<u8>, i: int)
    requires
        valid_utf8(bytes),
    ensures
        is_char_boundary(bytes, floor_boundary(bytes, i)),
        0 <= floor_boundary(bytes, i) <= bytes.len(),
        floor_boundary(bytes, i) <= i || i <= 0,
    decreases i,
{
    if i <= 0 {
    } else if is_char_boundary(bytes, i) {
    } else {
        if i == bytes.len() {
            is_char_boundary_start_end_of_seq(bytes);
        }
        lemma_floor_boundary(bytes, i - 1);
    }
}

proof fn lemma_ceil_boundary(bytes: Seq<u8>, i: int)
    requires
        valid_utf8(bytes),
        0 <= i,
    ensures
        is_char_boundary(bytes, ceil_boundary(bytes, i)),
        i <= ceil_boundary(bytes, i) <= bytes.len() || (i > bytes.len() && ceil_boundary(bytes, i)
            == bytes.len()),
    decreases bytes.len() - i,
{
    if i >= bytes.len() {
        is_char_boundary_start_end_of_seq(bytes);
    } else if is_char_boundary(bytes, i) {
    } else {
        lemma_ceil_boundary(bytes, i + 1);
    }
}

proof fn lemma_boundary_in_prefix(bytes: Seq<u8>, s: int, e: int)
    requires
        valid_utf8(bytes),
        is_char_boundary(bytes, s),
        is_char_boundary(bytes, e),
        0 <= s <= e <= bytes.len(),
    ensures
        is_char_boundary(bytes.subrange(0, e), s),
{
    let head = bytes.subrange(0, e);
    valid_utf8_split(bytes, e);
    if s == e {
        assert(head.len() == e);
        is_char_boundary_start_end_of_seq(head);
    } else {
        is_char_boundary_iff_not_is_continuation_byte(bytes, s);
        is_char_boundary_iff_not_is_continuation_byte(head, s);
    }
}

/// The excerpt never cuts a character: both of its ends are character
/// boundaries of `content`, in order, inside it.
pub proof fn lemma_snippet_on_char_boundaries(content: Seq<char>, pos: nat, window: nat)
    ensures
        is_char_boundary(encode_utf8(content), snippet_start(content, pos, window)),
        is_char_boundary(encode_utf8(content), snippet_end(content, pos, window)),
        0 <= snippet_start(content, pos, window) <= snippet_end(content, pos, window)
            <= encode_utf8(content).len(),
{
    let bytes = encode_utf8(content);
    let ws = window_start(pos, window);
    let we = window_end(bytes.len(), pos, window);
    lemma_floor_boundary(bytes, ws);
    lemma_ceil_boundary(bytes, we);
}

/// The excerpt of `content` around byte offset `pos`, `window` bytes wide.
pub fn snippet_at(content: &str, pos: usize, window: usize) -> (r: String)
    ensures
        r@ == snippet_text(content@, pos as nat, window as nat),
{
    let ghost bytes = content.spec_bytes();
    let len = content.as_bytes().len();
    let half = window / 2;
    let start0: usize = if pos >= half {
        pos - half
    } else {
        0
    };
    let end0: usize = if pos <= len && half <= len - pos {
        pos + half
    } else {
        len
    };
    assert(start0 == window_start(pos as nat, window as nat));
    assert(end0 == window_end(bytes.len(), pos as nat, window as nat));
    let mut s = start0;
    while s > 0 && !content.is_char_boundary(s)
        invariant
            bytes == content.spec_bytes(),
            floor_boundary(bytes, start0 as int) == floor_boundary(bytes, s as int),
        decreases s,
    {
        s -= 1;
    }
    let mut e = end0;
    while e < len && !content.is_char_boundary(e)
        invariant
            bytes == content.spec_bytes(),
            len == bytes.len(),
            end0 <= e <= len,
            ceil_boundary(bytes, end0 as int) == ceil_boundary(bytes, e as int),
        decreases len - e,
    {
        e += 1;
    }
    proof {
        lemma_snippet_on_char_boundaries(content@, pos as nat, window as nat);
        lemma_boundary_in_prefix(bytes, s as int, e as int);
    }
    let (head, _) = content.split_at(e);
    let (_, mid) = head.split_at(s);
    proof {
        assert(mid.spec_bytes() =~= bytes.subrange(s as int, e as int));
        assert(mid@ == decode_utf8(encode_utf8(mid@)));
    }
    let t = trim(mid);
    let mut out = String::from_str("...");
    proof {
        reveal_strlit("...");
    }
    out.append(t);
    out.append("...");
    out
}

/// The offset of the first occurrence in `hay` of the first of `terms`, in
/// order, that occurs in it.
pub fn first_match(hay: &str, terms: &[String]) -> (r: Option<usize>)
    ensures
        r matches Some(p) ==> first_term_match(hay.spec_bytes(), term_bytes(terms@)) == Some(
            p as nat,
        ),
        r is None ==> first_term_match(hay.spec_bytes(), term_bytes(terms@)) is None,
{
    let ghost all = term_bytes(terms@);
    let bytes = hay.as_bytes();
    let mut k: usize = 0;
    assert(all.skip(0) =~= all);
    while k < terms.len()
        invariant
            bytes@ == hay.spec_bytes(),
            all == term_bytes(terms@),
            k <= terms@.len(),
            first_term_match(bytes@, all) == first_term_match(bytes@, all.skip(k as int)),
        decreases terms@.len() - k,
    {
        assert(all.skip(k as int)[0] == all[k as int]);
        assert(all.skip(k as int).drop_first() =~= all.skip(k + 1));
        let needle = terms[k].as_str().as_bytes();
        match find_bytes(bytes, needle) {
            Some(p) => {
                return Some(p);
            },
            None => {},
        }
        k += 1;
    }
    None
}

proof fn lemma_first_term_match_inside(hay: Seq<u8>, terms: Seq<Seq<u8>>)
    ensures
        first_term_match(hay, terms) matches Some(p) ==> p <= hay.len() && (p < hay.len() || p
            == 0),
    decreases terms.len(),
{
    if terms.len() > 0 {
        lemma_first_occurrence_inside(hay, terms[0]);
        if terms[0].len() == 0 {
            assert(hay.subrange(0, 0) =~= terms[0]);
        }
        lemma_first_term_match_inside(hay, terms.drop_first());
    }
}

/// The lowercase form of each of `terms`, in order.
fn lower_all(terms: &[String]) -> (r: Vec<String>)
    ensures
        term_bytes(r@) == lowered_term_bytes(terms@),
{
    let mut out: Vec<String> = Vec::new();
    let mut k: usize = 0;
    while k < terms.len()
        invariant
            k <= terms@.len(),
            out@.len() == k,
            forall|j: int| 0 <= j < k ==> out@[j]@ == lower_of(terms@[j]@),
        decreases terms@.len() - k,
    {
        out.push(to_lower(terms[k].as_str()));
        k += 1;
    }
    assert(term_bytes(out@) =~= lowered_term_bytes(terms@));
    out
}

/// The excerpt of `content` around the first match of the first term, in
/// order, that occurs in it (both compared in lowercase), `window` bytes
/// wide; around offset 0 when no term occurs.
pub fn extract_snippet(content: &str, query_terms: &[String], window: usize) -> (r: String)
    ensures
        r@ == snippet_text(
            content@,
            match match_offset(content@, query_terms@) {
                Some(p) => p,
                None => 0,
            },
            window as nat,
        ),
{
    let lowered = to_lower(content);
    let terms = lower_all(query_terms);
    let pos = match first_match(lowered.as_str(), terms.as_slice()) {
        Some(p) => p,
        None => 0,
    };
    snippet_at(content, pos, window)
}

/// The 1-based line on which byte `pos` of `text` stands: one more than the
/// newlines before it.
pub fn line_at(text: &str, pos: usize) -> (r: usize)
    requires
        pos <= text.spec_bytes().len(),
        pos < usize::MAX,
    ensures
        r == count_byte(text.spec_bytes().subrange(0, pos as int), 10) + 1,
{
    count_byte_before(text.as_bytes(), 10, pos) + 1
}

/// The 1-based line of the first match of the first term, in order, that
/// occurs in `content` (both compared in lowercase), counted in the lowercase
/// form of `content`; `None` when no term occurs.
pub fn find_match_line(content: &str, query_terms: &[String]) -> (r: Option<usize>)
    ensures
        match match_offset(content@, query_terms@) {
            Some(p) => r == Some(
                (count_byte(encode_utf8(lower_of(content@)).subrange(0, p as int), 10) + 1) as usize,
            ),
            None => r is None,
        },
{
    let lowered = to_lower(content);
    let lw = lowered.as_str();
    let terms = lower_all(query_terms);
    match first_match(lw, terms.as_slice()) {
        Some(p) => {
            let hay_len = lw.as_bytes().len();
            proof {
                lemma_first_term_match_inside(lw.spec_bytes(), term_bytes(terms@));
            }
            assert(p == 0 || p < hay_len);
            Some(line_at(lw, p))
        },
        None => None,
    }
}

} // verus!
