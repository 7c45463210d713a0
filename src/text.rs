//! Character and byte-level helpers shared by the codec, the query builder
//! and the snippet extractor.
use vstd::prelude::*;

verus! {

/// Unicode `White_Space`: the characters that `char::is_whitespace`,
/// `str::trim` and `str::split_whitespace` treat as blanks.
pub open spec fn is_white_space(c: char) -> bool {
    let u = c as u32;
    (0x9 <= u && u <= 0xd) || u == 0x20 || u == 0x85 || u == 0xa0 || u == 0x1680 || (0x2000 <= u
        && u <= 0x200a) || u == 0x2028 || u == 0x2029 || u == 0x202f || u == 0x205f || u == 0x3000
}

/// `s` without its leading blanks.
pub open spec fn trim_start(s: Seq<char>) -> Seq<char>
    decreases s.len(),
{
    if s.len() > 0 && is_white_space(s[0]) {
        trim_start(s.drop_first())
    } else {
        s
    }
}

/// `s` without its trailing blanks.
pub open spec fn trim_end(s: Seq<char>) -> Seq<char>
    decreases s.len(),
{
    if s.len() > 0 && is_white_space(s.last()) {
        trim_end(s.drop_last())
    } else {
        s
    }
}

/// `s` without leading and trailing blanks.
pub open spec fn trimmed(s: Seq<char>) -> Seq<char> {
    trim_end(trim_start(s))
}

/// The non-empty runs of characters of `s` that are not separators, in order
/// (what `split(sep)` followed by dropping the empty pieces yields, and what
/// `split_whitespace` yields for `is_white_space`).
pub open spec fn runs(s: Seq<char>, is_sep: spec_fn(char) -> bool) -> Seq<Seq<char>>
    decreases s.len(),
{
    if s.len() == 0 {
        seq![]
    } else {
        let rest = runs(s.drop_last(), is_sep);
        let c = s.last();
        if is_sep(c) {
            rest
        } else if s.len() >= 2 && !is_sep(s[s.len() - 2]) {
            rest.update(rest.len() - 1, rest.last().push(c))
        } else {
            rest.push(seq![c])
        }
    }
}

/// Name of what `str::to_lowercase` returns: the full Unicode lowercase
/// mapping, which depends on the characters alone.
pub uninterp spec fn lower_of(s: Seq<char>) -> Seq<char>;

/// Relies on `str::to_lowercase`: the lowercase form of `s`, a function of
/// its characters alone.
#[verifier::external_body]
pub fn to_lower(s: &str) -> (r: String)
    ensures
        r@ == lower_of(s@),
{
    s.to_lowercase()
}

proof fn lemma_trim_start_skip(s: Seq<char>, i: int)
    requires
        0 <= i <= s.len(),
        forall|k: int| 0 <= k < i ==> is_white_space(#[trigger] s[k]),
    ensures
        trim_start(s) == trim_start(s.subrange(i, s.len() as int)),
    decreases i,
{
    if i > 0 {
        assert(s.drop_first() =~= s.subrange(1, s.len() as int));
        lemma_trim_start_skip(s.drop_first(), i - 1);
        assert(s.drop_first().subrange(i - 1, s.drop_first().len() as int) =~= s.subrange(
            i,
            s.len() as int,
        ));
    } else {
        assert(s.subrange(0, s.len() as int) =~= s);
    }
}

proof fn lemma_trim_end_cut(s: Seq<char>, j: int)
    requires
        0 <= j <= s.len(),
        forall|k: int| j <= k < s.len() ==> is_white_space(#[trigger] s[k]),
    ensures
        trim_end(s) == trim_end(s.subrange(0, j)),
    decreases s.len() - j,
{
    if j < s.len() {
        lemma_trim_end_cut(s.drop_last(), j);
        assert(s.drop_last().subrange(0, j) =~= s.subrange(0, j));
    } else {
        assert(s.subrange(0, j) =~= s);
    }
}

/// `s` without leading and trailing Unicode `White_Space` (what `str::trim`
/// gives).
pub fn trim(s: &str) -> (r: &str)
    ensures
        r@ == trimmed(s@),
{
    let n = s.unicode_len();
    let mut a: usize = 0;
    while a < n && is_blank(s.get_char(a))
        invariant
            n == s@.len(),
            a <= n,
            forall|k: int| 0 <= k < a ==> is_white_space(#[trigger] s@[k]),
        decreases n - a,
    {
        a += 1;
    }
    let mut b: usize = n;
    while b > a && is_blank(s.get_char(b - 1))
        invariant
            n == s@.len(),
            a <= b <= n,
            forall|k: int| b <= k < n ==> is_white_space(#[trigger] s@[k]),
        decreases b,
    {
        b -= 1;
    }
    proof {
        lemma_trim_start_skip(s@, a as int);
        let rest = s@.subrange(a as int, n as int);
        if a < n {
            assert(rest[0] == s@[a as int]);
        } else {
            assert(rest.len() == 0);
        }
        assert(trim_start(rest) == rest);
        assert forall|k: int| (b - a) <= k < rest.len() implies is_white_space(#[trigger] rest[k]) by {
            assert(rest[k] == s@[a + k]);
        }
        lemma_trim_end_cut(rest, (b - a) as int);
        let mid = rest.subrange(0, (b - a) as int);
        assert(mid =~= s@.subrange(a as int, b as int));
        if b > a {
            assert(mid.last() == s@[b - 1]);
        } else {
            assert(mid.len() == 0);
        }
        assert(trim_end(mid) == mid);
    }
    s.substring_char(a, b)
}

/// Whether `c` is a Unicode `White_Space` character (`char::is_whitespace`).
pub fn is_blank(c: char) -> (r: bool)
    ensures
        r == is_white_space(c),
{
    let u = c as u32;
    (0x9 <= u && u <= 0xd) || u == 0x20 || u == 0x85 || u == 0xa0 || u == 0x1680 || (0x2000 <= u
        && u <= 0x200a) || u == 0x2028 || u == 0x2029 || u == 0x202f || u == 0x205f || u == 0x3000
}

/// The separators that `split_runs` cuts at.
#[derive(Clone, Copy, PartialEq, Eq, Structural)]
pub enum Separator {
    /// The path separator `/`.
    Slash,
    /// Unicode `White_Space`.
    Blank,
}

impl Separator {
    pub open spec fn matches(self) -> spec_fn(char) -> bool {
        match self {
            Separator::Slash => |c: char| c == '/',
            Separator::Blank => |c: char| is_white_space(c),
        }
    }

    pub fn is_separator(self, c: char) -> (r: bool)
        ensures
            r == (self.matches())(c),
    {
        match self {
            Separator::Slash => c == '/',
            Separator::Blank => is_blank(c),
        }
    }
}

/// The characters of each string of `v`.
pub open spec fn views(v: Seq<String>) -> Seq<Seq<char>> {
    v.map_values(|w: String| w@)
}

/// The non-empty pieces of `s` between separators, in order.
pub fn split_runs(s: &str, sep: Separator) -> (r: Vec<String>)
    ensures
        views(r@) == runs(s@, sep.matches()),
{
    let f = Ghost(sep.matches());
    let n = s.unicode_len();
    let mut out: Vec<String> = Vec::new();
    let mut start: usize = 0;
    let mut i: usize = 0;
    while i < n
        invariant
            f@ == sep.matches(),
            n == s@.len(),
            start <= i <= n,
            start < i ==> views(out@).push(s@.subrange(start as int, i as int)) == runs(
                s@.take(i as int),
                f@,
            ),
            start == i ==> views(out@) == runs(s@.take(i as int), f@),
            start < i ==> forall|k: int| start <= k < i ==> !(f@)(s@[k]),
            start < i && start > 0 ==> (f@)(s@[start - 1]),
            start == i ==> (i == 0 || (f@)(s@[i - 1])),
        decreases n - i,
    {
        let c = s.get_char(i);
        assert(s@.take(i + 1).drop_last() =~= s@.take(i as int));
        assert(s@.take(i + 1).last() == c);
        if sep.is_separator(c) {
            if start < i {
                let piece = String::from_str(s.substring_char(start, i));
                let ghost before = out@;
                out.push(piece);
                assert(views(out@) =~= views(before).push(piece@));
            }
            start = i + 1;
        } else {
            proof {
                let rest = runs(s@.take(i as int), f@);
                if start < i {
                    assert(s@.subrange(start as int, i as int).push(c) =~= s@.subrange(
                        start as int,
                        i + 1,
                    ));
                    assert(views(out@).push(s@.subrange(start as int, i + 1)) =~= rest.update(
                        rest.len() - 1,
                        rest.last().push(c),
                    ));
                } else {
                    assert(s@.subrange(start as int, i + 1) =~= seq![c]);
                }
            }
        }
        i += 1;
    }
    assert(s@.take(n as int) =~= s@);
    if start < n {
        let piece = String::from_str(s.substring_char(start, n));
        let ghost before = out@;
        out.push(piece);
        assert(views(out@) =~= views(before).push(piece@));
    }
    out
}

/// Whether `needle` occurs in `hay` at byte offset `i`.
pub open spec fn occurs_at(hay: Seq<u8>, needle: Seq<u8>, i: int) -> bool {
    0 <= i && i + needle.len() <= hay.len() && hay.subrange(i, i + needle.len()) == needle
}

/// The least offset at or after `i` at which `needle` occurs in `hay`.
pub open spec fn find_from(hay: Seq<u8>, needle: Seq<u8>, i: nat) -> Option<nat>
    decreases hay.len() + 1 - i,
{
    if i + needle.len() > hay.len() {
        None
    } else if occurs_at(hay, needle, i as int) {
        Some(i)
    } else {
        find_from(hay, needle, i + 1)
    }
}

/// The byte offset of the first occurrence of `needle` in `hay`.
pub open spec fn first_occurrence(hay: Seq<u8>, needle: Seq<u8>) -> Option<nat> {
    find_from(hay, needle, 0)
}

proof fn lemma_find_from_bounds(hay: Seq<u8>, needle: Seq<u8>, i: nat)
    ensures
        match find_from(hay, needle, i) {
            Some(p) => i <= p && occurs_at(hay, needle, p as int),
            None => true,
        },
    decreases hay.len() + 1 - i,
{
    if i + needle.len() > hay.len() {
    } else if occurs_at(hay, needle, i as int) {
    } else {
        lemma_find_from_bounds(hay, needle, i + 1);
    }
}

/// A found occurrence lies inside `hay`.
pub proof fn lemma_first_occurrence_inside(hay: Seq<u8>, needle: Seq<u8>)
    ensures
        match first_occurrence(hay, needle) {
            Some(p) => occurs_at(hay, needle, p as int) && p + needle.len() <= hay.len(),
            None => true,
        },
{
    lemma_find_from_bounds(hay, needle, 0);
}

/// The first byte offset at which `needle` occurs in `hay` (what `str::find`
/// returns for a string pattern).
pub fn find_bytes(hay: &[u8], needle: &[u8]) -> (r: Option<usize>)
    ensures
        r matches Some(p) ==> first_occurrence(hay@, needle@) == Some(p as nat),
        r is None ==> first_occurrence(hay@, needle@) is None,
{
    let n = needle.len();
    let h = hay.len();
    if n > h {
        return None;
    }
    let mut i: usize = 0;
    while i <= h - n
        invariant
            n == needle@.len(),
            h == hay@.len(),
            n <= h,
            i <= h - n + 1,
            find_from(hay@, needle@, 0) == find_from(hay@, needle@, i as nat),
        decreases h - n + 1 - i,
    {
        let mut j: usize = 0;
        while j < n && hay[i + j] == needle[j]
            invariant
                n == needle@.len(),
                h == hay@.len(),
                i + n <= h,
                j <= n,
                forall|k: int| 0 <= k < j ==> hay@[i + k] == needle@[k],
            decreases n - j,
        {
            j += 1;
        }
        if j == n {
            assert(hay@.subrange(i as int, i + n) =~= needle@);
            return Some(i);
        }
        assert(!occurs_at(hay@, needle@, i as int)) by {
            if hay@.subrange(i as int, i + n) == needle@ {
                assert(hay@.subrange(i as int, i + n)[j as int] == hay@[i + j]);
            }
        }
        i += 1;
    }
    None
}

/// The number of `b` bytes in `s`.
pub open spec fn count_byte(s: Seq<u8>, b: u8) -> nat
    decreases s.len(),
{
    if s.len() == 0 {
        0
    } else {
        count_byte(s.drop_last(), b) + if s.last() == b {
            1nat
        } else {
            0nat
        }
    }
}

/// The number of `b` bytes among the first `end` bytes of `s`.
pub fn count_byte_before(s: &[u8], b: u8, end: usize) -> (r: usize)
    requires
        end <= s@.len(),
    ensures
        r == count_byte(s@.subrange(0, end as int), b),
        r <= end,
{
    let mut i: usize = 0;
    let mut c: usize = 0;
    while i < end
        invariant
            end <= s@.len(),
            i <= end,
            c <= i,
            c == count_byte(s@.subrange(0, i as int), b),
        decreases end - i,
    {
        assert(s@.subrange(0, i + 1).drop_last() =~= s@.subrange(0, i as int));
        if s[i] == b {
            c += 1;
        }
        i += 1;
    }
    c
}

/// Whether `a` and `b` hold the same characters.
pub fn same_text(a: &str, b: &str) -> (r: bool)
    ensures
        r == (a@ == b@),
{
    String::from_str(a) == String::from_str(b)
}

} // verus!
