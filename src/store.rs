//! The on-disk index's lifecycle: the schema-version marker kept beside the
//! engine's files, and what opening a directory does with it.
use vstd::prelude::*;
use crate::codec::{decimal, decimal_text};
use crate::text::{trim, trimmed};

verus! {

/// Version of the document schema. An index written under another version is
/// discarded and rebuilt.
pub const SCHEMA_VERSION: u32 = 2;

/// Name of the marker file, inside the index directory, that holds the
/// schema version as decimal text.
pub const MARKER_FILE_NAME: &'static str = "schema_version";

/// Whether `c` is an ASCII decimal digit.
pub open spec fn is_digit(c: char) -> bool {
    48 <= (c as u32) && (c as u32) <= 57
}

/// The value of the decimal digits `s`.
pub open spec fn digits_value(s: Seq<char>) -> nat
    decreases s.len(),
{
    if s.len() == 0 {
        0
    } else {
        digits_value(s.drop_last()) * 10 + ((s.last() as u32) - 48) as nat
    }
}

/// `s` without one leading `+`.
pub open spec fn unsigned_digits(s: Seq<char>) -> Seq<char> {
    if s.len() > 0 && s[0] == '+' {
        s.drop_first()
    } else {
        s
    }
}

/// What `str::parse::<u32>` gives for `s`: an optional `+` followed by at least
/// one decimal digit, with a value that fits; otherwise nothing.
pub open spec fn parse_u32(s: Seq<char>) -> Option<u32> {
    let d = unsigned_digits(s);
    if d.len() > 0 && (forall|i: int| 0 <= i < d.len() ==> is_digit(d[i])) && digits_value(d)
        <= u32::MAX {
        Some(digits_value(d) as u32)
    } else {
        None
    }
}

proof fn lemma_digits_value_grows(s: Seq<char>, i: int)
    requires
        0 <= i <= s.len(),
    ensures
        digits_value(s.take(i)) <= digits_value(s),
    decreases s.len() - i,
{
    if i < s.len() {
        lemma_digits_value_grows(s, i + 1);
        assert(s.take(i + 1).drop_last() =~= s.take(i));
    } else {
        assert(s.take(i) =~= s);
    }
}

/// The number that `s` writes in decimal, as `str::parse::<u32>` reads it.
pub fn parse_u32_text(s: &str) -> (r: Option<u32>)
    ensures
        r == parse_u32(s@),
{
    let n = s.unicode_len();
    let mut i: usize = 0;
    if n > 0 && s.get_char(0) == '+' {
        i = 1;
    }
    let start = i;
    let ghost d = unsigned_digits(s@);
    assert(d =~= s@.skip(start as int));
    if start == n {
        return None;
    }
    let mut acc: u64 = 0;
    while i < n
        invariant
            n == s@.len(),
            start <= i <= n,
            start < n,
            d == s@.skip(start as int),
            d == unsigned_digits(s@),
            acc <= u32::MAX,
            acc == digits_value(d.take(i - start)),
            forall|k: int| 0 <= k < i - start ==> is_digit(d[k]),
        decreases n - i,
    {
        let c = s.get_char(i);
        assert(d.take(i - start + 1).drop_last() =~= d.take(i - start));
        assert(d[i - start] == c);
        if !((c as u32) >= 48 && (c as u32) <= 57) {
            assert(!is_digit(d[i - start]));
            return None;
        }
        let next = acc * 10 + ((c as u32) - 48) as u64;
        if next > u32::MAX as u64 {
            proof {
                assert(d.take(i - start + 1).last() == c);
                assert(digits_value(d.take(i - start + 1)) == next);
                lemma_digits_value_grows(d, i - start + 1);
            }
            return None;
        }
        acc = next;
        i += 1;
    }
    assert(d.take(i - start) =~= d);
    Some(acc as u32)
}

/// Whether an index whose marker file holds `marker` (none when it could not
/// be read) is rebuilt: unless the trimmed marker reads as the current
/// version.
pub open spec fn stale(marker: Option<Seq<char>>) -> bool {
    match marker {
        Some(m) => parse_u32(trimmed(m)) != Some(SCHEMA_VERSION),
        None => true,
    }
}

/// Whether an index whose marker file holds `marker` must be rebuilt.
pub fn needs_recreate(marker: Option<&str>) -> (r: bool)
    ensures
        r == stale(
            match marker {
                Some(m) => Some(m@),
                None => None,
            },
        ),
{
    match marker {
        Some(m) => match parse_u32_text(trim(m)) {
            Some(v) => v != SCHEMA_VERSION,
            None => true,
        },
        None => true,
    }
}

/// The text written to the marker file: the current version in decimal.
pub fn marker_text() -> (r: String)
    ensures
        r@ == decimal(SCHEMA_VERSION as nat),
{
    decimal_text(SCHEMA_VERSION as u64)
}

/// What opening an index directory does.
#[derive(PartialEq, Eq, Structural, Clone, Copy, Debug)]
pub enum OpenPlan {
    /// No directory: create it and a new index in it.
    CreateFresh,
    /// A directory of another schema version: delete it, then create afresh.
    Recreate,
    /// A directory of the current version: open it; should the engine fail
    /// to open it, delete it and create afresh.
    Reuse,
}

/// The plan for a directory that exists or not, with marker `marker`.
pub open spec fn plan_for(exists: bool, marker: Option<Seq<char>>) -> OpenPlan {
    if !exists {
        OpenPlan::CreateFresh
    } else if stale(marker) {
        OpenPlan::Recreate
    } else {
        OpenPlan::Reuse
    }
}

/// What opening the index directory does, given whether it exists and what
/// its marker file holds (none when it could not be read).
pub fn open_plan(exists: bool, marker: Option<&str>) -> (r: OpenPlan)
    ensures
        r == plan_for(
            exists,
            match marker {
                Some(m) => Some(m@),
                None => None,
            },
        ),
{
    if !exists {
        OpenPlan::CreateFresh
    } else if needs_recreate(marker) {
        OpenPlan::Recreate
    } else {
        OpenPlan::Reuse
    }
}

/// A directory whose marker is missing, unreadable as a number, or of another
/// version is discarded and rebuilt.
pub proof fn lemma_version_mismatch_recreates(marker: Option<Seq<char>>)
    requires
        match marker {
            Some(m) => parse_u32(trimmed(m)) != Some(SCHEMA_VERSION),
            None => true,
        },
    ensures
        plan_for(true, marker) == OpenPlan::Recreate,
{
}

/// The marker written after any (re)creation makes the next opening reuse
/// the index.
pub proof fn lemma_written_marker_is_current()
    ensures
        plan_for(true, Some(decimal(SCHEMA_VERSION as nat))) == OpenPlan::Reuse,
{
    let m = decimal(SCHEMA_VERSION as nat);
    assert(m =~= seq!['2']);
    assert(trimmed(m) =~= seq!['2']) by {
        reveal_with_fuel(crate::text::trim_start, 2);
        reveal_with_fuel(crate::text::trim_end, 2);
        assert(seq!['2'].drop_first() =~= Seq::<char>::empty());
        assert(seq!['2'].drop_last() =~= Seq::<char>::empty());
    }
    assert(unsigned_digits(seq!['2']) =~= seq!['2']);
    assert(seq!['2'].drop_last() =~= Seq::<char>::empty());
    reveal_with_fuel(digits_value, 2);
    assert(digits_value(seq!['2']) == 2);
}

} // verus!
