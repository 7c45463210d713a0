//! The in-memory record of which paths are indexed, kept in byte order
//! without duplicates, and of which roots were registered.
use vstd::prelude::*;
use vstd::utf8::*;
use vstd::string::StringSliceAdditionalSpecFns;
use crate::codec::{extension_of, path_extension};
use crate::query::opt_str_view;
use crate::text::{find_bytes, first_occurrence, same_text, views};

verus! {

broadcast use group_utf8_lib;

/// Byte-wise lexicographic order, the order of `str`'s `Ord`.
pub open spec fn bytes_lt(a: Seq<u8>, b: Seq<u8>) -> bool
    decreases a.len(),
{
    if a.len() == 0 {
        b.len() > 0
    } else if b.len() == 0 {
        false
    } else if a[0] != b[0] {
        a[0] < b[0]
    } else {
        bytes_lt(a.drop_first(), b.drop_first())
    }
}

/// The order of two texts: that of their UTF-8 bytes.
pub open spec fn text_lt(a: Seq<char>, b: Seq<char>) -> bool {
    bytes_lt(encode_utf8(a), encode_utf8(b))
}

/// Each text comes strictly before the next: sorted, with no duplicates.
pub open spec fn strictly_sorted(s: Seq<Seq<char>>) -> bool {
    forall|i: int, j: int| 0 <= i < j < s.len() ==> #[trigger] text_lt(s[i], s[j])
}

proof fn lemma_bytes_lt_irreflexive(a: Seq<u8>)
    ensures
        !bytes_lt(a, a),
    decreases a.len(),
{
    if a.len() > 0 {
        lemma_bytes_lt_irreflexive(a.drop_first());
    }
}

proof fn lemma_bytes_lt_transitive(a: Seq<u8>, b: Seq<u8>, c: Seq<u8>)
    requires
        bytes_lt(a, b),
        bytes_lt(b, c),
    ensures
        bytes_lt(a, c),
    decreases a.len(),
{
    if a.len() > 0 && b.len() > 0 && c.len() > 0 && a[0] == b[0] && b[0] == c[0] {
        lemma_bytes_lt_transitive(a.drop_first(), b.drop_first(), c.drop_first());
    }
}

proof fn lemma_bytes_lt_total(a: Seq<u8>, b: Seq<u8>)
    ensures
        a == b || bytes_lt(a, b) || bytes_lt(b, a),
    decreases a.len(),
{
    if a.len() > 0 && b.len() > 0 && a[0] == b[0] {
        lemma_bytes_lt_total(a.drop_first(), b.drop_first());
        if a.drop_first() == b.drop_first() {
            assert(a =~= seq![a[0]] + a.drop_first());
            assert(b =~= seq![b[0]] + b.drop_first());
        }
    } else if a.len() == 0 && b.len() == 0 {
        assert(a =~= b);
    }
}

proof fn lemma_text_lt_facts(a: Seq<char>, b: Seq<char>)
    ensures
        !text_lt(a, a),
        a == b || text_lt(a, b) || text_lt(b, a),
        !(text_lt(a, b) && text_lt(b, a)),
{
    lemma_bytes_lt_irreflexive(encode_utf8(a));
    lemma_bytes_lt_total(encode_utf8(a), encode_utf8(b));
    if text_lt(a, b) && text_lt(b, a) {
        lemma_bytes_lt_transitive(encode_utf8(a), encode_utf8(b), encode_utf8(a));
        lemma_bytes_lt_irreflexive(encode_utf8(a));
    }
    if encode_utf8(a) == encode_utf8(b) {
        assert(decode_utf8(encode_utf8(a)) == a);
        assert(decode_utf8(encode_utf8(b)) == b);
    }
}

proof fn lemma_text_lt_transitive(a: Seq<char>, b: Seq<char>, c: Seq<char>)
    requires
        text_lt(a, b),
        text_lt(b, c),
    ensures
        text_lt(a, c),
{
    lemma_bytes_lt_transitive(encode_utf8(a), encode_utf8(b), encode_utf8(c));
}

/// How `a` compares with `b` in byte order: negative before, 0 equal,
/// positive after.
pub fn compare_bytes(a: &[u8], b: &[u8]) -> (r: i8)
    ensures
        r < 0 <==> bytes_lt(a@, b@),
        r == 0 <==> a@ == b@,
        r > 0 <==> bytes_lt(b@, a@),
{
    proof {
        lemma_bytes_lt_irreflexive(a@);
        lemma_bytes_lt_total(a@, b@);
        if bytes_lt(a@, b@) && bytes_lt(b@, a@) {
            lemma_bytes_lt_transitive(a@, b@, a@);
        }
    }
    let mut i: usize = 0;
    assert(a@.skip(0) =~= a@);
    assert(b@.skip(0) =~= b@);
    assert(a@.take(0) =~= b@.take(0));
    while i < a.len() && i < b.len() && a[i] == b[i]
        invariant
            i <= a@.len(),
            i <= b@.len(),
            a@.take(i as int) == b@.take(i as int),
            bytes_lt(a@, b@) == bytes_lt(a@.skip(i as int), b@.skip(i as int)),
            bytes_lt(b@, a@) == bytes_lt(b@.skip(i as int), a@.skip(i as int)),
        decreases a@.len() - i,
    {
        assert(a@.skip(i as int).drop_first() =~= a@.skip(i + 1));
        assert(b@.skip(i as int).drop_first() =~= b@.skip(i + 1));
        assert(a@.take(i + 1) =~= a@.take(i as int).push(a@[i as int]));
        assert(b@.take(i + 1) =~= b@.take(i as int).push(b@[i as int]));
        i += 1;
    }
    if i == a.len() && i == b.len() {
        assert(a@ =~= a@.take(i as int));
        assert(b@ =~= b@.take(i as int));
        0
    } else if i == a.len() {
        -1
    } else if i == b.len() {
        1
    } else if a[i] < b[i] {
        -1
    } else {
        1
    }
}

/// How text `a` compares with text `b`.
pub fn compare_text(a: &str, b: &str) -> (r: i8)
    ensures
        r < 0 <==> text_lt(a@, b@),
        r == 0 <==> a@ == b@,
        r > 0 <==> text_lt(b@, a@),
{
    proof {
        lemma_text_lt_facts(a@, b@);
    }
    compare_bytes(a.as_bytes(), b.as_bytes())
}

/// The set of paths that are indexed, listed in byte order.
pub struct PathCatalog {
    paths: Vec<String>,
}

impl PathCatalog {
    /// The indexed paths, in byte order.
    pub closed spec fn entries(&self) -> Seq<Seq<char>> {
        views(self.paths@)
    }

    /// The set of indexed paths.
    pub open spec fn view(&self) -> Set<Seq<char>> {
        self.entries().to_set()
    }

    pub closed spec fn wf(&self) -> bool {
        strictly_sorted(self.entries())
    }

    /// An empty catalog.
    pub fn new() -> (r: PathCatalog)
        ensures
            r.wf(),
            r.entries() == Seq::<Seq<char>>::empty(),
    {
        let r = PathCatalog { paths: Vec::new() };
        assert(r.entries() =~= Seq::<Seq<char>>::empty());
        r
    }

    /// The listing is in byte order without duplicates.
    pub proof fn lemma_entries_sorted(&self)
        requires
            self.wf(),
        ensures
            strictly_sorted(self.entries()),
    {
    }

    /// The number of indexed paths.
    pub fn len(&self) -> (r: usize)
        requires
            self.wf(),
        ensures
            r == self@.len(),
            r == self.entries().len(),
    {
        proof {
            self.lemma_no_duplicates();
            self.entries().unique_seq_to_set();
        }
        self.paths.len()
    }

    proof fn lemma_no_duplicates(&self)
        requires
            self.wf(),
        ensures
            self.entries().no_duplicates(),
    {
        assert forall|i: int, j: int|
            0 <= i < self.entries().len() && 0 <= j < self.entries().len() && i != j implies
            self.entries()[i] != self.entries()[j] by {
            lemma_text_lt_facts(self.entries()[i], self.entries()[j]);
            if i < j {
                assert(text_lt(self.entries()[i], self.entries()[j]));
            } else {
                assert(text_lt(self.entries()[j], self.entries()[i]));
            }
        }
    }

    /// The position at which `p` stands or would stand: the first entry that
    /// does not come before it.
    fn position(&self, p: &str) -> (r: usize)
        requires
            self.wf(),
        ensures
            r <= self.entries().len(),
            forall|k: int| 0 <= k < r ==> text_lt(#[trigger] self.entries()[k], p@),
            r < self.entries().len() ==> !text_lt(self.entries()[r as int], p@),
    {
        let mut i: usize = 0;
        while i < self.paths.len()
            invariant
                i <= self.entries().len(),
                self.entries().len() == self.paths@.len(),
                forall|k: int| 0 <= k < i ==> text_lt(#[trigger] self.entries()[k], p@),
            decreases self.paths@.len() - i,
        {
            if compare_text(self.paths[i].as_str(), p) >= 0 {
                return i;
            }
            i += 1;
        }
        i
    }

    /// Whether `p` is indexed.
    pub fn contains(&self, p: &str) -> (r: bool)
        requires
            self.wf(),
        ensures
            r == self@.contains(p@),
    {
        let i = self.position(p);
        let found = i < self.paths.len() && same_text(self.paths[i].as_str(), p);
        proof {
            if !found && self.entries().contains(p@) {
                let k = self.entries().index_of(p@);
                lemma_text_lt_facts(p@, p@);
                if k < i {
                    assert(text_lt(self.entries()[k], p@));
                } else if k > i {
                    assert(text_lt(self.entries()[i as int], self.entries()[k]));
                    lemma_text_lt_facts(self.entries()[i as int], p@);
                }
            }
        }
        found
    }

    /// Records `p` as indexed.
    pub fn insert(&mut self, p: &str)
        requires
            old(self).wf(),
        ensures
            final(self).wf(),
            final(self)@ == old(self)@.insert(p@),
    {
        let i = self.position(p);
        if i < self.paths.len() && same_text(self.paths[i].as_str(), p) {
            assert(self@.contains(p@)) by {
                assert(self.entries()[i as int] == p@);
            }
            assert(self@ =~= self@.insert(p@));
            return;
        }
        let ghost before = self.entries();
        proof {
            if i < before.len() {
                lemma_text_lt_facts(before[i as int], p@);
            }
        }
        self.paths.insert(i, String::from_str(p));
        let ghost after = self.entries();
        assert(after =~= before.insert(i as int, p@));
        assert forall|a: int, b: int| 0 <= a < b < after.len() implies #[trigger] text_lt(
            after[a],
            after[b],
        ) by {
            if b < i {
                assert(text_lt(before[a], before[b]));
            } else if b == i {
                assert(text_lt(before[a], p@));
            } else if a == i {
                assert(text_lt(p@, before[i as int]));
                if b - 1 > i {
                    assert(text_lt(before[i as int], before[b - 1]));
                    lemma_text_lt_transitive(p@, before[i as int], before[b - 1]);
                }
            } else if a < i {
                assert(text_lt(before[a], before[b - 1]));
            } else {
                assert(text_lt(before[a - 1], before[b - 1]));
            }
        }
        assert(after.to_set() =~= before.to_set().insert(p@)) by {
            assert forall|x: Seq<char>| after.contains(x) <==> before.contains(x) || x == p@ by {
                if after.contains(x) {
                    let k = after.index_of(x);
                    if k < i {
                        assert(before[k] == x);
                    } else if k > i {
                        assert(before[k - 1] == x);
                    }
                }
                if before.contains(x) {
                    let k = before.index_of(x);
                    if k < i {
                        assert(after[k] == x);
                    } else {
                        assert(after[k + 1] == x);
                    }
                }
                if x == p@ {
                    assert(after[i as int] == x);
                }
            }
        }
    }

    /// Records `p` as no longer indexed.
    pub fn remove(&mut self, p: &str)
        requires
            old(self).wf(),
        ensures
            final(self).wf(),
            final(self)@ == old(self)@.remove(p@),
    {
        let i = self.position(p);
        proof {
            self.lemma_no_duplicates();
        }
        if i < self.paths.len() && same_text(self.paths[i].as_str(), p) {
            let ghost before = self.entries();
            self.paths.remove(i);
            let ghost after = self.entries();
            assert(after =~= before.remove(i as int));
            assert forall|a: int, b: int| 0 <= a < b < after.len() implies #[trigger] text_lt(
                after[a],
                after[b],
            ) by {
                if b < i {
                    assert(text_lt(before[a], before[b]));
                } else if a < i {
                    assert(text_lt(before[a], before[b + 1]));
                } else {
                    assert(text_lt(before[a + 1], before[b + 1]));
                }
            }
            assert(after.to_set() =~= before.to_set().remove(p@)) by {
                assert forall|x: Seq<char>| after.contains(x) <==> before.contains(x) && x != p@ by {
                    if after.contains(x) {
                        let k = after.index_of(x);
                        if k < i {
                            assert(before[k] == x);
                        } else {
                            assert(before[k + 1] == x);
                        }
                    }
                    if before.contains(x) && x != p@ {
                        let k = before.index_of(x);
                        if k < i {
                            assert(after[k] == x);
                        } else {
                            assert(k != i);
                            assert(after[k - 1] == x);
                        }
                    }
                }
            }
        } else {
            proof {
                if self.entries().contains(p@) {
                    let k = self.entries().index_of(p@);
                    lemma_text_lt_facts(p@, p@);
                    if k < i {
                        assert(text_lt(self.entries()[k], p@));
                    } else if k > i {
                        assert(text_lt(self.entries()[i as int], self.entries()[k]));
                        lemma_text_lt_facts(self.entries()[i as int], p@);
                    }
                }
            }
            assert(self@ =~= self@.remove(p@));
        }
    }
}

/// `b` with ASCII upper case letters turned to lower case.
pub open spec fn ascii_lower(b: u8) -> u8 {
    if 65 <= b <= 90 {
        (b + 32) as u8
    } else {
        b
    }
}

/// Whether `a` and `b` are equal but for ASCII letter case
/// (`str::eq_ignore_ascii_case`).
pub open spec fn same_ignoring_ascii_case(a: Seq<u8>, b: Seq<u8>) -> bool {
    a.len() == b.len() && forall|i: int| 0 <= i < a.len() ==> ascii_lower(a[i]) == ascii_lower(b[i])
}

/// Whether `a` and `b` are equal but for ASCII letter case.
pub fn eq_ignore_ascii_case(a: &str, b: &str) -> (r: bool)
    ensures
        r == same_ignoring_ascii_case(a.spec_bytes(), b.spec_bytes()),
{
    let x = a.as_bytes();
    let y = b.as_bytes();
    if x.len() != y.len() {
        return false;
    }
    let mut i: usize = 0;
    while i < x.len()
        invariant
            x@ == a.spec_bytes(),
            y@ == b.spec_bytes(),
            x@.len() == y@.len(),
            i <= x@.len(),
            forall|k: int| 0 <= k < i ==> ascii_lower(x@[k]) == ascii_lower(y@[k]),
        decreases x@.len() - i,
    {
        let c = x[i];
        let d = y[i];
        let lc = if 65 <= c && c <= 90 {
            c + 32
        } else {
            c
        };
        let ld = if 65 <= d && d <= 90 {
            d + 32
        } else {
            d
        };
        if lc != ld {
            return false;
        }
        i += 1;
    }
    true
}

/// Whether path `p` passes the listing filters: its extension equals `ext`
/// but for ASCII case, and `prefix` occurs anywhere in it.
pub open spec fn listed(p: Seq<char>, ext: Option<Seq<char>>, prefix: Option<Seq<char>>) -> bool {
    &&& match ext {
        Some(e) => match extension_of(p) {
            Some(x) => same_ignoring_ascii_case(encode_utf8(x), encode_utf8(e)),
            None => false,
        },
        None => true,
    }
    &&& match prefix {
        Some(s) => first_occurrence(encode_utf8(p), encode_utf8(s)) is Some,
        None => true,
    }
}

/// Whether `p` passes the listing filters `ext` and `prefix`.
pub fn passes_filters(p: &str, ext: Option<&str>, prefix: Option<&str>) -> (r: bool)
    ensures
        r == listed(p@, opt_str_view(ext), opt_str_view(prefix)),
{
    match ext {
        Some(e) => {
            match path_extension(p) {
                Some(x) => {
                    if !eq_ignore_ascii_case(x.as_str(), e) {
                        return false;
                    }
                },
                None => {
                    return false;
                },
            }
        },
        None => {},
    }
    match prefix {
        Some(s) => find_bytes(p.as_bytes(), s.as_bytes()).is_some(),
        None => true,
    }
}

impl PathCatalog {
    /// The indexed paths that pass the filters, in byte order.
    pub open spec fn listing(&self, ext: Option<Seq<char>>, prefix: Option<Seq<char>>) -> Seq<
        Seq<char>,
    > {
        self.entries().filter(|p: Seq<char>| listed(p, ext, prefix))
    }

    /// The indexed paths whose extension is `extension` (ASCII case aside) and
    /// that hold `path_prefix` anywhere, in byte order.
    pub fn list(&self, extension: Option<&str>, path_prefix: Option<&str>) -> (r: Vec<String>)
        requires
            self.wf(),
        ensures
            views(r@) == self.listing(opt_str_view(extension), opt_str_view(path_prefix)),
            strictly_sorted(views(r@)),
    {
        let ghost keep = |p: Seq<char>|
            listed(p, opt_str_view(extension), opt_str_view(path_prefix));
        let ghost all = self.entries();
        let mut out: Vec<String> = Vec::new();
        let ghost mut last: int = -1;
        let mut k: usize = 0;
        while k < self.paths.len()
            invariant
                all == self.entries(),
                all.len() == self.paths@.len(),
                strictly_sorted(all),
                keep == (|p: Seq<char>|
                    listed(p, opt_str_view(extension), opt_str_view(path_prefix))),
                k <= all.len(),
                views(out@) == all.take(k as int).filter(keep),
                strictly_sorted(views(out@)),
                -1 <= last < k,
                out@.len() > 0 ==> 0 <= last && views(out@).last() == all[last],
            decreases all.len() - k,
        {
            let ghost before = out@;
            assert(all.take(k + 1) =~= all.take(k as int).push(all[k as int]));
            reveal(Seq::filter);
            assert(all.take(k + 1).drop_last() =~= all.take(k as int));
            if passes_filters(self.paths[k].as_str(), extension, path_prefix) {
                let w = self.paths[k].clone();
                out.push(w);
                assert(views(out@) =~= views(before).push(all[k as int]));
                assert forall|a: int, b: int| 0 <= a < b < views(out@).len() implies #[trigger] text_lt(
                    views(out@)[a],
                    views(out@)[b],
                ) by {
                    if b == views(out@).len() - 1 {
                        assert(text_lt(all[last], all[k as int]));
                        if a < b - 1 {
                            assert(text_lt(views(before)[a], views(before)[b - 1]));
                            lemma_text_lt_transitive(views(before)[a], all[last], all[k as int]);
                        }
                    } else {
                        assert(text_lt(views(before)[a], views(before)[b]));
                    }
                }
                proof {
                    last = k as int;
                }
            }
            k += 1;
        }
        assert(all.take(k as int) =~= all);
        out
    }
}

/// The registered roots, in order of registration, without duplicates.
pub struct RootList {
    roots: Vec<String>,
}

impl RootList {
    pub closed spec fn view(&self) -> Seq<Seq<char>> {
        views(self.roots@)
    }

    pub open spec fn wf(&self) -> bool {
        self@.no_duplicates()
    }

    /// No roots.
    pub fn new() -> (r: RootList)
        ensures
            r.wf(),
            r@ == Seq::<Seq<char>>::empty(),
    {
        let r = RootList { roots: Vec::new() };
        assert(r@ =~= Seq::<Seq<char>>::empty());
        r
    }

    /// Registers `root`, unless it is registered already.
    pub fn add(&mut self, root: &str)
        requires
            old(self).wf(),
        ensures
            final(self).wf(),
            final(self)@ == if old(self)@.contains(root@) {
                old(self)@
            } else {
                old(self)@.push(root@)
            },
    {
        let mut i: usize = 0;
        while i < self.roots.len()
            invariant
                self.wf(),
                i <= self@.len(),
                self@.len() == self.roots@.len(),
                forall|k: int| 0 <= k < i ==> self@[k] != root@,
            decreases self.roots@.len() - i,
        {
            if same_text(self.roots[i].as_str(), root) {
                assert(self@[i as int] == root@);
                return;
            }
            i += 1;
        }
        let ghost before = self@;
        self.roots.push(String::from_str(root));
        assert(self@ =~= before.push(root@));
    }

    /// The registered roots.
    pub fn list(&self) -> (r: Vec<String>)
        ensures
            views(r@) == self@,
    {
        let mut out: Vec<String> = Vec::new();
        let mut k: usize = 0;
        while k < self.roots.len()
            invariant
                k <= self@.len(),
                self@.len() == self.roots@.len(),
                views(out@) == self@.take(k as int),
            decreases self.roots@.len() - k,
        {
            let ghost before = out@;
            let w = self.roots[k].clone();
            out.push(w);
            assert(views(out@) =~= views(before).push(w@));
            assert(self@.take(k + 1) =~= self@.take(k as int).push(self@[k as int]));
            k += 1;
        }
        assert(self@.take(k as int) =~= self@);
        out
    }
}

} // verus!
