//! The requests that the tool layer accepts, and the text replies it gives
//! for searches, listings, status and indexing.
use vstd::prelude::*;
use crate::codec::{decimal, decimal_text};
use crate::index::{IndexStatus, SearchOutput, SearchResult};
use crate::text::views;

verus! {

/// Results returned by a search that names no limit.
pub const DEFAULT_SEARCH_LIMIT: usize = 10;

/// A keyword search.
pub struct SearchRequest {
    pub query: String,
    pub limit: Option<usize>,
    pub file_type: Option<String>,
    pub path_prefix: Option<String>,
}

/// Files or directories to index and watch.
pub struct IndexPathsRequest {
    pub paths: Vec<String>,
}

/// An indexed file to read.
pub struct ReadFileRequest {
    pub path: String,
}

/// A listing of indexed files.
pub struct ListFilesRequest {
    pub file_type: Option<String>,
    pub path_prefix: Option<String>,
}

impl SearchRequest {
    /// The number of results asked for, `DEFAULT_SEARCH_LIMIT` when none is.
    pub fn effective_limit(&self) -> (r: usize)
        ensures
            r == match self.limit {
                Some(n) => n,
                None => DEFAULT_SEARCH_LIMIT,
            },
    {
        match self.limit {
            Some(n) => n,
            None => DEFAULT_SEARCH_LIMIT,
        }
    }
}

/// `items` joined, with `sep` between each two.
pub open spec fn joined(items: Seq<Seq<char>>, sep: Seq<char>) -> Seq<char>
    decreases items.len(),
{
    if items.len() == 0 {
        Seq::empty()
    } else if items.len() == 1 {
        items[0]
    } else {
        joined(items.drop_last(), sep) + sep + items.last()
    }
}

/// `items` joined, with `sep` between each two.
pub fn join(items: &Vec<String>, sep: &str) -> (r: String)
    ensures
        r@ == joined(views(items@), sep@),
{
    let mut out = String::new();
    let mut k: usize = 0;
    while k < items.len()
        invariant
            k <= items@.len(),
            out@ == joined(views(items@.take(k as int)), sep@),
        decreases items@.len() - k,
    {
        let ghost prev = views(items@.take(k as int));
        assert(views(items@.take(k + 1)) =~= prev.push(items@[k as int]@));
        assert(views(items@.take(k + 1)).drop_last() =~= prev);
        if k > 0 {
            out.append(sep);
        } else {
            assert(out@ =~= Seq::<char>::empty());
        }
        out.append(items[k].as_str());
        k += 1;
    }
    assert(items@.take(k as int) =~= items@);
    out
}

/// The reply to a listing: the paths one per line and their count, or a
/// sentence saying that none matched.
pub open spec fn listing_reply(files: Seq<Seq<char>>) -> Seq<char> {
    if files.len() == 0 {
        "No indexed files match the given filters."@
    } else {
        joined(files, "\n"@) + "\n\n("@ + decimal(files.len()) + " files)"@
    }
}

/// The reply to a listing of `files`.
pub fn render_listing(files: &Vec<String>) -> (r: String)
    ensures
        r@ == listing_reply(views(files@)),
{
    if files.len() == 0 {
        return String::from_str("No indexed files match the given filters.");
    }
    let mut out = join(files, "\n");
    out.append("\n\n(");
    let count = decimal_text(files.len() as u64);
    out.append(count.as_str());
    out.append(" files)");
    out
}

/// The reply to a status request.
pub open spec fn status_reply(num_files: nat, roots: Seq<Seq<char>>, location: Seq<char>) -> Seq<
    char,
> {
    "Index Status:\n  Files indexed: "@ + decimal(num_files) + "\n  Watched paths: "@ + (if roots.len()
        == 0 {
        "(none)"@
    } else {
        joined(roots, ", "@)
    }) + "\n  Index location: "@ + location
}

/// The reply to a status request for `status`.
pub fn render_status(status: &IndexStatus) -> (r: String)
    ensures
        r@ == status_reply(
            status.num_files as nat,
            views(status.watched_paths@),
            status.index_path@,
        ),
{
    let mut out = String::from_str("Index Status:\n  Files indexed: ");
    let count = decimal_text(status.num_files as u64);
    out.append(count.as_str());
    out.append("\n  Watched paths: ");
    if status.watched_paths.len() == 0 {
        out.append("(none)");
    } else {
        let roots = join(&status.watched_paths, ", ");
        out.append(roots.as_str());
    }
    out.append("\n  Index location: ");
    out.append(status.index_path.as_str());
    out
}

/// The reply to an indexing request that counted `indexed` files and met
/// `errors`.
pub open spec fn indexing_reply(indexed: nat, errors: Seq<Seq<char>>) -> Seq<char> {
    "Indexed "@ + decimal(indexed) + " files."@ + if errors.len() == 0 {
        Seq::empty()
    } else {
        "\nErrors:\n"@ + joined(errors, "\n"@)
    }
}

/// The reply to an indexing request.
pub fn render_indexing(indexed: u64, errors: &Vec<String>) -> (r: String)
    ensures
        r@ == indexing_reply(indexed as nat, views(errors@)),
{
    let mut out = String::from_str("Indexed ");
    let count = decimal_text(indexed);
    out.append(count.as_str());
    out.append(" files.");
    if errors.len() > 0 {
        out.append("\nErrors:\n");
        let lines = join(errors, "\n");
        out.append(lines.as_str());
    }
    out
}

/// The path of a result as shown: with `:line` when a line is known.
pub open spec fn shown_path(r: SearchResult) -> Seq<char> {
    match r.line_number {
        Some(ln) => r.file_path@ + ":"@ + decimal(ln as nat),
        None => r.file_path@,
    }
}

/// The lines for the results `results`, numbered from `first`, each with its
/// score written as in `scores`.
pub open spec fn results_text(results: Seq<SearchResult>, scores: Seq<Seq<char>>, first: nat) -> Seq<
    char,
>
    decreases results.len(),
{
    if results.len() == 0 {
        Seq::empty()
    } else {
        let n = (first + results.len() - 1) as nat;
        let r = results.last();
        results_text(results.drop_last(), scores.drop_last(), first) + decimal(n) + ". "@
            + r.file_name@ + " (score: "@ + scores.last() + ")\n   Path: "@ + shown_path(r)
            + "\n   Snippet: "@ + r.snippet@ + "\n\n"@
    }
}

/// The reply to a search that returned `results` out of `total`, with each
/// score written as in `scores`.
pub open spec fn search_reply(results: Seq<SearchResult>, scores: Seq<Seq<char>>, total: nat) -> Seq<
    char,
> {
    if results.len() == 0 {
        "No results found."@
    } else {
        results_text(results, scores, 1) + if total > results.len() {
            "(showing "@ + decimal(results.len()) + " of "@ + decimal(total) + " total matches)\n"@
        } else {
            Seq::empty()
        }
    }
}

/// The reply to a search whose output is `output`, the score of each result
/// written as in `scores`.
pub fn render_search(output: &SearchOutput, scores: &Vec<String>) -> (r: String)
    requires
        scores@.len() == output.results@.len(),
    ensures
        r@ == search_reply(output.results@, views(scores@), output.total_count as nat),
{
    let n = output.results.len();
    if n == 0 {
        return String::from_str("No results found.");
    }
    let mut out = String::new();
    let mut i: usize = 0;
    while i < n
        invariant
            n == output.results@.len(),
            n == scores@.len(),
            i <= n,
            out@ == results_text(output.results@.take(i as int), views(scores@).take(i as int), 1),
        decreases n - i,
    {
        let r = &output.results[i];
        let ghost prev_r = output.results@.take(i as int);
        let ghost prev_s = views(scores@).take(i as int);
        assert(output.results@.take(i + 1).drop_last() =~= prev_r);
        assert(views(scores@).take(i + 1).drop_last() =~= prev_s);
        let number = decimal_text((i + 1) as u64);
        out.append(number.as_str());
        out.append(". ");
        out.append(r.file_name.as_str());
        out.append(" (score: ");
        out.append(scores[i].as_str());
        out.append(")\n   Path: ");
        out.append(r.file_path.as_str());
        match r.line_number {
            Some(ln) => {
                out.append(":");
                let line = decimal_text(ln as u64);
                out.append(line.as_str());
            },
            None => {},
        }
        out.append("\n   Snippet: ");
        out.append(r.snippet.as_str());
        out.append("\n\n");
        proof {
            let t = output.results@.take(i + 1);
            assert(t.last() == output.results@[i as int]);
            assert(views(scores@).take(i + 1).last() == scores@[i as int]@);
            assert(out@ =~= results_text(t, views(scores@).take(i + 1), 1));
        }
        i += 1;
    }
    assert(output.results@.take(n as int) =~= output.results@);
    assert(views(scores@).take(n as int) =~= views(scores@));
    if output.total_count > n {
        out.append("(showing ");
        let shown = decimal_text(n as u64);
        out.append(shown.as_str());
        out.append(" of ");
        let total = decimal_text(output.total_count as u64);
        out.append(total.as_str());
        out.append(" total matches)\n");
    }
    out
}

} // verus!
