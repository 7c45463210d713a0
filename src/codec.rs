//! Which files are indexed, and the document that stands for each of them.
use vstd::prelude::*;
use crate::text::{lower_of, same_text, to_lower};

verus! {

/// Files larger than this many bytes are skipped.
pub const MAX_FILE_SIZE: u64 = 10 * 1024 * 1024;

/// Name of what `Path::file_name` returns for a path: its final component,
/// unless the path ends in `..` or has none.
pub uninterp spec fn file_name_of(p: Seq<char>) -> Option<Seq<char>>;

/// Name of what `Path::parent` returns for a path: the path without its final
/// component, unless it ends in a root or is empty.
pub uninterp spec fn parent_of(p: Seq<char>) -> Option<Seq<char>>;

/// The index of the last `.` in `n`.
pub open spec fn last_dot(n: Seq<char>) -> Option<int>
    decreases n.len(),
{
    if n.len() == 0 {
        None
    } else if n.last() == '.' {
        Some(n.len() - 1)
    } else {
        last_dot(n.drop_last())
    }
}

/// The extension of a file name: what follows its last `.`, unless it has no
/// `.` or its only `.` is its first character.
pub open spec fn extension_of_name(n: Seq<char>) -> Option<Seq<char>> {
    match last_dot(n) {
        Some(i) => if i == 0 {
            None
        } else {
            Some(n.subrange(i + 1, n.len() as int))
        },
        None => None,
    }
}

/// The extension of a path: that of its file name.
pub open spec fn extension_of(p: Seq<char>) -> Option<Seq<char>> {
    match file_name_of(p) {
        Some(n) => extension_of_name(n),
        None => None,
    }
}

/// The characters of an optional string.
pub open spec fn opt_view(o: Option<String>) -> Option<Seq<char>> {
    match o {
        Some(s) => Some(s@),
        None => None,
    }
}

/// `o`'s characters, or none.
pub open spec fn or_empty(o: Option<Seq<char>>) -> Seq<char> {
    match o {
        Some(s) => s,
        None => Seq::empty(),
    }
}

/// Relies on `Path::file_name`: the final component of the path; as the path
/// is UTF-8, so is the component, and the conversion to `String` is exact.
#[verifier::external_body]
pub fn path_file_name(p: &str) -> (r: Option<String>)
    ensures
        opt_view(r) == file_name_of(p@),
{
    std::path::Path::new(p).file_name().map(|n| n.to_string_lossy().into_owned())
}

/// Relies on `Path::parent`: the path without its final component.
#[verifier::external_body]
pub fn path_parent(p: &str) -> (r: Option<String>)
    ensures
        opt_view(r) == parent_of(p@),
{
    std::path::Path::new(p).parent().map(|d| d.to_string_lossy().into_owned())
}

/// The extension of the file name `n`: what follows its last `.`, unless it
/// has none or its only `.` comes first.
pub fn name_extension(n: &str) -> (r: Option<String>)
    ensures
        opt_view(r) == extension_of_name(n@),
{
    let len = n.unicode_len();
    let mut i: usize = len;
    assert(n@.take(len as int) =~= n@);
    while i > 0 && n.get_char(i - 1) != '.'
        invariant
            len == n@.len(),
            i <= len,
            last_dot(n@) == last_dot(n@.take(i as int)),
        decreases i,
    {
        assert(n@.take(i as int).drop_last() =~= n@.take(i - 1));
        i -= 1;
    }
    if i == 0 {
        assert(n@.take(0) =~= Seq::<char>::empty());
        None
    } else {
        assert(n@.take(i as int).last() == n@[i - 1]);
        if i == 1 {
            None
        } else {
            Some(String::from_str(n.substring_char(i, len)))
        }
    }
}

/// The extension of the path `p` (what `Path::extension` gives): that of its
/// file name.
pub fn path_extension(p: &str) -> (r: Option<String>)
    ensures
        opt_view(r) == extension_of(p@),
{
    match path_file_name(p) {
        Some(name) => name_extension(name.as_str()),
        None => None,
    }
}

/// Extensionless file names that are indexed (compared in lowercase).
pub open spec fn is_known_file_name(n: Seq<char>) -> bool {
    n == "makefile"@ || n == "dockerfile"@
}

/// Extensions of text-like formats that are indexed (compared in lowercase).
pub open spec fn is_text_extension(e: Seq<char>) -> bool {
    e == "txt"@ || e == "md"@ || e == "rs"@ || e == "py"@ || e == "js"@ || e == "ts"@ || e
        == "jsx"@ || e == "tsx"@ || e == "json"@ || e == "toml"@ || e == "yaml"@ || e == "yml"@
        || e == "html"@ || e == "css"@ || e == "scss"@ || e == "sh"@ || e == "bash"@ || e
        == "zsh"@ || e == "c"@ || e == "cpp"@ || e == "h"@ || e == "hpp"@ || e == "java"@ || e
        == "go"@ || e == "rb"@ || e == "php"@ || e == "sql"@ || e == "xml"@ || e == "csv"@ || e
        == "log"@ || e == "cfg"@ || e == "conf"@ || e == "ini"@ || e == "env"@ || e
        == "makefile"@ || e == "dockerfile"@
}

/// Whether the file at `p` is indexed: its lowercase name is a known
/// extensionless name, or its lowercase extension a text format.
pub open spec fn supported(p: Seq<char>) -> bool {
    (match file_name_of(p) {
        Some(n) => is_known_file_name(lower_of(n)),
        None => false,
    }) || (match extension_of(p) {
        Some(e) => is_text_extension(lower_of(e)),
        None => false,
    })
}

/// Whether `lower_name`, a lowercase file name, is a known extensionless name.
pub fn is_supported_name(lower_name: &str) -> (r: bool)
    ensures
        r == is_known_file_name(lower_name@),
{
    same_text(lower_name, "makefile") || same_text(lower_name, "dockerfile")
}

/// Whether `lower_ext`, a lowercase extension, is that of a text format.
pub fn is_supported_extension(lower_ext: &str) -> (r: bool)
    ensures
        r == is_text_extension(lower_ext@),
{
    let e = lower_ext;
    same_text(e, "txt") || same_text(e, "md") || same_text(e, "rs") || same_text(e, "py")
        || same_text(e, "js") || same_text(e, "ts") || same_text(e, "jsx") || same_text(e, "tsx")
        || same_text(e, "json") || same_text(e, "toml") || same_text(e, "yaml") || same_text(
        e,
        "yml",
    ) || same_text(e, "html") || same_text(e, "css") || same_text(e, "scss") || same_text(
        e,
        "sh",
    ) || same_text(e, "bash") || same_text(e, "zsh") || same_text(e, "c") || same_text(e, "cpp")
        || same_text(e, "h") || same_text(e, "hpp") || same_text(e, "java") || same_text(e, "go")
        || same_text(e, "rb") || same_text(e, "php") || same_text(e, "sql") || same_text(e, "xml")
        || same_text(e, "csv") || same_text(e, "log") || same_text(e, "cfg") || same_text(
        e,
        "conf",
    ) || same_text(e, "ini") || same_text(e, "env") || same_text(e, "makefile") || same_text(
        e,
        "dockerfile",
    )
}

/// Whether the file at `path` is of a kind that is indexed.
pub fn is_supported(path: &str) -> (r: bool)
    ensures
        r == supported(path@),
{
    match path_file_name(path) {
        Some(name) => {
            let lower = to_lower(name.as_str());
            if is_supported_name(lower.as_str()) {
                return true;
            }
        },
        None => {},
    }
    match path_extension(path) {
        Some(ext) => {
            let lower = to_lower(ext.as_str());
            is_supported_extension(lower.as_str())
        },
        None => false,
    }
}

/// Whether a file of `size` bytes is small enough to be indexed.
pub fn within_size_limit(size: u64) -> (r: bool)
    ensures
        r == (size <= MAX_FILE_SIZE),
{
    size <= MAX_FILE_SIZE
}

/// The decimal digit `d`.
pub open spec fn digit_char(d: nat) -> char {
    if d == 0 {
        '0'
    } else if d == 1 {
        '1'
    } else if d == 2 {
        '2'
    } else if d == 3 {
        '3'
    } else if d == 4 {
        '4'
    } else if d == 5 {
        '5'
    } else if d == 6 {
        '6'
    } else if d == 7 {
        '7'
    } else if d == 8 {
        '8'
    } else {
        '9'
    }
}

/// `n` in decimal, without leading zeros.
pub open spec fn decimal(n: nat) -> Seq<char>
    decreases n,
{
    if n < 10 {
        seq![digit_char(n)]
    } else {
        decimal(n / 10).push(digit_char(n % 10))
    }
}

fn digit_text(d: u64) -> (r: &'static str)
    requires
        d < 10,
    ensures
        r@ == seq![digit_char(d as nat)],
{
    if d == 0 {
        proof {
            reveal_strlit("0");
        }
        "0"
    } else if d == 1 {
        proof {
            reveal_strlit("1");
        }
        "1"
    } else if d == 2 {
        proof {
            reveal_strlit("2");
        }
        "2"
    } else if d == 3 {
        proof {
            reveal_strlit("3");
        }
        "3"
    } else if d == 4 {
        proof {
            reveal_strlit("4");
        }
        "4"
    } else if d == 5 {
        proof {
            reveal_strlit("5");
        }
        "5"
    } else if d == 6 {
        proof {
            reveal_strlit("6");
        }
        "6"
    } else if d == 7 {
        proof {
            reveal_strlit("7");
        }
        "7"
    } else if d == 8 {
        proof {
            reveal_strlit("8");
        }
        "8"
    } else {
        proof {
            reveal_strlit("9");
        }
        "9"
    }
}

/// `n` written in decimal.
pub fn decimal_text(n: u64) -> (r: String)
    ensures
        r@ == decimal(n as nat),
    decreases n,
{
    if n < 10 {
        String::from_str(digit_text(n))
    } else {
        let mut s = decimal_text(n / 10);
        s.append(digit_text(n % 10));
        s
    }
}

/// One indexed file's searchable state.
#[derive(Debug)]
pub struct FileDocument {
    /// The file's path: the document's key.
    pub file_path: String,
    /// The final component of the path.
    pub file_name: String,
    /// The file's text.
    pub content: String,
    /// Seconds since the epoch of the last change, then `s`.
    pub last_modified: String,
    /// The lowercase extension, empty when there is none.
    pub extension: String,
    /// The parent directory, empty when there is none.
    pub directory: String,
}

/// What was read of a file: its path, size, text (none when it could not be
/// read as UTF-8 text, or was not read) and time of last change.
#[derive(Debug)]
pub struct FileSnapshot {
    pub path: String,
    pub size: u64,
    pub content: Option<String>,
    pub modified_secs: u64,
}

/// Whether the document built for `path` from `content` changed at
/// `modified_secs` is `d`.
pub open spec fn is_document_of(
    d: FileDocument,
    path: Seq<char>,
    content: Seq<char>,
    modified_secs: nat,
) -> bool {
    &&& d.file_path@ == path
    &&& d.file_name@ == or_empty(file_name_of(path))
    &&& d.content@ == content
    &&& d.last_modified@ == decimal(modified_secs).push('s')
    &&& d.extension@ == lower_of(or_empty(extension_of(path)))
    &&& d.directory@ == or_empty(parent_of(path))
}

/// Whether `f` is indexed: a supported kind, within the size limit, read as
/// text.
pub open spec fn accepts(f: FileSnapshot) -> bool {
    supported(f.path@) && f.size <= MAX_FILE_SIZE && f.content is Some
}

impl FileDocument {
    /// The document for the file at `path` with text `content`, last changed
    /// `modified_secs` seconds after the epoch.
    pub fn from_file(path: &str, content: String, modified_secs: u64) -> (r: FileDocument)
        ensures
            is_document_of(r, path@, content@, modified_secs as nat),
    {
        let file_name = match path_file_name(path) {
            Some(n) => n,
            None => String::new(),
        };
        let ext = match path_extension(path) {
            Some(e) => e,
            None => String::new(),
        };
        let extension = to_lower(ext.as_str());
        let directory = match path_parent(path) {
            Some(d) => d,
            None => String::new(),
        };
        let mut last_modified = decimal_text(modified_secs);
        proof {
            reveal_strlit("s");
        }
        last_modified.append("s");
        assert(last_modified@ =~= decimal(modified_secs as nat).push('s'));
        FileDocument {
            file_path: String::from_str(path),
            file_name,
            content,
            last_modified,
            extension,
            directory,
        }
    }
}

/// The document that indexing `file` produces, or none when `file` is
/// skipped.
pub fn document_for(file: FileSnapshot) -> (r: Option<FileDocument>)
    ensures
        r is Some <==> accepts(file),
        r matches Some(d) ==> is_document_of(
            d,
            file.path@,
            file.content->0@,
            file.modified_secs as nat,
        ),
{
    if !is_supported(file.path.as_str()) || !within_size_limit(file.size) {
        return None;
    }
    match file.content {
        Some(c) => Some(FileDocument::from_file(file.path.as_str(), c, file.modified_secs)),
        None => None,
    }
}

} // verus!
