use vstd::prelude::*;

use crate::text::{chars_of, lowercase_of, to_lower};

verus! {

/// The parts of `p` from index `i` on, split at each `/`, with `cur` the
/// part already begun.
pub open spec fn split_from(p: Seq<char>, i: int, cur: Seq<char>) -> Seq<Seq<char>>
    decreases p.len() - i,
{
    if i < 0 || i >= p.len() {
        seq![cur]
    } else if p[i] == '/' {
        seq![cur] + split_from(p, i + 1, Seq::empty())
    } else {
        split_from(p, i + 1, cur.push(p[i]))
    }
}

/// The parts of a path between its separators, empty ones included.
pub open spec fn path_parts(p: Seq<char>) -> Seq<Seq<char>> {
    split_from(p, 0, Seq::empty())
}

/// The parts that name something: neither empty (repeated or trailing
/// separators) nor `.`.
pub open spec fn named_parts(parts: Seq<Seq<char>>) -> Seq<Seq<char>> {
    parts.filter(|s: Seq<char>| s.len() > 0 && s != "."@)
}

/// The components of a path as `Path::components` gives them on Unix: the
/// root `/` for a path that starts at it, `.` for a relative path whose first
/// part is `.`, then each part that names something (`..` included).
/// Repeated separators, a trailing separator and `.` elsewhere are left out.
pub open spec fn path_components(p: Seq<char>) -> Seq<Seq<char>> {
    let parts = path_parts(p);
    let lead = if p.len() > 0 && p[0] == '/' {
        seq!["/"@]
    } else if parts[0] == "."@ {
        seq!["."@]
    } else {
        Seq::empty()
    };
    lead + named_parts(parts)
}

/// The last component of a path, as `Path::file_name` finds it: the last
/// part that names something, unless there is none or it is `..`.
pub open spec fn file_name_of(path: Seq<char>) -> Option<Seq<char>> {
    let n = named_parts(path_parts(path));
    if n.len() > 0 && n.last() != ".."@ {
        Some(n.last())
    } else {
        None
    }
}

/// The index of the last `.` in `s`, or -1.
pub open spec fn last_dot(s: Seq<char>) -> int
    decreases s.len(),
{
    if s.len() == 0 {
        -1
    } else if s.last() == '.' {
        s.len() - 1
    } else {
        last_dot(s.drop_last())
    }
}

/// The extension of a path, as `Path::extension` finds it: what follows the
/// last `.` of its file name, where something comes before that `.`.
pub open spec fn extension_of(path: Seq<char>) -> Option<Seq<char>> {
    match file_name_of(path) {
        Some(n) => if last_dot(n) > 0 {
            Some(n.skip(last_dot(n) + 1))
        } else {
            None
        },
        None => None,
    }
}

/// Calls `==` on two `Path`s, which compares their components.
#[verifier::external_body]
pub(crate) fn path_eq(a: &str, b: &str) -> (r: bool)
    ensures
        r == (path_components(a@) == path_components(b@)),
{
    std::path::Path::new(a) == std::path::Path::new(b)
}

/// The view of an optional string.
pub open spec fn opt_view(o: Option<String>) -> Option<Seq<char>> {
    match o {
        Some(s) => Some(s@),
        None => None,
    }
}

/// Calls `Path::extension` on `path`, which gives what `extension_of` says.
#[verifier::external_body]
pub(crate) fn path_extension(path: &str) -> (r: Option<String>)
    ensures
        opt_view(r) == extension_of(path@),
{
    std::path::Path::new(path).extension().and_then(|e| e.to_str()).map(|e| e.to_string())
}

/// Calls `Path::file_name` on `path`, which gives what `file_name_of` says.
#[verifier::external_body]
pub(crate) fn path_file_name(path: &str) -> (r: Option<String>)
    ensures
        opt_view(r) == file_name_of(path@),
{
    std::path::Path::new(path).file_name().and_then(|n| n.to_str()).map(|n| n.to_string())
}

/// Whether two strings hold the same characters.
pub fn same_text(a: &str, b: &str) -> (r: bool)
    ensures
        r == (a@ == b@),
{
    let x = chars_of(a);
    let y = chars_of(b);
    if x.len() != y.len() {
        return false;
    }
    let mut i: usize = 0;
    while i < x.len()
        invariant
            x@.len() == y@.len(),
            x@ == a@,
            y@ == b@,
            i <= x@.len(),
            forall|j: int| 0 <= j < i ==> x@[j] == y@[j],
        decreases x@.len() - i,
    {
        if x[i] != y[i] {
            assert(x@[i as int] != y@[i as int]);
            assert(x@ != y@);
            return false;
        }
        i += 1;
    }
    assert(x@ =~= y@);
    true
}

/// The extension of a path, or the empty text where it has none.
pub open spec fn extension_or_empty(path: Seq<char>) -> Seq<char> {
    match extension_of(path) {
        Some(e) => e,
        None => Seq::empty(),
    }
}

/// The extensions, lowercased, of the files that the editor opens and searches
/// as text: `md`, `txt`, `sh`, and none at all.
pub open spec fn is_text_extension(e: Seq<char>) -> bool {
    e == "md"@ || e == "txt"@ || e == "sh"@ || e.len() == 0
}

/// Whether the editor treats the file at `path` as text.
pub open spec fn is_text_path(path: Seq<char>) -> bool {
    is_text_extension(lowercase_of(extension_or_empty(path)))
}

/// The extension of `path`, or the empty string.
pub fn extension_or_blank(path: &str) -> (r: String)
    ensures
        r@ == extension_or_empty(path@),
{
    match path_extension(path) {
        Some(e) => e,
        None => String::new(),
    }
}

/// Whether the editor treats the file at `path` as text (by its extension, in any case).
pub fn is_text_file(path: &str) -> (r: bool)
    ensures
        r == is_text_path(path@),
{
    let ext = extension_or_blank(path);
    let lower = to_lower(ext.as_str());
    same_text(lower.as_str(), "md") || same_text(lower.as_str(), "txt") || same_text(
        lower.as_str(),
        "sh",
    ) || lower.as_str().is_empty()
}

/// The icon shown before a file's name in the sidebar.
pub open spec fn icon_for_extension(e: Seq<char>) -> Seq<char> {
    if e == "md"@ {
        "\u{f01bc} "@
    } else {
        " "@
    }
}

/// The icon shown before the name of the file at `path` in the sidebar.
pub fn file_icon(path: &str) -> (r: &'static str)
    ensures
        r@ == icon_for_extension(extension_or_empty(path@)),
{
    let ext = extension_or_blank(path);
    if same_text(ext.as_str(), "md") {
        "\u{f01bc} "
    } else {
        " "
    }
}

/// The syntax highlighting language for a file extension.
pub open spec fn language_for_extension(e: Seq<char>) -> Seq<char> {
    if e == "rs"@ {
        "rust"@
    } else if e == "md"@ {
        "markdown"@
    } else if e == "js"@ {
        "javascript"@
    } else if e == "ts"@ {
        "typescript"@
    } else if e == "py"@ {
        "python"@
    } else if e == "yaml"@ || e == "yml"@ {
        "yaml"@
    } else if e == "toml"@ {
        "toml"@
    } else if e == "json"@ {
        "json"@
    } else if e == "html"@ {
        "html"@
    } else if e == "css"@ {
        "css"@
    } else if e == "sh"@ {
        "bash"@
    } else {
        "text"@
    }
}

/// The extension used to pick a language: the path's own, or `txt` where it has none.
pub open spec fn language_extension(path: Seq<char>) -> Seq<char> {
    match extension_of(path) {
        Some(e) => e,
        None => "txt"@,
    }
}

/// The syntax highlighting language for the file at `path`.
pub fn language_for(path: &str) -> (r: &'static str)
    ensures
        r@ == language_for_extension(language_extension(path@)),
{
    let ext = match path_extension(path) {
        Some(e) => e,
        None => String::from_str("txt"),
    };
    let e = ext.as_str();
    if same_text(e, "rs") {
        "rust"
    } else if same_text(e, "md") {
        "markdown"
    } else if same_text(e, "js") {
        "javascript"
    } else if same_text(e, "ts") {
        "typescript"
    } else if same_text(e, "py") {
        "python"
    } else if same_text(e, "yaml") || same_text(e, "yml") {
        "yaml"
    } else if same_text(e, "toml") {
        "toml"
    } else if same_text(e, "json") {
        "json"
    } else if same_text(e, "html") {
        "html"
    } else if same_text(e, "css") {
        "css"
    } else if same_text(e, "sh") {
        "bash"
    } else {
        "text"
    }
}

} // verus!
