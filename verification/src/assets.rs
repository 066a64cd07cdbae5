//! The files of the dashboard: which file a path stands for, and how it is
//! served.

use crate::text::{begins_with, chars_of, starts_with, strip_prefix, text_range};
use vstd::prelude::*;

verus! {

/// A path without the slashes at its start.
pub open spec fn without_leading(s: Seq<char>) -> Seq<char>
    decreases s.len(),
{
    if s.len() > 0 && s[0] == '/' {
        without_leading(s.skip(1))
    } else {
        s
    }
}

fn strip_leading(s: &str) -> (r: String)
    ensures
        r@ == without_leading(s@),
{
    let chars = chars_of(s);
    let total: usize = chars.len();
    let mut i: usize = 0;
    assert(s@.skip(0) =~= s@);
    while i < total && chars[i] == '/'
        invariant
            i <= total == chars@.len(),
            chars@ == s@,
            without_leading(s@.skip(i as int)) == without_leading(s@),
        decreases total - i,
    {
        assert(s@.skip(i as int).skip(1) =~= s@.skip(i + 1));
        i = i + 1;
    }
    assert(chars@.subrange(i as int, total as int) =~= s@.skip(i as int));
    text_range(&chars, i, total)
}

/// The file that a path stands for: the dashboard lives under `admin/`, and its
/// root is the index.
pub open spec fn file_of(uri_path: Seq<char>) -> Seq<char> {
    let raw = without_leading(uri_path);
    let path = if begins_with(raw, "admin/"@) {
        raw.skip("admin/"@.len() as int)
    } else {
        raw
    };
    if path.len() == 0 {
        "index.html"@
    } else {
        path
    }
}

/// The file that a path stands for.
pub fn asset_path(uri_path: &str) -> (r: String)
    ensures
        r@ == file_of(uri_path@),
{
    let raw = strip_leading(uri_path);
    let path = match strip_prefix(raw.as_str(), "admin/") {
        Some(rest) => rest,
        None => raw,
    };
    if path.as_str().is_empty() {
        "index.html".to_owned()
    } else {
        path
    }
}

/// How long a file may be cached: those under `assets/` carry a hash in their
/// names and never change.
pub open spec fn caching_of(path: Seq<char>) -> Seq<char> {
    if begins_with(path, "assets/"@) {
        "public, max-age=31536000, immutable"@
    } else {
        "no-cache"@
    }
}

/// How long a file may be cached.
pub fn cache_control(path: &str) -> (r: &'static str)
    ensures
        r@ == caching_of(path@),
{
    if starts_with(path, "assets/") {
        "public, max-age=31536000, immutable"
    } else {
        "no-cache"
    }
}

/// The media type of a file, by its name.
pub uninterp spec fn media_type(path: Seq<char>) -> Seq<char>;

/// `mime_guess::from_path` with `first_or_octet_stream`: the media type comes
/// from a fixed table of file extensions.
#[verifier::external_body]
fn guess_media_type(path: &str) -> (r: String)
    ensures
        r@ == media_type(path@),
{
    mime_guess::from_path(path).first_or_octet_stream().to_string()
}

/// How a path is answered.
#[derive(Debug)]
pub enum Served {
    /// A file, with its media type and its caching.
    File { path: String, content_type: String, cache: &'static str },
    /// There is no dashboard.
    NotBuilt,
}

/// How a path is answered, given whether the file and the index are there: the
/// file itself, else the index, which routes the path in the browser.
pub fn serve(uri_path: &str, file_there: bool, index_there: bool) -> (r: Served)
    ensures
        if file_there {
            r matches Served::File { path, content_type, cache } && path@ == file_of(uri_path@)
                && content_type@ == media_type(file_of(uri_path@)) && cache@ == caching_of(
                file_of(uri_path@),
            )
        } else if index_there {
            r matches Served::File { path, content_type, cache } && path@ == "index.html"@
                && content_type@ == "text/html"@ && cache@ == "no-cache"@
        } else {
            r is NotBuilt
        },
{
    if file_there {
        let path = asset_path(uri_path);
        let content_type = guess_media_type(path.as_str());
        let cache = cache_control(path.as_str());
        Served::File { path, content_type, cache }
    } else if index_there {
        Served::File {
            path: "index.html".to_owned(),
            content_type: "text/html".to_owned(),
            cache: "no-cache",
        }
    } else {
        Served::NotBuilt
    }
}

/// A path names a file below the dashboard: leading slashes and the folder it is
/// served under are no part of the file's name, and the bare folder is its index.
pub proof fn law_paths_name_files(path: Seq<char>)
    requires
        path.len() > 0,
        path[0] != '/',
        !begins_with(path, "admin/"@),
    ensures
        file_of(path) == path,
        file_of(seq!['/'] + path) == path,
        file_of("admin/"@ + path) == path,
        file_of(seq!['/'] + ("admin/"@ + path)) == path,
        file_of(Seq::empty()) == "index.html"@,
        file_of("admin/"@) == "index.html"@,
{
    reveal_strlit("admin/");
    let a = "admin/"@ + path;
    assert("admin/"@.len() == 6 && "admin/"@[0] == 'a');
    assert(a[0] == 'a');
    assert(a.take(6) =~= "admin/"@);
    assert(a.skip(6) =~= path);
    assert((seq!['/'] + path).skip(1) =~= path);
    assert(without_leading(path) == path);
    assert((seq!['/'] + a).skip(1) =~= a);
    assert(without_leading(a) == a);
    assert("admin/"@.take(6) =~= "admin/"@);
    assert("admin/"@.skip(6).len() == 0);
    assert(without_leading(Seq::<char>::empty()) =~= Seq::<char>::empty());
    reveal_strlit("admin/");
}

/// Files whose name changes with their content are kept for a year, all others
/// are asked for again.
pub proof fn law_only_versioned_files_are_kept(rest: Seq<char>, path: Seq<char>)
    ensures
        caching_of("assets/"@ + rest) == "public, max-age=31536000, immutable"@,
        !begins_with(path, "assets/"@) ==> caching_of(path) == "no-cache"@,
{
    assert(("assets/"@ + rest).take("assets/"@.len() as int) =~= "assets/"@);
}

} // verus!
