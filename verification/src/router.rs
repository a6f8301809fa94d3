//! Routing: which of the files present under the root answers a
//! requested path, and with which status line.  Resolution order: a
//! directory holding an `index.html`, the path itself, the path with
//! `.html` appended when the request names no extension, any
//! `404.html` of the list, and last the literal `html/404.html`
//! fallback.

use vstd::prelude::*;
use crate::paths::file_name_of_spec;
use crate::paths::file_name_of;
use crate::text::contains_char;
use crate::text::str_equal;
use crate::text::substring_copy;

verus! {

/// `s` without its leading `/` characters.
pub open spec fn strip_leading_slashes(s: Seq<char>) -> Seq<char>
    decreases s.len(),
{
    if s.len() > 0 && s[0] == '/' {
        strip_leading_slashes(s.drop_first())
    } else {
        s
    }
}

/// `a` and `b` joined by a single `/`.
pub open spec fn joined(a: Seq<char>, b: Seq<char>) -> Seq<char> {
    if a.len() > 0 && a.last() == '/' {
        a + b
    } else {
        a + "/"@ + b
    }
}

pub open spec fn status_ok() -> Seq<char> {
    "HTTP/1.1 200 OK"@
}

pub open spec fn status_not_found() -> Seq<char> {
    "HTTP/1.1 404 NOT FOUND"@
}

/// The requested path without leading slashes.
pub open spec fn sanitized_of(req: Seq<char>) -> Seq<char> {
    strip_leading_slashes(req)
}

/// The requested path joined onto the `html` subtree.
pub open spec fn target_of(req: Seq<char>) -> Seq<char> {
    if sanitized_of(req).len() == 0 {
        "html"@
    } else {
        "html/"@ + sanitized_of(req)
    }
}

/// The `index.html` inside the requested directory.
pub open spec fn dir_index_of(req: Seq<char>) -> Seq<char> {
    joined(target_of(req), "index.html"@)
}

/// The requested path with `.html` appended.
pub open spec fn dot_html_of(req: Seq<char>) -> Seq<char> {
    "html/"@ + sanitized_of(req) + ".html"@
}

/// Index of the first file of `files` (from position `i` on) whose
/// final segment is `name`, or `-1`.
pub open spec fn first_named_from(files: Seq<Seq<char>>, name: Seq<char>, i: int) -> int
    decreases files.len() - i,
{
    if i < 0 || i >= files.len() {
        -1
    } else if file_name_of_spec(files[i]) == name {
        i
    } else {
        first_named_from(files, name, i + 1)
    }
}

/// The routing decision: the status line and the file that answers
/// `req` given the list `files` of files present under the root.
pub open spec fn spec_resolve(req: Seq<char>, files: Seq<Seq<char>>) -> (Seq<char>, Seq<char>) {
    if files.contains(dir_index_of(req)) {
        (status_ok(), dir_index_of(req))
    } else if files.contains(target_of(req)) {
        (status_ok(), target_of(req))
    } else if !req.contains('.') && files.contains(dot_html_of(req)) {
        (status_ok(), dot_html_of(req))
    } else {
        let i = first_named_from(files, "404.html"@, 0);
        if i >= 0 {
            (status_not_found(), files[i])
        } else {
            (status_not_found(), "html/404.html"@)
        }
    }
}

proof fn lemma_first_named_from_none(files: Seq<Seq<char>>, name: Seq<char>, i: int)
    requires
        forall|j: int| i <= j < files.len() ==> file_name_of_spec(files[j]) != name,
    ensures
        first_named_from(files, name, i) == -1,
    decreases files.len() - i,
{
    if 0 <= i < files.len() {
        lemma_first_named_from_none(files, name, i + 1);
    }
}

/// With no file matching the request and no `404.html` anywhere in
/// the index, routing falls back to the literal `html/404.html` with
/// the not-found status.
pub proof fn lemma_router_literal_fallback(req: Seq<char>, files: Seq<Seq<char>>)
    requires
        !files.contains(dir_index_of(req)),
        !files.contains(target_of(req)),
        !files.contains(dot_html_of(req)),
        forall|i: int| 0 <= i < files.len() ==> file_name_of_spec(files[i]) != "404.html"@,
    ensures
        spec_resolve(req, files) == (status_not_found(), "html/404.html"@),
{
    lemma_first_named_from_none(files, "404.html"@, 0);
}

/// Routing answers with exactly one of the two statuses, and an OK
/// status only ever names a file of the given list.
pub proof fn lemma_ok_status_serves_listed_file(req: Seq<char>, files: Seq<Seq<char>>)
    ensures
        spec_resolve(req, files).0 == status_ok() || spec_resolve(req, files).0
            == status_not_found(),
        spec_resolve(req, files).0 == status_ok() ==> files.contains(spec_resolve(req, files).1),
{
    broadcast use vstd::string::group_string_axioms;

    reveal_strlit("HTTP/1.1 200 OK");
    reveal_strlit("HTTP/1.1 404 NOT FOUND");
    assert(status_ok().len() == 15);
    assert(status_not_found().len() == 22);
    assert(status_ok() != status_not_found());
}

/// `s` without its leading `/` characters.
fn trim_leading_slashes(s: &str) -> (r: String)
    ensures
        r@ == strip_leading_slashes(s@),
{
    let slen = s.unicode_len();
    proof {
        assert(s@.subrange(0, s@.len() as int) =~= s@);
    }
    let mut i: usize = 0;
    while i < slen && s.get_char(i) == '/'
        invariant
            slen == s@.len(),
            i <= slen,
            strip_leading_slashes(s@) == strip_leading_slashes(
                s@.subrange(i as int, s@.len() as int),
            ),
        decreases slen - i,
    {
        proof {
            assert(s@.subrange(i as int, s@.len() as int).drop_first() =~= s@.subrange(
                i + 1,
                s@.len() as int,
            ));
        }
        i = i + 1;
    }
    substring_copy(s, i, slen)
}

/// Whether some entry of `files` is exactly `x`.
fn contains_path(files: &Vec<String>, x: &String) -> (r: bool)
    ensures
        r == files.deep_view().contains(x@),
{
    let mut i: usize = 0;
    while i < files.len()
        invariant
            i <= files@.len(),
            files.deep_view().len() == files@.len(),
            forall|j: int| 0 <= j < i ==> files.deep_view()[j] != x@,
        decreases files@.len() - i,
    {
        if str_equal(files[i].as_str(), x.as_str()) {
            proof {
                assert(files.deep_view()[i as int] == x@);
            }
            return true;
        }
        proof {
            assert(files.deep_view()[i as int] == files@[i as int]@);
        }
        i = i + 1;
    }
    false
}

/// Index of the first file of `files` whose final segment is `name`.
fn find_first_named(files: &Vec<String>, name: &str) -> (r: Option<usize>)
    ensures
        match r {
            Some(i) => i < files@.len() && i as int == first_named_from(
                files.deep_view(),
                name@,
                0,
            ),
            None => first_named_from(files.deep_view(), name@, 0) == -1,
        },
{
    let mut i: usize = 0;
    while i < files.len()
        invariant
            i <= files@.len(),
            files.deep_view().len() == files@.len(),
            first_named_from(files.deep_view(), name@, 0) == first_named_from(
                files.deep_view(),
                name@,
                i as int,
            ),
        decreases files@.len() - i,
    {
        let fname = file_name_of(&files[i]);
        proof {
            assert(files.deep_view()[i as int] == files@[i as int]@);
        }
        if str_equal(fname.as_str(), name) {
            return Some(i);
        }
        i = i + 1;
    }
    None
}

/// Routing, executably: the status line and the file that answers
/// `requested_path` given the index `htmlfiles`.
pub fn resolve_requested_file(requested_path: &str, htmlfiles: &Vec<String>) -> (r: (
    String,
    String,
))
    ensures
        r.0@ == spec_resolve(requested_path@, htmlfiles.deep_view()).0,
        r.1@ == spec_resolve(requested_path@, htmlfiles.deep_view()).1,
{
    let ghost req = requested_path@;
    let sanitized = trim_leading_slashes(requested_path);
    let target: String = if sanitized.as_str().unicode_len() == 0 {
        "html".to_owned()
    } else {
        "html/".to_owned().concat(sanitized.as_str())
    };
    let tlen = target.as_str().unicode_len();
    let dir_index: String = if tlen > 0 && target.as_str().get_char(tlen - 1) == '/' {
        target.clone().concat("index.html")
    } else {
        target.clone().concat("/").concat("index.html")
    };
    proof {
        assert(target@ + "/"@ + "index.html"@ =~= (target@ + "/"@) + "index.html"@);
        assert(dir_index@ == dir_index_of(req));
    }
    if contains_path(htmlfiles, &dir_index) {
        return ("HTTP/1.1 200 OK".to_owned(), dir_index);
    }
    if contains_path(htmlfiles, &target) {
        return ("HTTP/1.1 200 OK".to_owned(), target);
    }
    if !contains_char(requested_path, '.') {
        let cand = "html/".to_owned().concat(sanitized.as_str()).concat(".html");
        proof {
            assert(("html/"@ + sanitized@) + ".html"@ =~= "html/"@ + sanitized@ + ".html"@);
            assert(cand@ == dot_html_of(req));
        }
        if contains_path(htmlfiles, &cand) {
            return ("HTTP/1.1 200 OK".to_owned(), cand);
        }
    }
    match find_first_named(htmlfiles, "404.html") {
        Some(i) => ("HTTP/1.1 404 NOT FOUND".to_owned(), htmlfiles[i].clone()),
        None => ("HTTP/1.1 404 NOT FOUND".to_owned(), "html/404.html".to_owned()),
    }
}

} // verus!
