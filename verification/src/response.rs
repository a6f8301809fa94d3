//! The wire side: parsing the request line, telling static requests
//! from page requests, splicing tags into a page, and serializing the
//! status line, headers and body into the bytes a connection gets.

use vstd::prelude::*;
use crate::text::byte_len;
use crate::text::contains_seq;
use crate::text::dec_str;
use crate::text::find_str;
use crate::text::first_occurrence;
use crate::text::lemma_contains_in_left;
use crate::text::lemma_contains_in_right;
use crate::text::lemma_first_occurrence_from;
use crate::text::ends_with_str;
use crate::text::starts_with_str;
use crate::text::substring_copy;
use crate::text::usize_to_dec;
use crate::links::dm_links_spec;
use crate::links::dm_matched;
use crate::links::global_links_spec;
use crate::links::is_global_stylesheet;
use crate::links::linked_into;
use crate::links::stylesheet_tag;
use crate::links::lemma_global_links_has_tag;
use crate::links::lemma_unmatched_assets_make_no_links;
use crate::links::generate_directory_matched_links;
use crate::links::generate_global_links;
use crate::paths::parent_of_spec;
use crate::paths::relative_to_spec;
use crate::paths::stem_of_spec;
use crate::router::status_ok;
use crate::router::status_not_found;

verus! {

/// Wire form of a response that carries no `Content-Type`: status
/// line, `Content-Length` in bytes, blank line, body.
pub open spec fn response_basic(status: Seq<char>, body: Seq<char>) -> Seq<char> {
    status + "\r\nContent-Length: "@ + dec_str(byte_len(body)) + "\r\n\r\n"@ + body
}

/// Wire form of a response with a `Content-Type` header.
pub open spec fn response_with_type(status: Seq<char>, ctype: Seq<char>, body: Seq<char>) -> Seq<
    char,
> {
    status + "\r\nContent-Type: "@ + ctype + "\r\nContent-Length: "@ + dec_str(byte_len(body))
        + "\r\n\r\n"@ + body
}

/// The fixed response for a file that could not be read.
pub open spec fn error_500_spec() -> Seq<char> {
    response_basic("HTTP/1.1 500 INTERNAL SERVER ERROR"@, "500 Internal Server Error"@)
}

/// Content type of a static response, from the requested path's
/// suffix alone.
pub open spec fn content_type_for(path: Seq<char>) -> Seq<char> {
    if ".css"@.is_suffix_of(path) {
        "text/css"@
    } else if ".js"@.is_suffix_of(path) {
        "application/javascript"@
    } else {
        "text/plain"@
    }
}

/// What a read of the resolved static file produced: its content, a
/// file that exists but could not be read, or no file at all.
pub enum ReadOutcome {
    Content(String),
    Unreadable,
    Missing,
}

/// What a static request is answered with: the file's content typed
/// by suffix, the fixed read-failure response when the file could not
/// be read, or the fixed not-found body when there is no file.
pub open spec fn static_response_spec(path: Seq<char>, content: ReadOutcome) -> Seq<char> {
    match content {
        ReadOutcome::Content(body) => response_with_type(status_ok(), content_type_for(path), body@),
        ReadOutcome::Unreadable => error_500_spec(),
        ReadOutcome::Missing => response_basic(status_not_found(), "404 Not Found"@),
    }
}

/// The page with the collected tags spliced in: right before the
/// first `</head>` when the page has one, else inside a head block
/// synthesized at the very start.
pub open spec fn injected_body(
    contents: Seq<char>,
    css_links: Seq<char>,
    js_links: Seq<char>,
) -> Seq<char> {
    let p = first_occurrence(contents, "</head>"@);
    if p >= 0 {
        contents.subrange(0, p) + css_links + js_links + contents.subrange(
            p,
            contents.len() as int,
        )
    } else {
        "<head>"@ + css_links + "\n"@ + js_links + "</head>"@ + contents
    }
}

/// The full response to a page request that could be read: global
/// stylesheet links first, then directory-matched stylesheet links,
/// then directory-matched script links, spliced into the page.
pub open spec fn html_response_spec(
    status: Seq<char>,
    contents: Seq<char>,
    filename: Seq<char>,
    cssfiles: Seq<Seq<char>>,
    jsfiles: Seq<Seq<char>>,
) -> Seq<char> {
    response_basic(
        status,
        injected_body(
            contents,
            global_links_spec(cssfiles, "css"@, "stylesheet"@) + dm_links_spec(
                cssfiles,
                filename,
                "css"@,
                "stylesheet"@,
            ),
            dm_links_spec(jsfiles, filename, "js"@, "script"@),
        ),
    )
}

/// A blank of the request line: a character with the Unicode
/// `White_Space` property, the class the request line is split on.
pub open spec fn is_blank(c: char) -> bool {
    ||| (9 <= c as u32 && c as u32 <= 13)
    ||| c as u32 == 32
    ||| c as u32 == 0x85
    ||| c as u32 == 0xA0
    ||| c as u32 == 0x1680
    ||| (0x2000 <= c as u32 && c as u32 <= 0x200A)
    ||| c as u32 == 0x2028
    ||| c as u32 == 0x2029
    ||| c as u32 == 0x202F
    ||| c as u32 == 0x205F
    ||| c as u32 == 0x3000
}

/// First position at or after `i` holding a non-blank, or the end.
pub open spec fn skip_blank(s: Seq<char>, i: int) -> int
    decreases s.len() - i,
{
    if 0 <= i < s.len() && is_blank(s[i]) {
        skip_blank(s, i + 1)
    } else {
        i
    }
}

/// First position at or after `i` holding a blank, or the end.
pub open spec fn skip_token(s: Seq<char>, i: int) -> int
    decreases s.len() - i,
{
    if 0 <= i < s.len() && !is_blank(s[i]) {
        skip_token(s, i + 1)
    } else {
        i
    }
}

/// The second blank-separated token of the request line, or `/` when
/// the line has none.
pub open spec fn request_path_spec(s: Seq<char>) -> Seq<char> {
    let a = skip_blank(s, 0);
    let b = skip_token(s, a);
    let c = skip_blank(s, b);
    let d = skip_token(s, c);
    if c < s.len() {
        s.subrange(c, d)
    } else {
        "/"@
    }
}

/// A path of the static-asset class: it bypasses routing and
/// injection entirely.
pub open spec fn is_static_path_spec(path: Seq<char>) -> bool {
    "/css/"@.is_prefix_of(path) || "/js/"@.is_prefix_of(path)
}

/// Responses are a function of the request and of what the scan and
/// the read produced: two responses computed from the same inputs are
/// byte-identical.
pub proof fn lemma_identical_requests_identical_responses(
    r1: Seq<char>,
    r2: Seq<char>,
    status: Seq<char>,
    contents: Seq<char>,
    filename: Seq<char>,
    cssfiles: Seq<Seq<char>>,
    jsfiles: Seq<Seq<char>>,
)
    requires
        r1 == html_response_spec(status, contents, filename, cssfiles, jsfiles),
        r2 == html_response_spec(status, contents, filename, cssfiles, jsfiles),
    ensures
        r1 == r2,
{
}

/// The static side of the same law: a static response is a function
/// of the requested path and the read's outcome alone.
pub proof fn lemma_identical_static_requests_identical_responses(
    r1: Seq<char>,
    r2: Seq<char>,
    path: Seq<char>,
    content: ReadOutcome,
)
    requires
        r1 == static_response_spec(path, content),
        r2 == static_response_spec(path, content),
    ensures
        r1 == r2,
{
}

/// A page without a `</head>` marker gets a synthesized head block,
/// holding all collected tags, at the very start of the body.
pub proof fn lemma_synthesized_head_at_start(
    contents: Seq<char>,
    css_links: Seq<char>,
    js_links: Seq<char>,
)
    requires
        first_occurrence(contents, "</head>"@) < 0,
    ensures
        injected_body(contents, css_links, js_links) == "<head>"@ + css_links + "\n"@ + js_links
            + "</head>"@ + contents,
        ("<head>"@ + css_links + "\n"@ + js_links + "</head>"@).is_prefix_of(
            injected_body(contents, css_links, js_links),
        ),
{
    let head = "<head>"@ + css_links + "\n"@ + js_links + "</head>"@;
    assert((head + contents).subrange(0, head.len() as int) =~= head);
}

/// When some file of the index is a global stylesheet, every page
/// response carries the `css/styles.css` link, whatever page was
/// requested.
pub proof fn lemma_global_link_on_every_page(
    status: Seq<char>,
    contents: Seq<char>,
    filename: Seq<char>,
    cssfiles: Seq<Seq<char>>,
    jsfiles: Seq<Seq<char>>,
)
    requires
        exists|i: int| 0 <= i < cssfiles.len() && is_global_stylesheet(cssfiles[i], "css"@),
    ensures
        contains_seq(
            html_response_spec(status, contents, filename, cssfiles, jsfiles),
            stylesheet_tag("css/styles.css"@),
        ),
{
    let tag = stylesheet_tag("css/styles.css"@);
    let global = global_links_spec(cssfiles, "css"@, "stylesheet"@);
    let pagecss = dm_links_spec(cssfiles, filename, "css"@, "stylesheet"@);
    let js = dm_links_spec(jsfiles, filename, "js"@, "script"@);
    let css_links = global + pagecss;
    let body = injected_body(contents, css_links, js);
    reveal_strlit("css");
    reveal_strlit("/");
    reveal_strlit("styles.css");
    reveal_strlit("css/styles.css");
    assert("css"@ + "/"@ + "styles.css"@ =~= "css/styles.css"@);
    lemma_global_links_has_tag(cssfiles, "css"@);
    lemma_contains_in_left(global, pagecss, tag);
    let p = first_occurrence(contents, "</head>"@);
    if p >= 0 {
        let pre = contents.subrange(0, p);
        let post = contents.subrange(p, contents.len() as int);
        lemma_contains_in_right(pre, css_links, tag);
        lemma_contains_in_left(pre + css_links, js, tag);
        lemma_contains_in_left(pre + css_links + js, post, tag);
        assert(body == pre + css_links + js + post);
    } else {
        lemma_contains_in_right("<head>"@, css_links, tag);
        lemma_contains_in_left("<head>"@ + css_links, "\n"@, tag);
        lemma_contains_in_left("<head>"@ + css_links + "\n"@, js, tag);
        lemma_contains_in_left("<head>"@ + css_links + "\n"@ + js, "</head>"@, tag);
        lemma_contains_in_left("<head>"@ + css_links + "\n"@ + js + "</head>"@, contents, tag);
    }
    lemma_contains_in_right(
        status + "\r\nContent-Length: "@ + dec_str(byte_len(body)) + "\r\n\r\n"@,
        body,
        tag,
    );
}

/// A page that no asset of the index is directory-matched to is
/// served as its content with exactly the global stylesheet links
/// spliced in, and nothing else.
pub proof fn lemma_unmatched_page_gets_only_global_links(
    status: Seq<char>,
    contents: Seq<char>,
    filename: Seq<char>,
    cssfiles: Seq<Seq<char>>,
    jsfiles: Seq<Seq<char>>,
)
    requires
        forall|i: int| 0 <= i < cssfiles.len() ==> !linked_into(cssfiles[i], filename, "css"@),
        forall|i: int| 0 <= i < jsfiles.len() ==> !linked_into(jsfiles[i], filename, "js"@),
    ensures
        html_response_spec(status, contents, filename, cssfiles, jsfiles) == response_basic(
            status,
            injected_body(
                contents,
                global_links_spec(cssfiles, "css"@, "stylesheet"@),
                Seq::<char>::empty(),
            ),
        ),
{
    let global = global_links_spec(cssfiles, "css"@, "stylesheet"@);
    match relative_to_spec(filename, "html"@) {
        Some(hrel) => {
            let hp = parent_of_spec(hrel);
            let hs = stem_of_spec(filename);
            assert forall|i: int| 0 <= i < cssfiles.len() implies !dm_matched(
                cssfiles[i],
                hp,
                hs,
                "css"@,
            ) by {
                assert(!linked_into(cssfiles[i], filename, "css"@));
            }
            assert forall|i: int| 0 <= i < jsfiles.len() implies !dm_matched(
                jsfiles[i],
                hp,
                hs,
                "js"@,
            ) by {
                assert(!linked_into(jsfiles[i], filename, "js"@));
            }
            lemma_unmatched_assets_make_no_links(cssfiles, hp, hs, "css"@, "stylesheet"@);
            lemma_unmatched_assets_make_no_links(jsfiles, hp, hs, "js"@, "script"@);
        },
        None => {},
    }
    assert(dm_links_spec(cssfiles, filename, "css"@, "stylesheet"@) == Seq::<char>::empty());
    assert(dm_links_spec(jsfiles, filename, "js"@, "script"@) == Seq::<char>::empty());
    assert(global + Seq::<char>::empty() =~= global);
}

/// A static request for a missing file gets the fixed not-found
/// response: no page, no tags, no content type.
pub proof fn lemma_static_miss_is_fixed_404(path: Seq<char>)
    ensures
        static_response_spec(path, ReadOutcome::Missing) == response_basic(
            status_not_found(),
            "404 Not Found"@,
        ),
{
}

/// A static file that exists but cannot be read is answered with the
/// fixed read-failure response, whatever status routing had computed.
pub proof fn lemma_static_read_failure_is_500(path: Seq<char>)
    ensures
        static_response_spec(path, ReadOutcome::Unreadable) == error_500_spec(),
{
}

/// Serializes a response without `Content-Type`.
fn build_http_response(status: &str, body: &str) -> (r: String)
    ensures
        r@ == response_basic(status@, body@),
{
    let lenstr = usize_to_dec(body.as_bytes().len());
    let r = status.to_owned().concat("\r\nContent-Length: ").concat(lenstr.as_str()).concat(
        "\r\n\r\n",
    ).concat(body);
    proof {
        assert(r@ =~= response_basic(status@, body@));
    }
    r
}

/// Serializes a response with a `Content-Type` header.
fn build_http_response_with_type(status: &str, ctype: &str, body: &str) -> (r: String)
    ensures
        r@ == response_with_type(status@, ctype@, body@),
{
    let lenstr = usize_to_dec(body.as_bytes().len());
    let r = status.to_owned().concat("\r\nContent-Type: ").concat(ctype).concat(
        "\r\nContent-Length: ",
    ).concat(lenstr.as_str()).concat("\r\n\r\n").concat(body);
    proof {
        assert(r@ =~= response_with_type(status@, ctype@, body@));
    }
    r
}

/// Splices the collected tags into the page.
pub fn inject_into_head(contents: &String, css_links: &String, js_links: &String) -> (r: String)
    ensures
        r@ == injected_body(contents@, css_links@, js_links@),
{
    proof {
        reveal_strlit("</head>");
        lemma_first_occurrence_from(contents@, "</head>"@, 0);
    }
    let clen = contents.as_str().unicode_len();
    match find_str(contents.as_str(), "</head>") {
        Some(pos) => {
            let r = substring_copy(contents.as_str(), 0, pos).concat(css_links.as_str()).concat(
                js_links.as_str(),
            ).concat(substring_copy(contents.as_str(), pos, clen).as_str());
            proof {
                assert(r@ =~= injected_body(contents@, css_links@, js_links@));
            }
            r
        },
        None => {
            let r = "<head>".to_owned().concat(css_links.as_str()).concat("\n").concat(
                js_links.as_str(),
            ).concat("</head>").concat(contents.as_str());
            proof {
                assert(r@ =~= injected_body(contents@, css_links@, js_links@));
            }
            r
        },
    }
}

/// The full response to a page request whose file was read: computes
/// the page's tags, splices them in, and serializes.
pub fn build_html_response(
    status_line: &String,
    filename: &String,
    contents: &String,
    cssfiles: &Vec<String>,
    jsfiles: &Vec<String>,
) -> (r: String)
    ensures
        r@ == html_response_spec(
            status_line@,
            contents@,
            filename@,
            cssfiles.deep_view(),
            jsfiles.deep_view(),
        ),
{
    let css_links = generate_global_links(cssfiles, "css", "stylesheet");
    let js_links = generate_directory_matched_links(jsfiles, filename, "js", "script");
    let page_css_links = generate_directory_matched_links(cssfiles, filename, "css", "stylesheet");
    let full_css_links = css_links.concat(page_css_links.as_str());
    let body = inject_into_head(contents, &full_css_links, &js_links);
    build_http_response(status_line.as_str(), body.as_str())
}

/// The fixed response for a page file that could not be read.
pub fn internal_error_response() -> (r: String)
    ensures
        r@ == error_500_spec(),
{
    build_http_response("HTTP/1.1 500 INTERNAL SERVER ERROR", "500 Internal Server Error")
}

/// The response to a page request: the spliced page when its file was
/// read, the fixed read-failure response when it was not.
pub fn html_response_or_error(
    status_line: &String,
    filename: &String,
    contents: &Option<String>,
    cssfiles: &Vec<String>,
    jsfiles: &Vec<String>,
) -> (r: String)
    ensures
        r@ == match contents {
            Some(c) => html_response_spec(
                status_line@,
                c@,
                filename@,
                cssfiles.deep_view(),
                jsfiles.deep_view(),
            ),
            None => error_500_spec(),
        },
{
    match contents {
        Some(c) => build_html_response(status_line, filename, c, cssfiles, jsfiles),
        None => internal_error_response(),
    }
}

/// The response to a static request, from the requested path and
/// what the read of the file produced.
pub fn handle_static_request(requested_path: &str, content: &ReadOutcome) -> (r: String)
    ensures
        r@ == static_response_spec(requested_path@, *content),
{
    match content {
        ReadOutcome::Content(body) => {
            let ctype: &str = if ends_with_str(requested_path, ".css") {
                "text/css"
            } else if ends_with_str(requested_path, ".js") {
                "application/javascript"
            } else {
                "text/plain"
            };
            build_http_response_with_type("HTTP/1.1 200 OK", ctype, body.as_str())
        },
        ReadOutcome::Unreadable => internal_error_response(),
        ReadOutcome::Missing => build_http_response("HTTP/1.1 404 NOT FOUND", "404 Not Found"),
    }
}

fn is_blank_char(c: char) -> (r: bool)
    ensures
        r == is_blank(c),
{
    let u = c as u32;
    (9 <= u && u <= 13) || u == 32 || u == 0x85 || u == 0xA0 || u == 0x1680 || (0x2000 <= u && u
        <= 0x200A) || u == 0x2028 || u == 0x2029 || u == 0x202F || u == 0x205F || u == 0x3000
}

/// The requested path of a request line: its second blank-separated
/// token, or `/` when the line has none.
pub fn request_path_of(line: &str) -> (r: String)
    ensures
        r@ == request_path_spec(line@),
{
    let slen = line.unicode_len();
    let mut i: usize = 0;
    while i < slen && is_blank_char(line.get_char(i))
        invariant
            slen == line@.len(),
            i <= slen,
            skip_blank(line@, 0) == skip_blank(line@, i as int),
        decreases slen - i,
    {
        i = i + 1;
    }
    let ghost a = i as int;
    proof {
        assert(skip_blank(line@, 0) == a);
    }
    while i < slen && !is_blank_char(line.get_char(i))
        invariant
            slen == line@.len(),
            i <= slen,
            skip_token(line@, a) == skip_token(line@, i as int),
        decreases slen - i,
    {
        i = i + 1;
    }
    let ghost b = i as int;
    proof {
        assert(skip_token(line@, a) == b);
    }
    while i < slen && is_blank_char(line.get_char(i))
        invariant
            slen == line@.len(),
            i <= slen,
            skip_blank(line@, b) == skip_blank(line@, i as int),
        decreases slen - i,
    {
        i = i + 1;
    }
    let c = i;
    proof {
        assert(skip_blank(line@, b) == c as int);
    }
    while i < slen && !is_blank_char(line.get_char(i))
        invariant
            slen == line@.len(),
            c <= i <= slen,
            skip_token(line@, c as int) == skip_token(line@, i as int),
        decreases slen - i,
    {
        i = i + 1;
    }
    proof {
        assert(skip_token(line@, c as int) == i as int);
    }
    if c < slen {
        substring_copy(line, c, i)
    } else {
        "/".to_owned()
    }
}

/// Whether the request belongs to the static-asset class.
pub fn is_static_request(path: &str) -> (r: bool)
    ensures
        r == is_static_path_spec(path@),
{
    starts_with_str(path, "/css/") || starts_with_str(path, "/js/")
}

} // verus!
