use pageserver::index::filter_files_by_extension;
use pageserver::index::get_files;
use pageserver::links::generate_directory_matched_links;
use pageserver::links::generate_global_links;
use pageserver::response::handle_static_request;
use pageserver::response::html_response_or_error;
use pageserver::response::internal_error_response;
use pageserver::response::is_static_request;
use pageserver::response::request_path_of;
use pageserver::response::ReadOutcome;
use pageserver::router::resolve_requested_file;

fn s(x: &str) -> String {
    x.to_string()
}

fn page_response(
    requested_path: &str,
    entries: Vec<String>,
    read: impl Fn(&str) -> Option<String>,
) -> String {
    let files = get_files(&entries);
    let cssfiles = filter_files_by_extension(&files, "css");
    let jsfiles = filter_files_by_extension(&files, "js");
    let (status_line, filename) = resolve_requested_file(requested_path, &entries);
    let contents = read(&filename);
    html_response_or_error(&status_line, &filename, &contents, &cssfiles, &jsfiles)
}

#[test]
fn root_serves_index_with_global_link_before_head_end() {
    let entries = vec![s("html/index.html"), s("css/styles.css")];
    let page = "<html><head><title>Home</title></head><body>hi</body></html>";
    let response = page_response("/", entries, |name| {
        assert_eq!(name, "html/index.html");
        Some(page.to_string())
    });
    let link = "<link rel=\"stylesheet\" href=\"/css/styles.css\">";
    let body = format!(
        "<html><head><title>Home</title>{}</head><body>hi</body></html>",
        link
    );
    let expected = format!(
        "HTTP/1.1 200 OK\r\nContent-Length: {}\r\n\r\n{}",
        body.len(),
        body
    );
    assert_eq!(response, expected);
    let link_at = response.find(link).unwrap();
    let head_end_at = response.find("</head>").unwrap();
    assert!(link_at < head_end_at);
}

#[test]
fn extensionless_path_serves_dot_html_file() {
    let entries = vec![s("html/about.html")];
    let page = "<html><head></head><body>about</body></html>";
    let response = page_response("/about", entries, |name| {
        assert_eq!(name, "html/about.html");
        Some(page.to_string())
    });
    let expected = format!(
        "HTTP/1.1 200 OK\r\nContent-Length: {}\r\n\r\n{}",
        page.len(),
        page
    );
    assert_eq!(response, expected);
}

#[test]
fn missing_page_served_by_discovered_404_page() {
    let entries = vec![s("html/404.html")];
    let page = "<html><head></head><body>404 page</body></html>";
    let response = page_response("/missing", entries, |name| {
        assert_eq!(name, "html/404.html");
        Some(page.to_string())
    });
    let expected = format!(
        "HTTP/1.1 404 NOT FOUND\r\nContent-Length: {}\r\n\r\n{}",
        page.len(),
        page
    );
    assert_eq!(response, expected);
}

#[test]
fn missing_page_without_404_file_turns_into_500_on_read_failure() {
    let entries = vec![s("html/other.html")];
    let response = page_response("/missing", entries, |name| {
        assert_eq!(name, "html/404.html");
        None
    });
    assert_eq!(
        response,
        "HTTP/1.1 500 INTERNAL SERVER ERROR\r\nContent-Length: 25\r\n\r\n500 Internal Server Error"
    );
    assert_eq!(response, internal_error_response());
}

#[test]
fn router_falls_back_to_literal_404_path() {
    let files = vec![s("html/other.html")];
    let (status, filename) = resolve_requested_file("/missing", &files);
    assert_eq!(status, "HTTP/1.1 404 NOT FOUND");
    assert_eq!(filename, "html/404.html");
}

#[test]
fn router_picks_first_404_page_in_index_order() {
    let files = vec![s("html/a/404.html"), s("html/404.html")];
    let (status, filename) = resolve_requested_file("/missing", &files);
    assert_eq!(status, "HTTP/1.1 404 NOT FOUND");
    assert_eq!(filename, "html/a/404.html");
}

#[test]
fn router_serves_directory_index_with_and_without_trailing_slash() {
    let files = vec![s("html/about/index.html")];
    let (status, filename) = resolve_requested_file("/about", &files);
    assert_eq!(status, "HTTP/1.1 200 OK");
    assert_eq!(filename, "html/about/index.html");
    let (status2, filename2) = resolve_requested_file("/about/", &files);
    assert_eq!(status2, "HTTP/1.1 200 OK");
    assert_eq!(filename2, "html/about/index.html");
}

#[test]
fn router_skips_dot_html_try_when_path_has_extension() {
    let files = vec![s("html/about.html")];
    let (status, filename) = resolve_requested_file("/about.x", &files);
    assert_eq!(status, "HTTP/1.1 404 NOT FOUND");
    assert_eq!(filename, "html/404.html");
}

#[test]
fn router_serves_exact_file_path() {
    let files = vec![s("html/sub/page.html")];
    let (status, filename) = resolve_requested_file("/sub/page.html", &files);
    assert_eq!(status, "HTTP/1.1 200 OK");
    assert_eq!(filename, "html/sub/page.html");
}

#[test]
fn missing_static_css_gets_fixed_404_without_content_type() {
    let response = handle_static_request("/css/missing.css", &ReadOutcome::Missing);
    assert_eq!(
        response,
        "HTTP/1.1 404 NOT FOUND\r\nContent-Length: 13\r\n\r\n404 Not Found"
    );
    assert!(!response.contains("Content-Type"));
    assert!(!response.contains("<link"));
}

#[test]
fn unreadable_static_file_gets_fixed_500() {
    let response = handle_static_request("/css/app.css", &ReadOutcome::Unreadable);
    assert_eq!(
        response,
        "HTTP/1.1 500 INTERNAL SERVER ERROR\r\nContent-Length: 25\r\n\r\n500 Internal Server Error"
    );
    assert!(!response.contains("Content-Type"));
}

#[test]
fn static_css_hit_is_served_with_text_css() {
    let response = handle_static_request("/css/app.css", &ReadOutcome::Content(s("body{}")));
    assert_eq!(
        response,
        "HTTP/1.1 200 OK\r\nContent-Type: text/css\r\nContent-Length: 6\r\n\r\nbody{}"
    );
}

#[test]
fn static_js_hit_is_served_with_javascript_type() {
    let response = handle_static_request("/js/app.js", &ReadOutcome::Content(s("let x=1;")));
    assert_eq!(
        response,
        "HTTP/1.1 200 OK\r\nContent-Type: application/javascript\r\nContent-Length: 8\r\n\r\nlet x=1;"
    );
}

#[test]
fn static_other_suffix_is_served_as_plain_text() {
    let response = handle_static_request("/css/readme", &ReadOutcome::Content(s("")));
    assert_eq!(
        response,
        "HTTP/1.1 200 OK\r\nContent-Type: text/plain\r\nContent-Length: 0\r\n\r\n"
    );
}

#[test]
fn page_without_head_marker_gets_synthesized_head_at_start() {
    let entries = vec![s("html/index.html"), s("css/styles.css")];
    let page = "<body>plain</body>";
    let response = page_response("/", entries, |_| Some(page.to_string()));
    let link = "<link rel=\"stylesheet\" href=\"/css/styles.css\">";
    let body = format!("<head>{}\n</head>{}", link, page);
    let expected = format!(
        "HTTP/1.1 200 OK\r\nContent-Length: {}\r\n\r\n{}",
        body.len(),
        body
    );
    assert_eq!(response, expected);
}

#[test]
fn global_link_reaches_pages_in_every_directory() {
    let entries = vec![
        s("html/index.html"),
        s("html/deep/nested/page.html"),
        s("css/styles.css"),
    ];
    let link = "<link rel=\"stylesheet\" href=\"/css/styles.css\">";
    let at_root = page_response("/", entries.clone(), |_| Some(s("<head></head>")));
    assert!(at_root.contains(link));
    let nested = page_response("/deep/nested/page.html", entries, |_| {
        Some(s("<head></head>"))
    });
    assert!(nested.contains(link));
}

#[test]
fn global_styles_must_sit_directly_under_the_folder() {
    let under_css = generate_global_links(&vec![s("css/styles.css")], "css", "stylesheet");
    assert_eq!(under_css, "<link rel=\"stylesheet\" href=\"/css/styles.css\">");
    let nested = generate_global_links(&vec![s("css/theme/styles.css")], "css", "stylesheet");
    assert_eq!(nested, "");
    let other_name = generate_global_links(&vec![s("css/site.css")], "css", "stylesheet");
    assert_eq!(other_name, "");
    let deeper_css = generate_global_links(&vec![s("theme/css/styles.css")], "css", "stylesheet");
    assert_eq!(deeper_css, "<link rel=\"stylesheet\" href=\"/css/styles.css\">");
}

#[test]
fn bare_styles_css_in_the_root_is_not_global() {
    let at_root = generate_global_links(&vec![s("styles.css")], "css", "stylesheet");
    assert_eq!(at_root, "");
    let entries = vec![s("html/index.html"), s("styles.css")];
    let page = "<html><head></head><body></body></html>";
    let response = page_response("/", entries, |_| Some(page.to_string()));
    assert!(!response.contains("<link"));
}

#[test]
fn file_with_foreign_extension_under_html_is_still_served() {
    let entries = vec![s("html/index.html"), s("html/notes.txt")];
    let text = "plain notes";
    let response = page_response("/notes.txt", entries, |name| {
        assert_eq!(name, "html/notes.txt");
        Some(text.to_string())
    });
    let body = format!("<head>\n</head>{}", text);
    let expected = format!(
        "HTTP/1.1 200 OK\r\nContent-Length: {}\r\n\r\n{}",
        body.len(),
        body
    );
    assert_eq!(response, expected);
}

#[test]
fn directory_matched_asset_links_only_same_directory_and_stem() {
    let css = vec![s("css/sub/page.css")];
    let matched =
        generate_directory_matched_links(&css, &s("html/sub/page.html"), "css", "stylesheet");
    assert_eq!(matched, "<link rel=\"stylesheet\" href=\"/css/sub/page.css\">");
    let other_dir =
        generate_directory_matched_links(&css, &s("html/other/page.html"), "css", "stylesheet");
    assert_eq!(other_dir, "");
    let other_stem =
        generate_directory_matched_links(&css, &s("html/sub/other.html"), "css", "stylesheet");
    assert_eq!(other_stem, "");
}

#[test]
fn directory_matched_script_uses_script_tag() {
    let js = vec![s("js/index.js")];
    let links = generate_directory_matched_links(&js, &s("html/index.html"), "js", "script");
    assert_eq!(links, "<script src=\"/js/index.js\"></script>");
}

#[test]
fn repeated_identical_requests_get_byte_identical_responses() {
    let entries = vec![
        s("html/index.html"),
        s("css/styles.css"),
        s("js/index.js"),
    ];
    let page = "<html><head></head><body></body></html>";
    let first = page_response("/", entries.clone(), |_| Some(page.to_string()));
    let second = page_response("/", entries, |_| Some(page.to_string()));
    assert_eq!(first, second);
}

#[test]
fn request_path_takes_second_token_or_root() {
    assert_eq!(request_path_of("GET /about HTTP/1.1"), "/about");
    assert_eq!(request_path_of("GET / HTTP/1.1"), "/");
    assert_eq!(request_path_of("GET"), "/");
    assert_eq!(request_path_of(""), "/");
    assert_eq!(request_path_of("   GET    /x.css   "), "/x.css");
    assert_eq!(request_path_of("GET\u{000C}/ff\u{000C}HTTP/1.1"), "/ff");
    assert_eq!(request_path_of("GET\u{00A0}/nb HTTP/1.1"), "/nb");
}

#[test]
fn static_class_is_css_and_js_prefixes_only() {
    assert!(is_static_request("/css/styles.css"));
    assert!(is_static_request("/js/app.js"));
    assert!(!is_static_request("/about"));
    assert!(!is_static_request("/cssx/styles.css"));
    assert!(!is_static_request("css/styles.css"));
}

#[test]
fn empty_index_falls_back_to_literal_404_for_root() {
    let files: Vec<String> = Vec::new();
    let (status, filename) = resolve_requested_file("/", &files);
    assert_eq!(status, "HTTP/1.1 404 NOT FOUND");
    assert_eq!(filename, "html/404.html");
}

#[test]
fn content_length_counts_bytes_of_multibyte_pages() {
    let page = "<head></head>\u{00e9}\u{00e9}";
    let entries = vec![s("html/index.html")];
    let response = page_response("/", entries, |_| Some(page.to_string()));
    let expected = format!(
        "HTTP/1.1 200 OK\r\nContent-Length: {}\r\n\r\n{}",
        page.len(),
        page
    );
    assert_eq!(response, expected);
}
