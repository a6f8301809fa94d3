use pageserver::index::filter_files_by_extension;
use pageserver::index::get_files;
use pageserver::paths::extension_of;
use pageserver::paths::file_name_of;
use pageserver::paths::get_relative_directory;
use pageserver::paths::parent_of;
use pageserver::paths::stem_of;

fn s(x: &str) -> String {
    x.to_string()
}

#[test]
fn file_name_takes_last_segment() {
    assert_eq!(file_name_of(&s("html/sub/page.html")), "page.html");
    assert_eq!(file_name_of(&s("page.html")), "page.html");
    assert_eq!(file_name_of(&s("css/styles.css")), "styles.css");
}

#[test]
fn parent_stops_before_last_segment() {
    assert_eq!(parent_of(&s("html/sub/page.html")), "html/sub");
    assert_eq!(parent_of(&s("page.html")), "");
    assert_eq!(parent_of(&s("css/styles.css")), "css");
}

#[test]
fn extension_follows_last_dot() {
    assert_eq!(extension_of(&s("a/page.html")), Some(s("html")));
    assert_eq!(extension_of(&s("a/archive.tar.gz")), Some(s("gz")));
    assert_eq!(extension_of(&s("a/.hidden")), None);
    assert_eq!(extension_of(&s("a/noext")), None);
    assert_eq!(extension_of(&s("a/trailing.")), Some(s("")));
}

#[test]
fn stem_drops_extension() {
    assert_eq!(stem_of(&s("html/sub/page.html")), "page");
    assert_eq!(stem_of(&s("a/.hidden")), ".hidden");
    assert_eq!(stem_of(&s("a/archive.tar.gz")), "archive.tar");
    assert_eq!(stem_of(&s("a/noext")), "noext");
}

#[test]
fn relative_directory_strips_through_base() {
    assert_eq!(
        get_relative_directory(&s("css/sub/page.css"), "css"),
        Some(s("sub/page.css"))
    );
    assert_eq!(
        get_relative_directory(&s("html/index.html"), "html"),
        Some(s("index.html"))
    );
    assert_eq!(get_relative_directory(&s("html/a.html"), "css"), None);
}

#[test]
fn relative_directory_uses_deepest_base() {
    assert_eq!(
        get_relative_directory(&s("css/x/css/y.css"), "css"),
        Some(s("y.css"))
    );
}

#[test]
fn relative_directory_wants_whole_segments() {
    assert_eq!(get_relative_directory(&s("mycss/y.css"), "css"), None);
    assert_eq!(get_relative_directory(&s("cssx/y.css"), "css"), None);
}

#[test]
fn get_files_keeps_only_served_extensions() {
    let entries = vec![
        s("html/index.html"),
        s("README.md"),
        s("css/styles.css"),
        s("js/app.js"),
        s("notes.txt"),
        s("html/.hidden"),
    ];
    let files = get_files(&entries);
    assert_eq!(
        files,
        vec![s("html/index.html"), s("css/styles.css"), s("js/app.js")]
    );
}

#[test]
fn filter_by_extension_keeps_order() {
    let files = vec![
        s("css/a.css"),
        s("html/a.html"),
        s("css/b.css"),
        s("js/a.js"),
    ];
    assert_eq!(
        filter_files_by_extension(&files, "css"),
        vec![s("css/a.css"), s("css/b.css")]
    );
    assert_eq!(filter_files_by_extension(&files, "js"), vec![s("js/a.js")]);
    assert_eq!(
        filter_files_by_extension(&files, "html"),
        vec![s("html/a.html")]
    );
}
