use webcrawler::html;
use webcrawler::uri::Uri;

#[test]
fn html_helper() {
    assert_eq!(
        html::absolutize_path("./page3", "/web-crawler-test-site/test4/cynical.html"),
        "/web-crawler-test-site/test4/page3"
    );
    assert_eq!("SVG_logo.svg".parse::<Uri>().unwrap().path, "SVG_logo.svg");
    assert_eq!("./SVG_logo.svg".parse::<Uri>().unwrap().path, "./SVG_logo.svg");
    assert_eq!(html::absolutize_path("./SVG_logo.svg", "/"), "/SVG_logo.svg");
}

#[test]
fn regex_matches() {
    let mut urls: Vec<String> = Vec::new();
    html::get_url_strings_from_doc(&mut urls, "<a href=\"hello\"> <a href=\"world\"");
    for u in &urls {
        println!("{:?}", u);
    }
}

#[test]
fn absolutize_dotdot() {
    assert_eq!(html::absolutize_path("../x", "/a/b/c.html"), "/a/x");
    assert_eq!(html::absolutize_path("../../x", "/a/b/"), "/x");
    assert_eq!(html::absolutize_path("", "/a/b/"), "");
    assert_eq!(html::absolutize_path("/abs", "/a/b/"), "/abs");
}

#[test]
fn extraction_finds_all_three_kinds_in_order() {
    let body = "<a href=\"x\"> <link rel=\"stylesheet\" href=\"l.css\"> <script type=\"a\" src=\"s.js\"></script> <a id=\"z\" href=\"y\">";
    let mut urls: Vec<String> = Vec::new();
    html::get_url_strings_from_doc(&mut urls, body);
    assert_eq!(urls, vec!["x", "y", "l.css", "s.js"]);
}

#[test]
fn clean_up_href_encodes_spaces() {
    assert_eq!(html::clean_up_href("a b c"), "a%20b%20c");
    assert_eq!(html::clean_up_href("plain"), "plain");
    assert_eq!(html::clean_up_href(""), "");
}

#[test]
fn get_neighbors_resolves_and_skips() {
    let page: Uri = "https://h/dir/page.html".parse().unwrap();
    let body = "<a href=\"#top\"> <a href=\"mailto:someone@h\"> <a href=\"./x\"> <a href=\"/y\">";
    let mut urls: Vec<Uri> = Vec::new();
    let mut errors: Vec<String> = Vec::new();
    html::get_neighbors(&mut urls, &mut errors, body, &page);
    assert!(errors.is_empty());
    assert_eq!(urls.len(), 2);
    assert_eq!(urls[0].path, "/dir/x");
    assert_eq!(urls[1].path, "/y");
    assert_eq!(urls[0].host, "h");
}

#[test]
fn get_neighbors_records_bad_link_and_keeps_going() {
    let page: Uri = "https://h/dir/".parse().unwrap();
    let body = "<a href=\"a b\"> <a href=\"/fine\">";
    let mut urls: Vec<Uri> = Vec::new();
    let mut errors: Vec<String> = Vec::new();
    html::get_neighbors(&mut urls, &mut errors, body, &page);
    assert_eq!(urls.len(), 1);
    assert_eq!(urls[0].path, "/fine");
    assert_eq!(errors.len(), 1);
    assert_eq!(errors[0], "Invalid character in path (a%20b) in url a%20b");
}

#[test]
fn duplicate_links_resolve_once() {
    let page: Uri = "https://h/".parse().unwrap();
    let body = "<a href=\"/x\"> <a href=\"/x\"> <a href=\"x\">";
    let mut urls: Vec<Uri> = Vec::new();
    let mut errors: Vec<String> = Vec::new();
    html::get_neighbors(&mut urls, &mut errors, body, &page);
    assert_eq!(urls.len(), 1);
    assert_eq!(urls[0].path, "/x");
}
