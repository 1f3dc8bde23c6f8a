use webcrawler::uri::{Uri, UriSection};

#[test]
fn already_passing() {
    let url_str = "https://www.forbes.com/sites/christophersteiner/2016/09/29/how-to-hire-better-engineers-ignore-school-degrees-and-past-projects/#ceda3f8360bf";

    let url: Uri = url_str.parse().unwrap();

    assert_eq!(url.protocol, "https");
    assert_eq!(url.host, "www.forbes.com");
    assert_eq!(url.port, "");
    assert_eq!(url.path, "/sites/christophersteiner/2016/09/29/how-to-hire-better-engineers-ignore-school-degrees-and-past-projects/");
    assert_eq!(url.query, "");
    assert_eq!(url.fragment, "ceda3f8360bf");
}

#[test]
fn parsing_url() {
    let url1 = "https://www.forbes.com/sites/christophersteiner/2016/09/29/how-to-hire-better-engineers-ignore-school-degrees-and-past-projects/#ceda3f8360bf";
    let uri: Uri = url1.parse().unwrap();

    let expected = Uri::builder()
        .protocol("https")
        .host("www.forbes.com")
        .path("/sites/christophersteiner/2016/09/29/how-to-hire-better-engineers-ignore-school-degrees-and-past-projects/")
        .fragment("ceda3f8360bf")
        .build();

    assert_eq!(expected, uri);

    let s = uri.render();

    assert_eq!(s, "https://www.forbes.com/sites/christophersteiner/2016/09/29/how-to-hire-better-engineers-ignore-school-degrees-and-past-projects/#ceda3f8360bf");
}

#[test]
fn parse_example_with_fragment() {
    let uri: Uri = "https://www.example.com/a/b/#frag".parse().unwrap();
    assert_eq!(uri.protocol, "https");
    assert_eq!(uri.host, "www.example.com");
    assert_eq!(uri.port, "");
    assert_eq!(uri.path, "/a/b/");
    assert_eq!(uri.query, "");
    assert_eq!(uri.fragment, "frag");
}

#[test]
fn parse_empty_string() {
    let uri: Uri = "".parse().unwrap();
    assert_eq!(uri.protocol, "");
    assert_eq!(uri.host, "");
    assert_eq!(uri.port, "");
    assert_eq!(uri.path, "");
    assert_eq!(uri.query, "");
    assert_eq!(uri.fragment, "");
}

#[test]
fn parse_host_and_port() {
    let uri: Uri = "http://localhost:8080/index.html?a=1#top".parse().unwrap();
    assert_eq!(uri.protocol, "http");
    assert_eq!(uri.host, "localhost");
    assert_eq!(uri.port, "8080");
    assert_eq!(uri.path, "/index.html");
    assert_eq!(uri.query, "a=1");
    assert_eq!(uri.fragment, "top");
}

#[test]
fn parse_dot_host_normalized() {
    let uri: Uri = "./x:y".parse().unwrap();
    assert_eq!(uri.host, "");
    assert_eq!(uri.path, "x:y");
}

#[test]
fn parse_error_in_host() {
    let e = Uri::parse("https://ho^st/x").unwrap_err();
    assert!(e.section == UriSection::Host);
    assert_eq!(e.value, "ho^st");
    assert_eq!(e.message(), "Invalid character in host (ho^st)");
}

#[test]
fn parse_error_in_path() {
    let e = Uri::parse("https://h/a%b").unwrap_err();
    assert!(e.section == UriSection::Path);
    assert_eq!(e.value, "/a%b");
    assert_eq!(e.message(), "Invalid character in path (/a%b)");
}

#[test]
fn parse_error_in_query() {
    let e = Uri::parse("https://h/p?a^b").unwrap_err();
    assert!(e.section == UriSection::Query);
    assert_eq!(e.value, "a^b");
    assert_eq!(e.message(), "Invalid character in query (a^b)");
}

#[test]
fn parse_error_in_fragment() {
    let e = Uri::parse("https://h/p#a^b").unwrap_err();
    assert!(e.section == UriSection::Fragment);
    assert_eq!(e.value, "a^b");
    assert_eq!(e.message(), "Invalid character in fragment (a^b)");
}

#[test]
fn render_full_uri() {
    let uri = Uri::builder()
        .protocol("https")
        .host("h")
        .port("8080")
        .path("/p")
        .query("q=1")
        .fragment("f")
        .build();
    assert_eq!(uri.render(), "https://h:8080/p?q=1#f");
}

#[test]
fn render_path_only() {
    let uri = Uri::builder().path("abc").build();
    assert_eq!(uri.render(), "abc");
}

#[test]
fn render_parse_roundtrip_example() {
    let rendered = Uri::builder()
        .protocol("https")
        .host("www.example.com")
        .path("/a/b/")
        .fragment("frag")
        .build()
        .render();
    let back: Uri = rendered.parse().unwrap();
    assert_eq!(back.protocol, "https");
    assert_eq!(back.host, "www.example.com");
    assert_eq!(back.path, "/a/b/");
    assert_eq!(back.fragment, "frag");
}

#[test]
fn resolve_relative_path() {
    let base: Uri = "https://h/dir/page.html".parse().unwrap();
    let r = base.resolve("./x").unwrap();
    assert_eq!(r.protocol, "https");
    assert_eq!(r.host, "h");
    assert_eq!(r.path, "/dir/x");
    assert_eq!(r.fragment, "");
}

#[test]
fn resolve_clears_fragment() {
    let base: Uri = "https://h/dir/".parse().unwrap();
    let r = base.resolve("/p#frag").unwrap();
    assert_eq!(r.path, "/p");
    assert_eq!(r.fragment, "");
}

#[test]
fn resolve_protocol_relative() {
    let base: Uri = "https://h/dir/".parse().unwrap();
    let r = base.resolve("//other.test/z").unwrap();
    assert_eq!(r.protocol, "https");
    assert_eq!(r.host, "other.test");
    assert_eq!(r.path, "/z");
}

#[test]
fn resolve_space_is_percent_encoded_and_rejected() {
    let base: Uri = "https://h/dir/".parse().unwrap();
    let e = base.resolve("a b").unwrap_err();
    assert!(e.section == UriSection::Path);
    assert_eq!(e.value, "a%20b");
}

#[test]
fn resolve_absolute_same_host() {
    let base: Uri = "https://h/dir/page.html".parse().unwrap();
    let r = base.resolve("https://h/other").unwrap();
    assert_eq!(r.host, "h");
    assert_eq!(r.path, "/other");
}

#[test]
fn render_host_without_protocol_keeps_separator() {
    let uri = Uri::builder().host("h").path("/p").build();
    assert_eq!(uri.render(), "://h/p");
    let back: Uri = "://h/p".parse().unwrap();
    assert_eq!(back.protocol, "");
    assert_eq!(back.host, "h");
    assert_eq!(back.path, "/p");
    assert_eq!(back.render(), "://h/p");
}

#[test]
fn resolve_protocol_relative_dot_host_inherits_base() {
    let base: Uri = "https://h:8080/dir/page.html".parse().unwrap();
    let r = base.resolve("//./x").unwrap();
    assert_eq!(r.protocol, "https");
    assert_eq!(r.host, "h");
    assert_eq!(r.port, "8080");
    assert_eq!(r.path, "/x");
}
