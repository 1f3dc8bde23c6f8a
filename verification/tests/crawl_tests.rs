use webcrawler::crawler::{CrawlError, CrawlSession, Crawler};
use webcrawler::graph::Graph;
use webcrawler::html;
use webcrawler::page_node::NodeStatus;
use webcrawler::uri::Uri;

#[test]
fn crawl_page() {
}

fn integrate_page(session: &mut CrawlSession, uri: &Uri, body: &str) {
    let mut urls: Vec<Uri> = Vec::new();
    let mut errors: Vec<String> = Vec::new();
    html::get_neighbors(&mut urls, &mut errors, body, uri);
    session.integrate(uri, true, 200, "", &urls, &errors);
}

#[test]
fn crawl_keeps_to_the_domain() {
    let crawler = Crawler::new(2);
    let mut session = crawler.start_session("https://site.test/").unwrap();
    let seed = session.dispatch().unwrap();
    assert_eq!(seed.host, "site.test");
    let body = "<a href=\"/a\"> <a href=\"/b\"> <a href=\"https://other.test/c\">";
    integrate_page(&mut session, &seed, body);
    while let Some(u) = session.dispatch() {
        integrate_page(&mut session, &u, "");
    }
    assert!(session.is_complete());
    let (graph, errors) = session.into_parts();
    assert_eq!(graph.len(), 3);
    let outside: Uri = "https://other.test/c".parse().unwrap();
    assert!(graph.get(&outside).is_none());
    assert!(graph.parents(&outside).is_none());
    let a: Uri = "https://site.test/a".parse().unwrap();
    assert!(graph.get(&a).is_some());
    assert!(errors.is_empty());
}

#[test]
fn single_thread_crawl_reaches_all_pages() {
    let crawler = Crawler::new(1);
    let mut session = crawler.start_session("https://site.test/").unwrap();
    let mut fetched = 0;
    while let Some(u) = session.dispatch() {
        let body = match u.path.as_str() {
            "/" => "<a href=\"/a\"> <a href=\"/b\">",
            "/a" => "<a href=\"/c\"> <a href=\"/\">",
            _ => "",
        };
        integrate_page(&mut session, &u, body);
        fetched += 1;
    }
    assert!(session.is_complete());
    let (graph, _errors) = session.into_parts();
    assert_eq!(graph.len(), 4);
    assert_eq!(fetched, 4);
    for path in ["/", "/a", "/b", "/c"] {
        let u: Uri = format!("https://site.test{}", path).parse().unwrap();
        let node = graph.get(&u).unwrap();
        assert!(node.node_status == NodeStatus::Success);
    }
}

#[test]
fn sibling_survives_a_failed_fetch() {
    let crawler = Crawler::new(1);
    let mut session = crawler.start_session("https://site.test/").unwrap();
    let seed = session.dispatch().unwrap();
    integrate_page(&mut session, &seed, "<a href=\"/a\"> <a href=\"/b\">");
    let a = session.dispatch().unwrap();
    assert_eq!(a.path, "/a");
    let none_urls: Vec<Uri> = Vec::new();
    let none_errors: Vec<String> = Vec::new();
    session.integrate(&a, false, 0, "connection refused", &none_urls, &none_errors);
    let b = session.dispatch().unwrap();
    assert_eq!(b.path, "/b");
    integrate_page(&mut session, &b, "");
    assert!(session.is_complete());
    let (graph, errors) = session.into_parts();
    assert!(graph.get(&a).unwrap().node_status == NodeStatus::Failure);
    assert_eq!(graph.get(&a).unwrap().error, "connection refused");
    assert!(graph.get(&b).unwrap().node_status == NodeStatus::Success);
    assert_eq!(errors, vec!["connection refused"]);
}

#[test]
fn duplicate_link_one_node_two_parents() {
    let crawler = Crawler::new(1);
    let mut session = crawler.start_session("https://site.test/").unwrap();
    let seed = session.dispatch().unwrap();
    // the same target twice from one page: one node, one incoming edge
    integrate_page(&mut session, &seed, "<a href=\"/x\"> <a href=\"/x\"> <a href=\"/other\">");
    let x = session.dispatch().unwrap();
    assert_eq!(x.path, "/x");
    integrate_page(&mut session, &x, "");
    let other = session.dispatch().unwrap();
    assert_eq!(other.path, "/other");
    // a second parent pointing at the same target: a second incoming edge
    integrate_page(&mut session, &other, "<a href=\"/x\">");
    while let Some(u) = session.dispatch() {
        integrate_page(&mut session, &u, "");
    }
    let (graph, _errors) = session.into_parts();
    assert_eq!(graph.len(), 3);
    let parents = graph.parents(&x).unwrap();
    assert_eq!(parents.len(), 2);
}

#[test]
fn zero_threads_is_a_configuration_error() {
    let crawler = Crawler::new(0);
    match crawler.start_session("https://site.test/") {
        Err(CrawlError::InvalidThreadCount) => {}
        _ => panic!("a zero thread bound must be refused"),
    }
}

#[test]
fn bad_seed_is_a_fatal_error() {
    let crawler = Crawler::new(2);
    match crawler.start_session("https://si^te/") {
        Err(CrawlError::Seed(e)) => {
            assert_eq!(e.value, "si^te");
        }
        _ => panic!("an unparsable seed must be refused"),
    }
}

#[test]
fn dispatch_respects_the_thread_bound() {
    let crawler = Crawler::new(1);
    let mut session = crawler.start_session("https://site.test/").unwrap();
    let seed = session.dispatch().unwrap();
    // one worker is active and the bound is one: nothing else may go out
    assert!(session.dispatch().is_none());
    integrate_page(&mut session, &seed, "");
    assert!(session.is_complete());
}

#[test]
fn seed_fragment_is_stripped() {
    let crawler = Crawler::new(1);
    let mut session = crawler.start_session("https://site.test/p#frag").unwrap();
    let seed = session.dispatch().unwrap();
    assert_eq!(seed.path, "/p");
    assert_eq!(seed.fragment, "");
    integrate_page(&mut session, &seed, "");
    let (graph, _errors) = session.into_parts();
    assert_eq!(graph.len(), 1);
}

#[test]
fn crawler_settings() {
    let mut crawler = Crawler::new(3);
    assert!(!crawler.verbose());
    crawler.set_verbosity(true);
    assert!(crawler.verbose());
}

#[test]
fn graph_starts_empty() {
    let g = Graph::new();
    assert!(g.is_empty());
}
