use plainshare::builder::{build_pages, SourceFile};
use plainshare::resolver::{exact_candidate, index_candidate, resolve_from_reads, Resolution};

fn source(path: &str, content: &str) -> SourceFile {
    SourceFile { path: path.to_string(), content: content.to_string() }
}

fn found(r: Resolution) -> Option<String> {
    match r {
        Resolution::Found(c) => Some(c),
        _ => None,
    }
}

#[test]
fn candidates_for_the_root_request() {
    assert_eq!(exact_candidate("p/build", ""), "p/build/index.html");
}

#[test]
fn candidates_for_a_named_request() {
    assert_eq!(exact_candidate("p/build", "blog/post"), "p/build/blog/post.html");
    assert_eq!(index_candidate("p/build", "blog"), "p/build/blog/index.html");
}

#[test]
fn root_request_returns_the_index_page_if_present() {
    let r = resolve_from_reads("p/build", "", "<h1>Hello</h1>".to_string(), String::new());
    assert_eq!(found(r), Some("<h1>Hello</h1>".to_string()));
}

#[test]
fn root_request_without_an_index_page_is_not_found() {
    let r = resolve_from_reads("p/build", "", String::new(), String::new());
    assert!(matches!(r, Resolution::NotFound));
}

#[test]
fn exact_match_returns_the_page() {
    let r = resolve_from_reads(
        "p/build",
        "blog/post",
        "<p>post</p>".to_string(),
        String::new(),
    );
    assert_eq!(found(r), Some("<p>post</p>".to_string()));
}

#[test]
fn directory_index_fallback_when_exact_file_is_missing() {
    let r = resolve_from_reads("p/build", "blog", String::new(), "<p>blog index</p>".to_string());
    assert_eq!(found(r), Some("<p>blog index</p>".to_string()));
}

#[test]
fn missing_both_candidates_is_not_found() {
    let r = resolve_from_reads("p/build", "missing", String::new(), String::new());
    assert!(matches!(r, Resolution::NotFound));
}

#[test]
fn empty_output_root_is_misconfigured() {
    let r = resolve_from_reads("", "anything", "content".to_string(), String::new());
    assert!(matches!(r, Resolution::Misconfigured));
}

// A small in-memory stand-in for the built output directory: candidate paths
// are looked up in the page list, a miss or an empty file reads as "".
fn read_built(pages: &[(String, String)], path: &str) -> String {
    pages
        .iter()
        .find(|(p, _)| p == path)
        .map(|(_, c)| c.clone())
        .unwrap_or_default()
}

fn get(pages: &[(String, String)], output_root: &str, name: &str) -> Resolution {
    let exact = read_built(pages, &exact_candidate(output_root, name));
    let fallback = if !name.is_empty() && exact.is_empty() {
        read_built(pages, &index_candidate(output_root, name))
    } else {
        String::new()
    };
    resolve_from_reads(output_root, name, exact, fallback)
}

#[test]
fn end_to_end_build_then_serve() {
    let sources = vec![
        source("p/routes/index.md", "# Hello"),
        source("p/routes/blog/post.md", "A post."),
    ];
    let out = build_pages("p/routes", "p/build", &sources);
    let pages: Vec<(String, String)> =
        out.into_iter().map(|o| (o.path, o.html)).collect();
    assert_eq!(
        pages.iter().map(|(p, _)| p.as_str()).collect::<Vec<_>>(),
        vec!["p/build/index.html", "p/build/blog/post.html"],
    );

    let home = get(&pages, "p/build", "");
    assert_eq!(found(home), Some(markdown::to_html("# Hello")));

    let post = get(&pages, "p/build", "blog/post");
    assert_eq!(found(post), Some(markdown::to_html("A post.")));

    let nope = get(&pages, "p/build", "nope");
    assert!(matches!(nope, Resolution::NotFound));
}
