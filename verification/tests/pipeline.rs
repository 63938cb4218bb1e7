use plainshare::builder::{
    build_pages, check_build_target, project_paths, select_markup, BuildError, SourceFile,
};
use plainshare::paths::{join_under, output_path, route_of, str_ends_with, str_starts_with};

fn source(path: &str, content: &str) -> SourceFile {
    SourceFile { path: path.to_string(), content: content.to_string() }
}

#[test]
fn markup_files_are_built_at_mirrored_paths() {
    let sources = vec![
        source("p/routes/index.md", "# Hello"),
        source("p/routes/blog/post.md", "Some *post* text"),
    ];
    let out = build_pages("p/routes", "p/build", &sources);
    assert_eq!(out.len(), 2);
    assert_eq!(out[0].path, "p/build/index.html");
    assert_eq!(out[1].path, "p/build/blog/post.html");
    assert_eq!(out[0].html, markdown::to_html("# Hello"));
    assert_eq!(out[1].html, markdown::to_html("Some *post* text"));
}

#[test]
fn transformed_content_is_html_not_the_markup_text() {
    let sources = vec![source("p/routes/index.md", "# Hello")];
    let out = build_pages("p/routes", "p/build", &sources);
    assert_eq!(out[0].html, "<h1>Hello</h1>");
    assert_ne!(out[0].html, "# Hello");
}

#[test]
fn non_markup_files_produce_no_output() {
    let sources = vec![
        source("p/routes/style.css", "body {}"),
        source("p/routes/notes.txt", "plain"),
        source("p/routes/only.md", "one page"),
        source("p/routes/upper.MD", "case-sensitive suffix"),
    ];
    let out = build_pages("p/routes", "p/build", &sources);
    assert_eq!(out.len(), 1);
    assert_eq!(out[0].path, "p/build/only.html");
}

#[test]
fn empty_content_tree_builds_nothing() {
    let out = build_pages("p/routes", "p/build", &vec![]);
    assert!(out.is_empty());
}

#[test]
fn build_output_is_a_function_of_the_sources_alone() {
    let sources = vec![
        source("p/routes/index.md", "# Hello"),
        source("p/routes/blog/post.md", "post"),
    ];
    let first = build_pages("p/routes", "p/build", &sources);
    let second = build_pages("p/routes", "p/build", &sources);
    assert_eq!(first.len(), second.len());
    for (a, b) in first.iter().zip(second.iter()) {
        assert_eq!(a.path, b.path);
        assert_eq!(a.html, b.html);
    }
}

#[test]
fn select_markup_keeps_exactly_the_markup_paths_in_order() {
    let visited = vec![
        "p/routes/a.md".to_string(),
        "p/routes/b.css".to_string(),
        "p/routes/c/d.md".to_string(),
        "p/routes/e.markdown".to_string(),
    ];
    let selected = select_markup(&visited);
    assert_eq!(selected, vec!["p/routes/a.md".to_string(), "p/routes/c/d.md".to_string()]);
}

#[test]
fn output_path_substitutes_prefix_and_extension() {
    let p = output_path("p/routes/blog/post.md", "p/routes", "p/build");
    assert_eq!(p, "p/build/blog/post.html");
    let q = output_path("p/routes/index.md", "p/routes", "p/build");
    assert_eq!(q, "p/build/index.html");
}

#[test]
fn only_the_leading_root_and_trailing_extension_are_substituted() {
    // the content-root string recurs later in the path: only the prefix moves
    let p = output_path("p/routes/p/routes.md", "p/routes", "p/build");
    assert_eq!(p, "p/build/p/routes.html");
    // the extension string recurs mid-name: only the trailing one is replaced
    let q = output_path("p/routes/a.md.md", "p/routes", "p/build");
    assert_eq!(q, "p/build/a.md.html");
}

#[test]
fn suffix_and_prefix_tests() {
    assert!(str_ends_with("index.md", ".md"));
    assert!(!str_ends_with("index.md.bak", ".md"));
    assert!(!str_ends_with("md", ".md"));
    assert!(str_ends_with("anything", ""));
    assert!(str_starts_with("p/routes/x", "p/routes"));
    assert!(!str_starts_with("p/route", "p/routes"));
    assert!(str_starts_with("abc", ""));
}

#[test]
fn join_and_route_derivation() {
    assert_eq!(join_under("p", "build"), "p/build");
    assert_eq!(route_of("p/build/blog/post.html", "p/build"), "blog/post.html");
    assert_eq!(route_of("p/build/index.html", "p/build"), "index.html");
}

#[test]
fn empty_build_target_is_a_config_error() {
    assert_eq!(check_build_target(""), Err(BuildError::ConfigError));
    assert_eq!(check_build_target("build"), Ok(()));
}

#[test]
fn project_paths_name_the_two_roots() {
    let (build, routes) = project_paths("p", "build");
    assert_eq!(build, "p/build");
    assert_eq!(routes, "p/routes");
}
