//! The build pipeline's pure core.
//!
//! A build takes the enumerated files of the content tree, keeps exactly the
//! markup ones, transforms each to an HTML page and mirrors its path under
//! the build root.  The caller enumerates, reads and writes files; this
//! module decides what is built, where, and with what content.

use vstd::prelude::*;
use vstd::string::*;
use crate::paths::{
    is_markup, mirrored, under_root, lemma_markup_under_root_len, lemma_under_root_prefix,
    output_path, str_ends_with,
};
use crate::transform::{html_of, to_html};

verus! {

/// The ways a build invocation fails.  Every one of them is fatal: the build
/// aborts at the first failure and reports no partial result.
#[derive(Clone, Copy, Debug, PartialEq, Eq, Structural)]
pub enum BuildError {
    /// The configured build target is missing or empty.
    ConfigError,
    /// The content root or a directory under it could not be listed.
    DirectoryReadError,
    /// A markup file's text could not be read.
    SourceReadError,
    /// The transformer rejected a markup file's text.
    TransformError,
    /// A pre-existing output directory could not be deleted.
    OutputCleanupError,
    /// The output directory could not be created.
    OutputCreateError,
    /// An intermediate directory of an output path could not be created.
    OutputDirError,
    /// An output file could not be written.
    OutputWriteError,
}

/// Checks the configured build target: a missing or empty value is a fatal
/// precondition failure, and no build proceeds from it.
pub fn check_build_target(build_target: &str) -> (r: Result<(), BuildError>)
    ensures
        r is Ok <==> build_target@.len() > 0,
        r is Err ==> r->Err_0 == BuildError::ConfigError,
{
    if build_target.is_empty() {
        Err(BuildError::ConfigError)
    } else {
        Ok(())
    }
}

/// The build and content roots of a project: the configured target directory
/// and the `routes` directory, both directly under the project path.
pub fn project_paths(project_path: &str, build_target: &str) -> (r: (String, String))
    ensures
        r.0@ == project_path@ + "/"@ + build_target@,
        r.1@ == project_path@ + "/routes"@,
{
    let build = crate::paths::join_under(project_path, build_target);
    let mut routes = String::from_str(project_path);
    routes.append("/routes");
    (build, routes)
}

/// One file found under the content root, with its raw text.
pub struct SourceFile {
    pub path: String,
    pub content: String,
}

/// The mathematical content of a `SourceFile`.
pub ghost struct SourceView {
    pub path: Seq<char>,
    pub content: Seq<char>,
}

impl View for SourceFile {
    type V = SourceView;

    open spec fn view(&self) -> SourceView {
        SourceView { path: self.path@, content: self.content@ }
    }
}

impl DeepView for SourceFile {
    type V = SourceView;

    open spec fn deep_view(&self) -> SourceView {
        self.view()
    }
}

/// One file of the output tree: its path and the HTML written there.
pub struct OutputFile {
    pub path: String,
    pub html: String,
}

/// The mathematical content of an `OutputFile`.
pub ghost struct OutputView {
    pub path: Seq<char>,
    pub html: Seq<char>,
}

impl View for OutputFile {
    type V = OutputView;

    open spec fn view(&self) -> OutputView {
        OutputView { path: self.path@, html: self.html@ }
    }
}

impl DeepView for OutputFile {
    type V = OutputView;

    open spec fn deep_view(&self) -> OutputView {
        self.view()
    }
}

/// A source file is eligible for transformation exactly when it is markup.
pub open spec fn eligible(s: SourceView) -> bool {
    is_markup(s.path)
}

/// The page built from one eligible source file.
pub open spec fn page_of(s: SourceView, routes_root: Seq<char>, build_root: Seq<char>) -> OutputView {
    OutputView { path: mirrored(s.path, routes_root, build_root), html: html_of(s.content) }
}

/// The pages of one build, in walk order: one page per eligible source file,
/// none for any other file.
pub open spec fn built_pages(
    sources: Seq<SourceView>,
    routes_root: Seq<char>,
    build_root: Seq<char>,
) -> Seq<OutputView>
    decreases sources.len(),
{
    if sources.len() == 0 {
        Seq::empty()
    } else {
        let rest = built_pages(sources.drop_last(), routes_root, build_root);
        if eligible(sources.last()) {
            rest.push(page_of(sources.last(), routes_root, build_root))
        } else {
            rest
        }
    }
}

proof fn lemma_built_pages_step(
    sources: Seq<SourceView>,
    routes_root: Seq<char>,
    build_root: Seq<char>,
    i: int,
)
    requires
        0 <= i < sources.len(),
    ensures
        built_pages(sources.take(i + 1), routes_root, build_root) == (if eligible(sources[i]) {
            built_pages(sources.take(i), routes_root, build_root).push(
                page_of(sources[i], routes_root, build_root),
            )
        } else {
            built_pages(sources.take(i), routes_root, build_root)
        }),
{
    let t = sources.take(i + 1);
    assert(t.drop_last() =~= sources.take(i));
    assert(t.last() == sources[i]);
}

/// Builds the pages of one invocation: filters the enumerated files down to
/// the markup ones and maps each to its mirrored path and transformed content.
pub fn build_pages(routes_root: &str, build_root: &str, sources: &Vec<SourceFile>) -> (out: Vec<
    OutputFile,
>)
    requires
        forall|i: int|
            0 <= i < sources@.len() ==> under_root((#[trigger] sources@[i])@.path, routes_root@),
    ensures
        out.deep_view() == built_pages(sources.deep_view(), routes_root@, build_root@),
{
    let ghost srcs = sources.deep_view();
    let mut out: Vec<OutputFile> = Vec::new();
    let mut i: usize = 0;
    while i < sources.len()
        invariant
            i <= sources@.len(),
            srcs == sources.deep_view(),
            forall|k: int|
                0 <= k < sources@.len() ==> under_root((#[trigger] sources@[k])@.path, routes_root@),
            out.deep_view() == built_pages(srcs.take(i as int), routes_root@, build_root@),
        decreases sources@.len() - i,
    {
        let s = &sources[i];
        if str_ends_with(s.path.as_str(), ".md") {
            proof {
                lemma_markup_under_root_len(s.path@, routes_root@);
                lemma_under_root_prefix(s.path@, routes_root@);
            }
            let p = output_path(s.path.as_str(), routes_root, build_root);
            let h = to_html(s.content.as_str());
            out.push(OutputFile { path: p, html: h });
        }
        proof {
            lemma_built_pages_step(srcs, routes_root@, build_root@, i as int);
            assert(out.deep_view() =~= built_pages(srcs.take(i + 1 as int), routes_root@, build_root@));
        }
        i += 1;
    }
    proof {
        assert(srcs.take(sources@.len() as int) =~= srcs);
    }
    out
}

/// The output tree as a map from file path to file content, written page by
/// page in walk order; a later page at the same path overwrites an earlier one.
pub open spec fn tree_of(pages: Seq<OutputView>) -> Map<Seq<char>, Seq<char>>
    decreases pages.len(),
{
    if pages.len() == 0 {
        Map::empty()
    } else {
        tree_of(pages.drop_last()).insert(pages.last().path, pages.last().html)
    }
}

/// The state of the output directory after one build invocation.  The build
/// deletes the whole directory and recreates it before writing, so whatever
/// the directory held before leaves no trace in the result.
pub open spec fn tree_after_build(
    prior: Map<Seq<char>, Seq<char>>,
    sources: Seq<SourceView>,
    routes_root: Seq<char>,
    build_root: Seq<char>,
) -> Map<Seq<char>, Seq<char>> {
    tree_of(built_pages(sources, routes_root, build_root))
}

/// A path is in the output tree exactly when some page was written there.
pub proof fn lemma_tree_dom(pages: Seq<OutputView>, p: Seq<char>)
    ensures
        tree_of(pages).dom().contains(p) <==> exists|j: int|
            0 <= j < pages.len() && pages[j].path == p,
    decreases pages.len(),
{
    if pages.len() > 0 {
        lemma_tree_dom(pages.drop_last(), p);
        if pages.last().path == p {
            assert(pages[pages.len() - 1].path == p);
        } else if exists|j: int| 0 <= j < pages.len() && pages[j].path == p {
            let j = choose|j: int| 0 <= j < pages.len() && pages[j].path == p;
            assert(pages.drop_last()[j] == pages[j]);
        }
    }
}

/// How many files of an enumeration are markup.
pub open spec fn markup_count(sources: Seq<SourceView>) -> nat
    decreases sources.len(),
{
    if sources.len() == 0 {
        0
    } else {
        markup_count(sources.drop_last()) + if eligible(sources.last()) {
            1nat
        } else {
            0nat
        }
    }
}

/// A build writes one page per markup file and none for any other file: the
/// page count equals the markup count of the enumeration.
pub proof fn lemma_one_page_per_markup_source(
    sources: Seq<SourceView>,
    routes_root: Seq<char>,
    build_root: Seq<char>,
)
    ensures
        built_pages(sources, routes_root, build_root).len() == markup_count(sources),
    decreases sources.len(),
{
    if sources.len() > 0 {
        lemma_one_page_per_markup_source(sources.drop_last(), routes_root, build_root);
    }
}

/// No write collides within one build: two distinct markup files under the
/// content root are built at two distinct output paths.
pub proof fn lemma_no_write_collision(
    sources: Seq<SourceView>,
    routes_root: Seq<char>,
    build_root: Seq<char>,
    i: int,
    j: int,
)
    requires
        0 <= i < sources.len(),
        0 <= j < sources.len(),
        eligible(sources[i]),
        eligible(sources[j]),
        under_root(sources[i].path, routes_root),
        under_root(sources[j].path, routes_root),
        sources[i].path != sources[j].path,
    ensures
        page_of(sources[i], routes_root, build_root).path != page_of(
            sources[j],
            routes_root,
            build_root,
        ).path,
{
    if mirrored(sources[i].path, routes_root, build_root) == mirrored(
        sources[j].path,
        routes_root,
        build_root,
    ) {
        crate::paths::lemma_mirrored_injective(
            sources[i].path,
            sources[j].path,
            routes_root,
            build_root,
        );
    }
}

/// After a successful build every markup file of the content tree is built:
/// the pages hold one page for it, at the mirrored output path, with its
/// transformed content, and an HTML file exists at that path in the output
/// tree, whatever the output directory held before.
pub proof fn lemma_every_markup_source_built(
    prior: Map<Seq<char>, Seq<char>>,
    sources: Seq<SourceView>,
    routes_root: Seq<char>,
    build_root: Seq<char>,
    i: int,
)
    requires
        0 <= i < sources.len(),
        eligible(sources[i]),
    ensures
        built_pages(sources, routes_root, build_root).contains(
            page_of(sources[i], routes_root, build_root),
        ),
        tree_after_build(prior, sources, routes_root, build_root).dom().contains(
            mirrored(sources[i].path, routes_root, build_root),
        ),
    decreases sources.len(),
{
    let built = built_pages(sources, routes_root, build_root);
    let page = page_of(sources[i], routes_root, build_root);
    if i == sources.len() - 1 {
        assert(built[built.len() - 1] == page);
    } else {
        lemma_every_markup_source_built(prior, sources.drop_last(), routes_root, build_root, i);
        let rest = built_pages(sources.drop_last(), routes_root, build_root);
        let j = choose|j: int| 0 <= j < rest.len() && rest[j] == page;
        assert(built[j] == page);
    }
    let j = choose|j: int| 0 <= j < built.len() && built[j] == page;
    lemma_tree_dom(built, page.path);
}

/// Every page of a build stems from some markup source file: a file without
/// the markup extension produces no output of its own.
pub proof fn lemma_output_only_from_markup(
    sources: Seq<SourceView>,
    routes_root: Seq<char>,
    build_root: Seq<char>,
    j: int,
)
    requires
        0 <= j < built_pages(sources, routes_root, build_root).len(),
    ensures
        exists|i: int|
            0 <= i < sources.len() && eligible(sources[i]) && built_pages(
                sources,
                routes_root,
                build_root,
            )[j] == page_of(sources[i], routes_root, build_root),
    decreases sources.len(),
{
    let built = built_pages(sources, routes_root, build_root);
    let rest = built_pages(sources.drop_last(), routes_root, build_root);
    if j < rest.len() {
        lemma_output_only_from_markup(sources.drop_last(), routes_root, build_root, j);
        let i = choose|i: int|
            0 <= i < sources.drop_last().len() && eligible(sources.drop_last()[i])
                && rest[j] == page_of(sources.drop_last()[i], routes_root, build_root);
        assert(sources.drop_last()[i] == sources[i]);
        assert(built[j] == rest[j]);
    } else {
        assert(eligible(sources.last()));
        assert(built[j] == page_of(sources[sources.len() - 1], routes_root, build_root));
    }
}

/// What the output tree holds at a markup file's mirrored path: the HTML
/// transformed from that file's text, provided no later file in walk order
/// writes to the same path — which cannot happen when the walked paths are
/// distinct, since mirroring is injective.
pub proof fn lemma_built_content(
    prior: Map<Seq<char>, Seq<char>>,
    sources: Seq<SourceView>,
    routes_root: Seq<char>,
    build_root: Seq<char>,
    i: int,
)
    requires
        0 <= i < sources.len(),
        eligible(sources[i]),
        forall|k: int| 0 <= k < sources.len() ==> under_root((#[trigger] sources[k]).path, routes_root),
        forall|k: int| i < k < sources.len() ==> (#[trigger] sources[k]).path != sources[i].path,
    ensures
        tree_after_build(prior, sources, routes_root, build_root).dom().contains(
            mirrored(sources[i].path, routes_root, build_root),
        ),
        tree_after_build(prior, sources, routes_root, build_root)[mirrored(
            sources[i].path,
            routes_root,
            build_root,
        )] == html_of(sources[i].content),
    decreases sources.len(),
{
    let built = built_pages(sources, routes_root, build_root);
    let tree = tree_of(built);
    let page = page_of(sources[i], routes_root, build_root);
    if i == sources.len() - 1 {
        assert(built.drop_last() =~= built_pages(sources.drop_last(), routes_root, build_root));
        assert(tree == tree_of(built.drop_last()).insert(page.path, page.html));
    } else {
        let rest = sources.drop_last();
        assert(rest[i] == sources[i]);
        assert(forall|k: int| 0 <= k < rest.len() ==> (#[trigger] rest[k]) == sources[k]);
        lemma_built_content(prior, rest, routes_root, build_root, i);
        if eligible(sources.last()) {
            let last = sources[sources.len() - 1];
            if mirrored(last.path, routes_root, build_root) == page.path {
                crate::paths::lemma_mirrored_injective(
                    last.path,
                    sources[i].path,
                    routes_root,
                    build_root,
                );
            }
            assert(mirrored(last.path, routes_root, build_root) != page.path);
            assert(built.drop_last() =~= built_pages(rest, routes_root, build_root));
            assert(tree == tree_of(built.drop_last()).insert(
                mirrored(last.path, routes_root, build_root),
                html_of(last.content),
            ));
        } else {
            assert(built =~= built_pages(rest, routes_root, build_root));
        }
    }
}

/// After a successful build, requesting the route name of any markup source
/// file finds, in the exact-match step, the very page built from it: the
/// served content is that file's transformed text.
pub proof fn lemma_served_route_hits_built_page(
    prior: Map<Seq<char>, Seq<char>>,
    sources: Seq<SourceView>,
    routes_root: Seq<char>,
    build_root: Seq<char>,
    i: int,
)
    requires
        0 <= i < sources.len(),
        eligible(sources[i]),
        crate::resolver::route_name_of(sources[i].path, routes_root).len() > 0,
        forall|k: int| 0 <= k < sources.len() ==> under_root((#[trigger] sources[k]).path, routes_root),
        forall|k: int| i < k < sources.len() ==> (#[trigger] sources[k]).path != sources[i].path,
    ensures
        tree_after_build(prior, sources, routes_root, build_root).dom().contains(
            crate::resolver::exact_candidate_spec(
                build_root,
                crate::resolver::route_name_of(sources[i].path, routes_root),
            ),
        ),
        tree_after_build(prior, sources, routes_root, build_root)[crate::resolver::exact_candidate_spec(
            build_root,
            crate::resolver::route_name_of(sources[i].path, routes_root),
        )] == html_of(sources[i].content),
{
    lemma_built_content(prior, sources, routes_root, build_root, i);
    crate::resolver::lemma_build_serve_agree(sources[i].path, routes_root, build_root);
}

/// Building twice in succession yields an output tree identical to building
/// once, even if stray files were added to the output directory in between:
/// the delete-then-recreate step makes the tree a function of the content
/// tree alone.
pub proof fn lemma_build_idempotent(
    prior: Map<Seq<char>, Seq<char>>,
    stray: Map<Seq<char>, Seq<char>>,
    sources: Seq<SourceView>,
    routes_root: Seq<char>,
    build_root: Seq<char>,
)
    ensures
        tree_after_build(
            tree_after_build(prior, sources, routes_root, build_root).union_prefer_right(stray),
            sources,
            routes_root,
            build_root,
        ) == tree_after_build(prior, sources, routes_root, build_root),
{
}

/// Keeps exactly the markup paths of an enumeration, in their original order.
pub fn select_markup(visited: &Vec<String>) -> (r: Vec<String>)
    ensures
        r.deep_view() == visited.deep_view().filter(|p: Seq<char>| is_markup(p)),
{
    let mut r: Vec<String> = Vec::new();
    let mut i: usize = 0;
    while i < visited.len()
        invariant
            i <= visited@.len(),
            r.deep_view() == visited.deep_view().take(i as int).filter(|p: Seq<char>| is_markup(p)),
        decreases visited@.len() - i,
    {
        let ghost vs = visited.deep_view();
        if str_ends_with(visited[i].as_str(), ".md") {
            r.push(visited[i].clone());
        }
        proof {
            let t = vs.take(i + 1 as int);
            assert(t.drop_last() =~= vs.take(i as int));
            assert(t.last() == vs[i as int]);
            reveal_with_fuel(Seq::filter, 2);
            assert(r.deep_view() =~= t.filter(|p: Seq<char>| is_markup(p)));
        }
        i += 1;
    }
    proof {
        assert(visited.deep_view().take(visited@.len() as int) =~= visited.deep_view());
    }
    r
}

} // verus!
