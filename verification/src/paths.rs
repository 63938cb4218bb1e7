//! Path strings and the mapping from a source path to its output path.
//!
//! Paths are plain strings, as the rest of the pipeline hands them around.
//! A source file is eligible for transformation exactly when its path ends
//! in the markup extension; its output path is derived by replacing the
//! content-root prefix with the build-root prefix and the markup extension
//! with `.html`.

use vstd::prelude::*;
use vstd::string::*;

verus! {

/// `suffix` is the final run of characters of `s`.
pub open spec fn ends_with(s: Seq<char>, suffix: Seq<char>) -> bool {
    suffix.len() <= s.len() && s.skip(s.len() - suffix.len()) == suffix
}

/// A path names a markup file exactly when it ends in the markup extension.
pub open spec fn is_markup(path: Seq<char>) -> bool {
    ends_with(path, ".md"@)
}

/// A path lies under `root` when `root` followed by a separator is a prefix of it.
pub open spec fn under_root(path: Seq<char>, root: Seq<char>) -> bool {
    (root + "/"@).is_prefix_of(path)
}

/// The output path of a markup source: the content-root prefix replaced by the
/// build root, and the markup extension replaced by `.html`.
pub open spec fn mirrored(source: Seq<char>, routes_root: Seq<char>, build_root: Seq<char>) -> Seq<char> {
    build_root + source.subrange(routes_root.len() as int, source.len() - ".md"@.len()) + ".html"@
}

/// Compares the tail of `s` with `suffix`, character by character.
pub fn str_ends_with(s: &str, suffix: &str) -> (b: bool)
    ensures
        b == ends_with(s@, suffix@),
{
    let n: usize = s.unicode_len();
    let m: usize = suffix.unicode_len();
    if m > n {
        return false;
    }
    let mut i: usize = 0;
    while i < m
        invariant
            m <= n,
            i <= m,
            n == s@.len(),
            m == suffix@.len(),
            forall|j: int| 0 <= j < i ==> s@[n - m + j] == suffix@[j],
        decreases m - i,
    {
        if s.get_char(n - m + i) != suffix.get_char(i) {
            proof {
                assert(s@.skip(n - m)[i as int] != suffix@[i as int]);
            }
            return false;
        }
        i += 1;
    }
    proof {
        assert(s@.skip(n - m) =~= suffix@);
    }
    true
}

/// Compares the head of `s` with `prefix`, character by character.
pub fn str_starts_with(s: &str, prefix: &str) -> (b: bool)
    ensures
        b == prefix@.is_prefix_of(s@),
{
    let n: usize = s.unicode_len();
    let m: usize = prefix.unicode_len();
    if m > n {
        return false;
    }
    let mut i: usize = 0;
    while i < m
        invariant
            m <= n,
            i <= m,
            n == s@.len(),
            m == prefix@.len(),
            forall|j: int| 0 <= j < i ==> s@[j] == prefix@[j],
        decreases m - i,
    {
        if s.get_char(i) != prefix.get_char(i) {
            proof {
                assert(s@.subrange(0, m as int)[i as int] != prefix@[i as int]);
            }
            return false;
        }
        i += 1;
    }
    proof {
        assert(s@.subrange(0, m as int) =~= prefix@);
    }
    true
}

/// Joins `tail` under `base` with a single separator.
pub fn join_under(base: &str, tail: &str) -> (r: String)
    ensures
        r@ == base@ + "/"@ + tail@,
{
    let mut r = String::from_str(base);
    r.append("/");
    r.append(tail);
    r
}

/// A markup path under a root is long enough that its root prefix and its
/// extension do not overlap: the separator after the root cannot be one of the
/// extension's characters.
pub proof fn lemma_markup_under_root_len(path: Seq<char>, root: Seq<char>)
    requires
        under_root(path, root),
        is_markup(path),
    ensures
        path.len() >= root.len() + 1 + ".md"@.len(),
{
    reveal_strlit("/");
    reveal_strlit(".md");
    let withsep = root + "/"@;
    assert(withsep =~= path.subrange(0, withsep.len() as int));
    assert(withsep[root.len() as int] == "/"@[0]);
    assert(path.subrange(0, withsep.len() as int)[root.len() as int] == path[root.len() as int]);
    assert(path[root.len() as int] == '/');
    let n = path.len() as int;
    assert(path.skip(n - 3) == ".md"@);
    assert(path[n - 3] == path.skip(n - 3)[0]);
    assert(path[n - 2] == path.skip(n - 3)[1]);
    assert(path[n - 1] == path.skip(n - 3)[2]);
    if n < root.len() + 4 {
        assert(root.len() == n - 3 || root.len() == n - 2 || root.len() == n - 1);
        assert(path[root.len() as int] == '.' || path[root.len() as int] == 'm'
            || path[root.len() as int] == 'd');
    }
}

/// Lying under a root implies carrying the root itself as a prefix.
pub proof fn lemma_under_root_prefix(path: Seq<char>, root: Seq<char>)
    requires
        under_root(path, root),
    ensures
        root.is_prefix_of(path),
        path.len() > root.len(),
{
    reveal_strlit("/");
    let withsep = root + "/"@;
    assert(withsep =~= path.subrange(0, withsep.len() as int));
    assert(root =~= path.subrange(0, root.len() as int));
}

/// A mirrored output path lies under the build root, as the source lay under
/// the content root: the separator after the content root survives the
/// substitution.
pub proof fn lemma_mirrored_under_build_root(
    source: Seq<char>,
    routes_root: Seq<char>,
    build_root: Seq<char>,
)
    requires
        under_root(source, routes_root),
        is_markup(source),
    ensures
        under_root(mirrored(source, routes_root, build_root), build_root),
{
    reveal_strlit("/");
    lemma_markup_under_root_len(source, routes_root);
    let withsep = routes_root + "/"@;
    assert(withsep =~= source.subrange(0, withsep.len() as int));
    assert(source[routes_root.len() as int] == withsep[routes_root.len() as int]);
    let m = mirrored(source, routes_root, build_root);
    let middle = source.subrange(routes_root.len() as int, source.len() - ".md"@.len());
    assert(middle[0] == source[routes_root.len() as int]);
    assert(m[build_root.len() as int] == middle[0]);
    assert((build_root + "/"@) =~= m.subrange(0, build_root.len() + 1 as int));
}

/// Mirroring is injective: two markup files under the content root with the
/// same output path are the same file, so no two source files collide in the
/// output tree.
pub proof fn lemma_mirrored_injective(
    a: Seq<char>,
    b: Seq<char>,
    routes_root: Seq<char>,
    build_root: Seq<char>,
)
    requires
        under_root(a, routes_root),
        under_root(b, routes_root),
        is_markup(a),
        is_markup(b),
        mirrored(a, routes_root, build_root) == mirrored(b, routes_root, build_root),
    ensures
        a == b,
{
    reveal_strlit("/");
    reveal_strlit(".md");
    lemma_markup_under_root_len(a, routes_root);
    lemma_markup_under_root_len(b, routes_root);
    lemma_under_root_prefix(a, routes_root);
    lemma_under_root_prefix(b, routes_root);
    let k = routes_root.len() as int;
    let ma = mirrored(a, routes_root, build_root);
    let mb = mirrored(b, routes_root, build_root);
    let mida = a.subrange(k, a.len() - 3);
    let midb = b.subrange(k, b.len() - 3);
    assert(ma.len() == build_root.len() + mida.len() + ".html"@.len());
    assert(mb.len() == build_root.len() + midb.len() + ".html"@.len());
    assert(a.len() == b.len());
    assert forall|i: int| 0 <= i < a.len() implies a[i] == b[i] by {
        if i < k {
            assert(a.subrange(0, k)[i] == a[i]);
            assert(b.subrange(0, k)[i] == b[i]);
            assert(a[i] == routes_root[i]);
            assert(b[i] == routes_root[i]);
        } else if i < a.len() - 3 {
            assert(mida[i - k] == a[i]);
            assert(midb[i - k] == b[i]);
            assert(ma[build_root.len() + (i - k)] == mida[i - k]);
            assert(mb[build_root.len() + (i - k)] == midb[i - k]);
        } else {
            assert(a.skip(a.len() - 3)[i - (a.len() - 3)] == a[i]);
            assert(b.skip(b.len() - 3)[i - (b.len() - 3)] == b[i]);
            assert(a[i] == ".md"@[i - (a.len() - 3)]);
            assert(b[i] == ".md"@[i - (b.len() - 3)]);
        }
    }
    assert(a =~= b);
}

/// The route that a built output path serves: the path with the build root
/// and its separator stripped off the front.
pub fn route_of(path: &str, build_root: &str) -> (r: String)
    requires
        under_root(path@, build_root@),
    ensures
        r@ == path@.skip(build_root@.len() + 1 as int),
{
    proof {
        lemma_under_root_prefix(path@, build_root@);
    }
    let n: usize = path.unicode_len();
    let k: usize = build_root.unicode_len();
    let tail = path.substring_char(k + 1, n);
    String::from_str(tail)
}

/// Computes the mirrored output path of a markup source file.
pub fn output_path(source: &str, routes_root: &str, build_root: &str) -> (r: String)
    requires
        routes_root@.is_prefix_of(source@),
        is_markup(source@),
        routes_root@.len() + ".md"@.len() <= source@.len(),
    ensures
        r@ == mirrored(source@, routes_root@, build_root@),
{
    proof {
        reveal_strlit(".md");
        reveal_strlit(".html");
    }
    let n: usize = source.unicode_len();
    let k: usize = routes_root.unicode_len();
    let middle = source.substring_char(k, n - 3);
    let mut r = String::from_str(build_root);
    r.append(middle);
    r.append(".html");
    r
}

} // verus!
