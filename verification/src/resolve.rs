//! Path resolution: derive the docs root from a document identifier and map a
//! classified tag to the target file path it references, appending the
//! default content extension when the path has none.

use crate::tag::{Tag, TagModel};
use vstd::prelude::*;
use vstd::string::{StrSliceExecFns, StringExecFns};

verus! {

/// Name of the project root directory a document identifier must contain;
/// the docs root is the identifier's prefix through this segment.
pub open spec fn root_marker() -> Seq<char> {
    "sentry-docs"@
}

/// The root marker occupies `u[k ..]`.
pub open spec fn root_at(u: Seq<char>, k: int) -> bool {
    0 <= k && k + root_marker().len() <= u.len() && u.subrange(
        k,
        k + root_marker().len() as int,
    ) == root_marker()
}

/// The first position at or after `k` where the root marker occurs.
pub open spec fn first_root_from(u: Seq<char>, k: int) -> Option<int>
    decreases u.len() - k when 0 <= k
{
    if k >= u.len() || k + root_marker().len() > u.len() {
        None
    } else if root_at(u, k) {
        Some(k)
    } else {
        first_root_from(u, k + 1)
    }
}

proof fn lemma_first_root_bounds(u: Seq<char>, k: int)
    requires
        0 <= k,
    ensures
        first_root_from(u, k) matches Some(j) ==> k <= j && j + root_marker().len() <= u.len(),
    decreases u.len() - k,
{
    if k < u.len() && k + root_marker().len() <= u.len() && !root_at(u, k) {
        lemma_first_root_bounds(u, k + 1);
    }
}

/// Whether the identifier contains the root marker at all.
pub open spec fn has_docs_root(u: Seq<char>) -> bool {
    first_root_from(u, 0) is Some
}

/// The docs root: the identifier's prefix through the first occurrence of
/// the root marker.
pub open spec fn docs_root_spec(u: Seq<char>) -> Seq<char> {
    match first_root_from(u, 0) {
        Some(k) => u.subrange(0, k + root_marker().len() as int),
        None => Seq::empty(),
    }
}

/// Whether the root marker occupies `uri[k ..]`.
fn marker_at(uri: &str, k: usize) -> (b: bool)
    requires
        k + root_marker().len() <= uri@.len(),
    ensures
        b == root_at(uri@, k as int),
{
    let n = uri.unicode_len();
    let marker = "sentry-docs";
    proof {
        reveal_strlit("sentry-docs");
    }
    let m = marker.unicode_len();
    let mut t: usize = 0;
    while t < m
        invariant
            t <= m,
            m == root_marker().len(),
            marker@ == root_marker(),
            k + m <= uri@.len() <= usize::MAX,
            forall|w: int| 0 <= w < t ==> uri@[k + w] == root_marker()[w],
        decreases m - t,
    {
        let c = uri.get_char(k + t);
        let d = marker.get_char(t);
        if c != d {
            proof {
                assert(uri@.subrange(k as int, k as int + root_marker().len() as int)[t as int]
                    != root_marker()[t as int]);
            }
            return false;
        }
        t = t + 1;
    }
    proof {
        assert(uri@.subrange(k as int, k as int + root_marker().len() as int) =~= root_marker());
    }
    true
}

/// The docs root for a document identifier: its prefix through the first
/// occurrence of the root marker, which the identifier must contain.
pub fn get_docs_root_path(uri: &str) -> (r: String)
    requires
        has_docs_root(uri@),
    ensures
        r@ == docs_root_spec(uri@),
{
    let n = uri.unicode_len();
    let marker = "sentry-docs";
    proof {
        reveal_strlit("sentry-docs");
    }
    let m = marker.unicode_len();
    proof {
        lemma_first_root_bounds(uri@, 0);
    }
    let mut k: usize = 0;
    while k <= n - m
        invariant
            m == root_marker().len(),
            1 <= m <= n,
            n == uri@.len(),
            k <= n - m + 1,
            first_root_from(uri@, 0) == first_root_from(uri@, k as int),
        decreases n - k,
    {
        if marker_at(uri, k) {
            proof {
                assert(first_root_from(uri@, k as int) == Some(k as int));
            }
            return uri.substring_char(0, k + m).to_owned();
        }
        proof {
            assert(first_root_from(uri@, k as int) == first_root_from(uri@, k as int + 1));
        }
        k = k + 1;
    }
    proof {
        assert(k as int + m as int > n as int);
        assert(first_root_from(uri@, k as int) is None);
        assert(false);
    }
    String::new()
}

/// Index right after the last `/` among the first `k` characters of `path`:
/// where the file name of `path[.. k]` begins.
pub open spec fn last_slash_before(path: Seq<char>, k: int) -> int
    decreases k,
{
    if k <= 0 {
        0
    } else if path[k - 1] == '/' {
        k
    } else {
        last_slash_before(path, k - 1)
    }
}

/// Where the file name of `path` begins.
pub open spec fn file_name_start(path: Seq<char>) -> int {
    last_slash_before(path, path.len() as int)
}

/// A `.` at or after position `d`.
pub open spec fn dot_after(path: Seq<char>, d: int) -> bool
    decreases path.len() - d,
{
    if d < 0 || d >= path.len() {
        false
    } else if path[d] == '.' {
        true
    } else {
        dot_after(path, d + 1)
    }
}

/// Whether the path's file name has an extension: a `.` after its first
/// character.
pub open spec fn path_has_extension(path: Seq<char>) -> bool {
    dot_after(path, file_name_start(path) + 1)
}

fn file_name_start_exec(s: &String) -> (r: usize)
    ensures
        r as int == file_name_start(s@),
        r <= s@.len(),
{
    let n = s.as_str().unicode_len();
    let mut k: usize = n;
    while k > 0
        invariant
            k <= n,
            n == s@.len(),
            last_slash_before(s@, n as int) == last_slash_before(s@, k as int),
        decreases k,
    {
        let c = s.as_str().get_char(k - 1);
        if c == '/' {
            return k;
        }
        proof {
            assert(last_slash_before(s@, k as int) == last_slash_before(s@, k as int - 1));
        }
        k = k - 1;
    }
    0
}

fn has_extension_exec(s: &String) -> (b: bool)
    ensures
        b == path_has_extension(s@),
{
    let n = s.as_str().unicode_len();
    let start = file_name_start_exec(s);
    if start >= n {
        return false;
    }
    let mut d: usize = start + 1;
    while d < n
        invariant
            start as int + 1 <= d as int,
            d <= n,
            n == s@.len(),
            path_has_extension(s@) == dot_after(s@, d as int),
        decreases n - d,
    {
        let c = s.as_str().get_char(d);
        if c == '.' {
            return true;
        }
        proof {
            assert(dot_after(s@, d as int) == dot_after(s@, d as int + 1));
        }
        d = d + 1;
    }
    false
}

/// The docs root joined with the tag's directory and relative path.
pub open spec fn joined_path(root: Seq<char>, tag: TagModel) -> Seq<char> {
    match tag {
        TagModel::Include(p) => root + "/includes/"@ + p,
        TagModel::PlatformContent(p) => root + "/platform-includes/"@ + p,
        TagModel::Other => Seq::empty(),
    }
}

/// The resolved target: the joined path, with the default content extension
/// appended when the path has none.
pub open spec fn target_path_spec(root: Seq<char>, tag: TagModel) -> Seq<char> {
    let base = joined_path(root, tag);
    if path_has_extension(base) {
        base
    } else {
        base + ".mdx"@
    }
}

proof fn lemma_last_slash_range(path: Seq<char>, k: int)
    requires
        0 <= k,
    ensures
        0 <= last_slash_before(path, k) <= k,
    decreases k,
{
    if k > 0 && path[k - 1] != '/' {
        lemma_last_slash_range(path, k - 1);
    }
}

proof fn lemma_last_slash_concat(a: Seq<char>, p: Seq<char>, k: int)
    requires
        a.len() > 0,
        a.last() == '/',
        0 <= k <= p.len(),
    ensures
        last_slash_before(a + p, a.len() + k) == a.len() + last_slash_before(p, k),
    decreases k,
{
    if k > 0 {
        assert((a + p)[a.len() + k - 1] == p[k - 1]);
        if p[k - 1] != '/' {
            lemma_last_slash_concat(a, p, k - 1);
        }
    }
}

proof fn lemma_dot_after_concat(a: Seq<char>, p: Seq<char>, d: int)
    requires
        0 <= d <= p.len() + 1,
    ensures
        dot_after(a + p, a.len() + d) == dot_after(p, d),
    decreases p.len() + 1 - d,
{
    if d < p.len() {
        assert((a + p)[a.len() + d] == p[d]);
        if p[d] != '.' {
            lemma_dot_after_concat(a, p, d + 1);
        }
    }
}

/// Joining a relative path under a directory keeps whether the whole path has
/// an extension: the file name of the joined path is the file name of `p`.
proof fn lemma_extension_of_joined(a: Seq<char>, p: Seq<char>)
    requires
        a.len() > 0,
        a.last() == '/',
    ensures
        path_has_extension(a + p) == path_has_extension(p),
{
    lemma_last_slash_concat(a, p, p.len() as int);
    lemma_last_slash_range(p, p.len() as int);
    lemma_dot_after_concat(a, p, file_name_start(p) + 1);
}

/// Resolver round trip for `Include(p)`: when `p` carries no file extension
/// the resolved path is the joined path with the default content extension
/// appended; when `p` supplies an extension the joined path is untouched.
pub proof fn lemma_include_resolution(root: Seq<char>, p: Seq<char>)
    ensures
        path_has_extension(p) ==> target_path_spec(root, TagModel::Include(p)) == root
            + "/includes/"@ + p,
        !path_has_extension(p) ==> target_path_spec(root, TagModel::Include(p)) == root
            + "/includes/"@ + p + ".mdx"@,
{
    reveal_strlit("/includes/");
    let a = root + "/includes/"@;
    assert(a.last() == '/');
    lemma_extension_of_joined(a, p);
    assert(a + p == joined_path(root, TagModel::Include(p)));
}

/// The target file path a tag references under the docs root. `Other` tags
/// carry no reference, so resolution is not defined for them.
pub fn get_target_path(root: &str, tag: &Tag) -> (r: String)
    requires
        !(tag@ is Other),
    ensures
        r@ == target_path_spec(root@, tag@),
{
    let mut res: String = root.to_owned();
    match tag {
        Tag::Include(p) => {
            res.append("/includes/");
            res.append(p.as_str());
        },
        Tag::PlatformContent(p) => {
            res.append("/platform-includes/");
            res.append(p.as_str());
        },
        Tag::Other => {
            proof {
                assert(false);
            }
        },
    }
    if !has_extension_exec(&res) {
        res.append(".mdx");
    }
    res
}

} // verus!
