use vstd::prelude::*;

use crate::pool::{CachedItem, CachedView};
use crate::text::{joined, lemma_views_push, views};

verus! {

/// The directory of a page: its location without the last segment, which names the page.
pub open spec fn dir_of(path: Seq<Seq<char>>) -> Seq<Seq<char>> {
    if path.len() == 0 {
        path
    } else {
        path.subrange(0, path.len() - 1)
    }
}

/// The number of leading segments that `a` and `b` share.
pub open spec fn common_prefix_len(a: Seq<Seq<char>>, b: Seq<Seq<char>>) -> nat
    decreases a.len(),
{
    if a.len() == 0 || b.len() == 0 || a[0] != b[0] {
        0
    } else {
        1 + common_prefix_len(a.subrange(1, a.len() as int), b.subrange(1, b.len() as int))
    }
}

/// `k` parent-directory steps.
pub open spec fn ups(k: nat) -> Seq<Seq<char>> {
    Seq::new(k, |i: int| ".."@)
}

/// The relative path from the directory of `from` to the directory of `to`: a step up for
/// each segment of `from`'s directory past the shared prefix, then the rest of `to`'s.
pub open spec fn relative_path(from: Seq<Seq<char>>, to: Seq<Seq<char>>) -> Seq<Seq<char>> {
    let f = dir_of(from);
    let t = dir_of(to);
    let d = common_prefix_len(f, t);
    ups((f.len() - d) as nat) + t.subrange(d as int, t.len() as int)
}

/// The link target of `to`'s page, relative to the page of `from`.
pub open spec fn cross_ref_text(from: CachedView, to: CachedView) -> Seq<char> {
    joined(relative_path(from.path, to.path).push(to.name + ".md"@), "/"@)
}

/// A Markdown link to `to`'s page from the page of `from`.
pub open spec fn cross_ref_md_text(from: CachedView, to: CachedView) -> Seq<char> {
    "["@ + to.name + "]("@ + cross_ref_text(from, to) + ")"@
}

/// One segment of a relative path followed from the directory `dir`.
pub open spec fn step(dir: Seq<Seq<char>>, seg: Seq<char>) -> Seq<Seq<char>> {
    if seg == ".."@ {
        dir_of(dir)
    } else {
        dir.push(seg)
    }
}

/// The directory reached by following `rel` from `dir`.
pub open spec fn walk(dir: Seq<Seq<char>>, rel: Seq<Seq<char>>) -> Seq<Seq<char>>
    decreases rel.len(),
{
    if rel.len() == 0 {
        dir
    } else {
        walk(step(dir, rel[0]), rel.subrange(1, rel.len() as int))
    }
}

proof fn lemma_common_prefix(a: Seq<Seq<char>>, b: Seq<Seq<char>>, d: int)
    requires
        0 <= d <= a.len(),
        d <= b.len(),
        forall|k: int| 0 <= k < d ==> a[k] == b[k],
        d == a.len() || d == b.len() || a[d] != b[d],
    ensures
        common_prefix_len(a, b) == d,
    decreases d,
{
    if d > 0 {
        let a1 = a.subrange(1, a.len() as int);
        let b1 = b.subrange(1, b.len() as int);
        assert(a[0] == b[0]);
        assert forall|k: int| 0 <= k < d - 1 implies a1[k] == b1[k] by {
            assert(a[k + 1] == b[k + 1]);
        }
        if d < a.len() && d < b.len() {
            assert(a1[d - 1] == a[d] && b1[d - 1] == b[d]);
        }
        lemma_common_prefix(a1, b1, d - 1);
    }
}

proof fn lemma_common_prefix_bounds(a: Seq<Seq<char>>, b: Seq<Seq<char>>)
    ensures
        common_prefix_len(a, b) <= a.len(),
        common_prefix_len(a, b) <= b.len(),
        a.subrange(0, common_prefix_len(a, b) as int) == b.subrange(0, common_prefix_len(a, b) as int),
    decreases a.len(),
{
    let d = common_prefix_len(a, b) as int;
    if a.len() > 0 && b.len() > 0 && a[0] == b[0] {
        let a1 = a.subrange(1, a.len() as int);
        let b1 = b.subrange(1, b.len() as int);
        lemma_common_prefix_bounds(a1, b1);
        assert(a1.subrange(0, d - 1) == b1.subrange(0, d - 1));
        assert forall|k: int| 0 <= k < d implies a.subrange(0, d)[k] == b.subrange(0, d)[k] by {
            if k > 0 {
                assert(a.subrange(0, d)[k] == a1.subrange(0, d - 1)[k - 1]);
                assert(b.subrange(0, d)[k] == b1.subrange(0, d - 1)[k - 1]);
            }
        }
    }
    assert(a.subrange(0, d) =~= b.subrange(0, d));
}

proof fn lemma_walk_ups(dir: Seq<Seq<char>>, k: nat, rest: Seq<Seq<char>>)
    requires
        k <= dir.len(),
    ensures
        walk(dir, ups(k) + rest) == walk(dir.subrange(0, dir.len() - k), rest),
    decreases k,
{
    if k == 0 {
        assert(ups(k) + rest =~= rest);
        assert(dir.subrange(0, dir.len() - k) =~= dir);
    } else {
        let rel = ups(k) + rest;
        assert(rel[0] == ".."@);
        assert(rel.subrange(1, rel.len() as int) =~= ups((k - 1) as nat) + rest);
        let up = dir.subrange(0, dir.len() - 1);
        lemma_walk_ups(up, (k - 1) as nat, rest);
        assert(up.subrange(0, up.len() - (k - 1)) =~= dir.subrange(0, dir.len() - k));
    }
}

proof fn lemma_walk_down(dir: Seq<Seq<char>>, rest: Seq<Seq<char>>)
    requires
        forall|k: int| 0 <= k < rest.len() ==> rest[k] != ".."@,
    ensures
        walk(dir, rest) == dir + rest,
    decreases rest.len(),
{
    if rest.len() == 0 {
        assert(dir + rest =~= dir);
    } else {
        let tail = rest.subrange(1, rest.len() as int);
        assert forall|k: int| 0 <= k < tail.len() implies tail[k] != ".."@ by {
            assert(tail[k] == rest[k + 1]);
        }
        lemma_walk_down(dir.push(rest[0]), tail);
        assert(dir.push(rest[0]) + tail =~= dir + rest);
    }
}

/// Following the relative path from `a` to `b` from `a`'s directory reaches `b`'s
/// directory, and following it and then `b`'s last segment reaches `b` itself. Segments are
/// compared as they stand, so `b` may hold no `..` segment of its own.
pub proof fn lemma_relative_path_reaches(a: Seq<Seq<char>>, b: Seq<Seq<char>>)
    requires
        b.len() > 0,
        forall|k: int| 0 <= k < b.len() ==> b[k] != ".."@,
    ensures
        walk(dir_of(a), relative_path(a, b)) == dir_of(b),
        walk(dir_of(a), relative_path(a, b).push(b.last())) == b,
{
    let f = dir_of(a);
    let t = dir_of(b);
    let d = common_prefix_len(f, t);
    lemma_common_prefix_bounds(f, t);
    let rest = t.subrange(d as int, t.len() as int);
    let k = (f.len() - d) as nat;
    lemma_walk_ups(f, k, rest);
    lemma_walk_ups(f, k, rest.push(b.last()));
    assert(relative_path(a, b).push(b.last()) =~= ups(k) + rest.push(b.last()));
    assert forall|j: int| 0 <= j < rest.len() implies rest[j] != ".."@ by {
        assert(rest[j] == b[d + j]);
    }
    assert forall|j: int| 0 <= j < rest.len() + 1 implies rest.push(b.last())[j] != ".."@ by {
        if j < rest.len() {
            assert(rest[j] == b[d + j]);
        }
    }
    lemma_walk_down(f.subrange(0, d as int), rest);
    lemma_walk_down(f.subrange(0, d as int), rest.push(b.last()));
    assert(f.subrange(0, f.len() - k) =~= f.subrange(0, d as int));
    assert(t.subrange(0, d as int) + rest =~= t);
    assert(t.subrange(0, d as int) + rest.push(b.last()) =~= b);
}

proof fn lemma_common_prefix_at_least(a: Seq<Seq<char>>, b: Seq<Seq<char>>, m: int)
    requires
        0 <= m <= a.len(),
        m <= b.len(),
        forall|k: int| 0 <= k < m ==> a[k] == b[k],
    ensures
        common_prefix_len(a, b) >= m,
    decreases m,
{
    if m > 0 {
        let a1 = a.subrange(1, a.len() as int);
        let b1 = b.subrange(1, b.len() as int);
        assert(a[0] == b[0]);
        assert forall|k: int| 0 <= k < m - 1 implies a1[k] == b1[k] by {
            assert(a[k + 1] == b[k + 1]);
        }
        lemma_common_prefix_at_least(a1, b1, m - 1);
    }
}

/// One step changes the shared prefix with `w` by at most one segment, and a step up
/// never lengthens it.
proof fn lemma_step_prefix(dir: Seq<Seq<char>>, seg: Seq<char>, w: Seq<Seq<char>>)
    ensures
        seg == ".."@ && dir.len() > 0 ==> common_prefix_len(step(dir, seg), w) <= common_prefix_len(dir, w),
        seg != ".."@ ==> common_prefix_len(step(dir, seg), w) <= common_prefix_len(dir, w) + 1,
{
    let next = step(dir, seg);
    let d2 = common_prefix_len(next, w) as int;
    lemma_common_prefix_bounds(next, w);
    if seg == ".."@ && dir.len() > 0 {
        assert forall|k: int| 0 <= k < d2 implies dir[k] == w[k] by {
            assert(next[k] == dir[k]);
            assert(next.subrange(0, d2)[k] == w.subrange(0, d2)[k]);
        }
        lemma_common_prefix_at_least(dir, w, d2);
    }
    if seg != ".."@ {
        let m = if d2 <= dir.len() { d2 } else { dir.len() as int };
        assert forall|k: int| 0 <= k < m implies dir[k] == w[k] by {
            assert(next[k] == dir[k]);
            assert(next.subrange(0, d2)[k] == w.subrange(0, d2)[k]);
        }
        lemma_common_prefix_at_least(dir, w, m);
    }
}

/// Any walk from `dir` takes at least one step for each segment of `dir` past its shared
/// prefix with where it ends, and one for each segment of the end past that prefix.
proof fn lemma_walk_length(dir: Seq<Seq<char>>, rel: Seq<Seq<char>>)
    ensures
        rel.len() + 2 * common_prefix_len(dir, walk(dir, rel)) >= dir.len() + walk(dir, rel).len(),
    decreases rel.len(),
{
    let w = walk(dir, rel);
    if rel.len() == 0 {
        lemma_common_prefix(dir, dir, dir.len() as int);
    } else {
        let next = step(dir, rel[0]);
        let rest = rel.subrange(1, rel.len() as int);
        lemma_walk_length(next, rest);
        lemma_step_prefix(dir, rel[0], w);
        if rel[0] == ".."@ && dir.len() == 0 {
            assert(next == dir);
        }
    }
}

/// The relative path is a shortest one: every sequence of steps that leads from `a`'s
/// directory to `b`'s is at least as long.
pub proof fn lemma_relative_path_shortest(a: Seq<Seq<char>>, b: Seq<Seq<char>>, rel: Seq<Seq<char>>)
    requires
        walk(dir_of(a), rel) == dir_of(b),
    ensures
        rel.len() >= relative_path(a, b).len(),
{
    let f = dir_of(a);
    let t = dir_of(b);
    lemma_walk_length(f, rel);
    lemma_common_prefix_bounds(f, t);
}

/// The relative path from a location to itself is empty, so a page's link to itself is
/// its file name alone.
pub proof fn lemma_self_reference(c: CachedView)
    ensures
        relative_path(c.path, c.path) == Seq::<Seq<char>>::empty(),
        cross_ref_text(c, c) == c.name + ".md"@,
{
    let f = dir_of(c.path);
    lemma_common_prefix(f, f, f.len() as int);
    assert(relative_path(c.path, c.path) =~= Seq::<Seq<char>>::empty());
    let parts = Seq::<Seq<char>>::empty().push(c.name + ".md"@);
    assert(parts.len() == 1);
}

impl CachedItem {
    /// The relative path from the directory of this item's page to that of `other`.
    pub fn relative_to(&self, other: &CachedItem) -> (r: Vec<String>)
        ensures
            views(r@) == relative_path(self@.path, other@.path),
    {
        let left = &self.path;
        let right = &other.path;
        let ln: usize = if left.len() > 0 {
            left.len() - 1
        } else {
            0
        };
        let rn: usize = if right.len() > 0 {
            right.len() - 1
        } else {
            0
        };
        let ghost f = dir_of(self@.path);
        let ghost t = dir_of(other@.path);
        assert(f.len() == ln && t.len() == rn);
        let mut d: usize = 0;
        while d < ln && d < rn && left[d] == right[d]
            invariant
                left@ == self.path@,
                right@ == other.path@,
                self@.path == views(left@),
                other@.path == views(right@),
                d <= ln <= left@.len(),
                d <= rn <= right@.len(),
                f == dir_of(self@.path),
                t == dir_of(other@.path),
                f.len() == ln,
                t.len() == rn,
                forall|k: int| 0 <= k < d ==> f[k] == t[k],
            decreases ln - d,
        {
            assert(f[d as int] == left@[d as int]@ && t[d as int] == right@[d as int]@);
            d = d + 1;
        }
        proof {
            if d < ln && d < rn {
                assert(f[d as int] == left@[d as int]@ && t[d as int] == right@[d as int]@);
            }
            lemma_common_prefix(f, t, d as int);
        }
        let mut r: Vec<String> = Vec::new();
        let mut k: usize = 0;
        while k < ln - d
            invariant
                d <= ln,
                k <= ln - d,
                views(r@) =~= ups(k as nat),
            decreases ln - d - k,
        {
            let up = String::from_str("..");
            proof {
                lemma_views_push(r@, up);
            }
            r.push(up);
            assert(views(r@) =~= ups((k + 1) as nat));
            k = k + 1;
        }
        let mut j: usize = d;
        while j < rn
            invariant
                right@ == other.path@,
                other@.path == views(right@),
                d <= j <= rn <= right@.len(),
                t == dir_of(other@.path),
                t.len() == rn,
                views(r@) =~= ups((ln - d) as nat) + t.subrange(d as int, j as int),
            decreases rn - j,
        {
            let seg = right[j].clone();
            proof {
                lemma_views_push(r@, seg);
            }
            r.push(seg);
            assert(t[j as int] == right@[j as int]@);
            j = j + 1;
        }
        r
    }

    /// The link target of `to`'s page, relative to this item's page.
    pub fn cross_ref(&self, to: &CachedItem) -> (r: String)
        ensures
            r@ == cross_ref_text(self@, to@),
    {
        let mut parts = self.relative_to(to);
        let mut file = to.name.clone();
        file.append(".md");
        let ghost before = parts@;
        parts.push(file);
        assert(views(parts@) =~= views(before).push(file@));
        crate::text::join(&parts, "/")
    }

    /// A Markdown link to `to`'s page, relative to this item's page.
    pub fn cross_ref_md(&self, to: &CachedItem) -> (r: String)
        ensures
            r@ == cross_ref_md_text(self@, to@),
    {
        let mut r = String::from_str("[");
        r.append(to.name.as_str());
        r.append("](");
        r.append(self.cross_ref(to).as_str());
        r.append(")");
        r
    }
}

} // verus!
