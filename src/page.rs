use vstd::prelude::*;

use crate::model::{Item, ItemInner, ItemKind, Package, PathSummary, RenderError, Store};
use crate::model::{first_index, is_first};
use crate::pool::{
    cached_in, consistent, entry_keys, insert_in, lemma_cached_kept, lemma_lookup_memoized,
    resolve_in, spec_fresh, CachedItem, CachedView, ItemCache, ItemId,
};
use crate::render::{grows, lemma_grows_refl, lemma_grows_trans, render_type, same_text, type_text};
use crate::text::{caption, caption_of, cleaned_docs, docs_text, hide_code_block_lines, joined, lemma_views_push, views};
use crate::types::{FnSig, Param, TypeExpr};
use crate::xref::cross_ref_md_text;

verus! {

/// A method to look up: its identifier and the location synthesized for it.
pub open spec fn req_views(s: Seq<(String, Vec<String>)>) -> Seq<(Seq<char>, Seq<Seq<char>>)> {
    s.map_values(|r: (String, Vec<String>)| (r.0@, views(r.1@)))
}

/// The location of an associated method: its struct's location followed by its own name.
pub open spec fn method_location(base: Seq<Seq<char>>, m: Item) -> Seq<Seq<char>> {
    match m.name {
        Some(n) => base.push(n@),
        None => base,
    }
}

/// The methods listed by an impl block, in order; `None` when one of them is not in the
/// graph.
pub open spec fn impl_requests(p: Package, items: Seq<Seq<char>>, base: Seq<Seq<char>>) -> Option<
    Seq<(Seq<char>, Seq<Seq<char>>)>,
>
    decreases items.len(),
{
    if items.len() == 0 {
        Some(Seq::empty())
    } else {
        match impl_requests(p, items.subrange(0, items.len() - 1), base) {
            None => None,
            Some(rs) => match p.spec_item(items.last()) {
                None => None,
                Some(m) => Some(rs.push((items.last(), method_location(base, m)))),
            },
        }
    }
}

/// The methods of the inherent impl blocks among `impls`, in order; blocks that implement
/// a trait, or that the graph does not hold, are passed over.
pub open spec fn struct_requests(p: Package, impls: Seq<Seq<char>>, base: Seq<Seq<char>>) -> Option<
    Seq<(Seq<char>, Seq<Seq<char>>)>,
>
    decreases impls.len(),
{
    if impls.len() == 0 {
        Some(Seq::empty())
    } else {
        match struct_requests(p, impls.subrange(0, impls.len() - 1), base) {
            None => None,
            Some(rs) => match p.spec_item(impls.last()) {
                Some(block) => match block.inner {
                    ItemInner::Impl { trait_impl, items } => if trait_impl {
                        Some(rs)
                    } else {
                        match impl_requests(p, views(items@), base) {
                            None => None,
                            Some(more) => Some(rs + more),
                        }
                    },
                    _ => Some(rs),
                },
                None => Some(rs),
            },
        }
    }
}

/// The associated methods of `c` to look up: none unless `c` is a struct.
pub open spec fn method_requests(store: Store, c: CachedView) -> Option<Seq<(Seq<char>, Seq<Seq<char>>)>> {
    match store.spec_package(c.pkg) {
        None => Some(Seq::empty()),
        Some(p) => match p.spec_item(c.id) {
            Some(item) => match item.inner {
                ItemInner::Struct { impls } => struct_requests(p, views(impls@), c.path),
                _ => Some(Seq::empty()),
            },
            None => Some(Seq::empty()),
        },
    }
}

/// Looks the requests of package `pkg` up in turn: the cache after them and what each
/// yielded, or `None` when one of them fails.
pub open spec fn resolve_all(
    store: Store,
    entries: Seq<CachedView>,
    pkg: Seq<char>,
    reqs: Seq<(Seq<char>, Seq<Seq<char>>)>,
) -> Option<(Seq<CachedView>, Seq<CachedView>)>
    decreases reqs.len(),
{
    if reqs.len() == 0 {
        Some((entries, Seq::empty()))
    } else {
        match resolve_all(store, entries, pkg, reqs.subrange(0, reqs.len() - 1)) {
            None => None,
            Some((e, vs)) => match resolve_in(store, e, (pkg, reqs.last().0), Some(reqs.last().1)) {
                None => None,
                Some(v) => Some((insert_in(e, v), vs.push(v))),
            },
        }
    }
}

/// The cache that a successful run of lookups left.
pub open spec fn left_entries(r: Option<(Seq<CachedView>, Seq<CachedView>)>) -> Seq<CachedView> {
    match r {
        Some((e, _)) => e,
        None => Seq::empty(),
    }
}

/// The items that a successful run of lookups yielded.
pub open spec fn found_items(r: Option<(Seq<CachedView>, Seq<CachedView>)>) -> Seq<CachedView> {
    match r {
        Some((_, vs)) => vs,
        None => Seq::empty(),
    }
}

pub open spec fn item_views(v: Seq<CachedItem>) -> Seq<CachedView> {
    v.map_values(|c: CachedItem| c@)
}

proof fn lemma_insert_grows(entries: Seq<CachedView>, v: CachedView)
    ensures
        grows(entries, insert_in(entries, v)),
{
    assert(insert_in(entries, v).subrange(0, entries.len() as int) =~= entries);
}

proof fn lemma_resolve_all_grows(
    store: Store,
    entries: Seq<CachedView>,
    pkg: Seq<char>,
    reqs: Seq<(Seq<char>, Seq<Seq<char>>)>,
)
    requires
        resolve_all(store, entries, pkg, reqs) is Some,
    ensures
        grows(entries, left_entries(resolve_all(store, entries, pkg, reqs))),
    decreases reqs.len(),
{
    if reqs.len() == 0 {
        lemma_grows_refl(entries);
    } else {
        let pre = reqs.subrange(0, reqs.len() - 1);
        lemma_resolve_all_grows(store, entries, pkg, pre);
        let (e, vs) = resolve_all(store, entries, pkg, pre)->0;
        let v = resolve_in(store, e, (pkg, reqs.last().0), Some(reqs.last().1))->0;
        lemma_insert_grows(e, v);
        lemma_grows_trans(entries, e, insert_in(e, v));
    }
}

/// Once the requests have been looked up, looking them up again in the cache they left, or
/// in any cache grown from it, yields the same items and adds nothing.
pub proof fn lemma_resolve_all_settled(
    store: Store,
    entries: Seq<CachedView>,
    grown: Seq<CachedView>,
    pkg: Seq<char>,
    reqs: Seq<(Seq<char>, Seq<Seq<char>>)>,
)
    requires
        resolve_all(store, entries, pkg, reqs) is Some,
        grows(left_entries(resolve_all(store, entries, pkg, reqs)), grown),
    ensures
        resolve_all(store, grown, pkg, reqs) == Some((grown, found_items(resolve_all(store, entries, pkg, reqs)))),
    decreases reqs.len(),
{
    if reqs.len() > 0 {
        let pre = reqs.subrange(0, reqs.len() - 1);
        let (e, vs) = resolve_all(store, entries, pkg, pre)->0;
        let key = (pkg, reqs.last().0);
        let v = resolve_in(store, e, key, Some(reqs.last().1))->0;
        lemma_insert_grows(e, v);
        lemma_grows_trans(e, insert_in(e, v), grown);
        lemma_resolve_all_settled(store, entries, grown, pkg, pre);
        lemma_lookup_memoized(store, e, key, Some(reqs.last().1), Some(reqs.last().1));
        lemma_cached_kept(insert_in(e, v), grown, key);
        assert(cached_in(grown, key) == Some(v));
    }
}

proof fn lemma_impl_requests_err(p: Package, items: Seq<Seq<char>>, base: Seq<Seq<char>>, k: int)
    requires
        0 <= k <= items.len(),
        impl_requests(p, items.subrange(0, k), base) is None,
    ensures
        impl_requests(p, items, base) is None,
    decreases items.len() - k,
{
    if k == items.len() {
        assert(items.subrange(0, k) =~= items);
    } else {
        let s1 = items.subrange(0, items.len() - 1);
        assert(s1.subrange(0, k) =~= items.subrange(0, k));
        lemma_impl_requests_err(p, s1, base, k);
    }
}

proof fn lemma_struct_requests_err(p: Package, impls: Seq<Seq<char>>, base: Seq<Seq<char>>, k: int)
    requires
        0 <= k <= impls.len(),
        struct_requests(p, impls.subrange(0, k), base) is None,
    ensures
        struct_requests(p, impls, base) is None,
    decreases impls.len() - k,
{
    if k == impls.len() {
        assert(impls.subrange(0, k) =~= impls);
    } else {
        let s1 = impls.subrange(0, impls.len() - 1);
        assert(s1.subrange(0, k) =~= impls.subrange(0, k));
        lemma_struct_requests_err(p, s1, base, k);
    }
}

proof fn lemma_resolve_all_err(
    store: Store,
    entries: Seq<CachedView>,
    pkg: Seq<char>,
    reqs: Seq<(Seq<char>, Seq<Seq<char>>)>,
    k: int,
)
    requires
        0 <= k <= reqs.len(),
        resolve_all(store, entries, pkg, reqs.subrange(0, k)) is None,
    ensures
        resolve_all(store, entries, pkg, reqs) is None,
    decreases reqs.len() - k,
{
    if k == reqs.len() {
        assert(reqs.subrange(0, k) =~= reqs);
    } else {
        let s1 = reqs.subrange(0, reqs.len() - 1);
        assert(s1.subrange(0, k) =~= reqs.subrange(0, k));
        lemma_resolve_all_err(store, entries, pkg, s1, k);
    }
}

/// The methods listed by `items`, located under `base`.
fn collect_impl_requests(p: &Package, items: &Vec<String>, base: &Vec<String>) -> (r: Option<
    Vec<(String, Vec<String>)>,
>)
    ensures
        match r {
            Some(v) => impl_requests(*p, views(items@), views(base@)) == Some(req_views(v@)),
            None => impl_requests(*p, views(items@), views(base@)) is None,
        },
{
    let ghost iv = views(items@);
    let ghost bv = views(base@);
    let n = items.len();
    let mut out: Vec<(String, Vec<String>)> = Vec::new();
    let mut i: usize = 0;
    assert(iv.subrange(0, 0) =~= Seq::<Seq<char>>::empty());
    assert(req_views(out@) =~= Seq::<(Seq<char>, Seq<Seq<char>>)>::empty());
    while i < n
        invariant
            n == items@.len(),
            i <= n,
            iv == views(items@),
            bv == views(base@),
            impl_requests(*p, iv.subrange(0, i as int), bv) == Some(req_views(out@)),
        decreases n - i,
    {
        assert(iv.subrange(0, i + 1).subrange(0, i as int) =~= iv.subrange(0, i as int));
        assert(iv.subrange(0, i + 1).last() == items@[i as int]@);
        match p.find_item(&items[i]) {
            Some(k) => {
                let m = &p.index[k];
                let mut loc = crate::pool::clone_strings(base);
                let ghost before = loc@;
                match &m.name {
                    Some(nm) => {
                        loc.push(nm.clone());
                    },
                    None => {},
                }
                assert(views(loc@) =~= method_location(bv, p.index@[k as int]));
                let req = (items[i].clone(), loc);
                let ghost old_out = out@;
                out.push(req);
                assert(req_views(out@) =~= req_views(old_out).push((req.0@, views(req.1@))));
            },
            None => {
                proof {
                    lemma_impl_requests_err(*p, iv, bv, i + 1);
                }
                return None;
            },
        }
        i = i + 1;
    }
    assert(iv.subrange(0, n as int) =~= iv);
    Some(out)
}

/// The methods of the inherent impl blocks among `impls`, located under `base`.
fn collect_struct_requests(p: &Package, impls: &Vec<String>, base: &Vec<String>) -> (r: Option<
    Vec<(String, Vec<String>)>,
>)
    ensures
        match r {
            Some(v) => struct_requests(*p, views(impls@), views(base@)) == Some(req_views(v@)),
            None => struct_requests(*p, views(impls@), views(base@)) is None,
        },
{
    let ghost iv = views(impls@);
    let ghost bv = views(base@);
    let n = impls.len();
    let mut out: Vec<(String, Vec<String>)> = Vec::new();
    let mut i: usize = 0;
    assert(iv.subrange(0, 0) =~= Seq::<Seq<char>>::empty());
    assert(req_views(out@) =~= Seq::<(Seq<char>, Seq<Seq<char>>)>::empty());
    while i < n
        invariant
            n == impls@.len(),
            i <= n,
            iv == views(impls@),
            bv == views(base@),
            struct_requests(*p, iv.subrange(0, i as int), bv) == Some(req_views(out@)),
        decreases n - i,
    {
        assert(iv.subrange(0, i + 1).subrange(0, i as int) =~= iv.subrange(0, i as int));
        assert(iv.subrange(0, i + 1).last() == impls@[i as int]@);
        match p.find_item(&impls[i]) {
            Some(k) => match &p.index[k].inner {
                ItemInner::Impl { trait_impl, items } => {
                    if !*trait_impl {
                        match collect_impl_requests(p, items, base) {
                            Some(mut more) => {
                                let ghost old_out = out@;
                                let ghost mv = more@;
                                out.append(&mut more);
                                assert(req_views(out@) =~= req_views(old_out) + req_views(mv));
                            },
                            None => {
                                proof {
                                    lemma_struct_requests_err(*p, iv, bv, i + 1);
                                }
                                return None;
                            },
                        }
                    }
                },
                _ => {},
            },
            None => {},
        }
        i = i + 1;
    }
    assert(iv.subrange(0, n as int) =~= iv);
    Some(out)
}

impl CachedItem {
    /// The item's full definition, where the graph holds one.
    pub fn item<'a>(&self, store: &'a Store) -> (r: Option<&'a Item>)
        ensures
            match r {
                Some(it) => item_at(*store, self@.pkg, self@.id) == Some(*it),
                None => item_at(*store, self@.pkg, self@.id) is None,
            },
    {
        match store.find_package(&self.id.pkg) {
            Some(pi) => match store.packages[pi].find_item(&self.id.id) {
                Some(k) => Some(&store.packages[pi].index[k]),
                None => None,
            },
            None => None,
        }
    }

    /// The item's path entry, where the graph has one.
    pub fn item_summary<'a>(&self, store: &'a Store) -> (r: Option<&'a PathSummary>)
        ensures
            match r {
                Some(s) => summary_at(*store, self@.pkg, self@.id) == Some(*s),
                None => summary_at(*store, self@.pkg, self@.id) is None,
            },
    {
        match store.find_package(&self.id.pkg) {
            Some(pi) => match store.packages[pi].find_summary(&self.id.id) {
                Some(k) => Some(&store.packages[pi].paths[k]),
                None => None,
            },
            None => None,
        }
    }

    /// The location of the item's page.
    pub fn path(&self) -> (r: &Vec<String>)
        ensures
            views(r@) == self@.path,
    {
        &self.path
    }

    /// The items of the inherent impl blocks of this struct, each located under the
    /// struct's own location followed by its name; none for any other item.
    pub fn associated_methods(&self, store: &Store, cache: &mut ItemCache) -> (r: Result<
        Vec<CachedItem>,
        RenderError,
    >)
        requires
            old(cache).wf(*store),
        ensures
            final(cache).wf(*store),
            grows(old(cache).entries(), final(cache).entries()),
            match method_requests(*store, self@) {
                None => r == Err::<Vec<CachedItem>, RenderError>(RenderError::MissingItem),
                Some(reqs) => match resolve_all(*store, old(cache).entries(), self@.pkg, reqs) {
                    None => r == Err::<Vec<CachedItem>, RenderError>(RenderError::MissingItem),
                    Some((e, vs)) => r is Ok && item_views(r->Ok_0@) == vs && final(cache).entries() == e,
                },
            },
    {
        let ghost start = cache.entries();
        proof {
            lemma_grows_refl(start);
        }
        let pi = match store.find_package(&self.id.pkg) {
            Some(pi) => pi,
            None => return Ok(Vec::new()),
        };
        let p = &store.packages[pi];
        let reqs = match p.find_item(&self.id.id) {
            Some(k) => match &p.index[k].inner {
                ItemInner::Struct { impls } => match collect_struct_requests(p, impls, &self.path) {
                    Some(reqs) => reqs,
                    None => return Err(RenderError::MissingItem),
                },
                _ => return Ok(Vec::new()),
            },
            None => return Ok(Vec::new()),
        };
        let ghost rv = req_views(reqs@);
        let n = reqs.len();
        let mut out: Vec<CachedItem> = Vec::new();
        let mut i: usize = 0;
        assert(rv.subrange(0, 0) =~= Seq::<(Seq<char>, Seq<Seq<char>>)>::empty());
        assert(item_views(out@) =~= Seq::<CachedView>::empty());
        while i < n
            invariant
                n == reqs@.len(),
                i <= n,
                rv == req_views(reqs@),
                method_requests(*store, self@) == Some(rv),
                cache.wf(*store),
                start == old(cache).entries(),
                resolve_all(*store, start, self@.pkg, rv.subrange(0, i as int)) == Some(
                    (cache.entries(), item_views(out@)),
                ),
            decreases n - i,
        {
            assert(rv.subrange(0, i + 1).subrange(0, i as int) =~= rv.subrange(0, i as int));
            assert(rv.subrange(0, i + 1).last() == rv[i as int]);
            let id = ItemId::new(self.id.pkg.as_str(), reqs[i].0.as_str());
            let path = crate::pool::clone_strings(&reqs[i].1);
            let ghost before = cache.entries();
            assert(id.key() == (self@.pkg, rv[i as int].0));
            assert(views(path@) == rv[i as int].1);
            match cache.insert_with_path(store, &id, Some(path)) {
                Ok(c) => {
                    let ghost old_out = out@;
                    out.push(c);
                    assert(item_views(out@) =~= item_views(old_out).push(c@));
                },
                Err(e) => {
                    assert(resolve_in(*store, before, (self@.pkg, rv[i as int].0), Some(rv[i as int].1)) is None);
                    assert(resolve_all(*store, start, self@.pkg, rv.subrange(0, i + 1)) is None);
                    proof {
                        lemma_resolve_all_err(*store, start, self@.pkg, rv, i + 1);
                        lemma_resolve_all_grows(*store, start, self@.pkg, rv.subrange(0, i as int));
                    }
                    return Err(e);
                },
            }
            i = i + 1;
        }
        assert(rv.subrange(0, n as int) =~= rv);
        proof {
            lemma_resolve_all_grows(*store, start, self@.pkg, rv);
        }
        Ok(out)
    }
}

/// The path entry of item `id` of package `pkg`.
pub open spec fn summary_at(store: Store, pkg: Seq<char>, id: Seq<char>) -> Option<PathSummary> {
    match store.spec_package(pkg) {
        Some(p) => p.spec_summary(id),
        None => None,
    }
}

/// The full definition of item `id` of package `pkg`.
pub open spec fn item_at(store: Store, pkg: Seq<char>, id: Seq<char>) -> Option<Item> {
    match store.spec_package(pkg) {
        Some(p) => p.spec_item(id),
        None => None,
    }
}

/// The raw doc text of the item behind `c`; empty when there is none.
pub open spec fn item_docs(store: Store, c: CachedView) -> Seq<char> {
    match item_at(store, c.pkg, c.id) {
        Some(it) => docs_text(it),
        None => Seq::empty(),
    }
}

/// The doc text of `c` as its page shows it.
pub open spec fn page_docs(store: Store, c: CachedView) -> Seq<char> {
    cleaned_docs(item_docs(store, c))
}

pub open spec fn param_text(store: Store, pkg: Seq<char>, prm: Param) -> Result<Seq<char>, RenderError> {
    match type_text(store, pkg, prm.type_) {
        Err(e) => Err(e),
        Ok(x) => Ok(
            "<em class=\"sig-param n\">\n    <span class=\"pre\">"@ + prm.name@
                + "</span>: <span class=\"pre\">"@ + x + "</span>\n</em>"@,
        ),
    }
}

pub open spec fn param_texts(store: Store, pkg: Seq<char>, s: Seq<Param>) -> Result<Seq<Seq<char>>, RenderError>
    decreases s.len(),
{
    if s.len() == 0 {
        Ok(Seq::empty())
    } else {
        match param_texts(store, pkg, s.subrange(0, s.len() - 1)) {
            Err(e) => Err(e),
            Ok(parts) => match param_text(store, pkg, s.last()) {
                Err(e) => Err(e),
                Ok(x) => Ok(parts.push(x)),
            },
        }
    }
}

/// The unit type `()`, written out as an empty tuple.
pub open spec fn is_unit(t: TypeExpr) -> bool {
    t matches TypeExpr::Tuple(v) && v@.len() == 0
}

/// A signature: the parameters in parentheses, then an arrow and the return type unless
/// it is the unit type, whether left out or written as `()`.
pub open spec fn sig_text(store: Store, pkg: Seq<char>, sig: FnSig) -> Result<Seq<char>, RenderError> {
    match param_texts(store, pkg, sig.inputs@) {
        Err(e) => Err(e),
        Ok(ps) => {
            let out = match sig.output {
                Some(t) => if is_unit(t) {
                    Ok(Seq::empty())
                } else {
                    match type_text(store, pkg, t) {
                        Err(e) => Err(e),
                        Ok(x) => Ok(" → "@ + x),
                    }
                },
                None => Ok(Seq::empty()),
            };
            match out {
                Err(e) => Err(e),
                Ok(o) => Ok(
                    "<span class=\"sig-paren\">(</span>\n"@ + joined(ps, ", "@)
                        + "\n<span class=\"sig-paren\">)</span>\n"@ + o,
                ),
            }
        },
    }
}

/// The page of a function: a heading, a definition list with its name and signature, and
/// its doc text.
pub open spec fn function_page(store: Store, c: CachedView) -> Result<Seq<char>, RenderError> {
    match item_at(store, c.pkg, c.id) {
        None => Err(RenderError::MissingItem),
        Some(it) => match it.inner {
            ItemInner::Function(sig) => match sig_text(store, c.pkg, sig) {
                Err(e) => Err(e),
                Ok(s) => Ok(
                    "# "@ + c.name
                        + "\n\n<dl>\n    <dt class=\"sig\">\n    <span class=\"sig-name\">\n        <span class=\"pre\">"@
                        + c.name + "</span>\n    </span>\n    "@ + s + "\n    </dt>\n</dl>\n\n"@
                        + page_docs(store, c) + "\n"@,
                ),
            },
            _ => Err(RenderError::Unsupported),
        },
    }
}

/// A row of a struct's method table: a link to the method's page and its caption.
pub open spec fn method_row(store: Store, from: CachedView, m: CachedView) -> Seq<char> {
    "| "@ + cross_ref_md_text(from, m) + " | "@ + caption_of(item_docs(store, m)) + " |"@
}

pub open spec fn method_rows(store: Store, from: CachedView, ms: Seq<CachedView>) -> Seq<Seq<char>> {
    ms.map_values(|m: CachedView| method_row(store, from, m))
}

/// The page of a struct: a heading and its doc text, then a table of its methods when it
/// has at least one.
pub open spec fn struct_page(store: Store, entries: Seq<CachedView>, c: CachedView) -> Result<Seq<char>, RenderError> {
    match method_requests(store, c) {
        None => Err(RenderError::MissingItem),
        Some(reqs) => match resolve_all(store, entries, c.pkg, reqs) {
            None => Err(RenderError::MissingItem),
            Some((_, ms)) => if ms.len() > 0 {
                Ok(
                    "# "@ + c.name + "\n\n"@ + page_docs(store, c)
                        + "\n\n# Methods\n| Method | Description |\n| --- | --- |\n"@ + joined(
                        method_rows(store, c, ms),
                        "\n"@,
                    ),
                )
            } else {
                Ok("# "@ + c.name + "\n\n"@ + page_docs(store, c))
            },
        },
    }
}

/// The page of the item behind `c`, given the cache `entries` it is rendered with: only
/// functions and structs have pages.
pub open spec fn page_text(store: Store, entries: Seq<CachedView>, c: CachedView) -> Result<Seq<char>, RenderError> {
    match c.kind {
        ItemKind::Function => function_page(store, c),
        ItemKind::Struct => struct_page(store, entries, c),
        _ => Err(RenderError::Unsupported),
    }
}

/// The cache after rendering the page of `c`, as far as the page depends on it: a struct's
/// methods have been looked up.
pub open spec fn rendered_entries(store: Store, entries: Seq<CachedView>, c: CachedView) -> Seq<CachedView> {
    if c.kind == ItemKind::Struct && method_requests(store, c) is Some && resolve_all(
        store,
        entries,
        c.pkg,
        method_requests(store, c)->0,
    ) is Some {
        left_entries(resolve_all(store, entries, c.pkg, method_requests(store, c)->0))
    } else {
        entries
    }
}

/// Rendering an item again, with the cache the first rendering left or any cache grown
/// from it, yields byte for byte the same page, and leaves that cache as it is.
pub proof fn lemma_render_idempotent(
    store: Store,
    first: Seq<CachedView>,
    second: Seq<CachedView>,
    c: CachedView,
)
    requires
        page_text(store, first, c) is Ok,
        grows(rendered_entries(store, first, c), second),
    ensures
        page_text(store, second, c) == page_text(store, first, c),
        rendered_entries(store, second, c) == second,
{
    if c.kind == ItemKind::Struct {
        let reqs = method_requests(store, c)->0;
        lemma_resolve_all_settled(store, first, second, c.pkg, reqs);
    }
}

/// A struct without inherent methods renders as its heading and doc text alone, with no
/// method table.
pub proof fn lemma_struct_without_methods(store: Store, entries: Seq<CachedView>, c: CachedView)
    requires
        c.kind == ItemKind::Struct,
        method_requests(store, c) == Some(Seq::<(Seq<char>, Seq<Seq<char>>)>::empty()),
    ensures
        page_text(store, entries, c) == Ok::<Seq<char>, RenderError>("# "@ + c.name + "\n\n"@ + page_docs(store, c)),
{
}

/// A page fails as unsupported when its item is of a kind without pages, or is a function
/// whose first parameter has a type outside the supported grammar: nothing is rendered in
/// place of the unsupported part.
pub proof fn lemma_unsupported_page(store: Store, entries: Seq<CachedView>, c: CachedView, sig: FnSig)
    requires
        c.kind == ItemKind::Function ==> {
            &&& item_at(store, c.pkg, c.id) is Some
            &&& item_at(store, c.pkg, c.id)->0.inner == ItemInner::Function(sig)
            &&& sig.inputs@.len() > 0
            &&& type_text(store, c.pkg, sig.inputs@[0].type_) == Err::<Seq<char>, RenderError>(
                RenderError::Unsupported,
            )
        },
        c.kind != ItemKind::Struct,
    ensures
        page_text(store, entries, c) == Err::<Seq<char>, RenderError>(RenderError::Unsupported),
{
    if c.kind == ItemKind::Function {
        let s = sig.inputs@;
        assert(s.subrange(0, 1).subrange(0, 0) =~= Seq::<Param>::empty());
        assert(s.subrange(0, 1).last() == s[0]);
        assert(param_texts(store, c.pkg, Seq::<Param>::empty()) == Ok::<Seq<Seq<char>>, RenderError>(Seq::empty()));
        assert(param_text(store, c.pkg, s[0]) == Err::<Seq<char>, RenderError>(RenderError::Unsupported));
        assert(param_texts(store, c.pkg, s.subrange(0, 1)) == Err::<Seq<Seq<char>>, RenderError>(
            RenderError::Unsupported,
        ));
        lemma_param_texts_err(store, c.pkg, s, 1);
        assert(sig_text(store, c.pkg, sig) == Err::<Seq<char>, RenderError>(RenderError::Unsupported));
    }
}

/// Every entry of `entries` agrees with the graph.
pub open spec fn all_consistent(store: Store, entries: Seq<CachedView>) -> bool {
    forall|i: int| 0 <= i < entries.len() ==> consistent(store, #[trigger] entries[i])
}

/// Every location synthesized by `reqs` is at least `n` segments long.
pub open spec fn placed_under(reqs: Seq<(Seq<char>, Seq<Seq<char>>)>, n: nat) -> bool {
    forall|k: int| 0 <= k < reqs.len() ==> (#[trigger] reqs[k]).1.len() >= n
}

proof fn lemma_impl_requests_placed(p: Package, items: Seq<Seq<char>>, base: Seq<Seq<char>>)
    requires
        impl_requests(p, items, base) is Some,
    ensures
        placed_under(impl_requests(p, items, base)->0, base.len()),
    decreases items.len(),
{
    if items.len() > 0 {
        lemma_impl_requests_placed(p, items.subrange(0, items.len() - 1), base);
    }
}

proof fn lemma_struct_requests_placed(p: Package, impls: Seq<Seq<char>>, base: Seq<Seq<char>>)
    requires
        struct_requests(p, impls, base) is Some,
    ensures
        placed_under(struct_requests(p, impls, base)->0, base.len()),
    decreases impls.len(),
{
    if impls.len() > 0 {
        let pre = impls.subrange(0, impls.len() - 1);
        lemma_struct_requests_placed(p, pre, base);
        let rs = struct_requests(p, pre, base)->0;
        if let Some(block) = p.spec_item(impls.last()) {
            if let ItemInner::Impl { trait_impl, items } = block.inner {
                if !trait_impl {
                    lemma_impl_requests_placed(p, views(items@), base);
                    let more = impl_requests(p, views(items@), base)->0;
                    assert forall|k: int| 0 <= k < (rs + more).len() implies (#[trigger] (rs + more)[k]).1.len()
                        >= base.len() by {
                        if k >= rs.len() {
                            assert((rs + more)[k] == more[k - rs.len()]);
                        } else {
                            assert((rs + more)[k] == rs[k]);
                        }
                    }
                }
            }
        }
    }
}

/// Whether an item can be built does not depend on which non-empty location is
/// synthesized for it.
proof fn lemma_fresh_any_location(
    store: Store,
    pkg: Seq<char>,
    id: Seq<char>,
    a: Seq<Seq<char>>,
    b: Seq<Seq<char>>,
)
    requires
        a.len() > 0,
        b.len() > 0,
        spec_fresh(store, pkg, id, Some(a)) is None,
    ensures
        spec_fresh(store, pkg, id, Some(b)) is None,
{
}

proof fn lemma_fresh_consistent(store: Store, pkg: Seq<char>, id: Seq<char>, synth: Option<Seq<Seq<char>>>)
    requires
        spec_fresh(store, pkg, id, synth) is Some,
    ensures
        consistent(store, spec_fresh(store, pkg, id, synth)->0),
{
}

/// An item that cannot be built at any non-empty location is cached in no consistent cache.
proof fn lemma_never_cached(
    store: Store,
    entries: Seq<CachedView>,
    key: (Seq<char>, Seq<char>),
    synth: Seq<Seq<char>>,
)
    requires
        all_consistent(store, entries),
        synth.len() > 0,
        spec_fresh(store, key.0, key.1, Some(synth)) is None,
    ensures
        cached_in(entries, key) is None,
{
    if cached_in(entries, key) is Some {
        let i = first_index(entry_keys(entries), key)->0;
        assert(is_first(entry_keys(entries), key, i));
        let v = entries[i];
        assert(entry_keys(entries)[i] == (v.pkg, v.id));
        assert(consistent(store, v));
        lemma_fresh_any_location(store, key.0, key.1, synth, v.path);
    }
}

proof fn lemma_resolve_all_consistent(
    store: Store,
    entries: Seq<CachedView>,
    pkg: Seq<char>,
    reqs: Seq<(Seq<char>, Seq<Seq<char>>)>,
)
    requires
        all_consistent(store, entries),
        resolve_all(store, entries, pkg, reqs) is Some,
    ensures
        all_consistent(store, left_entries(resolve_all(store, entries, pkg, reqs))),
    decreases reqs.len(),
{
    if reqs.len() > 0 {
        let pre = reqs.subrange(0, reqs.len() - 1);
        lemma_resolve_all_consistent(store, entries, pkg, pre);
        let e = left_entries(resolve_all(store, entries, pkg, pre));
        let key = (pkg, reqs.last().0);
        let v = resolve_in(store, e, key, Some(reqs.last().1))->0;
        if cached_in(e, key) is Some {
            let i = first_index(entry_keys(e), key)->0;
            assert(is_first(entry_keys(e), key, i));
            assert(consistent(store, e[i]));
        } else {
            lemma_fresh_consistent(store, key.0, key.1, Some(reqs.last().1));
        }
        let e2 = insert_in(e, v);
        assert forall|k: int| 0 <= k < e2.len() implies consistent(store, #[trigger] e2[k]) by {
            if k < e.len() {
                assert(e2[k] == e[k]);
            }
        }
    }
}

/// A run of lookups that failed fails again in any consistent cache, provided every
/// location it synthesizes is non-empty.
proof fn lemma_resolve_all_fails_again(
    store: Store,
    first: Seq<CachedView>,
    second: Seq<CachedView>,
    pkg: Seq<char>,
    reqs: Seq<(Seq<char>, Seq<Seq<char>>)>,
)
    requires
        resolve_all(store, first, pkg, reqs) is None,
        placed_under(reqs, 1),
        all_consistent(store, second),
    ensures
        resolve_all(store, second, pkg, reqs) is None,
    decreases reqs.len(),
{
    let pre = reqs.subrange(0, reqs.len() - 1);
    assert(placed_under(pre, 1)) by {
        assert forall|k: int| 0 <= k < pre.len() implies (#[trigger] pre[k]).1.len() >= 1 by {
            assert(pre[k] == reqs[k]);
        }
    }
    assert(reqs[reqs.len() - 1].1.len() >= 1);
    if resolve_all(store, first, pkg, pre) is None {
        lemma_resolve_all_fails_again(store, first, second, pkg, pre);
    } else if resolve_all(store, second, pkg, pre) is Some {
        let key = (pkg, reqs.last().0);
        let e1 = left_entries(resolve_all(store, second, pkg, pre));
        lemma_resolve_all_consistent(store, second, pkg, pre);
        lemma_never_cached(store, e1, key, reqs.last().1);
    }
}

/// A page that failed to render fails again, with the same error, whatever consistent
/// cache it is rendered with next: a lookup that failed cannot have been cached since.
pub proof fn lemma_render_failure_repeats(
    store: Store,
    first: Seq<CachedView>,
    second: Seq<CachedView>,
    c: CachedView,
)
    requires
        page_text(store, first, c) is Err,
        consistent(store, c),
        all_consistent(store, second),
    ensures
        page_text(store, second, c) == page_text(store, first, c),
{
    if c.kind == ItemKind::Struct {
        if let Some(reqs) = method_requests(store, c) {
            let p = store.spec_package(c.pkg)->0;
            let item = p.spec_item(c.id)->0;
            if let ItemInner::Struct { impls } = item.inner {
                lemma_struct_requests_placed(p, views(impls@), c.path);
            }
            lemma_resolve_all_fails_again(store, first, second, c.pkg, reqs);
        }
    }
}

proof fn lemma_param_texts_err(store: Store, pkg: Seq<char>, s: Seq<Param>, k: int)
    requires
        0 <= k <= s.len(),
        param_texts(store, pkg, s.subrange(0, k)) is Err,
    ensures
        param_texts(store, pkg, s) == param_texts(store, pkg, s.subrange(0, k)),
    decreases s.len() - k,
{
    if k == s.len() {
        assert(s.subrange(0, k) =~= s);
    } else {
        let s1 = s.subrange(0, s.len() - 1);
        assert(s1.subrange(0, k) =~= s.subrange(0, k));
        lemma_param_texts_err(store, pkg, s1, k);
    }
}

fn render_params(store: &Store, cache: &mut ItemCache, pkg: &String, v: &Vec<Param>) -> (r: Result<Vec<String>, RenderError>)
    requires
        old(cache).wf(*store),
    ensures
        final(cache).wf(*store),
        grows(old(cache).entries(), final(cache).entries()),
        match r {
            Ok(xs) => param_texts(*store, pkg@, v@) == Ok::<Seq<Seq<char>>, RenderError>(views(xs@)),
            Err(e) => param_texts(*store, pkg@, v@) == Err::<Seq<Seq<char>>, RenderError>(e),
        },
{
    let ghost start = cache.entries();
    proof {
        lemma_grows_refl(start);
    }
    let n = v.len();
    let mut out: Vec<String> = Vec::new();
    let mut i: usize = 0;
    assert(v@.subrange(0, 0) =~= Seq::<Param>::empty());
    assert(views(out@) =~= Seq::<Seq<char>>::empty());
    while i < n
        invariant
            n == v@.len(),
            i <= n,
            cache.wf(*store),
            start == old(cache).entries(),
            grows(start, cache.entries()),
            param_texts(*store, pkg@, v@.subrange(0, i as int)) == Ok::<Seq<Seq<char>>, RenderError>(views(out@)),
        decreases n - i,
    {
        let ghost mid = cache.entries();
        assert(v@.subrange(0, i + 1).subrange(0, i as int) =~= v@.subrange(0, i as int));
        assert(v@.subrange(0, i + 1).last() == v@[i as int]);
        match render_type(store, cache, pkg, &v[i].type_) {
            Ok(x) => {
                proof {
                    lemma_grows_trans(start, mid, cache.entries());
                }
                let mut t = String::from_str("<em class=\"sig-param n\">\n    <span class=\"pre\">");
                t.append(v[i].name.as_str());
                t.append("</span>: <span class=\"pre\">");
                t.append(x.as_str());
                t.append("</span>\n</em>");
                proof {
                    lemma_views_push(out@, t);
                }
                out.push(t);
            },
            Err(e) => {
                proof {
                    lemma_grows_trans(start, mid, cache.entries());
                    lemma_param_texts_err(*store, pkg@, v@, i + 1);
                }
                return Err(e);
            },
        }
        i = i + 1;
    }
    assert(v@.subrange(0, n as int) =~= v@);
    Ok(out)
}

/// Renders a function's signature.
fn render_sig(store: &Store, cache: &mut ItemCache, pkg: &String, sig: &FnSig) -> (r: Result<String, RenderError>)
    requires
        old(cache).wf(*store),
    ensures
        final(cache).wf(*store),
        grows(old(cache).entries(), final(cache).entries()),
        same_text(r, sig_text(*store, pkg@, *sig)),
{
    let ghost start = cache.entries();
    let ps = match render_params(store, cache, pkg, &sig.inputs) {
        Ok(ps) => ps,
        Err(e) => return Err(e),
    };
    let ghost mid = cache.entries();
    let unit = match &sig.output {
        Some(TypeExpr::Tuple(v)) => v.len() == 0,
        _ => false,
    };
    let out = match &sig.output {
        Some(_) if unit => {
            proof {
                lemma_grows_refl(mid);
            }
            String::new()
        },
        Some(t) => match render_type(store, cache, pkg, t) {
            Ok(x) => {
                let mut o = String::from_str(" → ");
                o.append(x.as_str());
                o
            },
            Err(e) => {
                proof {
                    lemma_grows_trans(start, mid, cache.entries());
                }
                return Err(e);
            },
        },
        None => {
            proof {
                lemma_grows_refl(mid);
            }
            String::new()
        },
    };
    proof {
        lemma_grows_trans(start, mid, cache.entries());
    }
    let mut r = String::from_str("<span class=\"sig-paren\">(</span>\n");
    r.append(crate::text::join(&ps, ", ").as_str());
    r.append("\n<span class=\"sig-paren\">)</span>\n");
    r.append(out.as_str());
    Ok(r)
}

/// The caption of the item behind `c`; empty when the graph holds no definition of it.
fn item_caption(store: &Store, c: &CachedItem) -> (r: String)
    ensures
        r@ == caption_of(item_docs(*store, c@)),
{
    match c.item(store) {
        Some(it) => caption(it),
        None => {
            proof {
                reveal_strlit("");
            }
            let r = String::new();
            assert(crate::text::pieces(Seq::<char>::empty()) =~= seq![Seq::<char>::empty()]);
            assert(crate::text::lines_of(Seq::<char>::empty()) =~= Seq::<Seq<char>>::empty());
            r
        },
    }
}

impl CachedItem {
    /// The item's doc text, cleaned for its page.
    pub fn docs(&self, store: &Store) -> (r: String)
        ensures
            r@ == page_docs(*store, self@),
    {
        proof {
            reveal_strlit("");
        }
        match self.item(store) {
            Some(it) => match &it.docs {
                Some(d) => hide_code_block_lines(d.as_str()),
                None => hide_code_block_lines(""),
            },
            None => hide_code_block_lines(""),
        }
    }

    fn render_function(&self, store: &Store, cache: &mut ItemCache) -> (r: Result<String, RenderError>)
        requires
            old(cache).wf(*store),
        ensures
            final(cache).wf(*store),
            grows(old(cache).entries(), final(cache).entries()),
            same_text(r, function_page(*store, self@)),
    {
        proof {
            lemma_grows_refl(cache.entries());
        }
        let item = match self.item(store) {
            Some(it) => it,
            None => return Err(RenderError::MissingItem),
        };
        let sig = match &item.inner {
            ItemInner::Function(sig) => sig,
            _ => return Err(RenderError::Unsupported),
        };
        let s = match render_sig(store, cache, &self.id.pkg, sig) {
            Ok(s) => s,
            Err(e) => return Err(e),
        };
        let mut r = String::from_str("# ");
        r.append(self.name.as_str());
        r.append("\n\n<dl>\n    <dt class=\"sig\">\n    <span class=\"sig-name\">\n        <span class=\"pre\">");
        r.append(self.name.as_str());
        r.append("</span>\n    </span>\n    ");
        r.append(s.as_str());
        r.append("\n    </dt>\n</dl>\n\n");
        r.append(self.docs(store).as_str());
        r.append("\n");
        Ok(r)
    }

    fn render_struct(&self, store: &Store, cache: &mut ItemCache) -> (r: Result<String, RenderError>)
        requires
            old(cache).wf(*store),
        ensures
            final(cache).wf(*store),
            grows(old(cache).entries(), final(cache).entries()),
            same_text(r, struct_page(*store, old(cache).entries(), self@)),
            r is Ok ==> final(cache).entries() == left_entries(
                resolve_all(*store, old(cache).entries(), self@.pkg, method_requests(*store, self@)->0),
            ),
    {
        let methods = match self.associated_methods(store, cache) {
            Ok(m) => m,
            Err(e) => return Err(e),
        };
        let ghost ms = item_views(methods@);
        let n = methods.len();
        let mut rows: Vec<String> = Vec::new();
        let mut i: usize = 0;
        assert(views(rows@) =~= method_rows(*store, self@, ms.subrange(0, 0)));
        while i < n
            invariant
                n == methods@.len(),
                i <= n,
                ms == item_views(methods@),
                views(rows@) =~= method_rows(*store, self@, ms.subrange(0, i as int)),
            decreases n - i,
        {
            let mut row = String::from_str("| ");
            row.append(self.cross_ref_md(&methods[i]).as_str());
            row.append(" | ");
            row.append(item_caption(store, &methods[i]).as_str());
            row.append(" |");
            proof {
                lemma_views_push(rows@, row);
                assert(ms[i as int] == methods@[i as int]@);
                assert(method_rows(*store, self@, ms.subrange(0, i + 1)) =~= method_rows(
                    *store,
                    self@,
                    ms.subrange(0, i as int),
                ).push(method_row(*store, self@, ms[i as int])));
            }
            rows.push(row);
            i = i + 1;
        }
        assert(ms.subrange(0, n as int) =~= ms);
        let mut r = String::from_str("# ");
        r.append(self.name.as_str());
        r.append("\n\n");
        r.append(self.docs(store).as_str());
        if n > 0 {
            r.append("\n\n# Methods\n| Method | Description |\n| --- | --- |\n");
            r.append(crate::text::join(&rows, "\n").as_str());
        }
        Ok(r)
    }

    /// Renders this item's page: the page of a function or of a struct.
    pub fn repr(&self, store: &Store, cache: &mut ItemCache) -> (r: Result<String, RenderError>)
        requires
            old(cache).wf(*store),
        ensures
            final(cache).wf(*store),
            grows(old(cache).entries(), final(cache).entries()),
            same_text(r, page_text(*store, old(cache).entries(), self@)),
            r is Ok ==> grows(rendered_entries(*store, old(cache).entries(), self@), final(cache).entries()),
    {
        match self.kind {
            ItemKind::Function => self.render_function(store, cache),
            ItemKind::Struct => {
                let r = self.render_struct(store, cache);
                proof {
                    lemma_grows_refl(cache.entries());
                }
                r
            },
            _ => {
                proof {
                    lemma_grows_refl(cache.entries());
                }
                Err(RenderError::Unsupported)
            },
        }
    }
}

} // verus!
