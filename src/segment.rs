use vstd::prelude::*;

use crate::model::{Item, ItemKind, Package, RenderError, Store};
use crate::page::{
    item_views, lemma_resolve_all_settled, left_entries, method_requests, page_text, resolve_all,
};
use crate::pool::{insert_in, lemma_lookup_memoized, resolve_in, CachedItem, CachedView, ItemId, ItemPool};
use crate::render::{grows, lemma_grows_refl, lemma_grows_trans};
use crate::text::{lemma_views_push, views};
use crate::xref::dir_of;

verus! {

/// One unit of extraction: the items of `kind` in `package`, within `module_prefix` when
/// one is given.
pub struct ExportOption {
    pub package: String,
    pub module_prefix: Option<Vec<String>>,
    pub kind: ItemKind,
}

/// A rendered page and where it goes: `dir` below the output root, then `file_name`.
pub struct Page {
    pub dir: Vec<String>,
    pub file_name: String,
    pub content: String,
}

pub open spec fn starts_with(path: Seq<Seq<char>>, prefix: Seq<Seq<char>>) -> bool {
    prefix.len() <= path.len() && path.subrange(0, prefix.len() as int) == prefix
}

/// `it` is selected by `opt`: it has a path entry of the kind asked for, within the
/// module path asked for.
pub open spec fn selects(p: Package, opt: ExportOption, it: Item) -> bool {
    let s = p.spec_summary(it.id@);
    &&& s is Some
    &&& s->0.kind == opt.kind
    &&& match opt.module_prefix {
        Some(m) => starts_with(views(s->0.path@), views(m@)),
        None => true,
    }
}

/// The identifiers of the items of `items` that `opt` selects, in order.
pub open spec fn selected_ids(p: Package, opt: ExportOption, items: Seq<Item>) -> Seq<Seq<char>>
    decreases items.len(),
{
    if items.len() == 0 {
        Seq::empty()
    } else {
        let r = selected_ids(p, opt, items.subrange(0, items.len() - 1));
        if selects(p, opt, items.last()) {
            r.push(items.last().id@)
        } else {
            r
        }
    }
}

/// Looks a selected item up, then its associated methods: the cache after that, and the
/// methods followed by the item.
pub open spec fn collect_item(store: Store, entries: Seq<CachedView>, pkg: Seq<char>, id: Seq<char>) -> Result<
    (Seq<CachedView>, Seq<CachedView>),
    RenderError,
> {
    match resolve_in(store, entries, (pkg, id), None) {
        None => Err(RenderError::MissingItem),
        Some(v) => match method_requests(store, v) {
            None => Err(RenderError::MissingItem),
            Some(reqs) => match resolve_all(store, insert_in(entries, v), v.pkg, reqs) {
                None => Err(RenderError::MissingItem),
                Some((e, ms)) => Ok((e, ms.push(v))),
            },
        },
    }
}

/// Collects the items `ids` of package `pkg` in turn.
pub open spec fn collect_all(store: Store, entries: Seq<CachedView>, pkg: Seq<char>, ids: Seq<Seq<char>>) -> Result<
    (Seq<CachedView>, Seq<CachedView>),
    RenderError,
>
    decreases ids.len(),
{
    if ids.len() == 0 {
        Ok((entries, Seq::empty()))
    } else {
        match collect_all(store, entries, pkg, ids.subrange(0, ids.len() - 1)) {
            Err(e) => Err(e),
            Ok((e1, items)) => match collect_item(store, e1, pkg, ids.last()) {
                Err(e) => Err(e),
                Ok((e2, more)) => Ok((e2, items + more)),
            },
        }
    }
}

/// The items that `opt` adds to a collection, with the cache after them.
pub open spec fn option_items(store: Store, entries: Seq<CachedView>, opt: ExportOption) -> Result<
    (Seq<CachedView>, Seq<CachedView>),
    RenderError,
> {
    match store.spec_package(opt.package@) {
        None => Err(RenderError::MissingItem),
        Some(p) => collect_all(store, entries, opt.package@, selected_ids(p, opt, p.index@)),
    }
}

/// The items that `opts` select in turn, with the cache after them.
pub open spec fn options_items(store: Store, entries: Seq<CachedView>, opts: Seq<ExportOption>) -> Result<
    (Seq<CachedView>, Seq<CachedView>),
    RenderError,
>
    decreases opts.len(),
{
    if opts.len() == 0 {
        Ok((entries, Seq::empty()))
    } else {
        match options_items(store, entries, opts.subrange(0, opts.len() - 1)) {
            Err(e) => Err(e),
            Ok((e1, items)) => match option_items(store, e1, opts.last()) {
                Err(e) => Err(e),
                Ok((e2, more)) => Ok((e2, items + more)),
            },
        }
    }
}

/// The page of `c` no longer depends on the cache `entries`: a struct's methods have all
/// been looked up in it.
pub open spec fn settled(store: Store, entries: Seq<CachedView>, c: CachedView) -> bool {
    c.kind == ItemKind::Struct ==> {
        &&& method_requests(store, c) is Some
        &&& resolve_all(store, entries, c.pkg, method_requests(store, c)->0) is Some
        &&& left_entries(resolve_all(store, entries, c.pkg, method_requests(store, c)->0)) == entries
    }
}

proof fn lemma_settled_kept(store: Store, entries: Seq<CachedView>, grown: Seq<CachedView>, c: CachedView)
    requires
        settled(store, entries, c),
        grows(entries, grown),
    ensures
        settled(store, grown, c),
        page_text(store, grown, c) == page_text(store, entries, c),
{
    if c.kind == ItemKind::Struct {
        lemma_resolve_all_settled(store, entries, grown, c.pkg, method_requests(store, c)->0);
    }
}

proof fn lemma_selected_ids_step(p: Package, opt: ExportOption, items: Seq<Item>, i: int)
    requires
        0 <= i < items.len(),
    ensures
        selected_ids(p, opt, items.subrange(0, i + 1)) == if selects(p, opt, items[i]) {
            selected_ids(p, opt, items.subrange(0, i)).push(items[i].id@)
        } else {
            selected_ids(p, opt, items.subrange(0, i))
        },
{
    assert(items.subrange(0, i + 1).subrange(0, i) =~= items.subrange(0, i));
}

fn starts_with_strings(path: &Vec<String>, prefix: &Vec<String>) -> (r: bool)
    ensures
        r == starts_with(views(path@), views(prefix@)),
{
    if prefix.len() > path.len() {
        return false;
    }
    let n = prefix.len();
    let mut i: usize = 0;
    while i < n
        invariant
            n == prefix@.len(),
            n <= path@.len(),
            i <= n,
            forall|k: int| 0 <= k < i ==> path@[k]@ == prefix@[k]@,
        decreases n - i,
    {
        if path[i] != prefix[i] {
            assert(views(path@).subrange(0, n as int)[i as int] != views(prefix@)[i as int]);
            return false;
        }
        i = i + 1;
    }
    assert(views(path@).subrange(0, n as int) =~= views(prefix@));
    true
}

/// The identifiers of the items of `p` that `opt` selects, in the order of the index.
pub fn select(p: &Package, opt: &ExportOption) -> (r: Vec<String>)
    ensures
        views(r@) == selected_ids(*p, *opt, p.index@),
{
    let n = p.index.len();
    let mut r: Vec<String> = Vec::new();
    let mut i: usize = 0;
    assert(views(r@) =~= selected_ids(*p, *opt, p.index@.subrange(0, 0)));
    while i < n
        invariant
            n == p.index@.len(),
            i <= n,
            views(r@) == selected_ids(*p, *opt, p.index@.subrange(0, i as int)),
        decreases n - i,
    {
        proof {
            lemma_selected_ids_step(*p, *opt, p.index@, i as int);
        }
        let it = &p.index[i];
        let chosen = match p.find_summary(&it.id) {
            Some(k) => {
                let s = &p.paths[k];
                s.kind == opt.kind && match &opt.module_prefix {
                    Some(m) => starts_with_strings(&s.path, m),
                    None => true,
                }
            },
            None => false,
        };
        if chosen {
            let id = it.id.clone();
            proof {
                lemma_views_push(r@, id);
            }
            r.push(id);
        }
        i = i + 1;
    }
    assert(p.index@.subrange(0, n as int) =~= p.index@);
    r
}

/// The file name of the page at `path`: its last segment with `.md` appended.
pub open spec fn page_file(path: Seq<Seq<char>>) -> Seq<char> {
    if path.len() > 0 {
        path.last() + ".md"@
    } else {
        ".md"@
    }
}

/// `pg` goes where the page of `c` belongs: under `c`'s directory, in its page file.
pub open spec fn placed(pg: Page, c: CachedView) -> bool {
    views(pg.dir@) == dir_of(c.path) && pg.file_name@ == page_file(c.path)
}

/// Each of `caches` has grown from the one before it; the first is `start`.
pub open spec fn cache_chain(start: Seq<CachedView>, caches: Seq<Seq<CachedView>>) -> bool {
    &&& caches.len() > 0 ==> caches[0] == start
    &&& forall|k: int|
        0 <= k < caches.len() ==> grows(
            if k == 0 {
                start
            } else {
                caches[k - 1]
            },
            #[trigger] caches[k],
        )
}

/// A collection of items to extract, each with the graph and cache it is rendered with.
pub struct SegmentCollections {
    pub pool: ItemPool,
    pub items: Vec<CachedItem>,
}

impl SegmentCollections {
    pub open spec fn wf(&self) -> bool {
        self.pool.wf()
    }

    pub fn new(store: Store) -> (r: SegmentCollections)
        ensures
            r.wf(),
            r.pool.store == store,
            r.pool.cache.entries() == Seq::<CachedView>::empty(),
            r.items@ == Seq::<CachedItem>::empty(),
    {
        SegmentCollections { pool: ItemPool::new(store), items: Vec::new() }
    }

    /// Looks a selected item up, then its associated methods; yields the methods followed
    /// by the item.
    fn collect_one(&mut self, pkg: &String, id: &String) -> (r: Result<Vec<CachedItem>, RenderError>)
        requires
            old(self).pool.wf(),
        ensures
            final(self).pool.wf(),
            final(self).pool.store == old(self).pool.store,
            final(self).items == old(self).items,
            grows(old(self).pool.cache.entries(), final(self).pool.cache.entries()),
            match collect_item(old(self).pool.store, old(self).pool.cache.entries(), pkg@, id@) {
                Ok((e, vs)) => r is Ok && item_views(r->Ok_0@) == vs && final(self).pool.cache.entries() == e,
                Err(err) => r == Err::<Vec<CachedItem>, RenderError>(err),
            },
    {
        let ghost e0 = self.pool.cache.entries();
        let item = match self.pool.cache.get(&self.pool.store, &ItemId::new(pkg.as_str(), id.as_str())) {
            Ok(c) => c,
            Err(e) => {
                proof {
                    lemma_grows_refl(e0);
                }
                return Err(e);
            },
        };
        proof {
            lemma_lookup_memoized(self.pool.store, e0, (pkg@, id@), None, None);
            assert(insert_in(e0, item@).subrange(0, e0.len() as int) =~= e0);
        }
        let ghost e1 = self.pool.cache.entries();
        let mut methods = match item.associated_methods(&self.pool.store, &mut self.pool.cache) {
            Ok(m) => m,
            Err(e) => {
                proof {
                    lemma_grows_trans(e0, e1, self.pool.cache.entries());
                }
                return Err(e);
            },
        };
        proof {
            lemma_grows_trans(e0, e1, self.pool.cache.entries());
        }
        let ghost before = methods@;
        methods.push(item);
        assert(item_views(methods@) =~= item_views(before).push(item@));
        Ok(methods)
    }

    /// Adds the items that `option` selects, each preceded by its associated methods.
    pub fn add(&mut self, option: &ExportOption) -> (r: Result<(), RenderError>)
        requires
            old(self).wf(),
        ensures
            final(self).wf(),
            final(self).pool.store == old(self).pool.store,
            grows(old(self).pool.cache.entries(), final(self).pool.cache.entries()),
            match option_items(old(self).pool.store, old(self).pool.cache.entries(), *option) {
                Ok((e, vs)) => r is Ok && final(self).pool.cache.entries() == e && item_views(
                    final(self).items@,
                ) == item_views(old(self).items@) + vs,
                Err(err) => r == Err::<(), RenderError>(err) && final(self).items@ == old(self).items@,
            },
    {
        proof {
            lemma_grows_refl(self.pool.cache.entries());
        }
        let pi = match self.pool.store.find_package(&option.package) {
            Some(pi) => pi,
            None => return Err(RenderError::MissingItem),
        };
        let ids = select(&self.pool.store.packages[pi], option);
        let ghost p = self.pool.store.packages@[pi as int];
        let ghost iv = views(ids@);
        let ghost e0 = self.pool.cache.entries();
        let ghost old_items = self.items@;
        let n = ids.len();
        let mut added: Vec<CachedItem> = Vec::new();
        let mut i: usize = 0;
        assert(iv.subrange(0, 0) =~= Seq::<Seq<char>>::empty());
        assert(item_views(added@) =~= Seq::<CachedView>::empty());
        while i < n
            invariant
                n == ids@.len(),
                i <= n,
                iv == views(ids@),
                iv == selected_ids(p, *option, p.index@),
                self.pool.store.spec_package(option.package@) == Some(p),
                self.pool.wf(),
                self.pool.store == old(self).pool.store,
                self.items@ == old_items,
                e0 == old(self).pool.cache.entries(),
                old_items == old(self).items@,
                grows(e0, self.pool.cache.entries()),
                collect_all(self.pool.store, e0, option.package@, iv.subrange(0, i as int)) == Ok::<
                    (Seq<CachedView>, Seq<CachedView>),
                    RenderError,
                >((self.pool.cache.entries(), item_views(added@))),
            decreases n - i,
        {
            let ghost mid = self.pool.cache.entries();
            assert(iv.subrange(0, i + 1).subrange(0, i as int) =~= iv.subrange(0, i as int));
            assert(iv.subrange(0, i + 1).last() == ids@[i as int]@);
            let mut more = match self.collect_one(&option.package, &ids[i]) {
                Ok(m) => m,
                Err(e) => {
                    proof {
                        lemma_collect_all_err(self.pool.store, e0, option.package@, iv, i + 1);
                        lemma_grows_trans(e0, mid, self.pool.cache.entries());
                    }
                    return Err(e);
                },
            };
            proof {
                lemma_grows_trans(e0, mid, self.pool.cache.entries());
            }
            let ghost before = added@;
            let ghost more_v = more@;
            added.append(&mut more);
            assert(item_views(added@) =~= item_views(before) + item_views(more_v));
            i = i + 1;
        }
        assert(iv.subrange(0, n as int) =~= iv);
        let ghost before = self.items@;
        let ghost added_v = added@;
        self.items.append(&mut added);
        assert(item_views(self.items@) =~= item_views(before) + item_views(added_v));
        Ok(())
    }

    /// Collects the items that `options` select, in order.
    pub fn from_options(store: Store, options: &Vec<ExportOption>) -> (r: Result<SegmentCollections, RenderError>)
        ensures
            match options_items(store, Seq::empty(), options@) {
                Ok((e, vs)) => r is Ok && r->Ok_0.wf() && r->Ok_0.pool.store == store
                    && r->Ok_0.pool.cache.entries() == e && item_views(r->Ok_0.items@) == vs,
                Err(err) => r is Err && r->Err_0 == err,
            },
    {
        let mut c = SegmentCollections::new(store);
        let n = options.len();
        let mut i: usize = 0;
        assert(item_views(c.items@) =~= Seq::<CachedView>::empty());
        while i < n
            invariant
                n == options@.len(),
                i <= n,
                c.wf(),
                c.pool.store == store,
                options_items(store, Seq::empty(), options@.subrange(0, i as int)) == Ok::<
                    (Seq<CachedView>, Seq<CachedView>),
                    RenderError,
                >((c.pool.cache.entries(), item_views(c.items@))),
            decreases n - i,
        {
            assert(options@.subrange(0, i + 1).subrange(0, i as int) =~= options@.subrange(0, i as int));
            assert(options@.subrange(0, i + 1).last() == options@[i as int]);
            match c.add(&options[i]) {
                Ok(()) => {},
                Err(e) => {
                    proof {
                        lemma_options_items_err(store, Seq::empty(), options@, i + 1);
                    }
                    return Err(e);
                },
            }
            i = i + 1;
        }
        assert(options@.subrange(0, n as int) =~= options@);
        Ok(c)
    }

    /// Renders the page of every collected item, in order, with where it goes: the item's
    /// location without its last segment, then that segment with `.md` appended.
    ///
    /// Each page is rendered with the cache as the pages before it left it; `caches` names
    /// those caches. A page whose methods were all looked up already is the one the
    /// starting cache gives.
    pub fn extract(&mut self) -> (r: Result<Vec<Page>, RenderError>)
        requires
            old(self).wf(),
        ensures
            final(self).wf(),
            final(self).pool.store == old(self).pool.store,
            final(self).items == old(self).items,
            grows(old(self).pool.cache.entries(), final(self).pool.cache.entries()),
            match r {
                Ok(pages) => {
                    &&& pages@.len() == old(self).items@.len()
                    &&& forall|i: int| 0 <= i < pages@.len() ==> placed(#[trigger] pages@[i], old(self).items@[i]@)
                    &&& exists|caches: Seq<Seq<CachedView>>|
                        {
                            &&& cache_chain(old(self).pool.cache.entries(), caches)
                            &&& rendered_with(
                                old(self).pool.store,
                                caches,
                                item_views(old(self).items@),
                                contents(pages@),
                            )
                        }
                    &&& forall|i: int|
                        0 <= i < pages@.len() && settled(
                            old(self).pool.store,
                            old(self).pool.cache.entries(),
                            #[trigger] old(self).items@[i]@,
                        ) ==> page_text(old(self).pool.store, old(self).pool.cache.entries(), old(self).items@[i]@)
                            == Ok::<Seq<char>, RenderError>(pages@[i].content@)
                },
                Err(e) => exists|caches: Seq<Seq<CachedView>>, done: Seq<Seq<char>>|
                    {
                        &&& cache_chain(old(self).pool.cache.entries(), caches)
                        &&& caches.len() == done.len() + 1
                        &&& caches.len() <= old(self).items@.len()
                        &&& rendered_with(
                            old(self).pool.store,
                            caches.subrange(0, done.len() as int),
                            item_views(old(self).items@).subrange(0, done.len() as int),
                            done,
                        )
                        &&& page_text(old(self).pool.store, caches.last(), old(self).items@[done.len() as int]@)
                            == Err::<Seq<char>, RenderError>(e)
                    },
            },
    {
        let ghost e0 = self.pool.cache.entries();
        let ghost store = self.pool.store;
        let ghost iv = item_views(self.items@);
        let n = self.items.len();
        let mut pages: Vec<Page> = Vec::new();
        let ghost mut caches: Seq<Seq<CachedView>> = Seq::empty();
        let mut i: usize = 0;
        proof {
            lemma_grows_refl(e0);
            assert(contents(pages@) =~= Seq::<Seq<char>>::empty());
            assert(iv.subrange(0, 0) =~= Seq::<CachedView>::empty());
        }
        while i < n
            invariant
                n == self.items@.len(),
                i <= n,
                self.items == old(self).items,
                iv == item_views(self.items@),
                self.pool.store == old(self).pool.store,
                store == self.pool.store,
                e0 == old(self).pool.cache.entries(),
                self.pool.wf(),
                grows(e0, self.pool.cache.entries()),
                caches.len() == i,
                pages@.len() == i,
                cache_chain(e0, caches),
                cache_chain(e0, caches.push(self.pool.cache.entries())),
                rendered_with(store, caches, iv.subrange(0, i as int), contents(pages@)),
                forall|k: int| 0 <= k < i ==> placed(#[trigger] pages@[k], self.items@[k]@),
            decreases n - i,
        {
            let ghost mid = self.pool.cache.entries();
            let ghost before = pages@;
            let ghost before_caches = caches;
            let content = match self.items[i].repr(&self.pool.store, &mut self.pool.cache) {
                Ok(c) => c,
                Err(e) => {
                    proof {
                        lemma_grows_trans(e0, mid, self.pool.cache.entries());
                        let all = caches.push(mid);
                        assert(all.subrange(0, i as int) =~= caches);
                    }
                    return Err(e);
                },
            };
            proof {
                lemma_grows_trans(e0, mid, self.pool.cache.entries());
                lemma_rendered_push(store, caches, iv, contents(pages@), i as int, mid, content@);
                lemma_chain_push(e0, caches.push(mid), self.pool.cache.entries());
                caches = caches.push(mid);
            }
            let path = &self.items[i].path;
            let len = path.len();
            let dir = crate::render::prefix_strings(path, if len > 0 { len - 1 } else { 0 });
            let mut file_name = if len > 0 {
                path[len - 1].clone()
            } else {
                String::new()
            };
            file_name.append(".md");
            assert(Seq::<char>::empty() + ".md"@ =~= ".md"@);
            assert(file_name@ == page_file(self.items@[i as int]@.path));
            assert(views(dir@) =~= dir_of(self.items@[i as int]@.path));
            pages.push(Page { dir, file_name, content });
            assert(contents(pages@) =~= contents(before).push(content@));
            assert forall|k: int| 0 <= k < i + 1 implies placed(#[trigger] pages@[k], self.items@[k]@) by {
                if k < i {
                    assert(pages@[k] == before[k]);
                }
            }
            i = i + 1;
        }
        proof {
            assert(iv.subrange(0, n as int) =~= iv);
            assert forall|k: int| 0 <= k < n && settled(store, e0, #[trigger] self.items@[k]@) implies page_text(
                store,
                e0,
                self.items@[k]@,
            ) == Ok::<Seq<char>, RenderError>(pages@[k].content@) by {
                lemma_chain_grows(e0, caches, k);
                assert(iv[k] == self.items@[k]@);
                assert(contents(pages@)[k] == pages@[k].content@);
                lemma_settled_kept(store, e0, caches[k], self.items@[k]@);
            }
        }
        Ok(pages)
    }
}

/// The contents of `pages`, in order.
pub open spec fn contents(pages: Seq<Page>) -> Seq<Seq<char>> {
    pages.map_values(|pg: Page| pg.content@)
}

/// Rendering each of `items` with the cache at the same position of `caches` gives the
/// text at that position of `texts`.
pub open spec fn rendered_with(
    store: Store,
    caches: Seq<Seq<CachedView>>,
    items: Seq<CachedView>,
    texts: Seq<Seq<char>>,
) -> bool {
    &&& caches.len() == items.len()
    &&& texts.len() == items.len()
    &&& forall|k: int|
        0 <= k < items.len() ==> page_text(store, #[trigger] caches[k], items[k]) == Ok::<Seq<char>, RenderError>(
            texts[k],
        )
}

proof fn lemma_rendered_push(
    store: Store,
    caches: Seq<Seq<CachedView>>,
    items: Seq<CachedView>,
    texts: Seq<Seq<char>>,
    i: int,
    next: Seq<CachedView>,
    text: Seq<char>,
)
    requires
        0 <= i < items.len(),
        rendered_with(store, caches, items.subrange(0, i), texts),
        page_text(store, next, items[i]) == Ok::<Seq<char>, RenderError>(text),
    ensures
        rendered_with(store, caches.push(next), items.subrange(0, i + 1), texts.push(text)),
{
    assert forall|k: int| 0 <= k < i + 1 implies page_text(store, #[trigger] caches.push(next)[k], items.subrange(0, i + 1)[k])
        == Ok::<Seq<char>, RenderError>(texts.push(text)[k]) by {
        if k < i {
            assert(caches.push(next)[k] == caches[k]);
            assert(items.subrange(0, i + 1)[k] == items.subrange(0, i)[k]);
        }
    }
}

proof fn lemma_chain_push(start: Seq<CachedView>, caches: Seq<Seq<CachedView>>, next: Seq<CachedView>)
    requires
        cache_chain(start, caches),
        caches.len() > 0,
        grows(caches.last(), next),
    ensures
        cache_chain(start, caches.push(next)),
{
    let all = caches.push(next);
    assert forall|k: int| 0 <= k < all.len() implies grows(
        if k == 0 {
            start
        } else {
            all[k - 1]
        },
        #[trigger] all[k],
    ) by {
        if k < caches.len() {
            assert(all[k] == caches[k]);
            if k > 0 {
                assert(all[k - 1] == caches[k - 1]);
            }
        }
    }
}

proof fn lemma_chain_grows(start: Seq<CachedView>, caches: Seq<Seq<CachedView>>, k: int)
    requires
        cache_chain(start, caches),
        0 <= k < caches.len(),
    ensures
        grows(start, caches[k]),
    decreases k,
{
    if k == 0 {
        lemma_grows_refl(start);
    } else {
        lemma_chain_grows(start, caches, k - 1);
        lemma_grows_trans(start, caches[k - 1], caches[k]);
    }
}

proof fn lemma_collect_all_err(store: Store, entries: Seq<CachedView>, pkg: Seq<char>, ids: Seq<Seq<char>>, k: int)
    requires
        0 <= k <= ids.len(),
        collect_all(store, entries, pkg, ids.subrange(0, k)) is Err,
    ensures
        collect_all(store, entries, pkg, ids) == collect_all(store, entries, pkg, ids.subrange(0, k)),
    decreases ids.len() - k,
{
    if k == ids.len() {
        assert(ids.subrange(0, k) =~= ids);
    } else {
        let s1 = ids.subrange(0, ids.len() - 1);
        assert(s1.subrange(0, k) =~= ids.subrange(0, k));
        lemma_collect_all_err(store, entries, pkg, s1, k);
    }
}

proof fn lemma_options_items_err(store: Store, entries: Seq<CachedView>, opts: Seq<ExportOption>, k: int)
    requires
        0 <= k <= opts.len(),
        options_items(store, entries, opts.subrange(0, k)) is Err,
    ensures
        options_items(store, entries, opts) == options_items(store, entries, opts.subrange(0, k)),
    decreases opts.len() - k,
{
    if k == opts.len() {
        assert(opts.subrange(0, k) =~= opts);
    } else {
        let s1 = opts.subrange(0, opts.len() - 1);
        assert(s1.subrange(0, k) =~= opts.subrange(0, k));
        lemma_options_items_err(store, entries, s1, k);
    }
}

} // verus!
