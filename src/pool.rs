use vstd::prelude::*;

use crate::model::{
    first_index, is_first, lemma_first_index_absent, lemma_first_index_found,
    lemma_first_index_present,
};
use crate::model::{ItemKind, Package, RenderError, Store};
use crate::text::views;

verus! {

/// Identifies an item across every loaded package: the package's name and the item's
/// identifier within it.
pub struct ItemId {
    pub pkg: String,
    pub id: String,
}

impl ItemId {
    pub fn new(pkg: &str, id: &str) -> (r: ItemId)
        ensures
            r.pkg@ == pkg@,
            r.id@ == id@,
    {
        ItemId { pkg: String::from_str(pkg), id: String::from_str(id) }
    }

    pub open spec fn key(&self) -> (Seq<char>, Seq<char>) {
        (self.pkg@, self.id@)
    }

    pub fn duplicate(&self) -> (r: ItemId)
        ensures
            r.key() == self.key(),
    {
        ItemId { pkg: self.pkg.clone(), id: self.id.clone() }
    }
}

/// What a cached item holds, as values.
pub struct CachedView {
    pub pkg: Seq<char>,
    pub id: Seq<char>,
    pub name: Seq<char>,
    /// The module path that locates the item's page; its last segment names the page.
    pub path: Seq<Seq<char>>,
    pub kind: ItemKind,
}

/// An item of the graph together with its resolved name, location and kind.
pub struct CachedItem {
    pub id: ItemId,
    pub name: String,
    pub path: Vec<String>,
    pub kind: ItemKind,
}

impl View for CachedItem {
    type V = CachedView;

    open spec fn view(&self) -> CachedView {
        CachedView {
            pkg: self.id.pkg@,
            id: self.id.id@,
            name: self.name@,
            path: views(self.path@),
            kind: self.kind,
        }
    }
}

/// A copy of the strings of `v`.
pub fn clone_strings(v: &Vec<String>) -> (r: Vec<String>)
    ensures
        r@ == v@,
{
    let mut r: Vec<String> = Vec::new();
    let n = v.len();
    let mut i: usize = 0;
    while i < n
        invariant
            n == v@.len(),
            i <= n,
            r@ =~= v@.subrange(0, i as int),
        decreases n - i,
    {
        r.push(v[i].clone());
        i = i + 1;
    }
    assert(v@.subrange(0, n as int) =~= v@);
    r
}

impl CachedItem {
    pub fn duplicate(&self) -> (r: CachedItem)
        ensures
            r@ == self@,
    {
        CachedItem {
            id: self.id.duplicate(),
            name: self.name.clone(),
            path: clone_strings(&self.path),
            kind: self.kind,
        }
    }

    pub fn name(&self) -> (r: &str)
        ensures
            r@ == self@.name,
    {
        self.name.as_str()
    }

    pub fn kind(&self) -> (r: ItemKind)
        ensures
            r == self@.kind,
    {
        self.kind
    }
}

/// The views of a synthesized location.
pub open spec fn synth_of(path: Option<Vec<String>>) -> Option<Seq<Seq<char>>> {
    match path {
        Some(v) => Some(views(v@)),
        None => None,
    }
}

/// The name of an item: the name in its definition, else the last segment of its path entry.
pub open spec fn spec_name_of(store: Store, pkg: Seq<char>, id: Seq<char>) -> Option<Seq<char>> {
    match store.spec_package(pkg) {
        None => None,
        Some(p) => {
            let item = p.spec_item(id);
            let summary = p.spec_summary(id);
            if item is Some && item->0.name is Some {
                Some(item->0.name->0@)
            } else if summary is Some && summary->0.path@.len() > 0 {
                Some(summary->0.path@.last()@)
            } else {
                None
            }
        },
    }
}

/// The location of an item: the path of its path entry; for an item without one, `synth`.
pub open spec fn spec_location_of(
    store: Store,
    pkg: Seq<char>,
    id: Seq<char>,
    synth: Option<Seq<Seq<char>>>,
) -> Option<Seq<Seq<char>>> {
    match store.spec_package(pkg) {
        None => None,
        Some(p) => match p.spec_summary(id) {
            Some(s) => Some(views(s.path@)),
            None => synth,
        },
    }
}

/// The kind of an item: that of its path entry; an item without one is a method, which
/// renders as a function.
pub open spec fn spec_kind_of(store: Store, pkg: Seq<char>, id: Seq<char>) -> ItemKind {
    match store.spec_package(pkg) {
        Some(p) if p.spec_summary(id) is Some => p.spec_summary(id)->0.kind,
        _ => ItemKind::Function,
    }
}

/// The cached item built for `(pkg, id)`: present when the item has a name and a location
/// of at least one segment.
pub open spec fn spec_fresh(
    store: Store,
    pkg: Seq<char>,
    id: Seq<char>,
    synth: Option<Seq<Seq<char>>>,
) -> Option<CachedView> {
    let name = spec_name_of(store, pkg, id);
    let loc = spec_location_of(store, pkg, id, synth);
    if name is Some && loc is Some && loc->0.len() > 0 {
        Some(
            CachedView {
                pkg,
                id,
                name: name->0,
                path: loc->0,
                kind: spec_kind_of(store, pkg, id),
            },
        )
    } else {
        None
    }
}

/// `c` agrees with the graph: it is what a lookup of its item builds, given its location.
pub open spec fn consistent(store: Store, c: CachedView) -> bool {
    spec_fresh(store, c.pkg, c.id, Some(c.path)) == Some(c)
}

/// The keys of the entries of a cache.
pub open spec fn entry_keys(entries: Seq<CachedView>) -> Seq<(Seq<char>, Seq<char>)> {
    entries.map_values(|c: CachedView| (c.pkg, c.id))
}

/// The entry cached for `key`.
pub open spec fn cached_in(entries: Seq<CachedView>, key: (Seq<char>, Seq<char>)) -> Option<
    CachedView,
> {
    match first_index(entry_keys(entries), key) {
        Some(i) => Some(entries[i]),
        None => None,
    }
}

/// What a lookup of `key` with synthesized location `synth` yields: the cached entry if
/// there is one, else the item built from the graph.
pub open spec fn resolve_in(
    store: Store,
    entries: Seq<CachedView>,
    key: (Seq<char>, Seq<char>),
    synth: Option<Seq<Seq<char>>>,
) -> Option<CachedView> {
    match cached_in(entries, key) {
        Some(c) => Some(c),
        None => spec_fresh(store, key.0, key.1, synth),
    }
}

/// The entries after a lookup that yielded `v`: `v` is added unless its key was cached.
pub open spec fn insert_in(entries: Seq<CachedView>, v: CachedView) -> Seq<CachedView> {
    if cached_in(entries, (v.pkg, v.id)) is Some {
        entries
    } else {
        entries.push(v)
    }
}

/// A lookup finds the entry cached for its key, whose key is that key.
pub proof fn lemma_cached_key(entries: Seq<CachedView>, key: (Seq<char>, Seq<char>))
    ensures
        cached_in(entries, key) is Some ==> (cached_in(entries, key)->0.pkg, cached_in(
            entries,
            key,
        )->0.id) == key,
{
    if let Some(i) = first_index(entry_keys(entries), key) {
        assert(is_first(entry_keys(entries), key, i));
    }
}

/// Once a lookup of an item has succeeded, every later lookup of it, whatever location it
/// would synthesize, yields the very entry the first one cached, and caches nothing more:
/// the cache holds one item for each identifier.
pub proof fn lemma_lookup_memoized(
    store: Store,
    entries: Seq<CachedView>,
    key: (Seq<char>, Seq<char>),
    first: Option<Seq<Seq<char>>>,
    later: Option<Seq<Seq<char>>>,
)
    requires
        resolve_in(store, entries, key, first) is Some,
    ensures
        ({
            let v = resolve_in(store, entries, key, first)->0;
            &&& (v.pkg, v.id) == key
            &&& cached_in(insert_in(entries, v), key) == Some(v)
            &&& resolve_in(store, insert_in(entries, v), key, later) == Some(v)
            &&& insert_in(insert_in(entries, v), v) == insert_in(entries, v)
        }),
{
    let v = resolve_in(store, entries, key, first)->0;
    lemma_cached_key(entries, key);
    if cached_in(entries, key) is None {
        let keys = entry_keys(entries);
        let pushed = entries.push(v);
        assert(entry_keys(pushed) =~= keys.push(key));
        if exists|j: int| 0 <= j < keys.len() && keys[j] == key {
            let j = choose|j: int| 0 <= j < keys.len() && keys[j] == key;
            lemma_first_index_present(keys, key, j);
        }
        assert(is_first(entry_keys(pushed), key, keys.len() as int));
        lemma_first_index_found(entry_keys(pushed), key, keys.len() as int);
    }
}

/// An entry found in a cache is still the one found once the cache has grown.
pub proof fn lemma_cached_kept(
    entries: Seq<CachedView>,
    grown: Seq<CachedView>,
    key: (Seq<char>, Seq<char>),
)
    requires
        entries.len() <= grown.len(),
        grown.subrange(0, entries.len() as int) == entries,
        cached_in(entries, key) is Some,
    ensures
        cached_in(grown, key) == cached_in(entries, key),
{
    let i = first_index(entry_keys(entries), key)->0;
    assert(is_first(entry_keys(entries), key, i));
    assert forall|j: int| 0 <= j <= i implies entry_keys(grown)[j] == entry_keys(entries)[j] by {
        assert(grown[j] == grown.subrange(0, entries.len() as int)[j]);
    }
    assert(is_first(entry_keys(grown), key, i));
    lemma_first_index_found(entry_keys(grown), key, i);
    assert(grown[i] == entries[i]);
}

/// The memo table of cached items: at most one entry for each item, kept for as long as
/// the cache lives and never changed.
pub struct ItemCache {
    entries: Vec<CachedItem>,
}

impl ItemCache {
    pub closed spec fn entries(&self) -> Seq<CachedView> {
        self.entries@.map_values(|c: CachedItem| c@)
    }

    /// Every entry agrees with the graph `store`.
    pub open spec fn wf(&self, store: Store) -> bool {
        forall|i: int| 0 <= i < self.entries().len() ==> consistent(store, #[trigger] self.entries()[i])
    }

    pub fn new() -> (r: ItemCache)
        ensures
            r.entries() == Seq::<CachedView>::empty(),
    {
        let r = ItemCache { entries: Vec::new() };
        assert(r.entries() =~= Seq::<CachedView>::empty());
        r
    }

    fn find(&self, id: &ItemId) -> (r: Option<usize>)
        ensures
            match r {
                Some(i) => first_index(entry_keys(self.entries()), id.key()) == Some(i as int)
                    && i < self.entries@.len(),
                None => first_index(entry_keys(self.entries()), id.key()) is None,
            },
    {
        let ghost keys = entry_keys(self.entries());
        let n = self.entries.len();
        let mut i: usize = 0;
        while i < n
            invariant
                n == self.entries@.len(),
                i <= n,
                keys == entry_keys(self.entries()),
                forall|j: int| 0 <= j < i ==> keys[j] != id.key(),
            decreases n - i,
        {
            let c = &self.entries[i];
            if c.id.pkg == id.pkg && c.id.id == id.id {
                proof {
                    assert(keys[i as int] == id.key());
                    lemma_first_index_found(keys, id.key(), i as int);
                }
                return Some(i);
            }
            assert(keys[i as int] != id.key());
            i = i + 1;
        }
        proof {
            lemma_first_index_absent(keys, id.key());
        }
        None
    }

    /// Looks `id` up, building and caching its item on a first lookup. An item without a
    /// path entry is located at `path`.
    pub fn insert_with_path(&mut self, store: &Store, id: &ItemId, path: Option<Vec<String>>) -> (r:
        Result<CachedItem, RenderError>)
        requires
            old(self).wf(*store),
        ensures
            final(self).wf(*store),
            ({
                match resolve_in(*store, old(self).entries(), id.key(), synth_of(path)) {
                    Some(v) => r is Ok && r->Ok_0@ == v && final(self).entries() == insert_in(
                        old(self).entries(),
                        v,
                    ),
                    None => r == Err::<CachedItem, RenderError>(RenderError::MissingItem)
                        && final(self).entries() == old(self).entries(),
                }
            }),
            r is Ok ==> consistent(*store, r->Ok_0@),
    {
        match self.find(id) {
            Some(i) => {
                let c = self.entries[i].duplicate();
                proof {
                    assert(entry_keys(self.entries())[i as int] == id.key());
                    assert(self.entries()[i as int] == self.entries@[i as int]@);
                }
                return Ok(c);
            },
            None => {},
        }
        let built = build(store, id, path);
        match built {
            Ok(c) => {
                proof {
                    assert(cached_in(self.entries(), (c@.pkg, c@.id)) is None);
                }
                let ghost before = self.entries();
                self.entries.push(c.duplicate());
                assert(self.entries() =~= before.push(c@));
                Ok(c)
            },
            Err(e) => Err(e),
        }
    }

    /// Looks `id` up, building and caching its item on a first lookup.
    pub fn get(&mut self, store: &Store, id: &ItemId) -> (r: Result<CachedItem, RenderError>)
        requires
            old(self).wf(*store),
        ensures
            final(self).wf(*store),
            match resolve_in(*store, old(self).entries(), id.key(), None) {
                Some(v) => r is Ok && r->Ok_0@ == v && final(self).entries() == insert_in(
                    old(self).entries(),
                    v,
                ),
                None => r == Err::<CachedItem, RenderError>(RenderError::MissingItem)
                    && final(self).entries() == old(self).entries(),
            },
            r is Ok ==> consistent(*store, r->Ok_0@),
    {
        self.insert_with_path(store, id, None)
    }
}

/// The name of `id` in `p`, as `spec_name_of` gives it.
fn name_in(p: &Package, id: &String) -> (r: Option<String>)
    ensures
        ({
            let item = p.spec_item(id@);
            let summary = p.spec_summary(id@);
            match r {
                Some(n) => if item is Some && item->0.name is Some {
                    n@ == item->0.name->0@
                } else {
                    summary is Some && summary->0.path@.len() > 0 && n@ == summary->0.path@.last()@
                },
                None => !(item is Some && item->0.name is Some) && !(summary is Some
                    && summary->0.path@.len() > 0),
            }
        }),
{
    match p.find_item(id) {
        Some(k) => match &p.index[k].name {
            Some(n) => return Some(n.clone()),
            None => {},
        },
        None => {},
    }
    match p.find_summary(id) {
        Some(k) => {
            let path = &p.paths[k].path;
            if path.len() > 0 {
                Some(path[path.len() - 1].clone())
            } else {
                None
            }
        },
        None => None,
    }
}

/// The name of item `id` of package `pkg`, read from the graph without the cache.
pub fn lookup_name(store: &Store, pkg: &String, id: &String) -> (r: Option<String>)
    ensures
        match r {
            Some(n) => spec_name_of(*store, pkg@, id@) == Some(n@),
            None => spec_name_of(*store, pkg@, id@) is None,
        },
{
    match store.find_package(pkg) {
        Some(pi) => name_in(&store.packages[pi], id),
        None => None,
    }
}

/// Builds the cached item of `id` from the graph.
fn build(store: &Store, id: &ItemId, path: Option<Vec<String>>) -> (r: Result<CachedItem, RenderError>)
    ensures
        ({
            match spec_fresh(*store, id.pkg@, id.id@, synth_of(path)) {
                Some(v) => r is Ok && r->Ok_0@ == v,
                None => r == Err::<CachedItem, RenderError>(RenderError::MissingItem),
            }
        }),
{
    let pi = match store.find_package(&id.pkg) {
        Some(pi) => pi,
        None => return Err(RenderError::MissingItem),
    };
    let p = &store.packages[pi];
    let name = match name_in(p, &id.id) {
        Some(n) => n,
        None => return Err(RenderError::MissingItem),
    };
    let (location, kind) = match p.find_summary(&id.id) {
        Some(k) => (clone_strings(&p.paths[k].path), p.paths[k].kind),
        None => match path {
            Some(v) => (v, ItemKind::Function),
            None => return Err(RenderError::MissingItem),
        },
    };
    if location.len() == 0 {
        return Err(RenderError::MissingItem);
    }
    Ok(CachedItem { id: id.duplicate(), name, path: location, kind })
}

/// The loaded packages together with the cache of items looked up in them.
pub struct ItemPool {
    pub store: Store,
    pub cache: ItemCache,
}

impl ItemPool {
    pub open spec fn wf(&self) -> bool {
        self.cache.wf(self.store)
    }

    pub fn new(store: Store) -> (r: ItemPool)
        ensures
            r.wf(),
            r.store == store,
            r.cache.entries() == Seq::<CachedView>::empty(),
    {
        ItemPool { store, cache: ItemCache::new() }
    }

    /// Looks `id` up, building and caching its item on a first lookup.
    pub fn get(&mut self, id: &ItemId) -> (r: Result<CachedItem, RenderError>)
        requires
            old(self).wf(),
        ensures
            final(self).wf(),
            final(self).store == old(self).store,
            match resolve_in(old(self).store, old(self).cache.entries(), id.key(), None) {
                Some(v) => r is Ok && r->Ok_0@ == v && final(self).cache.entries() == insert_in(
                    old(self).cache.entries(),
                    v,
                ),
                None => r == Err::<CachedItem, RenderError>(RenderError::MissingItem)
                    && final(self).cache.entries() == old(self).cache.entries(),
            },
    {
        self.cache.get(&self.store, id)
    }
}

} // verus!
