use vstd::prelude::*;

use crate::model::{kind_tag, Item, ItemKind, Package, RenderError, Store};
use crate::xref::dir_of;
use crate::pool::{
    cached_in, consistent, lemma_cached_kept, lemma_lookup_memoized, lookup_name, resolve_in, spec_name_of,
    CachedItem, CachedView, ItemCache, ItemId,
};
use crate::text::{joined, lemma_views_push, views};
use crate::types::{
    BindingKind, DynTrait, GenericArg, GenericArgs, GenericBound, PathRef, PolyTrait, Term,
    TraitBoundModifier, TypeBinding, TypeExpr,
};

verus! {

/// `old` is kept at the front of `new`: a cache only grows.
pub open spec fn grows(old: Seq<CachedView>, new: Seq<CachedView>) -> bool {
    old.len() <= new.len() && new.subrange(0, old.len() as int) == old
}

/// The page of a package's own item on docs.rs: the package's name and version, the
/// directories of the item's module path, then its kind and name.
pub open spec fn docs_rs_url(
    pkg: Seq<char>,
    version: Seq<char>,
    path: Seq<Seq<char>>,
    kind: ItemKind,
    name: Seq<char>,
) -> Seq<char> {
    "https://docs.rs/"@ + pkg + "/"@ + version + "/"@ + joined(dir_of(path), "/"@) + "/"@ + kind_tag(kind)
        + "."@ + name + ".html"@
}

/// The documentation link of item `id` of package `pkg`, where `place` gives the module
/// path, kind and name under which the item is documented, if known.
///
/// An item of the package itself links to its page on docs.rs; the package must record its
/// version. An item of another crate links to that crate's documentation root, where the
/// graph records one. An item the graph does not hold, or whose place is not known, gets
/// an empty link.
pub open spec fn link_with(
    store: Store,
    pkg: Seq<char>,
    id: Seq<char>,
    place: Option<(Seq<Seq<char>>, ItemKind, Seq<char>)>,
) -> Result<Seq<char>, RenderError> {
    match store.spec_package(pkg) {
        None => Ok(Seq::empty()),
        Some(p) => match p.spec_item(id) {
            None => Ok(Seq::empty()),
            Some(item) => if item.crate_id == 0 {
                match p.version {
                    None => Err(RenderError::MissingItem),
                    Some(v) => match place {
                        Some((path, kind, name)) => Ok(docs_rs_url(pkg, v@, path, kind, name)),
                        None => Ok(Seq::empty()),
                    },
                }
            } else {
                match p.spec_external_crate(item.crate_id) {
                    Some(c) if c.html_root_url is Some => Ok(c.html_root_url->0@),
                    _ => Ok(Seq::empty()),
                }
            },
        },
    }
}

/// Where the graph's path entry documents item `id`: its path, its kind and the item's name.
pub open spec fn summary_place(store: Store, pkg: Seq<char>, id: Seq<char>) -> Option<
    (Seq<Seq<char>>, ItemKind, Seq<char>),
> {
    match store.spec_package(pkg) {
        Some(p) if p.spec_summary(id) is Some && spec_name_of(store, pkg, id) is Some => Some(
            (views(p.spec_summary(id)->0.path@), p.spec_summary(id)->0.kind, spec_name_of(store, pkg, id)->0),
        ),
        _ => None,
    }
}

/// The documentation link of item `id`, seen from package `pkg`, placed by its path entry.
pub open spec fn link_of(store: Store, pkg: Seq<char>, id: Seq<char>) -> Result<Seq<char>, RenderError> {
    link_with(store, pkg, id, summary_place(store, pkg, id))
}

/// The documentation link of a cached item, placed at its location, which for a method is
/// the one synthesized under its struct.
pub open spec fn cached_link(store: Store, c: CachedView) -> Result<Seq<char>, RenderError> {
    link_with(store, c.pkg, c.id, Some((c.path, c.kind, c.name)))
}

/// An item with a path entry links to the same page whether it is placed by that entry or
/// by its cached location.
pub proof fn lemma_cached_link_agrees(store: Store, c: CachedView)
    requires
        consistent(store, c),
        summary_place(store, c.pkg, c.id) is Some,
    ensures
        cached_link(store, c) == link_of(store, c.pkg, c.id),
{
}

/// The name shown for a reference to `p`: the referenced item's, else the one written at
/// the use site.
pub open spec fn display_name(store: Store, pkg: Seq<char>, p: PathRef) -> Seq<char> {
    match spec_name_of(store, pkg, p.id@) {
        Some(n) => n,
        None => p.name@,
    }
}

pub open spec fn primitive_text(name: Seq<char>) -> Seq<char> {
    "<a href=\"https://doc.rust-lang.org/std/primitive."@ + name + ".html\">"@ + name + "</a>"@
}

pub open spec fn opt_text(s: Option<String>) -> Seq<Seq<char>> {
    match s {
        Some(l) => seq![l@],
        None => Seq::empty(),
    }
}

/// The text of a type expression, or why it cannot be rendered.
pub open spec fn type_text(store: Store, pkg: Seq<char>, t: TypeExpr) -> Result<Seq<char>, RenderError>
    decreases t,
{
    match t {
        TypeExpr::Primitive(p) => Ok(primitive_text(p@)),
        TypeExpr::ResolvedPath(p) => path_text(store, pkg, p),
        TypeExpr::DynTrait(d) => match poly_texts(store, pkg, d.traits@) {
            Err(e) => Err(e),
            Ok(parts) => Ok("dyn "@ + joined(parts + opt_text(d.lifetime), " + "@)),
        },
        TypeExpr::Generic(g) => Ok(g@),
        TypeExpr::BorrowedRef { lifetime, mutable, type_ } => match type_text(store, pkg, *type_) {
            Err(e) => Err(e),
            Ok(inner) => Ok(
                "&"@ + match lifetime {
                    Some(l) => l@ + " "@,
                    None => Seq::empty(),
                } + if mutable {
                    "mut "@
                } else {
                    Seq::empty()
                } + inner,
            ),
        },
        TypeExpr::Tuple(v) => match type_texts(store, pkg, v@) {
            Err(e) => Err(e),
            Ok(parts) => Ok("("@ + joined(parts, ", "@) + ")"@),
        },
        TypeExpr::Slice(e) => match type_text(store, pkg, *e) {
            Err(err) => Err(err),
            Ok(inner) => Ok("["@ + inner + "]"@),
        },
        TypeExpr::Array { type_, len } => match type_text(store, pkg, *type_) {
            Err(e) => Err(e),
            Ok(inner) => Ok("["@ + inner + ": "@ + len@ + "]"@),
        },
        TypeExpr::ImplTrait(bounds) => match bound_texts(store, pkg, bounds@) {
            Err(e) => Err(e),
            Ok(parts) => Ok("impl "@ + joined(parts, " + "@)),
        },
        TypeExpr::Unsupported => Err(RenderError::Unsupported),
    }
}

/// The texts of `s` in order, or the first error among them.
pub open spec fn type_texts(store: Store, pkg: Seq<char>, s: Seq<TypeExpr>) -> Result<Seq<Seq<char>>, RenderError>
    decreases s,
{
    if s.len() == 0 {
        Ok(Seq::empty())
    } else {
        match type_texts(store, pkg, s.subrange(0, s.len() - 1)) {
            Err(e) => Err(e),
            Ok(parts) => match type_text(store, pkg, s[s.len() - 1]) {
                Err(e) => Err(e),
                Ok(x) => Ok(parts.push(x)),
            },
        }
    }
}

/// A trait of a `dyn` type: higher-rank lifetimes are not supported.
pub open spec fn poly_text(store: Store, pkg: Seq<char>, p: PolyTrait) -> Result<Seq<char>, RenderError>
    decreases p,
{
    if p.generic_params > 0 {
        Err(RenderError::Unsupported)
    } else {
        path_text(store, pkg, p.trait_)
    }
}

pub open spec fn poly_texts(store: Store, pkg: Seq<char>, s: Seq<PolyTrait>) -> Result<Seq<Seq<char>>, RenderError>
    decreases s,
{
    if s.len() == 0 {
        Ok(Seq::empty())
    } else {
        match poly_texts(store, pkg, s.subrange(0, s.len() - 1)) {
            Err(e) => Err(e),
            Ok(parts) => match poly_text(store, pkg, s[s.len() - 1]) {
                Err(e) => Err(e),
                Ok(x) => Ok(parts.push(x)),
            },
        }
    }
}

/// A bound: a trait, possibly `?`-relaxed, or a lifetime.
pub open spec fn bound_text(store: Store, pkg: Seq<char>, b: GenericBound) -> Result<Seq<char>, RenderError>
    decreases b,
{
    match b {
        GenericBound::TraitBound { trait_, generic_params, modifier } => if generic_params > 0 {
            Err(RenderError::Unsupported)
        } else {
            match modifier {
                TraitBoundModifier::MaybeConst => Err(RenderError::Unsupported),
                TraitBoundModifier::Plain => path_text(store, pkg, trait_),
                TraitBoundModifier::Maybe => match path_text(store, pkg, trait_) {
                    Err(e) => Err(e),
                    Ok(x) => Ok("?"@ + x),
                },
            }
        },
        GenericBound::Outlives(l) => Ok(l@),
    }
}

pub open spec fn bound_texts(store: Store, pkg: Seq<char>, s: Seq<GenericBound>) -> Result<Seq<Seq<char>>, RenderError>
    decreases s,
{
    if s.len() == 0 {
        Ok(Seq::empty())
    } else {
        match bound_texts(store, pkg, s.subrange(0, s.len() - 1)) {
            Err(e) => Err(e),
            Ok(parts) => match bound_text(store, pkg, s[s.len() - 1]) {
                Err(e) => Err(e),
                Ok(x) => Ok(parts.push(x)),
            },
        }
    }
}

/// A reference to an item: a link to its documentation with its name, then the generic
/// arguments.
pub open spec fn path_text(store: Store, pkg: Seq<char>, p: PathRef) -> Result<Seq<char>, RenderError>
    decreases p,
{
    match link_of(store, pkg, p.id@) {
        Err(e) => Err(e),
        Ok(link) => {
            let args = match p.args {
                Some(a) => args_text(store, pkg, *a),
                None => Ok(Seq::empty()),
            };
            match args {
                Err(e) => Err(e),
                Ok(a) => Ok(
                    "<a href=\""@ + link + "\">"@ + display_name(store, pkg, p) + "</a>"@ + a,
                ),
            }
        },
    }
}

/// Generic arguments: nothing at all when there are none, else the lifetimes, types and
/// bindings between escaped angle brackets.
pub open spec fn args_text(store: Store, pkg: Seq<char>, a: GenericArgs) -> Result<Seq<char>, RenderError>
    decreases a,
{
    match a {
        GenericArgs::AngleBracketed { args, bindings } => if args.len() == 0 && bindings.len() == 0 {
            Ok(Seq::empty())
        } else {
            match arg_texts(store, pkg, args@) {
                Err(e) => Err(e),
                Ok(xs) => match binding_texts(store, pkg, bindings@) {
                    Err(e) => Err(e),
                    Ok(ys) => Ok("&lt;"@ + joined(xs + ys, ", "@) + "&gt;"@),
                },
            }
        },
        GenericArgs::Parenthesized => Err(RenderError::Unsupported),
    }
}

pub open spec fn arg_text(store: Store, pkg: Seq<char>, a: GenericArg) -> Result<Seq<char>, RenderError>
    decreases a,
{
    match a {
        GenericArg::Lifetime(l) => Ok(l@),
        GenericArg::Type(t) => type_text(store, pkg, t),
        GenericArg::Const => Err(RenderError::Unsupported),
        GenericArg::Infer => Err(RenderError::Unsupported),
    }
}

pub open spec fn arg_texts(store: Store, pkg: Seq<char>, s: Seq<GenericArg>) -> Result<Seq<Seq<char>>, RenderError>
    decreases s,
{
    if s.len() == 0 {
        Ok(Seq::empty())
    } else {
        match arg_texts(store, pkg, s.subrange(0, s.len() - 1)) {
            Err(e) => Err(e),
            Ok(parts) => match arg_text(store, pkg, s[s.len() - 1]) {
                Err(e) => Err(e),
                Ok(x) => Ok(parts.push(x)),
            },
        }
    }
}

/// An equality binding `Name<args>=Type`; constraint bindings and constant terms are not
/// supported.
pub open spec fn binding_text(store: Store, pkg: Seq<char>, b: TypeBinding) -> Result<Seq<char>, RenderError>
    decreases b,
{
    match args_text(store, pkg, b.args) {
        Err(e) => Err(e),
        Ok(a) => match b.binding {
            BindingKind::Equality(Term::Type(t)) => match type_text(store, pkg, t) {
                Err(e) => Err(e),
                Ok(x) => Ok(b.name@ + a + "="@ + x),
            },
            _ => Err(RenderError::Unsupported),
        },
    }
}

pub open spec fn binding_texts(store: Store, pkg: Seq<char>, s: Seq<TypeBinding>) -> Result<Seq<Seq<char>>, RenderError>
    decreases s,
{
    if s.len() == 0 {
        Ok(Seq::empty())
    } else {
        match binding_texts(store, pkg, s.subrange(0, s.len() - 1)) {
            Err(e) => Err(e),
            Ok(parts) => match binding_text(store, pkg, s[s.len() - 1]) {
                Err(e) => Err(e),
                Ok(x) => Ok(parts.push(x)),
            },
        }
    }
}

/// A reference whose generic argument lists are absent or empty renders as a bare link:
/// no angle brackets follow it.
pub proof fn lemma_no_generic_args(store: Store, pkg: Seq<char>, p: PathRef)
    requires
        link_of(store, pkg, p.id@) is Ok,
        match p.args {
            None => true,
            Some(a) => match *a {
                GenericArgs::AngleBracketed { args, bindings } => args.len() == 0 && bindings.len() == 0,
                GenericArgs::Parenthesized => false,
            },
        },
    ensures
        path_text(store, pkg, p) == Ok::<Seq<char>, RenderError>(
            "<a href=\""@ + link_of(store, pkg, p.id@)->Ok_0 + "\">"@ + display_name(store, pkg, p)
                + "</a>"@,
        ),
{
    let link = link_of(store, pkg, p.id@)->Ok_0;
    let head = "<a href=\""@ + link + "\">"@ + display_name(store, pkg, p) + "</a>"@;
    assert(head + Seq::<char>::empty() =~= head);
}

/// Every form outside the supported grammar fails as unsupported, and so does any type
/// that holds one, never rendering as empty or placeholder text.
pub proof fn lemma_unsupported_forms(store: Store, pkg: Seq<char>, t: TypeExpr, p: PathRef)
    requires
        type_text(store, pkg, t) == Err::<Seq<char>, RenderError>(RenderError::Unsupported),
    ensures
        type_text(store, pkg, TypeExpr::Unsupported) == Err::<Seq<char>, RenderError>(RenderError::Unsupported),
        args_text(store, pkg, GenericArgs::Parenthesized) == Err::<Seq<char>, RenderError>(RenderError::Unsupported),
        arg_text(store, pkg, GenericArg::Const) == Err::<Seq<char>, RenderError>(RenderError::Unsupported),
        arg_text(store, pkg, GenericArg::Infer) == Err::<Seq<char>, RenderError>(RenderError::Unsupported),
        bound_text(store, pkg, GenericBound::TraitBound { trait_: p, generic_params: 0, modifier: TraitBoundModifier::MaybeConst })
            == Err::<Seq<char>, RenderError>(RenderError::Unsupported),
        type_text(store, pkg, TypeExpr::Slice(Box::new(t))) == Err::<Seq<char>, RenderError>(RenderError::Unsupported),
        type_text(store, pkg, TypeExpr::BorrowedRef { lifetime: None, mutable: false, type_: Box::new(t) })
            == Err::<Seq<char>, RenderError>(RenderError::Unsupported),
        type_text(store, pkg, TypeExpr::Array { type_: Box::new(t), len: p.name })
            == Err::<Seq<char>, RenderError>(RenderError::Unsupported),
{
}

/// `r` is the rendering that `spec` describes.
pub open spec fn same_text(r: Result<String, RenderError>, spec: Result<Seq<char>, RenderError>) -> bool {
    match r {
        Ok(s) => spec == Ok::<Seq<char>, RenderError>(s@),
        Err(e) => spec == Err::<Seq<char>, RenderError>(e),
    }
}

/// `r` holds the renderings that `spec` describes.
pub open spec fn same_texts(r: Result<Vec<String>, RenderError>, spec: Result<Seq<Seq<char>>, RenderError>) -> bool {
    match r {
        Ok(v) => spec == Ok::<Seq<Seq<char>>, RenderError>(views(v@)),
        Err(e) => spec == Err::<Seq<Seq<char>>, RenderError>(e),
    }
}

proof fn lemma_type_texts_err(store: Store, pkg: Seq<char>, s: Seq<TypeExpr>, k: int)
    requires
        0 <= k <= s.len(),
        type_texts(store, pkg, s.subrange(0, k)) is Err,
    ensures
        type_texts(store, pkg, s) == type_texts(store, pkg, s.subrange(0, k)),
    decreases s.len() - k,
{
    if k == s.len() {
        assert(s.subrange(0, k) =~= s);
    } else {
        let s1 = s.subrange(0, s.len() - 1);
        assert(s1.subrange(0, k) =~= s.subrange(0, k));
        lemma_type_texts_err(store, pkg, s1, k);
    }
}

proof fn lemma_poly_texts_err(store: Store, pkg: Seq<char>, s: Seq<PolyTrait>, k: int)
    requires
        0 <= k <= s.len(),
        poly_texts(store, pkg, s.subrange(0, k)) is Err,
    ensures
        poly_texts(store, pkg, s) == poly_texts(store, pkg, s.subrange(0, k)),
    decreases s.len() - k,
{
    if k == s.len() {
        assert(s.subrange(0, k) =~= s);
    } else {
        let s1 = s.subrange(0, s.len() - 1);
        assert(s1.subrange(0, k) =~= s.subrange(0, k));
        lemma_poly_texts_err(store, pkg, s1, k);
    }
}

proof fn lemma_bound_texts_err(store: Store, pkg: Seq<char>, s: Seq<GenericBound>, k: int)
    requires
        0 <= k <= s.len(),
        bound_texts(store, pkg, s.subrange(0, k)) is Err,
    ensures
        bound_texts(store, pkg, s) == bound_texts(store, pkg, s.subrange(0, k)),
    decreases s.len() - k,
{
    if k == s.len() {
        assert(s.subrange(0, k) =~= s);
    } else {
        let s1 = s.subrange(0, s.len() - 1);
        assert(s1.subrange(0, k) =~= s.subrange(0, k));
        lemma_bound_texts_err(store, pkg, s1, k);
    }
}

proof fn lemma_arg_texts_err(store: Store, pkg: Seq<char>, s: Seq<GenericArg>, k: int)
    requires
        0 <= k <= s.len(),
        arg_texts(store, pkg, s.subrange(0, k)) is Err,
    ensures
        arg_texts(store, pkg, s) == arg_texts(store, pkg, s.subrange(0, k)),
    decreases s.len() - k,
{
    if k == s.len() {
        assert(s.subrange(0, k) =~= s);
    } else {
        let s1 = s.subrange(0, s.len() - 1);
        assert(s1.subrange(0, k) =~= s.subrange(0, k));
        lemma_arg_texts_err(store, pkg, s1, k);
    }
}

proof fn lemma_binding_texts_err(store: Store, pkg: Seq<char>, s: Seq<TypeBinding>, k: int)
    requires
        0 <= k <= s.len(),
        binding_texts(store, pkg, s.subrange(0, k)) is Err,
    ensures
        binding_texts(store, pkg, s) == binding_texts(store, pkg, s.subrange(0, k)),
    decreases s.len() - k,
{
    if k == s.len() {
        assert(s.subrange(0, k) =~= s);
    } else {
        let s1 = s.subrange(0, s.len() - 1);
        assert(s1.subrange(0, k) =~= s.subrange(0, k));
        lemma_binding_texts_err(store, pkg, s1, k);
    }
}

pub proof fn lemma_grows_trans(a: Seq<CachedView>, b: Seq<CachedView>, c: Seq<CachedView>)
    requires
        grows(a, b),
        grows(b, c),
    ensures
        grows(a, c),
{
    assert(c.subrange(0, a.len() as int) =~= b.subrange(0, a.len() as int));
}

pub proof fn lemma_grows_refl(a: Seq<CachedView>)
    ensures
        grows(a, a),
{
    assert(a.subrange(0, a.len() as int) =~= a);
}

/// The strings of `v` before position `n`.
pub fn prefix_strings(v: &Vec<String>, n: usize) -> (r: Vec<String>)
    requires
        n <= v@.len(),
    ensures
        r@ == v@.subrange(0, n as int),
{
    let mut r: Vec<String> = Vec::new();
    let mut i: usize = 0;
    while i < n
        invariant
            n <= v@.len(),
            i <= n,
            r@ =~= v@.subrange(0, i as int),
        decreases n - i,
    {
        r.push(v[i].clone());
        i = i + 1;
    }
    r
}

fn docs_rs_page(pkg: &String, version: &String, path: &Vec<String>, kind: ItemKind, name: &String) -> (r: String)
    ensures
        r@ == docs_rs_url(pkg@, version@, views(path@), kind, name@),
{
    let len = path.len();
    let dirs = prefix_strings(
        path,
        if len > 0 {
            len - 1
        } else {
            0
        },
    );
    assert(views(dirs@) =~= dir_of(views(path@)));
    let mut r = String::from_str("https://docs.rs/");
    r.append(pkg.as_str());
    r.append("/");
    r.append(version.as_str());
    r.append("/");
    r.append(crate::text::join(&dirs, "/").as_str());
    r.append("/");
    r.append(kind.tag());
    r.append(".");
    r.append(name.as_str());
    r.append(".html");
    r
}

/// The documentation link of a package's own item when it is documented elsewhere: the
/// root URL that the graph records for the item's crate, else nothing. `None` for an item
/// of the package itself.
fn foreign_link(p: &Package, item: &Item) -> (r: Option<String>)
    ensures
        item.crate_id == 0 <==> r is None,
        r is Some ==> Ok::<Seq<char>, RenderError>(r->0@) == match p.spec_external_crate(item.crate_id) {
            Some(c) if c.html_root_url is Some => Ok::<Seq<char>, RenderError>(c.html_root_url->0@),
            _ => Ok(Seq::empty()),
        },
{
    if item.crate_id == 0 {
        return None;
    }
    match p.find_external_crate(item.crate_id) {
        Some(ci) => match &p.external_crates[ci].html_root_url {
            Some(u) => Some(u.clone()),
            None => Some(String::new()),
        },
        None => Some(String::new()),
    }
}

/// The documentation link of item `id`, as `link_of` describes it.
pub fn external_link(store: &Store, id: &ItemId) -> (r: Result<String, RenderError>)
    ensures
        same_text(r, link_of(*store, id.pkg@, id.id@)),
{
    let pi = match store.find_package(&id.pkg) {
        Some(pi) => pi,
        None => return Ok(String::new()),
    };
    let p = &store.packages[pi];
    let k = match p.find_item(&id.id) {
        Some(k) => k,
        None => return Ok(String::new()),
    };
    let item = &p.index[k];
    if let Some(l) = foreign_link(p, item) {
        return Ok(l);
    }
    let version = match &p.version {
        Some(v) => v,
        None => return Err(RenderError::MissingItem),
    };
    let si = match p.find_summary(&id.id) {
        Some(si) => si,
        None => return Ok(String::new()),
    };
    let name = match lookup_name(store, &id.pkg, &id.id) {
        Some(n) => n,
        None => return Ok(String::new()),
    };
    let summary = &p.paths[si];
    Ok(docs_rs_page(&id.pkg, version, &summary.path, summary.kind, &name))
}

impl CachedItem {
    /// The documentation link of this item, placed at its location: a method of the
    /// package links under its struct.
    pub fn external_link(&self, store: &Store) -> (r: Result<String, RenderError>)
        ensures
            same_text(r, cached_link(*store, self@)),
    {
        let pi = match store.find_package(&self.id.pkg) {
            Some(pi) => pi,
            None => return Ok(String::new()),
        };
        let p = &store.packages[pi];
        let k = match p.find_item(&self.id.id) {
            Some(k) => k,
            None => return Ok(String::new()),
        };
        let item = &p.index[k];
        if let Some(l) = foreign_link(p, item) {
            return Ok(l);
        }
        let version = match &p.version {
            Some(v) => v,
            None => return Err(RenderError::MissingItem),
        };
        Ok(docs_rs_page(&self.id.pkg, version, &self.path, self.kind, &self.name))
    }
}

/// Renders a type expression of package `pkg`; items it refers to are looked up through
/// `cache`.
pub fn render_type(store: &Store, cache: &mut ItemCache, pkg: &String, t: &TypeExpr) -> (r: Result<String, RenderError>)
    requires
        old(cache).wf(*store),
    ensures
        final(cache).wf(*store),
        grows(old(cache).entries(), final(cache).entries()),
        same_text(r, type_text(*store, pkg@, *t)),
    decreases t,
{
    match t {
        TypeExpr::Primitive(p) => {
            proof {
                lemma_grows_refl(cache.entries());
            }
            let mut r = String::from_str("<a href=\"https://doc.rust-lang.org/std/primitive.");
            r.append(p.as_str());
            r.append(".html\">");
            r.append(p.as_str());
            r.append("</a>");
            Ok(r)
        },
        TypeExpr::ResolvedPath(p) => render_path(store, cache, pkg, p),
        TypeExpr::DynTrait(d) => {
            let mut parts = match render_polys(store, cache, pkg, &d.traits) {
                Ok(parts) => parts,
                Err(e) => return Err(e),
            };
            let ghost before = parts@;
            match &d.lifetime {
                Some(l) => {
                    let l = l.clone();
                    proof {
                        lemma_views_push(parts@, l);
                    }
                    parts.push(l);
                },
                None => {},
            }
            assert(views(parts@) =~= views(before) + opt_text(d.lifetime));
            let mut r = String::from_str("dyn ");
            r.append(crate::text::join(&parts, " + ").as_str());
            Ok(r)
        },
        TypeExpr::Generic(g) => {
            proof {
                lemma_grows_refl(cache.entries());
            }
            Ok(g.clone())
        },
        TypeExpr::BorrowedRef { lifetime, mutable, type_ } => {
            let inner = match render_type(store, cache, pkg, type_) {
                Ok(x) => x,
                Err(e) => return Err(e),
            };
            let lt = match lifetime {
                Some(l) => {
                    let mut x = l.clone();
                    x.append(" ");
                    x
                },
                None => String::new(),
            };
            let m = if *mutable {
                String::from_str("mut ")
            } else {
                String::new()
            };
            let mut r = String::from_str("&");
            r.append(lt.as_str());
            r.append(m.as_str());
            r.append(inner.as_str());
            Ok(r)
        },
        TypeExpr::Tuple(v) => {
            let parts = match render_types(store, cache, pkg, v) {
                Ok(parts) => parts,
                Err(e) => return Err(e),
            };
            let mut r = String::from_str("(");
            r.append(crate::text::join(&parts, ", ").as_str());
            r.append(")");
            Ok(r)
        },
        TypeExpr::Slice(e) => {
            let inner = match render_type(store, cache, pkg, e) {
                Ok(x) => x,
                Err(err) => return Err(err),
            };
            let mut r = String::from_str("[");
            r.append(inner.as_str());
            r.append("]");
            Ok(r)
        },
        TypeExpr::Array { type_, len } => {
            let inner = match render_type(store, cache, pkg, type_) {
                Ok(x) => x,
                Err(e) => return Err(e),
            };
            let mut r = String::from_str("[");
            r.append(inner.as_str());
            r.append(": ");
            r.append(len.as_str());
            r.append("]");
            Ok(r)
        },
        TypeExpr::ImplTrait(bounds) => {
            let parts = match render_bounds(store, cache, pkg, bounds) {
                Ok(parts) => parts,
                Err(e) => return Err(e),
            };
            let mut r = String::from_str("impl ");
            r.append(crate::text::join(&parts, " + ").as_str());
            Ok(r)
        },
        TypeExpr::Unsupported => {
            proof {
                lemma_grows_refl(cache.entries());
            }
            Err(RenderError::Unsupported)
        },
    }
}

fn render_types(store: &Store, cache: &mut ItemCache, pkg: &String, v: &Vec<TypeExpr>) -> (r: Result<Vec<String>, RenderError>)
    requires
        old(cache).wf(*store),
    ensures
        final(cache).wf(*store),
        grows(old(cache).entries(), final(cache).entries()),
        same_texts(r, type_texts(*store, pkg@, v@)),
    decreases v,
{
    let ghost start = cache.entries();
    proof {
        lemma_grows_refl(start);
    }
    let n = v.len();
    let mut out: Vec<String> = Vec::new();
    let mut i: usize = 0;
    assert(v@.subrange(0, 0) =~= Seq::<TypeExpr>::empty());
    assert(views(out@) =~= Seq::<Seq<char>>::empty());
    while i < n
        invariant
            n == v@.len(),
            i <= n,
            cache.wf(*store),
            start == old(cache).entries(),
            grows(start, cache.entries()),
            type_texts(*store, pkg@, v@.subrange(0, i as int)) == Ok::<Seq<Seq<char>>, RenderError>(views(out@)),
        decreases n - i,
    {
        let ghost mid = cache.entries();
        assert(v@.subrange(0, i + 1).subrange(0, i as int) =~= v@.subrange(0, i as int));
        assert(v@.subrange(0, i + 1)[i as int] == v@[i as int]);
        match render_type(store, cache, pkg, &v[i]) {
            Ok(x) => {
                proof {
                    lemma_grows_trans(start, mid, cache.entries());
                    lemma_views_push(out@, x);
                }
                out.push(x);
            },
            Err(e) => {
                proof {
                    lemma_grows_trans(start, mid, cache.entries());
                    lemma_type_texts_err(*store, pkg@, v@, i + 1);
                }
                return Err(e);
            },
        }
        i = i + 1;
    }
    assert(v@.subrange(0, n as int) =~= v@);
    Ok(out)
}

fn render_polys(store: &Store, cache: &mut ItemCache, pkg: &String, v: &Vec<PolyTrait>) -> (r: Result<Vec<String>, RenderError>)
    requires
        old(cache).wf(*store),
    ensures
        final(cache).wf(*store),
        grows(old(cache).entries(), final(cache).entries()),
        same_texts(r, poly_texts(*store, pkg@, v@)),
    decreases v,
{
    let ghost start = cache.entries();
    proof {
        lemma_grows_refl(start);
    }
    let n = v.len();
    let mut out: Vec<String> = Vec::new();
    let mut i: usize = 0;
    assert(v@.subrange(0, 0) =~= Seq::<PolyTrait>::empty());
    assert(views(out@) =~= Seq::<Seq<char>>::empty());
    while i < n
        invariant
            n == v@.len(),
            i <= n,
            cache.wf(*store),
            start == old(cache).entries(),
            grows(start, cache.entries()),
            poly_texts(*store, pkg@, v@.subrange(0, i as int)) == Ok::<Seq<Seq<char>>, RenderError>(views(out@)),
        decreases n - i,
    {
        let ghost mid = cache.entries();
        assert(v@.subrange(0, i + 1).subrange(0, i as int) =~= v@.subrange(0, i as int));
        assert(v@.subrange(0, i + 1)[i as int] == v@[i as int]);
        let res = if v[i].generic_params > 0 {
            proof {
                lemma_grows_refl(mid);
            }
            Err(RenderError::Unsupported)
        } else {
            render_path(store, cache, pkg, &v[i].trait_)
        };
        assert(same_text(res, poly_text(*store, pkg@, v@[i as int])));
        match res {
            Ok(x) => {
                proof {
                    lemma_grows_trans(start, mid, cache.entries());
                    lemma_views_push(out@, x);
                }
                out.push(x);
            },
            Err(e) => {
                proof {
                    lemma_grows_trans(start, mid, cache.entries());
                    lemma_poly_texts_err(*store, pkg@, v@, i + 1);
                }
                return Err(e);
            },
        }
        i = i + 1;
    }
    assert(v@.subrange(0, n as int) =~= v@);
    Ok(out)
}

fn render_bound(store: &Store, cache: &mut ItemCache, pkg: &String, b: &GenericBound) -> (r: Result<String, RenderError>)
    requires
        old(cache).wf(*store),
    ensures
        final(cache).wf(*store),
        grows(old(cache).entries(), final(cache).entries()),
        same_text(r, bound_text(*store, pkg@, *b)),
    decreases b,
{
    proof {
        lemma_grows_refl(cache.entries());
    }
    match b {
        GenericBound::TraitBound { trait_, generic_params, modifier } => {
            if *generic_params > 0 {
                return Err(RenderError::Unsupported);
            }
            match modifier {
                TraitBoundModifier::MaybeConst => Err(RenderError::Unsupported),
                TraitBoundModifier::Plain => render_path(store, cache, pkg, trait_),
                TraitBoundModifier::Maybe => {
                    let x = match render_path(store, cache, pkg, trait_) {
                        Ok(x) => x,
                        Err(e) => return Err(e),
                    };
                    let mut r = String::from_str("?");
                    r.append(x.as_str());
                    Ok(r)
                },
            }
        },
        GenericBound::Outlives(l) => Ok(l.clone()),
    }
}

fn render_bounds(store: &Store, cache: &mut ItemCache, pkg: &String, v: &Vec<GenericBound>) -> (r: Result<Vec<String>, RenderError>)
    requires
        old(cache).wf(*store),
    ensures
        final(cache).wf(*store),
        grows(old(cache).entries(), final(cache).entries()),
        same_texts(r, bound_texts(*store, pkg@, v@)),
    decreases v,
{
    let ghost start = cache.entries();
    proof {
        lemma_grows_refl(start);
    }
    let n = v.len();
    let mut out: Vec<String> = Vec::new();
    let mut i: usize = 0;
    assert(v@.subrange(0, 0) =~= Seq::<GenericBound>::empty());
    assert(views(out@) =~= Seq::<Seq<char>>::empty());
    while i < n
        invariant
            n == v@.len(),
            i <= n,
            cache.wf(*store),
            start == old(cache).entries(),
            grows(start, cache.entries()),
            bound_texts(*store, pkg@, v@.subrange(0, i as int)) == Ok::<Seq<Seq<char>>, RenderError>(views(out@)),
        decreases n - i,
    {
        let ghost mid = cache.entries();
        assert(v@.subrange(0, i + 1).subrange(0, i as int) =~= v@.subrange(0, i as int));
        assert(v@.subrange(0, i + 1)[i as int] == v@[i as int]);
        match render_bound(store, cache, pkg, &v[i]) {
            Ok(x) => {
                proof {
                    lemma_grows_trans(start, mid, cache.entries());
                    lemma_views_push(out@, x);
                }
                out.push(x);
            },
            Err(e) => {
                proof {
                    lemma_grows_trans(start, mid, cache.entries());
                    lemma_bound_texts_err(*store, pkg@, v@, i + 1);
                }
                return Err(e);
            },
        }
        i = i + 1;
    }
    assert(v@.subrange(0, n as int) =~= v@);
    Ok(out)
}

/// Renders a reference to an item: its link, its name and its generic arguments.
pub fn render_path(store: &Store, cache: &mut ItemCache, pkg: &String, p: &PathRef) -> (r: Result<String, RenderError>)
    requires
        old(cache).wf(*store),
    ensures
        final(cache).wf(*store),
        grows(old(cache).entries(), final(cache).entries()),
        same_text(r, path_text(*store, pkg@, *p)),
        resolve_in(*store, old(cache).entries(), (pkg@, p.id@), None) is Some ==> cached_in(
            final(cache).entries(),
            (pkg@, p.id@),
        ) == resolve_in(*store, old(cache).entries(), (pkg@, p.id@), None),
    decreases p,
{
    let ghost start = cache.entries();
    let name = match cache.get(store, &ItemId::new(pkg.as_str(), p.id.as_str())) {
        Ok(c) => c.name,
        Err(_) => match lookup_name(store, pkg, &p.id) {
            Some(n) => n,
            None => p.name.clone(),
        },
    };
    proof {
        let after = cache.entries();
        if resolve_in(*store, start, (pkg@, p.id@), None) is Some {
            lemma_lookup_memoized(*store, start, (pkg@, p.id@), None, None);
        }
        if after.len() > start.len() {
            assert(after.subrange(0, start.len() as int) =~= start);
        } else {
            lemma_grows_refl(start);
        }
    }
    let ghost mid = cache.entries();
    let link = match external_link(store, &ItemId::new(pkg.as_str(), p.id.as_str())) {
        Ok(l) => l,
        Err(e) => return Err(e),
    };
    let args = match &p.args {
        Some(a) => match render_args(store, cache, pkg, a) {
            Ok(x) => x,
            Err(e) => {
                proof {
                    lemma_grows_trans(start, mid, cache.entries());
                    if resolve_in(*store, start, (pkg@, p.id@), None) is Some {
                        lemma_cached_kept(mid, cache.entries(), (pkg@, p.id@));
                    }
                }
                return Err(e);
            },
        },
        None => {
            proof {
                lemma_grows_refl(mid);
            }
            String::new()
        },
    };
    proof {
        lemma_grows_trans(start, mid, cache.entries());
        if resolve_in(*store, start, (pkg@, p.id@), None) is Some {
            lemma_cached_kept(mid, cache.entries(), (pkg@, p.id@));
        }
    }
    let mut r = String::from_str("<a href=\"");
    r.append(link.as_str());
    r.append("\">");
    r.append(name.as_str());
    r.append("</a>");
    r.append(args.as_str());
    Ok(r)
}

/// Renders generic arguments: nothing when there are none.
pub fn render_args(store: &Store, cache: &mut ItemCache, pkg: &String, a: &GenericArgs) -> (r: Result<String, RenderError>)
    requires
        old(cache).wf(*store),
    ensures
        final(cache).wf(*store),
        grows(old(cache).entries(), final(cache).entries()),
        same_text(r, args_text(*store, pkg@, *a)),
    decreases a,
{
    let ghost start = cache.entries();
    proof {
        lemma_grows_refl(start);
    }
    match a {
        GenericArgs::AngleBracketed { args, bindings } => {
            if args.len() == 0 && bindings.len() == 0 {
                return Ok(String::new());
            }
            let mut xs = match render_arg_list(store, cache, pkg, args) {
                Ok(xs) => xs,
                Err(e) => return Err(e),
            };
            let ghost mid = cache.entries();
            let mut ys = match render_bindings(store, cache, pkg, bindings) {
                Ok(ys) => ys,
                Err(e) => {
                    proof {
                        lemma_grows_trans(start, mid, cache.entries());
                    }
                    return Err(e);
                },
            };
            proof {
                lemma_grows_trans(start, mid, cache.entries());
            }
            let ghost xv = xs@;
            let ghost yv = ys@;
            xs.append(&mut ys);
            assert(views(xs@) =~= views(xv) + views(yv));
            let mut r = String::from_str("&lt;");
            r.append(crate::text::join(&xs, ", ").as_str());
            r.append("&gt;");
            Ok(r)
        },
        GenericArgs::Parenthesized => Err(RenderError::Unsupported),
    }
}

fn render_arg(store: &Store, cache: &mut ItemCache, pkg: &String, a: &GenericArg) -> (r: Result<String, RenderError>)
    requires
        old(cache).wf(*store),
    ensures
        final(cache).wf(*store),
        grows(old(cache).entries(), final(cache).entries()),
        same_text(r, arg_text(*store, pkg@, *a)),
    decreases a,
{
    proof {
        lemma_grows_refl(cache.entries());
    }
    match a {
        GenericArg::Lifetime(l) => Ok(l.clone()),
        GenericArg::Type(t) => render_type(store, cache, pkg, t),
        GenericArg::Const => Err(RenderError::Unsupported),
        GenericArg::Infer => Err(RenderError::Unsupported),
    }
}

fn render_arg_list(store: &Store, cache: &mut ItemCache, pkg: &String, v: &Vec<GenericArg>) -> (r: Result<Vec<String>, RenderError>)
    requires
        old(cache).wf(*store),
    ensures
        final(cache).wf(*store),
        grows(old(cache).entries(), final(cache).entries()),
        same_texts(r, arg_texts(*store, pkg@, v@)),
    decreases v,
{
    let ghost start = cache.entries();
    proof {
        lemma_grows_refl(start);
    }
    let n = v.len();
    let mut out: Vec<String> = Vec::new();
    let mut i: usize = 0;
    assert(v@.subrange(0, 0) =~= Seq::<GenericArg>::empty());
    assert(views(out@) =~= Seq::<Seq<char>>::empty());
    while i < n
        invariant
            n == v@.len(),
            i <= n,
            cache.wf(*store),
            start == old(cache).entries(),
            grows(start, cache.entries()),
            arg_texts(*store, pkg@, v@.subrange(0, i as int)) == Ok::<Seq<Seq<char>>, RenderError>(views(out@)),
        decreases n - i,
    {
        let ghost mid = cache.entries();
        assert(v@.subrange(0, i + 1).subrange(0, i as int) =~= v@.subrange(0, i as int));
        assert(v@.subrange(0, i + 1)[i as int] == v@[i as int]);
        match render_arg(store, cache, pkg, &v[i]) {
            Ok(x) => {
                proof {
                    lemma_grows_trans(start, mid, cache.entries());
                    lemma_views_push(out@, x);
                }
                out.push(x);
            },
            Err(e) => {
                proof {
                    lemma_grows_trans(start, mid, cache.entries());
                    lemma_arg_texts_err(*store, pkg@, v@, i + 1);
                }
                return Err(e);
            },
        }
        i = i + 1;
    }
    assert(v@.subrange(0, n as int) =~= v@);
    Ok(out)
}

fn render_binding(store: &Store, cache: &mut ItemCache, pkg: &String, b: &TypeBinding) -> (r: Result<String, RenderError>)
    requires
        old(cache).wf(*store),
    ensures
        final(cache).wf(*store),
        grows(old(cache).entries(), final(cache).entries()),
        same_text(r, binding_text(*store, pkg@, *b)),
    decreases b,
{
    let ghost start = cache.entries();
    let a = match render_args(store, cache, pkg, &b.args) {
        Ok(a) => a,
        Err(e) => return Err(e),
    };
    let ghost mid = cache.entries();
    match &b.binding {
        BindingKind::Equality(Term::Type(t)) => {
            let x = match render_type(store, cache, pkg, t) {
                Ok(x) => x,
                Err(e) => {
                    proof {
                        lemma_grows_trans(start, mid, cache.entries());
                    }
                    return Err(e);
                },
            };
            proof {
                lemma_grows_trans(start, mid, cache.entries());
            }
            let mut r = b.name.clone();
            r.append(a.as_str());
            r.append("=");
            r.append(x.as_str());
            Ok(r)
        },
        _ => Err(RenderError::Unsupported),
    }
}

fn render_bindings(store: &Store, cache: &mut ItemCache, pkg: &String, v: &Vec<TypeBinding>) -> (r: Result<Vec<String>, RenderError>)
    requires
        old(cache).wf(*store),
    ensures
        final(cache).wf(*store),
        grows(old(cache).entries(), final(cache).entries()),
        same_texts(r, binding_texts(*store, pkg@, v@)),
    decreases v,
{
    let ghost start = cache.entries();
    proof {
        lemma_grows_refl(start);
    }
    let n = v.len();
    let mut out: Vec<String> = Vec::new();
    let mut i: usize = 0;
    assert(v@.subrange(0, 0) =~= Seq::<TypeBinding>::empty());
    assert(views(out@) =~= Seq::<Seq<char>>::empty());
    while i < n
        invariant
            n == v@.len(),
            i <= n,
            cache.wf(*store),
            start == old(cache).entries(),
            grows(start, cache.entries()),
            binding_texts(*store, pkg@, v@.subrange(0, i as int)) == Ok::<Seq<Seq<char>>, RenderError>(views(out@)),
        decreases n - i,
    {
        let ghost mid = cache.entries();
        assert(v@.subrange(0, i + 1).subrange(0, i as int) =~= v@.subrange(0, i as int));
        assert(v@.subrange(0, i + 1)[i as int] == v@[i as int]);
        match render_binding(store, cache, pkg, &v[i]) {
            Ok(x) => {
                proof {
                    lemma_grows_trans(start, mid, cache.entries());
                    lemma_views_push(out@, x);
                }
                out.push(x);
            },
            Err(e) => {
                proof {
                    lemma_grows_trans(start, mid, cache.entries());
                    lemma_binding_texts_err(*store, pkg@, v@, i + 1);
                }
                return Err(e);
            },
        }
        i = i + 1;
    }
    assert(v@.subrange(0, n as int) =~= v@);
    Ok(out)
}

} // verus!
