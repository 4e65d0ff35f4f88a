use vstd::prelude::*;

use crate::types::FnSig;

verus! {

/// The kinds of item that a documentation graph records.
#[derive(Clone, Copy, Debug, PartialEq, Eq, Structural)]
pub enum ItemKind {
    Module,
    ExternCrate,
    Import,
    Struct,
    StructField,
    Union,
    Enum,
    Variant,
    Function,
    TypeAlias,
    OpaqueTy,
    Constant,
    Trait,
    TraitAlias,
    Impl,
    Static,
    ForeignType,
    Macro,
    ProcAttribute,
    ProcDerive,
    AssocConst,
    AssocType,
    Primitive,
    Keyword,
}

/// The tag of a kind: its name in snake case, as docs.rs writes it in page names.
pub open spec fn kind_tag(k: ItemKind) -> Seq<char> {
    match k {
        ItemKind::Module => "module"@,
        ItemKind::ExternCrate => "extern_crate"@,
        ItemKind::Import => "import"@,
        ItemKind::Struct => "struct"@,
        ItemKind::StructField => "struct_field"@,
        ItemKind::Union => "union"@,
        ItemKind::Enum => "enum"@,
        ItemKind::Variant => "variant"@,
        ItemKind::Function => "function"@,
        ItemKind::TypeAlias => "type_alias"@,
        ItemKind::OpaqueTy => "opaque_ty"@,
        ItemKind::Constant => "constant"@,
        ItemKind::Trait => "trait"@,
        ItemKind::TraitAlias => "trait_alias"@,
        ItemKind::Impl => "impl"@,
        ItemKind::Static => "static"@,
        ItemKind::ForeignType => "foreign_type"@,
        ItemKind::Macro => "macro"@,
        ItemKind::ProcAttribute => "proc_attribute"@,
        ItemKind::ProcDerive => "proc_derive"@,
        ItemKind::AssocConst => "assoc_const"@,
        ItemKind::AssocType => "assoc_type"@,
        ItemKind::Primitive => "primitive"@,
        ItemKind::Keyword => "keyword"@,
    }
}

impl ItemKind {
    pub fn tag(&self) -> (r: &'static str)
        ensures
            r@ == kind_tag(*self),
    {
        match self {
            ItemKind::Module => "module",
            ItemKind::ExternCrate => "extern_crate",
            ItemKind::Import => "import",
            ItemKind::Struct => "struct",
            ItemKind::StructField => "struct_field",
            ItemKind::Union => "union",
            ItemKind::Enum => "enum",
            ItemKind::Variant => "variant",
            ItemKind::Function => "function",
            ItemKind::TypeAlias => "type_alias",
            ItemKind::OpaqueTy => "opaque_ty",
            ItemKind::Constant => "constant",
            ItemKind::Trait => "trait",
            ItemKind::TraitAlias => "trait_alias",
            ItemKind::Impl => "impl",
            ItemKind::Static => "static",
            ItemKind::ForeignType => "foreign_type",
            ItemKind::Macro => "macro",
            ItemKind::ProcAttribute => "proc_attribute",
            ItemKind::ProcDerive => "proc_derive",
            ItemKind::AssocConst => "assoc_const",
            ItemKind::AssocType => "assoc_type",
            ItemKind::Primitive => "primitive",
            ItemKind::Keyword => "keyword",
        }
    }
}

/// Why an item could not be rendered.
#[derive(Clone, Copy, Debug, PartialEq, Eq, Structural)]
pub enum RenderError {
    /// A kind of item, type form, generic argument or bound modifier outside the supported set.
    Unsupported,
    /// An item that the graph does not hold, or holds without the name, path or version
    /// that rendering needs.
    MissingItem,
}

/// What an item is, as far as rendering needs to know.
pub enum ItemInner {
    Function(FnSig),
    /// A struct and the identifiers of its `impl` blocks.
    Struct { impls: Vec<String> },
    /// An `impl` block: whether it implements a trait, and the identifiers of its items.
    Impl { trait_impl: bool, items: Vec<String> },
    /// Any other kind of item.
    Other,
}

/// An item with its full definition.
pub struct Item {
    pub id: String,
    /// 0 for the package itself; else the key of an entry of `external_crates`.
    pub crate_id: u32,
    pub name: Option<String>,
    pub docs: Option<String>,
    pub inner: ItemInner,
}

/// The public path under which an item is reachable, with its kind.
pub struct PathSummary {
    pub id: String,
    pub crate_id: u32,
    pub path: Vec<String>,
    pub kind: ItemKind,
}

/// A crate that the package refers to, and where its documentation lives.
pub struct ExternalCrate {
    pub crate_id: u32,
    pub html_root_url: Option<String>,
}

/// The documentation graph of one package.
pub struct Package {
    pub name: String,
    pub version: Option<String>,
    pub index: Vec<Item>,
    pub paths: Vec<PathSummary>,
    pub external_crates: Vec<ExternalCrate>,
}

/// The graphs of every loaded package.
pub struct Store {
    pub packages: Vec<Package>,
}

/// `i` is the first position that holds `key`.
pub open spec fn is_first<K>(keys: Seq<K>, key: K, i: int) -> bool {
    &&& 0 <= i < keys.len()
    &&& keys[i] == key
    &&& forall|j: int| 0 <= j < i ==> keys[j] != key
}

/// The first position that holds `key`, if any does.
pub open spec fn first_index<K>(keys: Seq<K>, key: K) -> Option<int> {
    if exists|i: int| is_first(keys, key, i) {
        Some(choose|i: int| is_first(keys, key, i))
    } else {
        None
    }
}

pub proof fn lemma_first_index_found<K>(keys: Seq<K>, key: K, i: int)
    requires
        is_first(keys, key, i),
    ensures
        first_index(keys, key) == Some(i),
{
    let k = choose|k: int| is_first(keys, key, k);
    if k < i {
        assert(keys[k] != key);
    } else if i < k {
        assert(keys[i] != key);
    }
}

pub proof fn lemma_first_index_absent<K>(keys: Seq<K>, key: K)
    requires
        forall|j: int| 0 <= j < keys.len() ==> keys[j] != key,
    ensures
        first_index(keys, key) is None,
{
}

/// A key that occurs has a first occurrence.
pub proof fn lemma_first_index_present<K>(keys: Seq<K>, key: K, j: int)
    requires
        0 <= j < keys.len(),
        keys[j] == key,
    ensures
        first_index(keys, key) is Some,
    decreases j,
{
    if exists|k: int| 0 <= k < j && keys[k] == key {
        let k = choose|k: int| 0 <= k < j && keys[k] == key;
        lemma_first_index_present(keys, key, k);
    } else {
        assert(is_first(keys, key, j));
    }
}

impl Package {
    pub open spec fn item_ids(&self) -> Seq<Seq<char>> {
        self.index@.map_values(|it: Item| it.id@)
    }

    pub open spec fn summary_ids(&self) -> Seq<Seq<char>> {
        self.paths@.map_values(|s: PathSummary| s.id@)
    }

    pub open spec fn crate_ids(&self) -> Seq<u32> {
        self.external_crates@.map_values(|c: ExternalCrate| c.crate_id)
    }

    /// The item stored under `id`: the first entry of the index with that identifier.
    pub open spec fn spec_item(&self, id: Seq<char>) -> Option<Item> {
        match first_index(self.item_ids(), id) {
            Some(i) => Some(self.index@[i]),
            None => None,
        }
    }

    /// The path entry of `id`: the first one with that identifier.
    pub open spec fn spec_summary(&self, id: Seq<char>) -> Option<PathSummary> {
        match first_index(self.summary_ids(), id) {
            Some(i) => Some(self.paths@[i]),
            None => None,
        }
    }

    /// The external crate recorded under `crate_id`.
    pub open spec fn spec_external_crate(&self, crate_id: u32) -> Option<ExternalCrate> {
        match first_index(self.crate_ids(), crate_id) {
            Some(i) => Some(self.external_crates@[i]),
            None => None,
        }
    }

    /// Position in the index of the item stored under `id`.
    pub fn find_item(&self, id: &String) -> (r: Option<usize>)
        ensures
            match r {
                Some(i) => first_index(self.item_ids(), id@) == Some(i as int),
                None => first_index(self.item_ids(), id@) is None,
            },
    {
        let n = self.index.len();
        let mut i: usize = 0;
        while i < n
            invariant
                n == self.index@.len(),
                i <= n,
                forall|j: int| 0 <= j < i ==> self.item_ids()[j] != id@,
            decreases n - i,
        {
            if self.index[i].id == *id {
                proof {
                    lemma_first_index_found(self.item_ids(), id@, i as int);
                }
                return Some(i);
            }
            i = i + 1;
        }
        proof {
            lemma_first_index_absent(self.item_ids(), id@);
        }
        None
    }

    /// Position in the path entries of the entry for `id`.
    pub fn find_summary(&self, id: &String) -> (r: Option<usize>)
        ensures
            match r {
                Some(i) => first_index(self.summary_ids(), id@) == Some(i as int),
                None => first_index(self.summary_ids(), id@) is None,
            },
    {
        let n = self.paths.len();
        let mut i: usize = 0;
        while i < n
            invariant
                n == self.paths@.len(),
                i <= n,
                forall|j: int| 0 <= j < i ==> self.summary_ids()[j] != id@,
            decreases n - i,
        {
            if self.paths[i].id == *id {
                proof {
                    lemma_first_index_found(self.summary_ids(), id@, i as int);
                }
                return Some(i);
            }
            i = i + 1;
        }
        proof {
            lemma_first_index_absent(self.summary_ids(), id@);
        }
        None
    }

    /// Position of the external crate recorded under `crate_id`.
    pub fn find_external_crate(&self, crate_id: u32) -> (r: Option<usize>)
        ensures
            match r {
                Some(i) => first_index(self.crate_ids(), crate_id) == Some(i as int),
                None => first_index(self.crate_ids(), crate_id) is None,
            },
    {
        let n = self.external_crates.len();
        let mut i: usize = 0;
        while i < n
            invariant
                n == self.external_crates@.len(),
                i <= n,
                forall|j: int| 0 <= j < i ==> self.crate_ids()[j] != crate_id,
            decreases n - i,
        {
            if self.external_crates[i].crate_id == crate_id {
                proof {
                    lemma_first_index_found(self.crate_ids(), crate_id, i as int);
                }
                return Some(i);
            }
            i = i + 1;
        }
        proof {
            lemma_first_index_absent(self.crate_ids(), crate_id);
        }
        None
    }
}

impl Store {
    pub open spec fn package_names(&self) -> Seq<Seq<char>> {
        self.packages@.map_values(|p: Package| p.name@)
    }

    /// The package loaded under `name`.
    pub open spec fn spec_package(&self, name: Seq<char>) -> Option<Package> {
        match first_index(self.package_names(), name) {
            Some(i) => Some(self.packages@[i]),
            None => None,
        }
    }

    /// Position of the package loaded under `name`.
    pub fn find_package(&self, name: &String) -> (r: Option<usize>)
        ensures
            match r {
                Some(i) => first_index(self.package_names(), name@) == Some(i as int),
                None => first_index(self.package_names(), name@) is None,
            },
    {
        let n = self.packages.len();
        let mut i: usize = 0;
        while i < n
            invariant
                n == self.packages@.len(),
                i <= n,
                forall|j: int| 0 <= j < i ==> self.package_names()[j] != name@,
            decreases n - i,
        {
            if self.packages[i].name == *name {
                proof {
                    lemma_first_index_found(self.package_names(), name@, i as int);
                }
                return Some(i);
            }
            i = i + 1;
        }
        proof {
            lemma_first_index_absent(self.package_names(), name@);
        }
        None
    }
}

} // verus!
