use vstd::prelude::*;

verus! {

/// A type expression as the documentation graph records it.
pub enum TypeExpr {
    /// A built-in type such as `u8` or `str`.
    Primitive(String),
    /// A named type that refers to another item of the graph.
    ResolvedPath(PathRef),
    /// `dyn Trait + 'a`.
    DynTrait(DynTrait),
    /// A generic type parameter.
    Generic(String),
    /// `&'a mut T`.
    BorrowedRef { lifetime: Option<String>, mutable: bool, type_: Box<TypeExpr> },
    /// `(A, B, ..)`.
    Tuple(Vec<TypeExpr>),
    /// `[T]`.
    Slice(Box<TypeExpr>),
    /// `[T; N]`, with the length as the graph writes it.
    Array { type_: Box<TypeExpr>, len: String },
    /// `impl Bound + ..`.
    ImplTrait(Vec<GenericBound>),
    /// Function pointers, raw pointers, qualified paths, inferred types:
    /// forms the renderer does not support.
    Unsupported,
}

/// A reference to a named item, with the generic arguments written at the use site.
pub struct PathRef {
    /// The name as written at the use site.
    pub name: String,
    /// The identifier of the referenced item within the package being rendered.
    pub id: String,
    pub args: Option<Box<GenericArgs>>,
}

pub struct DynTrait {
    pub traits: Vec<PolyTrait>,
    pub lifetime: Option<String>,
}

/// A trait in a `dyn` type, with the number of higher-rank lifetimes it binds.
pub struct PolyTrait {
    pub trait_: PathRef,
    pub generic_params: usize,
}

pub enum GenericArgs {
    /// `<'a, T, Item = U>`.
    AngleBracketed { args: Vec<GenericArg>, bindings: Vec<TypeBinding> },
    /// `Fn(A) -> B`: not supported by the renderer.
    Parenthesized,
}

pub enum GenericArg {
    Lifetime(String),
    Type(TypeExpr),
    /// A constant argument: not supported by the renderer.
    Const,
    /// `_`: not supported by the renderer.
    Infer,
}

/// An associated-type binding such as `Item = T`.
pub struct TypeBinding {
    pub name: String,
    pub args: GenericArgs,
    pub binding: BindingKind,
}

pub enum BindingKind {
    /// `Name = term`.
    Equality(Term),
    /// `Name: Bounds`: not supported by the renderer.
    Constraint,
}

pub enum Term {
    Type(TypeExpr),
    /// A constant term: not supported by the renderer.
    Constant,
}

pub enum GenericBound {
    /// A trait bound with the number of higher-rank lifetimes it binds.
    TraitBound { trait_: PathRef, generic_params: usize, modifier: TraitBoundModifier },
    /// A lifetime bound such as `'a`.
    Outlives(String),
}

pub enum TraitBoundModifier {
    /// No modifier.
    Plain,
    /// `?Trait`.
    Maybe,
    /// `~const Trait`: not supported by the renderer.
    MaybeConst,
}

/// One parameter of a function signature.
pub struct Param {
    pub name: String,
    pub type_: TypeExpr,
}

/// A function's parameters and its return type; `None` for the unit type.
pub struct FnSig {
    pub inputs: Vec<Param>,
    pub output: Option<TypeExpr>,
}

} // verus!
