use rustdoc_extract::render::{external_link, render_type};
use rustdoc_extract::{
    caption, hide_code_block_lines, BindingKind, CachedItem, DynTrait, ExportOption,
    ExternalCrate, FnSig, GenericArg, GenericArgs, GenericBound, Item, ItemCache, ItemId,
    ItemInner, ItemKind, ItemPool, Package, Param, PathRef, PathSummary, PolyTrait,
    RenderError, SegmentCollections, Store, Term, TraitBoundModifier, TypeBinding, TypeExpr,
};

fn s(x: &str) -> String {
    x.to_string()
}

fn strings(xs: &[&str]) -> Vec<String> {
    xs.iter().map(|x| x.to_string()).collect()
}

fn item(id: &str, crate_id: u32, name: Option<&str>, docs: Option<&str>, inner: ItemInner) -> Item {
    Item { id: s(id), crate_id, name: name.map(s), docs: docs.map(s), inner }
}

fn summary(id: &str, crate_id: u32, path: &[&str], kind: ItemKind) -> PathSummary {
    PathSummary { id: s(id), crate_id, path: strings(path), kind }
}

fn path_to(name: &str, id: &str) -> PathRef {
    PathRef { name: s(name), id: s(id), args: None }
}

fn demo_store() -> Store {
    let new_sig = FnSig {
        inputs: vec![Param { name: s("x"), type_: TypeExpr::Primitive(s("u8")) }],
        output: Some(TypeExpr::ResolvedPath(path_to("Foo", "0:1"))),
    };
    let index = vec![
        item(
            "0:1",
            0,
            Some("Foo"),
            Some("A foo.\n\n```rust\n# setup();\nlet x = 1;\n```"),
            ItemInner::Struct { impls: strings(&["0:2", "0:5"]) },
        ),
        item("0:2", 0, None, None, ItemInner::Impl { trait_impl: false, items: strings(&["0:3"]) }),
        item("0:3", 0, Some("new"), Some("\n  Makes a foo.\nMore."), ItemInner::Function(new_sig)),
        item("0:5", 0, None, None, ItemInner::Impl { trait_impl: true, items: strings(&["0:6"]) }),
        item("0:6", 0, Some("fmt"), None, ItemInner::Function(FnSig { inputs: vec![], output: None })),
        item("0:7", 0, Some("Bare"), Some("Nothing here."), ItemInner::Struct { impls: vec![] }),
        item("0:8", 0, Some("run"), Some("Runs."), ItemInner::Function(FnSig { inputs: vec![], output: None })),
        item("1:10", 1, Some("Vec"), None, ItemInner::Other),
        item("2:11", 2, Some("Thing"), None, ItemInner::Other),
    ];
    let paths = vec![
        summary("0:1", 0, &["demo", "Foo"], ItemKind::Struct),
        summary("0:7", 0, &["demo", "Bare"], ItemKind::Struct),
        summary("0:8", 0, &["demo", "run"], ItemKind::Function),
        summary("1:9", 1, &["alloc", "string", "String"], ItemKind::Struct),
        summary("1:10", 1, &["alloc", "vec", "Vec"], ItemKind::Struct),
    ];
    let external_crates = vec![
        ExternalCrate { crate_id: 1, html_root_url: Some(s("https://doc.rust-lang.org/nightly/")) },
        ExternalCrate { crate_id: 2, html_root_url: None },
    ];
    Store {
        packages: vec![Package {
            name: s("demo"),
            version: Some(s("1.0.0")),
            index,
            paths,
            external_crates,
        }],
    }
}

fn cached(path: &[&str], name: &str) -> CachedItem {
    CachedItem { id: ItemId::new("demo", name), name: s(name), path: strings(path), kind: ItemKind::Function }
}

fn render(t: &TypeExpr) -> Result<String, RenderError> {
    let store = demo_store();
    let mut cache = ItemCache::new();
    render_type(&store, &mut cache, &s("demo"), t)
}

const FN_HEAD: &str = "<dl>\n    <dt class=\"sig\">\n    <span class=\"sig-name\">\n        <span class=\"pre\">";

#[test]
fn relative_path_climbs_out_of_the_unshared_directories() {
    let a = cached(&["pkg", "mod_a", "sub", "A"], "A");
    let b = cached(&["pkg", "mod_b", "B"], "B");
    assert_eq!(a.relative_to(&b), strings(&["..", "..", "mod_b"]));
    assert_eq!(a.cross_ref(&b), "../../mod_b/B.md");
    assert_eq!(b.relative_to(&a), strings(&["..", "mod_a", "sub"]));
}

#[test]
fn relative_path_compares_only_the_shared_prefix() {
    let a = cached(&["p", "x", "c", "A"], "A");
    let b = cached(&["p", "y", "c", "B"], "B");
    assert_eq!(a.relative_to(&b), strings(&["..", "..", "y", "c"]));
}

#[test]
fn self_reference_is_the_file_name_alone() {
    let a = cached(&["pkg", "mod_a", "A"], "A");
    assert!(a.relative_to(&a).is_empty());
    assert_eq!(a.cross_ref(&a), "A.md");
    assert_eq!(a.cross_ref_md(&a), "[A](A.md)");
}

#[test]
fn code_block_filtering_hides_setup_lines() {
    let docs = "```rust\n# setup();\n#[derive(Debug)]\nvisible();\n```";
    assert_eq!(hide_code_block_lines(docs), "```rust\n#[derive(Debug)]\nvisible();\n```");
}

#[test]
fn unlabelled_blocks_are_rust_and_other_languages_pass_unchanged() {
    let docs = "Intro\n```\n# hidden\n\nshown\n```\n```text\n# kept\n```\n# Heading";
    assert_eq!(
        hide_code_block_lines(docs),
        "Intro\n```rust\n\nshown\n```\n```text\n# kept\n```\n# Heading"
    );
    assert_eq!(hide_code_block_lines("```rust ignore\n# a\nb\n```\n"), "```rust\nb\n```");
    assert_eq!(hide_code_block_lines(""), "");
    assert_eq!(hide_code_block_lines("a\r\nb\r\n"), "a\nb");
}

#[test]
fn caption_is_the_first_line_that_is_not_blank() {
    let with = item("x", 0, Some("x"), Some("\n  \n  First line\nsecond"), ItemInner::Other);
    assert_eq!(caption(&with), "  First line");
    let without = item("y", 0, Some("y"), None, ItemInner::Other);
    assert_eq!(caption(&without), "");
    let blank = item("z", 0, Some("z"), Some(" \n\t\n"), ItemInner::Other);
    assert_eq!(caption(&blank), "");
}

#[test]
fn primitive_and_generic_types() {
    assert_eq!(
        render(&TypeExpr::Primitive(s("u8"))).unwrap(),
        "<a href=\"https://doc.rust-lang.org/std/primitive.u8.html\">u8</a>"
    );
    assert_eq!(render(&TypeExpr::Generic(s("T"))).unwrap(), "T");
}

#[test]
fn references_tuples_slices_and_arrays() {
    let t = || Box::new(TypeExpr::Generic(s("T")));
    let r = TypeExpr::BorrowedRef { lifetime: Some(s("'a")), mutable: true, type_: t() };
    assert_eq!(render(&r).unwrap(), "&'a mut T");
    let r = TypeExpr::BorrowedRef { lifetime: None, mutable: false, type_: t() };
    assert_eq!(render(&r).unwrap(), "&T");
    let tuple = TypeExpr::Tuple(vec![TypeExpr::Generic(s("A")), TypeExpr::Generic(s("B"))]);
    assert_eq!(render(&tuple).unwrap(), "(A, B)");
    assert_eq!(render(&TypeExpr::Tuple(vec![])).unwrap(), "()");
    assert_eq!(render(&TypeExpr::Slice(t())).unwrap(), "[T]");
    assert_eq!(render(&TypeExpr::Array { type_: t(), len: s("4") }).unwrap(), "[T: 4]");
}

#[test]
fn impl_and_dyn_traits() {
    let bounds = vec![
        GenericBound::TraitBound {
            trait_: path_to("Sized", "2:11"),
            generic_params: 0,
            modifier: TraitBoundModifier::Maybe,
        },
        GenericBound::Outlives(s("'a")),
    ];
    assert_eq!(render(&TypeExpr::ImplTrait(bounds)).unwrap(), "impl ?<a href=\"\">Thing</a> + 'a");
    let d = DynTrait {
        traits: vec![PolyTrait { trait_: path_to("Vec", "1:10"), generic_params: 0 }],
        lifetime: Some(s("'static")),
    };
    assert_eq!(
        render(&TypeExpr::DynTrait(d)).unwrap(),
        "dyn <a href=\"https://doc.rust-lang.org/nightly/\">Vec</a> + 'static"
    );
}

#[test]
fn path_without_generic_arguments_has_no_angle_brackets() {
    let bare = TypeExpr::ResolvedPath(path_to("Foo", "0:1"));
    let expected = "<a href=\"https://docs.rs/demo/1.0.0/demo/struct.Foo.html\">Foo</a>";
    assert_eq!(render(&bare).unwrap(), expected);
    let empty = TypeExpr::ResolvedPath(PathRef {
        name: s("Foo"),
        id: s("0:1"),
        args: Some(Box::new(GenericArgs::AngleBracketed { args: vec![], bindings: vec![] })),
    });
    assert_eq!(render(&empty).unwrap(), expected);
}

#[test]
fn generic_arguments_and_bindings() {
    let args = GenericArgs::AngleBracketed {
        args: vec![GenericArg::Lifetime(s("'a")), GenericArg::Type(TypeExpr::Generic(s("T")))],
        bindings: vec![TypeBinding {
            name: s("Item"),
            args: GenericArgs::AngleBracketed { args: vec![], bindings: vec![] },
            binding: BindingKind::Equality(Term::Type(TypeExpr::Generic(s("U")))),
        }],
    };
    let t = TypeExpr::ResolvedPath(PathRef { name: s("String"), id: s("1:9"), args: Some(Box::new(args)) });
    assert_eq!(render(&t).unwrap(), "<a href=\"\">String</a>&lt;'a, T, Item=U&gt;");
}

#[test]
fn unknown_item_links_are_empty_and_named_as_written() {
    let t = TypeExpr::ResolvedPath(path_to("Gone", "9:99"));
    assert_eq!(render(&t).unwrap(), "<a href=\"\">Gone</a>");
}

#[test]
fn unsupported_forms_fail() {
    assert_eq!(render(&TypeExpr::Unsupported), Err(RenderError::Unsupported));
    let inside = TypeExpr::Tuple(vec![TypeExpr::Generic(s("A")), TypeExpr::Unsupported]);
    assert_eq!(render(&inside), Err(RenderError::Unsupported));
    let paren = TypeExpr::ResolvedPath(PathRef {
        name: s("Fn"),
        id: s("2:11"),
        args: Some(Box::new(GenericArgs::Parenthesized)),
    });
    assert_eq!(render(&paren), Err(RenderError::Unsupported));
    let konst = GenericArgs::AngleBracketed { args: vec![GenericArg::Const], bindings: vec![] };
    let t = TypeExpr::ResolvedPath(PathRef { name: s("A"), id: s("2:11"), args: Some(Box::new(konst)) });
    assert_eq!(render(&t), Err(RenderError::Unsupported));
    let constraint = GenericArgs::AngleBracketed {
        args: vec![],
        bindings: vec![TypeBinding {
            name: s("Item"),
            args: GenericArgs::AngleBracketed { args: vec![], bindings: vec![] },
            binding: BindingKind::Constraint,
        }],
    };
    let t = TypeExpr::ResolvedPath(PathRef { name: s("A"), id: s("2:11"), args: Some(Box::new(constraint)) });
    assert_eq!(render(&t), Err(RenderError::Unsupported));
    let hrtb = DynTrait { traits: vec![PolyTrait { trait_: path_to("Fn", "2:11"), generic_params: 1 }], lifetime: None };
    assert_eq!(render(&TypeExpr::DynTrait(hrtb)), Err(RenderError::Unsupported));
    let maybe_const = GenericBound::TraitBound {
        trait_: path_to("A", "2:11"),
        generic_params: 0,
        modifier: TraitBoundModifier::MaybeConst,
    };
    assert_eq!(render(&TypeExpr::ImplTrait(vec![maybe_const])), Err(RenderError::Unsupported));
}

#[test]
fn external_links() {
    let store = demo_store();
    assert_eq!(
        external_link(&store, &ItemId::new("demo", "0:1")).unwrap(),
        "https://docs.rs/demo/1.0.0/demo/struct.Foo.html"
    );
    assert_eq!(external_link(&store, &ItemId::new("demo", "1:10")).unwrap(), "https://doc.rust-lang.org/nightly/");
    assert_eq!(external_link(&store, &ItemId::new("demo", "2:11")).unwrap(), "");
    assert_eq!(external_link(&store, &ItemId::new("demo", "1:9")).unwrap(), "");
    assert_eq!(external_link(&store, &ItemId::new("demo", "0:3")).unwrap(), "");
    let mut unversioned = demo_store();
    unversioned.packages[0].version = None;
    assert_eq!(external_link(&unversioned, &ItemId::new("demo", "0:1")), Err(RenderError::MissingItem));
}

#[test]
fn cache_lookups_return_the_same_item() {
    let mut pool = ItemPool::new(demo_store());
    let first = pool.get(&ItemId::new("demo", "0:1")).unwrap();
    let second = pool.get(&ItemId::new("demo", "0:1")).unwrap();
    assert_eq!(first.name(), "Foo");
    assert_eq!(first.name(), second.name());
    assert_eq!(first.path(), second.path());
    assert_eq!(first.path(), &strings(&["demo", "Foo"]));
    assert_eq!(first.kind(), ItemKind::Struct);
    assert_eq!(second.kind(), ItemKind::Struct);
    let std_string = pool.get(&ItemId::new("demo", "1:9")).unwrap();
    assert_eq!(std_string.name(), "String");
}

#[test]
fn lookups_of_items_without_a_location_fail() {
    let mut pool = ItemPool::new(demo_store());
    assert_eq!(pool.get(&ItemId::new("demo", "0:3")).err(), Some(RenderError::MissingItem));
    assert_eq!(pool.get(&ItemId::new("demo", "nope")).err(), Some(RenderError::MissingItem));
    assert_eq!(pool.get(&ItemId::new("other", "0:1")).err(), Some(RenderError::MissingItem));
}

#[test]
fn associated_methods_skip_trait_impls() {
    let mut pool = ItemPool::new(demo_store());
    let foo = pool.get(&ItemId::new("demo", "0:1")).unwrap();
    let methods = foo.associated_methods(&pool.store, &mut pool.cache).unwrap();
    assert_eq!(methods.len(), 1);
    assert_eq!(methods[0].name(), "new");
    assert_eq!(methods[0].path(), &strings(&["demo", "Foo", "new"]));
    assert_eq!(methods[0].kind(), ItemKind::Function);
    let again = pool.get(&ItemId::new("demo", "0:3")).unwrap();
    assert_eq!(again.path(), &strings(&["demo", "Foo", "new"]));
    let run = pool.get(&ItemId::new("demo", "0:8")).unwrap();
    assert!(run.associated_methods(&pool.store, &mut pool.cache).unwrap().is_empty());
}

#[test]
fn function_page() {
    let mut pool = ItemPool::new(demo_store());
    let run = pool.get(&ItemId::new("demo", "0:8")).unwrap();
    let page = run.repr(&pool.store, &mut pool.cache).unwrap();
    let expected = format!(
        "# run\n\n{}run</span>\n    </span>\n    <span class=\"sig-paren\">(</span>\n\n<span class=\"sig-paren\">)</span>\n\n    </dt>\n</dl>\n\nRuns.\n",
        FN_HEAD
    );
    assert_eq!(page, expected);
}

#[test]
fn method_page_with_parameters_and_return_type() {
    let mut pool = ItemPool::new(demo_store());
    let foo = pool.get(&ItemId::new("demo", "0:1")).unwrap();
    let methods = foo.associated_methods(&pool.store, &mut pool.cache).unwrap();
    let page = methods[0].repr(&pool.store, &mut pool.cache).unwrap();
    let expected = format!(
        "# new\n\n{}new</span>\n    </span>\n    <span class=\"sig-paren\">(</span>\n<em class=\"sig-param n\">\n    <span class=\"pre\">x</span>: <span class=\"pre\"><a href=\"https://doc.rust-lang.org/std/primitive.u8.html\">u8</a></span>\n</em>\n<span class=\"sig-paren\">)</span>\n → <a href=\"https://docs.rs/demo/1.0.0/demo/struct.Foo.html\">Foo</a>\n    </dt>\n</dl>\n\n\n  Makes a foo.\nMore.\n",
        FN_HEAD
    );
    assert_eq!(page, expected);
}

#[test]
fn struct_page_lists_its_methods() {
    let mut pool = ItemPool::new(demo_store());
    let foo = pool.get(&ItemId::new("demo", "0:1")).unwrap();
    let page = foo.repr(&pool.store, &mut pool.cache).unwrap();
    assert_eq!(
        page,
        "# Foo\n\nA foo.\n\n```rust\nlet x = 1;\n```\n\n# Methods\n| Method | Description |\n| --- | --- |\n| [new](Foo/new.md) |   Makes a foo. |"
    );
}

#[test]
fn struct_without_methods_has_no_methods_section() {
    let mut pool = ItemPool::new(demo_store());
    let bare = pool.get(&ItemId::new("demo", "0:7")).unwrap();
    let page = bare.repr(&pool.store, &mut pool.cache).unwrap();
    assert_eq!(page, "# Bare\n\nNothing here.");
    assert!(!page.contains("Methods"));
}

#[test]
fn rendering_twice_gives_the_same_page() {
    let mut pool = ItemPool::new(demo_store());
    let foo = pool.get(&ItemId::new("demo", "0:1")).unwrap();
    let first = foo.repr(&pool.store, &mut pool.cache).unwrap();
    let second = foo.repr(&pool.store, &mut pool.cache).unwrap();
    assert_eq!(first, second);
    let run = pool.get(&ItemId::new("demo", "0:8")).unwrap();
    assert_eq!(run.repr(&pool.store, &mut pool.cache), run.repr(&pool.store, &mut pool.cache));
}

#[test]
fn other_kinds_have_no_page() {
    let mut pool = ItemPool::new(demo_store());
    let string = pool.get(&ItemId::new("demo", "1:9")).unwrap();
    let mut as_module = string.duplicate();
    as_module.kind = ItemKind::Module;
    assert_eq!(as_module.repr(&pool.store, &mut pool.cache), Err(RenderError::Unsupported));
}

#[test]
fn item_and_docs_getters() {
    let mut pool = ItemPool::new(demo_store());
    let foo = pool.get(&ItemId::new("demo", "0:1")).unwrap();
    assert_eq!(foo.item(&pool.store).unwrap().name, Some(s("Foo")));
    assert_eq!(foo.item_summary(&pool.store).unwrap().path, strings(&["demo", "Foo"]));
    assert_eq!(foo.docs(&pool.store), "A foo.\n\n```rust\nlet x = 1;\n```");
    let string = pool.get(&ItemId::new("demo", "1:9")).unwrap();
    assert!(string.item(&pool.store).is_none());
    assert_eq!(string.docs(&pool.store), "");
    assert_eq!(foo.external_link(&pool.store).unwrap(), "https://docs.rs/demo/1.0.0/demo/struct.Foo.html");
}

#[test]
fn extraction_selects_by_kind_and_module_prefix() {
    let options = vec![ExportOption { package: s("demo"), module_prefix: None, kind: ItemKind::Struct }];
    let mut c = SegmentCollections::from_options(demo_store(), &options).unwrap();
    let names: Vec<&str> = c.items.iter().map(|i| i.name()).collect();
    assert_eq!(names, vec!["new", "Foo", "Bare", "Vec"]);
    let pages = c.extract().unwrap();
    assert_eq!(pages.len(), 4);
    assert_eq!(pages[0].dir, strings(&["demo", "Foo"]));
    assert_eq!(pages[0].file_name, "new.md");
    assert_eq!(pages[1].dir, strings(&["demo"]));
    assert_eq!(pages[1].file_name, "Foo.md");
    assert_eq!(pages[2].content, "# Bare\n\nNothing here.");
    assert_eq!(pages[3].dir, strings(&["alloc", "vec"]));
    assert_eq!(pages[3].content, "# Vec\n\n");

    let none = vec![ExportOption {
        package: s("demo"),
        module_prefix: Some(strings(&["demo", "inner"])),
        kind: ItemKind::Struct,
    }];
    let c = SegmentCollections::from_options(demo_store(), &none).unwrap();
    assert!(c.items.is_empty());

    let funcs = vec![ExportOption {
        package: s("demo"),
        module_prefix: Some(strings(&["demo"])),
        kind: ItemKind::Function,
    }];
    let mut c = SegmentCollections::from_options(demo_store(), &funcs).unwrap();
    let pages = c.extract().unwrap();
    assert_eq!(pages.len(), 1);
    assert_eq!(pages[0].file_name, "run.md");
}

#[test]
fn extraction_of_an_unknown_package_fails() {
    let options = vec![ExportOption { package: s("missing"), module_prefix: None, kind: ItemKind::Struct }];
    assert!(matches!(SegmentCollections::from_options(demo_store(), &options), Err(RenderError::MissingItem)));
}

#[test]
fn kind_tags() {
    assert_eq!(ItemKind::Struct.tag(), "struct");
    assert_eq!(ItemKind::TypeAlias.tag(), "type_alias");
    assert_eq!(ItemKind::ProcDerive.tag(), "proc_derive");
}

#[test]
fn explicit_unit_return_type_has_no_arrow() {
    let mut store = demo_store();
    let unit = FnSig { inputs: vec![], output: Some(TypeExpr::Tuple(vec![])) };
    store.packages[0].index[6].inner = ItemInner::Function(unit);
    let mut pool = ItemPool::new(store);
    let run = pool.get(&ItemId::new("demo", "0:8")).unwrap();
    let page = run.repr(&pool.store, &mut pool.cache).unwrap();
    assert!(!page.contains(" → "));
    assert!(page.contains("<span class=\"sig-paren\">)</span>\n\n    </dt>"));
}

#[test]
fn unsupported_parameter_type_fails_the_page() {
    let mut store = demo_store();
    let sig = FnSig { inputs: vec![Param { name: s("f"), type_: TypeExpr::Unsupported }], output: None };
    store.packages[0].index[6].inner = ItemInner::Function(sig);
    let mut pool = ItemPool::new(store);
    let run = pool.get(&ItemId::new("demo", "0:8")).unwrap();
    assert_eq!(run.repr(&pool.store, &mut pool.cache), Err(RenderError::Unsupported));
}

#[test]
fn a_struct_listed_among_methods_is_collected() {
    let mut store = demo_store();
    store.packages[0].index.push(item("0:20", 0, None, None, ItemInner::Impl { trait_impl: false, items: strings(&["0:7"]) }));
    store.packages[0].index[0].inner = ItemInner::Struct { impls: strings(&["0:2", "0:20"]) };
    let options = vec![ExportOption { package: s("demo"), module_prefix: None, kind: ItemKind::Struct }];
    let mut c = SegmentCollections::from_options(store, &options).unwrap();
    let names: Vec<&str> = c.items.iter().map(|i| i.name()).collect();
    assert_eq!(names, vec!["new", "Bare", "Foo", "Bare", "Vec"]);
    assert_eq!(c.extract().unwrap().len(), 5);
}

#[test]
fn a_method_links_under_its_struct() {
    let mut pool = ItemPool::new(demo_store());
    let foo = pool.get(&ItemId::new("demo", "0:1")).unwrap();
    let methods = foo.associated_methods(&pool.store, &mut pool.cache).unwrap();
    assert_eq!(
        methods[0].external_link(&pool.store).unwrap(),
        "https://docs.rs/demo/1.0.0/demo/Foo/function.new.html"
    );
}

#[test]
fn caption_drops_the_carriage_return() {
    let crlf = item("c", 0, Some("c"), Some("A\r\nB"), ItemInner::Other);
    assert_eq!(caption(&crlf), "A");
    let lone = item("d", 0, Some("d"), Some("\r\n  \r\nText\r"), ItemInner::Other);
    assert_eq!(caption(&lone), "Text\r");
}
