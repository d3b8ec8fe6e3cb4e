use script_host::completion::{collect_module_entries, completion_index, insert_entry};
use script_host::composer::{
    compose_namespace, flatten_package_module, outline_module, symbol_of_signature,
};
use script_host::namespace::NamespaceModule;
use script_host::text::{
    char_is_space, fold_char, join_path, join_separator, name_matches, string_less,
};
use std::sync::Arc;

fn strings(list: &[&str]) -> Vec<String> {
    list.iter().map(|entry| entry.to_string()).collect()
}

fn leaf(name: &str, symbols: &[&str]) -> NamespaceModule {
    NamespaceModule { name: name.to_string(), symbols: strings(symbols), children: Vec::new() }
}

fn one(x: i64) -> Result<i64, Box<rhai::EvalAltResult>> {
    Ok(x + 1)
}

fn nested_module() -> rhai::Module {
    let mut inner = rhai::Module::new();
    inner.set_native_fn("deep", one);
    let mut middle = rhai::Module::new();
    middle.set_native_fn("calc", one);
    middle.set_sub_module("inner", inner);
    let mut top = rhai::Module::new();
    top.set_native_fn("start", one);
    top.set_sub_module("middle", middle);
    top.set_sub_module("empty", rhai::Module::new());
    top
}

#[test]
fn insert_entry_keeps_the_list_sorted_and_unique() {
    let mut entries: Vec<String> = Vec::new();
    for entry in ["m", "a", "z", "m", "b", "a", "zz", ""] {
        insert_entry(&mut entries, entry.to_string());
    }
    assert_eq!(entries, strings(&["", "a", "b", "m", "z", "zz"]));
}

#[test]
fn insert_entry_orders_by_code_point() {
    let mut entries: Vec<String> = Vec::new();
    for entry in ["é", "z", "Z", "a::", "a", "a:", "☃", "🚀"] {
        insert_entry(&mut entries, entry.to_string());
    }
    let mut expected = strings(&["é", "z", "Z", "a::", "a", "a:", "☃", "🚀"]);
    expected.sort();
    assert_eq!(entries, expected);
}

#[test]
fn index_of_nothing_is_empty() {
    assert!(completion_index(&Vec::new()).is_empty());
}

#[test]
fn index_of_an_empty_namespace_holds_its_two_names() {
    let index = completion_index(&vec![leaf("sci", &[])]);
    assert_eq!(index, strings(&["sci", "sci::"]));
}

#[test]
fn index_lists_symbols_once() {
    let index = completion_index(&vec![leaf("rand", &["rand", "shuffle", "rand"])]);
    assert_eq!(index, strings(&["rand", "rand::", "rand::rand", "rand::shuffle"]));
}

#[test]
fn index_walks_sub_namespaces() {
    let tree = NamespaceModule {
        name: "fs".to_string(),
        symbols: strings(&["open"]),
        children: vec![NamespaceModule {
            name: "path".to_string(),
            symbols: strings(&["join"]),
            children: vec![leaf("win", &["drive"])],
        }],
    };
    let index = completion_index(&vec![tree]);
    assert_eq!(
        index,
        strings(&[
            "fs",
            "fs::",
            "fs::open",
            "fs::path",
            "fs::path::",
            "fs::path::join",
            "fs::path::win",
            "fs::path::win::",
            "fs::path::win::drive",
        ])
    );
}

#[test]
fn index_does_not_depend_on_the_order_of_namespaces() {
    let forward = completion_index(&vec![leaf("a", &["x", "y"]), leaf("b", &["z"])]);
    let backward = completion_index(&vec![leaf("b", &["z"]), leaf("a", &["y", "x"])]);
    assert_eq!(forward, backward);
    assert_eq!(forward, strings(&["a", "a::", "a::x", "a::y", "b", "b::", "b::z"]));
}

#[test]
fn index_merges_namespaces_of_one_name() {
    let index = completion_index(&vec![leaf("a", &["x"]), leaf("a", &["y"])]);
    assert_eq!(index, strings(&["a", "a::", "a::x", "a::y"]));
}

#[test]
fn collect_module_entries_adds_below_a_prefix() {
    let mut entries = strings(&["kept"]);
    let module = NamespaceModule {
        name: "ignored".to_string(),
        symbols: strings(&["f"]),
        children: vec![leaf("sub", &["g"])],
    };
    collect_module_entries("p::q", &module, &mut entries);
    assert_eq!(
        entries,
        strings(&["kept", "p::q::f", "p::q::sub", "p::q::sub::", "p::q::sub::g"])
    );
}

#[test]
fn string_less_is_the_code_point_order() {
    assert!(string_less("a", "b"));
    assert!(!string_less("b", "a"));
    assert!(!string_less("a", "a"));
    assert!(string_less("", "a"));
    assert!(!string_less("", ""));
    assert!(string_less("ab", "abc"));
    assert!(string_less("Z", "a"));
    assert!(string_less("z", "é"));
    assert!(string_less("\u{ffff}", "\u{10000}"));
    for (a, b) in [("rand", "rand::"), ("fs::+", "fs::+="), ("☃", "🚀"), ("x", "x")] {
        assert_eq!(string_less(a, b), a < b);
        assert_eq!(string_less(b, a), b < a);
    }
}

#[test]
fn join_path_and_separator() {
    assert_eq!(join_path("rand", "shuffle"), "rand::shuffle");
    assert_eq!(join_path("", ""), "::");
    assert_eq!(join_separator("rand"), "rand::");
    assert_eq!(join_separator("a::b"), "a::b::");
}

#[test]
fn name_matches_trims_and_folds_ascii_case() {
    assert!(name_matches("rand", "rand"));
    assert!(name_matches("  RaNd \n", "rand"));
    assert!(name_matches("\u{2003}fs\u{a0}", "fs"));
    assert!(!name_matches("r and", "rand"));
    assert!(!name_matches("rand", "ran"));
    assert!(!name_matches("ran", "rand"));
    assert!(!name_matches("", "rand"));
    assert!(name_matches("   ", ""));
    assert!(!name_matches("ſci", "sci"));
}

#[test]
fn white_space_and_case_folding_of_characters() {
    for c in [' ', '\t', '\n', '\u{b}', '\u{c}', '\r', '\u{85}', '\u{a0}', '\u{1680}', '\u{2000}', '\u{200a}', '\u{2028}', '\u{2029}', '\u{202f}', '\u{205f}', '\u{3000}'] {
        assert!(char_is_space(c), "{:?}", c);
    }
    for c in ['a', '\u{8}', '\u{e}', '\u{200b}', '\u{1f}', '_'] {
        assert!(!char_is_space(c), "{:?}", c);
    }
    for code in 0u32..0x3100 {
        if let Some(c) = char::from_u32(code) {
            assert_eq!(char_is_space(c), c.is_whitespace(), "{:#x}", code);
        }
    }
    assert_eq!(fold_char('A'), 'a' as u32);
    assert_eq!(fold_char('Z'), 'z' as u32);
    assert_eq!(fold_char('a'), 'a' as u32);
    assert_eq!(fold_char('@'), '@' as u32);
    assert_eq!(fold_char('['), '[' as u32);
    assert_eq!(fold_char('É'), 'É' as u32);
}

#[test]
fn symbol_of_signature_reads_the_name() {
    assert_eq!(symbol_of_signature("rand(min: i64, max: i64) -> i64"), "rand");
    assert_eq!(symbol_of_signature("shuffle(array: &mut Array)"), "shuffle");
    assert_eq!(symbol_of_signature("get$path(url: &mut Url) -> String"), "get$path");
    assert_eq!(symbol_of_signature("+(a: Path, b: Path) -> Path"), "+");
    assert_eq!(symbol_of_signature("bare"), "bare");
    assert_eq!(symbol_of_signature("(x)"), "");
    assert_eq!(symbol_of_signature(""), "");
}

#[test]
fn outline_module_walks_sub_modules() {
    let outline = outline_module("top", &nested_module());
    assert_eq!(outline.name, "top");
    assert_eq!(outline.symbols, strings(&["start"]));
    let children: Vec<&str> = outline.children.iter().map(|child| child.name.as_str()).collect();
    assert_eq!(children, vec!["empty", "middle"]);
    assert!(outline.children[0].symbols.is_empty());
    assert_eq!(outline.children[1].symbols, strings(&["calc"]));
    assert_eq!(outline.children[1].children.len(), 1);
    assert_eq!(outline.children[1].children[0].name, "inner");
    assert_eq!(outline.children[1].children[0].symbols, strings(&["deep"]));
    let index = completion_index(&vec![outline]);
    assert_eq!(
        index,
        strings(&[
            "top",
            "top::",
            "top::empty",
            "top::empty::",
            "top::middle",
            "top::middle::",
            "top::middle::calc",
            "top::middle::inner",
            "top::middle::inner::",
            "top::middle::inner::deep",
            "top::start",
        ])
    );
}

#[test]
fn flatten_package_module_pulls_every_function_to_the_root() {
    let package = Arc::new(nested_module());
    let flat = flatten_package_module(&package);
    assert_eq!(flat.iter_sub_modules().count(), 0);
    assert_eq!(flat.count().1, 3);
    assert_eq!(package.iter_sub_modules().count(), 2);
}

#[test]
fn compose_namespace_is_flat() {
    let package = Arc::new(nested_module());
    let composed = compose_namespace("top", &package);
    assert_eq!(composed.outline.name, "top");
    assert!(composed.outline.children.is_empty());
    let mut symbols = composed.outline.symbols.clone();
    symbols.sort();
    assert_eq!(symbols, strings(&["calc", "deep", "start"]));
    let same = compose_namespace("top", &package);
    let mut again = same.outline.symbols.clone();
    again.sort();
    assert_eq!(symbols, again);
    assert_eq!(
        completion_index(&vec![composed.outline]),
        strings(&["top", "top::", "top::calc", "top::deep", "top::start"])
    );
}

fn two(x: i64) -> Result<i64, Box<rhai::EvalAltResult>> {
    Ok(x + 2)
}

#[test]
fn flatten_package_module_gives_the_same_functions_each_time() {
    let package = Arc::new(nested_module());
    let first = flatten_package_module(&package);
    let second = flatten_package_module(&package);
    let mut a: Vec<String> = first.gen_fn_signatures_with_mapper(Into::into).collect();
    let mut b: Vec<String> = second.gen_fn_signatures_with_mapper(Into::into).collect();
    a.sort();
    b.sort();
    assert_eq!(a, b);
    assert_eq!(a.len(), 3);
    assert_eq!(package.iter_sub_modules().count(), 2);
    assert_eq!(package.count().1, 1);
}

#[test]
fn flatten_package_module_prefers_the_function_further_up() {
    let mut inner = rhai::Module::new();
    inner.set_native_fn("calc", one);
    inner.set_native_fn("only_below", one);
    let mut top = rhai::Module::new();
    top.set_native_fn("calc", two);
    top.set_sub_module("inner", inner);
    let flat = flatten_package_module(&Arc::new(top));
    assert_eq!(flat.count().1, 2);
    let mut engine = rhai::Engine::new();
    engine.register_static_module("ns", flat);
    assert_eq!(engine.eval::<i64>("ns::calc(40)").expect("calc resolves"), 42);
    assert_eq!(engine.eval::<i64>("ns::only_below(40)").expect("resolves at the root"), 41);
}

#[test]
fn compose_namespace_lists_what_the_flattened_module_resolves() {
    let package = Arc::new(nested_module());
    let composed = compose_namespace("top", &package);
    let mut engine = rhai::Engine::new();
    engine.register_static_module("top", composed.module.clone());
    for symbol in composed.outline.symbols.iter() {
        let value = engine
            .eval::<i64>(&format!("top::{symbol}(1)"))
            .expect("a listed symbol resolves");
        assert_eq!(value, 2);
    }
}
