use ast_index::ast_index::AstIndex;
use ast_index::records::AstError;
use ast_index::score::sim_product;

fn add(index: &mut AstIndex, path: &str, text: &str) {
    let p = String::from(path);
    let t = String::from(text);
    index.add_or_update(&p, &t).expect("add_or_update");
}

#[test]
fn indexes_namespace_members() {
    let mut index = AstIndex::init();
    add(&mut index, "a.cpp", "namespace N { int x = 0; void f(){} }");
    let paths = index.get_indexed_symbol_paths();
    assert!(paths.iter().any(|p| p == "N::x"), "paths: {:?}", paths);
    assert!(paths.iter().any(|p| p == "N::f"), "paths: {:?}", paths);
    let syms = index
        .get_symbols_by_file_path(&String::from("a.cpp"))
        .expect("indexed");
    assert_eq!(syms.len(), 2);
    let kinds: Vec<&str> = syms.iter().map(|d| d.kind.as_str()).collect();
    assert!(kinds.contains(&"global_variable"), "kinds: {:?}", kinds);
    assert!(kinds.contains(&"function"), "kinds: {:?}", kinds);
}

#[test]
fn search_finds_same_name_in_two_files() {
    let mut index = AstIndex::init();
    add(&mut index, "a.cpp", "int foo(){}");
    add(&mut index, "b.cpp", "int foo(){}");
    let results = index
        .search_declarations(&String::from("foo"), 10, None)
        .expect("search");
    assert_eq!(results.len(), 2);
    for r in &results {
        assert!(r.sim_to_query > 0);
        assert_eq!(r.symbol_declaration.name, "foo");
    }
}

#[test]
fn usage_links_to_innermost_enclosing_declaration() {
    let mut index = AstIndex::init();
    add(&mut index, "a.cpp", "void g(){}\nvoid f(){ g(); }");
    let results = index
        .search_usages(&String::from("g::.*"), 10, None)
        .expect("search");
    assert!(!results.is_empty());
    // the usage of g sits inside f, so the resolved declaration is f
    assert_eq!(results[0].symbol_declaration.name, "f");
}

#[test]
fn reindex_replaces_old_symbol_paths() {
    let mut index = AstIndex::init();
    add(&mut index, "a.cpp", "int foo(){}");
    add(&mut index, "a.cpp", "int bar(){}");
    let paths = index.get_indexed_symbol_paths();
    assert!(!paths.iter().any(|p| p == "foo"), "paths: {:?}", paths);
    assert!(paths.iter().any(|p| p == "bar"), "paths: {:?}", paths);
}

#[test]
fn top_result_for_class_query_is_the_class() {
    let mut index = AstIndex::init();
    add(
        &mut index,
        "a.cpp",
        "class Array { int size; };\nint other_thing = 0;",
    );
    let results = index
        .search_declarations(&String::from("Array"), 3, None)
        .expect("search");
    assert!(!results.is_empty());
    let top = &results[0];
    assert_eq!(top.symbol_declaration.name, "Array");
    assert_eq!(top.symbol_declaration.kind, "class");
    assert!(top.content.contains("class Array"));
    // similarity strictly above 0.9, compared in the score encoding
    let nine_tenths = sim_product((0.9f64).to_bits(), (1.0f64).to_bits());
    assert!(top.sim_to_query > nine_tenths);
}

#[test]
fn unsupported_extension_leaves_index_empty() {
    let mut index = AstIndex::init();
    let r = index.add_or_update(&String::from("a.xyz"), &String::from("int foo(){}"));
    assert_eq!(r, Err(AstError::UnsupportedLanguage));
    assert!(index.get_indexed_symbol_paths().is_empty());
    assert!(index.get_indexed_references().is_empty());
}

#[test]
fn remove_round_trip_clears_contribution() {
    let mut index = AstIndex::init();
    add(&mut index, "a.cpp", "namespace N { void f(){ f(); } }");
    assert!(!index.get_indexed_symbol_paths().is_empty());
    assert!(!index.get_indexed_references().is_empty());
    index.remove(&String::from("a.cpp")).expect("remove");
    assert!(index.get_indexed_symbol_paths().is_empty());
    assert!(index.get_indexed_references().is_empty());
    let r = index.get_symbols_by_file_path(&String::from("a.cpp"));
    assert_eq!(r.err(), Some(AstError::NotIndexed));
}

#[test]
fn remove_of_unknown_file_is_ignored() {
    let mut index = AstIndex::init();
    add(&mut index, "a.cpp", "int foo(){}");
    index.remove(&String::from("b.cpp")).expect("remove never fails");
    assert_eq!(index.get_indexed_symbol_paths().len(), 1);
}

#[test]
fn adding_same_contents_twice_is_idempotent() {
    let mut index = AstIndex::init();
    let text = "namespace N { int x = 0; void f(){ g(); } }";
    add(&mut index, "a.cpp", text);
    let mut paths_once = index.get_indexed_symbol_paths();
    let mut refs_once = index.get_indexed_references();
    add(&mut index, "a.cpp", text);
    let mut paths_twice = index.get_indexed_symbol_paths();
    let mut refs_twice = index.get_indexed_references();
    paths_once.sort();
    paths_twice.sort();
    refs_once.sort();
    refs_twice.sort();
    assert_eq!(paths_once, paths_twice);
    assert_eq!(refs_once, refs_twice);
    let syms = index
        .get_symbols_by_file_path(&String::from("a.cpp"))
        .expect("indexed");
    assert_eq!(syms.len(), 2);
}

#[test]
fn exception_file_is_masked_from_search() {
    let mut index = AstIndex::init();
    add(&mut index, "a.cpp", "int alpha_one(){}");
    add(&mut index, "b.cpp", "int alpha_two(){}");
    let exc = String::from("a.cpp");
    let results = index
        .search_declarations(&String::from("alpha.*"), 10, Some(&exc))
        .expect("search");
    assert_eq!(results.len(), 1);
    assert_eq!(results[0].symbol_declaration.name, "alpha_two");
}

#[test]
fn scores_are_monotonically_non_increasing() {
    let mut index = AstIndex::init();
    add(
        &mut index,
        "a.cpp",
        "int alpha(){}\nint alphabet(){}\nint alp(){}\nint beta_alpha_tail(){}",
    );
    let results = index
        .search_declarations(&String::from("alp.*"), 10, None)
        .expect("search");
    assert!(results.len() >= 3);
    for w in results.windows(2) {
        assert!(w[0].sim_to_query >= w[1].sim_to_query);
    }
}

#[test]
fn invalid_regex_is_reported() {
    let mut index = AstIndex::init();
    add(&mut index, "a.cpp", "int foo(){}");
    let r = index.search_declarations(&String::from("("), 10, None);
    assert_eq!(r.err(), Some(AstError::InvalidQuery));
}

#[test]
fn records_name_their_own_file() {
    let mut index = AstIndex::init();
    add(&mut index, "a.cpp", "namespace N { int x = 0; void f(){} }");
    add(&mut index, "b.cpp", "int other(){}");
    let syms = index
        .get_symbols_by_file_path(&String::from("a.cpp"))
        .expect("indexed");
    for d in &syms {
        assert_eq!(d.definition_info.path, "a.cpp");
    }
}

#[test]
fn usage_paths_are_listed_as_references() {
    let mut index = AstIndex::init();
    add(&mut index, "a.cpp", "void f(){ g(); }");
    let refs = index.get_indexed_references();
    assert!(refs.iter().any(|p| p == "g::0::10"), "refs: {:?}", refs);
}

#[test]
fn search_respects_top_n() {
    let mut index = AstIndex::init();
    add(
        &mut index,
        "a.cpp",
        "int foo_a(){}\nint foo_b(){}\nint foo_c(){}",
    );
    let results = index
        .search_declarations(&String::from("foo.*"), 2, None)
        .expect("search");
    assert_eq!(results.len(), 2);
}
