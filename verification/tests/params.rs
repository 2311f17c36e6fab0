use std::collections::HashMap;
use ast_index::at_params::{AtParamFilePath, AtParamSymbolPathQuery, AtParamSymbolReferencePathQuery};
use ast_index::call_validation::{CodeCompletionInputs, CodeCompletionPost, CursorPosition};

#[test]
fn file_path_param_reports_its_name() {
    let p = AtParamFilePath::new();
    assert_eq!(p.name(), "file_path");
    assert!(!p.complete_if_valid());
}

#[test]
fn file_path_param_validity_is_membership() {
    let p = AtParamFilePath::new();
    let paths = vec![String::from("/src/main.cpp"), String::from("/src/util.cpp")];
    assert!(p.is_value_valid(&String::from("/src/main.cpp"), &paths));
    assert!(!p.is_value_valid(&String::from("/src/gone.cpp"), &paths));
}

#[test]
fn file_path_completion_ranks_by_file_name() {
    let p = AtParamFilePath::new();
    let paths = vec![
        String::from("/deep/dir/main.cpp"),
        String::from("/deep/dir/parser.cpp"),
        String::from("/deep/dir/unrelated.txt"),
    ];
    let r = p.complete(&String::from("main.cpp"), &paths, 2);
    assert_eq!(r.len(), 2);
    assert_eq!(r[0], "/deep/dir/main.cpp");
}

#[test]
fn file_path_completion_with_absolute_query_uses_full_path() {
    let p = AtParamFilePath::new();
    let paths = vec![String::from("/a/x.cpp"), String::from("/b/y.cpp")];
    let r = p.complete(&String::from("/a/x.cpp"), &paths, 1);
    assert_eq!(r, vec![String::from("/a/x.cpp")]);
}

#[test]
fn symbol_path_param_completion_drops_first_segment() {
    let p = AtParamSymbolPathQuery::new();
    assert_eq!(p.name(), "context_file");
    assert!(p.complete_if_valid());
    assert!(p.is_value_valid(&String::from("anything")));
    let paths = vec![
        String::from("alpha::compute"),
        String::from("beta::other_thing"),
    ];
    let r = p.complete(&String::from("compute"), &paths, 1);
    assert_eq!(r, vec![String::from("alpha::compute")]);
}

#[test]
fn reference_path_param_completion_ranks_usages() {
    let p = AtParamSymbolReferencePathQuery::new();
    assert_eq!(p.name(), "context_file");
    assert!(p.complete_if_valid());
    let paths = vec![String::from("f::compute::3::4"), String::from("f::other::9::2")];
    let r = p.complete(&String::from("compute"), &paths, 2);
    assert_eq!(r.len(), 2);
    assert_eq!(r[0], "f::compute::3::4");
}

#[test]
fn completion_returns_everything_when_top_n_is_large() {
    let p = AtParamSymbolPathQuery::new();
    let paths = vec![String::from("a::b"), String::from("c::d")];
    let r = p.complete(&String::from("b"), &paths, 10);
    assert_eq!(r.len(), 2);
}

#[test]
fn code_completion_request_carries_its_inputs() {
    let mut sources = HashMap::new();
    sources.insert(String::from("main.cpp"), String::from("int main(){}"));
    let post = CodeCompletionPost {
        model: String::from("code-model"),
        stream: false,
        inputs: CodeCompletionInputs {
            sources,
            cursor: CursorPosition { file: String::from("main.cpp"), line: 0, character: 10 },
            multiline: true,
        },
    };
    assert_eq!(post.inputs.cursor.line, 0);
    assert_eq!(post.inputs.sources.get("main.cpp").map(|s| s.as_str()), Some("int main(){}"));
    assert!(post.inputs.multiline);
    assert!(!post.stream);
}
