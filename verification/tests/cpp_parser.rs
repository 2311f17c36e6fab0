use ast_index::parse_tree::CppParser;

const TEST_CODE: &str = r#"
#include <iostream>
using namespace std;

enum TestEnum2 {
val1 = 1,val2
};

enum {
val1 = 1,val2
} TestEnum;

int b = 0;

// comment
String cat = "cat";

struct asd {};
namespace internal {
int a = 0;
template <typename T> class Array {
private:
    T* ptr;
    int size;

public:
    Array(T arr[], int s);
    void print();
};
}

template <typename T> Array<T>::Array(T arr[], int s)
{
    ptr = new T[s];
    size = s;
    for (int i = 0; i < size; i++)
        ptr[i] = arr[i];
}
void print() {
}
template <typename T> void asd<T>::Array<T>::print()
{
    for (int i = 0; i < size; i++)
        cout << " " << *(ptr + i);
    cout << endl;
}
 Array<int> as(arr, 5);
 Array<int> as = Array<int>(arr, 5);
int main()
{
    int arr[5] = { 1, 2, 3, 4, 5 };
    Array<int> a(arr, 5);
    a.print();
    print();
    return 0;
}
"#;

#[test]
fn test_query_cpp_function() {
    let mut parser = CppParser::new().expect("CppParser::new");
    let path = String::from("test.cpp");
    let _zxc = parser.parse_usages(TEST_CODE);
    let _indexes = parser.parse_declarations(TEST_CODE, &path).unwrap();
}

#[test]
fn parse_declarations_finds_namespace_members() {
    let mut parser = CppParser::new().expect("adapter");
    let path = String::from("a.cpp");
    let decls = parser
        .parse_declarations("namespace N { int x = 0; void f(){} }", &path)
        .unwrap();
    let paths: Vec<&str> = decls.iter().map(|(k, _)| k.as_str()).collect();
    assert!(paths.contains(&"N::x"), "paths: {:?}", paths);
    assert!(paths.contains(&"N::f"), "paths: {:?}", paths);
    for (k, d) in &decls {
        assert_eq!(k, &d.meta_path);
        assert_eq!(d.definition_info.path, "a.cpp");
    }
}

#[test]
fn parse_declarations_enum_values() {
    let mut parser = CppParser::new().expect("adapter");
    let path = String::from("e.cpp");
    let decls = parser
        .parse_declarations("enum Color { RED, GREEN, BLUE };", &path)
        .unwrap();
    let color = decls
        .iter()
        .find(|(k, _)| k == "Color")
        .map(|(_, d)| d)
        .expect("enum Color indexed");
    assert_eq!(color.kind, "enum");
    assert_eq!(color.enum_values, vec!["RED", "GREEN", "BLUE"]);
}

#[test]
fn parse_usages_unique_occurrence_paths() {
    let mut parser = CppParser::new().expect("adapter");
    let usages = parser.parse_usages("void f(){ g(); }").unwrap();
    assert_eq!(usages.len(), 1);
    assert_eq!(usages[0].referenced_name, "g");
    // keyed by the call site: name, row and column
    assert_eq!(usages[0].symbol_path, "g::0::10");
    assert!(usages[0].declaration_symbol_path.is_none());
}

#[test]
fn parse_usages_variable_declaration() {
    let mut parser = CppParser::new().expect("adapter");
    let usages = parser.parse_usages("int main(){ int counter = 0; }").unwrap();
    let var = usages
        .iter()
        .find(|u| u.referenced_name == "counter")
        .expect("variable usage");
    assert_eq!(var.type_names, vec!["int"]);
}
