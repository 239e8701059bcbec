//! Tests of the tree handle and the query layer.

use pyrustor::Expr;
use pyrustor::FunctionDef;
use pyrustor::ClassDef;
use pyrustor::ImportAlias;
use pyrustor::Module;
use pyrustor::PythonAst;
use pyrustor::Stmt;

fn nm(s: &str) -> Expr {
    Expr::Name { id: s.to_string() }
}

fn sl(s: &str) -> Expr {
    Expr::StringLiteral { value: s.to_string() }
}

fn num(s: &str) -> Expr {
    Expr::NumberLiteral { value: s.to_string() }
}

fn al(n: &str, a: Option<&str>) -> ImportAlias {
    ImportAlias { name: n.to_string(), asname: a.map(|x| x.to_string()) }
}

fn fndef(name: &str, params: Vec<&str>, body: Vec<Stmt>) -> Stmt {
    Stmt::FunctionDef(FunctionDef {
        name: name.to_string(),
        params: params.into_iter().map(|p| p.to_string()).collect(),
        body,
    })
}

fn classdef(name: &str, bases: Vec<Expr>, body: Vec<Stmt>) -> Stmt {
    Stmt::ClassDef(ClassDef { name: name.to_string(), bases, body })
}

fn ast_of(body: Vec<Stmt>, src: &str) -> PythonAst {
    PythonAst::new(Module { body }, src.to_string(), true, true)
}

#[test]
fn test_ast_creation() {
    let ast = ast_of(vec![fndef("hello", vec![], vec![Stmt::Pass])], "def hello(): pass");
    assert!(!ast.is_empty());
    assert_eq!(ast.statement_count(), 1);
}

#[test]
fn test_function_extraction() {
    let ast = ast_of(
        vec![
            fndef("hello", vec![], vec![Stmt::Pass]),
            fndef("world", vec![], vec![Stmt::Return { value: Some(num("42")) }]),
        ],
        "def hello(): pass\ndef world(): return 42",
    );
    let functions = ast.functions();
    assert_eq!(functions.len(), 2);
    assert_eq!(functions[0].name.as_str(), "hello");
    assert_eq!(functions[1].name.as_str(), "world");
}

#[test]
fn test_import_extraction() {
    let ast = ast_of(
        vec![
            Stmt::Import { names: vec![al("os", None)] },
            Stmt::ImportFrom { module: Some("sys".to_string()), names: vec![al("path", None)] },
            Stmt::Import { names: vec![al("json", Some("js"))] },
        ],
        "import os\nfrom sys import path\nimport json as js",
    );
    let imports = ast.imports();
    assert_eq!(imports.len(), 3);

    assert_eq!(imports[0].module, "os");
    assert!(!imports[0].is_from_import);

    assert_eq!(imports[1].module, "path");
    assert!(imports[1].is_from_import);
    assert_eq!(imports[1].from_module.as_ref().unwrap(), "sys");

    assert_eq!(imports[2].module, "json");
    assert_eq!(imports[2].alias.as_ref().unwrap(), "js");
}

#[test]
fn test_class_extraction() {
    let ast = ast_of(
        vec![
            classdef("MyClass", vec![], vec![Stmt::Pass]),
            classdef("AnotherClass", vec![nm("object")], vec![Stmt::Pass]),
        ],
        "class MyClass: pass\nclass AnotherClass(object): pass",
    );
    let classes = ast.classes();
    assert_eq!(classes.len(), 2);
    assert_eq!(classes[0].name.as_str(), "MyClass");
    assert_eq!(classes[1].name.as_str(), "AnotherClass");
}

#[test]
fn test_empty_ast() {
    let ast = ast_of(vec![], "");
    assert!(ast.is_empty());
    assert_eq!(ast.statement_count(), 0);
    assert_eq!(ast.function_names().len(), 0);
    assert_eq!(ast.class_names().len(), 0);
    assert_eq!(ast.imports().len(), 0);
}

#[test]
fn test_ast_to_string() {
    let code = "def hello():\n    return 'world'";
    let ast = ast_of(
        vec![fndef("hello", vec![], vec![Stmt::Return { value: Some(sl("world")) }])],
        code,
    );
    let result = ast.to_string().unwrap();
    assert!(result.contains("hello"));
    assert!(result.contains("world"));
}

#[test]
fn test_complex_ast_structure() {
    let ast = ast_of(
        vec![
            Stmt::Import { names: vec![al("os", None)] },
            Stmt::ImportFrom { module: Some("typing".to_string()), names: vec![al("List", None)] },
            classdef(
                "DataProcessor",
                vec![],
                vec![
                    fndef("__init__", vec!["self", "name"], vec![Stmt::Pass]),
                    fndef("process", vec!["self", "data"], vec![Stmt::Return {
                        value: Some(nm("data")),
                    }]),
                ],
            ),
            fndef(
                "main",
                vec![],
                vec![Stmt::Assign {
                    targets: vec![nm("processor")],
                    value: Expr::Call {
                        func: Box::new(nm("DataProcessor")),
                        args: vec![sl("test")],
                    },
                }],
            ),
            Stmt::Unknown { kind: "if".to_string() },
        ],
        "",
    );

    assert!(!ast.is_empty());
    assert!(ast.statement_count() > 0);

    let function_names = ast.function_names();
    assert!(function_names.contains(&"main".to_string()));

    let class_names = ast.class_names();
    assert!(class_names.contains(&"DataProcessor".to_string()));

    let imports = ast.imports();
    assert!(!imports.is_empty());
}

#[test]
fn test_unicode_identifiers() {
    let ast = ast_of(
        vec![
            fndef("greet_世界", vec![], vec![Stmt::Return { value: Some(sl("Hello 世界!")) }]),
            classdef(
                "UnicodeClass_测试",
                vec![],
                vec![fndef("method_测试", vec!["self"], vec![Stmt::Return {
                    value: Some(sl("测试")),
                }])],
            ),
        ],
        "",
    );
    let function_names = ast.function_names();
    assert!(function_names.contains(&"greet_世界".to_string()));

    let class_names = ast.class_names();
    assert!(class_names.contains(&"UnicodeClass_测试".to_string()));
}

#[test]
fn test_various_import_styles() {
    let ast = ast_of(
        vec![
            Stmt::Import { names: vec![al("os", None)] },
            Stmt::Import { names: vec![al("sys", Some("system"))] },
            Stmt::ImportFrom { module: Some("pathlib".to_string()), names: vec![al("Path", None)] },
            Stmt::ImportFrom {
                module: Some("typing".to_string()),
                names: vec![al("List", None), al("Dict", None), al("Optional", None)],
            },
            Stmt::ImportFrom {
                module: Some("collections".to_string()),
                names: vec![al("defaultdict", Some("dd")), al("OrderedDict", None)],
            },
            Stmt::Import {
                names: vec![
                    al("json", None),
                    al("csv", None),
                    al("xml.etree.ElementTree", Some("ET")),
                ],
            },
        ],
        "",
    );
    let imports = ast.imports();
    assert!(!imports.is_empty());
    assert!(imports.len() >= 5);
}

#[test]
fn test_ast_modification_tracking() {
    let mut ast = ast_of(vec![fndef("original", vec![], vec![Stmt::Pass])], "def original(): pass");
    let original_source = ast.source();
    assert!(original_source.contains("original"));
    let _module = ast.module_mut();
}

#[test]
fn test_large_ast() {
    let mut body: Vec<Stmt> = Vec::new();
    for i in 0..100 {
        body.push(fndef(
            &format!("function_{}", i),
            vec![],
            vec![Stmt::Return { value: Some(num(&format!("{}", i))) }],
        ));
        body.push(classdef(&format!("Class_{}", i), vec![], vec![Stmt::Pass]));
    }
    let ast = ast_of(body, "");

    assert!(!ast.is_empty());
    assert_eq!(ast.statement_count(), 200);

    let function_names = ast.function_names();
    assert_eq!(function_names.len(), 100);

    let class_names = ast.class_names();
    assert_eq!(class_names.len(), 100);
}

#[test]
fn test_ast_source_preservation() {
    let original_code = "def hello():\n    \"\"\"A simple function.\"\"\"\n    return \"Hello, World!\"\n";
    let ast = ast_of(
        vec![fndef("hello", vec![], vec![
            Stmt::Expr { value: sl("A simple function.") },
            Stmt::Return { value: Some(sl("Hello, World!")) },
        ])],
        original_code,
    );
    assert_eq!(ast.source(), original_code);
}

#[test]
fn test_ast_error_handling() {
    let ast = ast_of(vec![Stmt::Pass], "pass");
    let _ = ast.function_names();
    let _ = ast.class_names();
    let _ = ast.imports();
    let _ = ast.to_string();
}

#[test]
fn test_validate_empty_and_nonempty() {
    let ast = ast_of(vec![fndef("hello", vec![], vec![Stmt::Pass])], "def hello(): pass");
    assert!(ast.validate().is_ok());

    let empty = ast_of(vec![], "");
    let err = empty.validate().unwrap_err();
    assert!(matches!(err, pyrustor::PyRustorError::StructureError { .. }));
    assert_eq!(err.message(), "Empty module");
}

#[test]
fn test_is_comments_only() {
    let docs = ast_of(
        vec![Stmt::Expr { value: sl("module docstring") }, Stmt::Expr { value: sl("more") }],
        "",
    );
    assert!(docs.is_comments_only());

    let empty = ast_of(vec![], "");
    assert!(empty.is_comments_only());

    let code = ast_of(vec![Stmt::Pass], "pass");
    assert!(!code.is_comments_only());
}
