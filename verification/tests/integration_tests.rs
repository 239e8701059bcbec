//! Integration tests exercising several components together.

use pyrustor::ClassDef;
use pyrustor::Expr;
use pyrustor::FunctionDef;
use pyrustor::ImportAlias;
use pyrustor::Module;
use pyrustor::PythonAst;
use pyrustor::Refactor;
use pyrustor::Stmt;

fn nm(s: &str) -> Expr {
    Expr::Name { id: s.to_string() }
}

fn al(n: &str, a: Option<&str>) -> ImportAlias {
    ImportAlias { name: n.to_string(), asname: a.map(|x| x.to_string()) }
}

fn fndef(name: &str, params: Vec<&str>, body: Vec<Stmt>) -> Stmt {
    Stmt::FunctionDef(FunctionDef {
        name: name.to_string(),
        params: params.into_iter().map(|p| p.to_string()).collect(),
        body,
    })
}

fn ast_of(body: Vec<Stmt>) -> PythonAst {
    PythonAst::new(Module { body }, String::new(), true, true)
}

#[test]
fn test_complex_refactoring_workflow() {
    let body = vec![
        Stmt::Import { names: vec![al("json", None)] },
        Stmt::Import { names: vec![al("pickle", None)] },
        Stmt::ImportFrom { module: Some("datetime".to_string()), names: vec![al("datetime", None)] },
        fndef(
            "process_data",
            vec!["data_list"],
            vec![
                Stmt::Assign {
                    targets: vec![nm("results")],
                    value: Expr::Unknown { kind: "list".to_string() },
                },
                Stmt::Unknown { kind: "for".to_string() },
                Stmt::Return { value: Some(nm("results")) },
            ],
        ),
        Stmt::ClassDef(ClassDef {
            name: "DataProcessor".to_string(),
            bases: vec![],
            body: vec![
                fndef("__init__", vec!["self"], vec![Stmt::Assign {
                    targets: vec![Expr::Attribute {
                        value: Box::new(nm("self")),
                        attr: "processed_count".to_string(),
                    }],
                    value: Expr::NumberLiteral { value: "0".to_string() },
                }]),
                fndef("process", vec!["self", "data"], vec![Stmt::Return {
                    value: Some(Expr::Call {
                        func: Box::new(nm("process_data")),
                        args: vec![nm("data")],
                    }),
                }]),
            ],
        }),
        fndef("save_results", vec!["results", "filename"], vec![Stmt::Unknown {
            kind: "with".to_string(),
        }]),
    ];

    let ast = ast_of(body);
    let mut refactor = Refactor::new(ast);

    refactor.rename_function("process_data", "transform_data").unwrap();
    refactor.rename_class("DataProcessor", "DataTransformer").unwrap();
    refactor.replace_import("pickle", "dill").unwrap();
    refactor.modernize_syntax().unwrap();
    refactor.sort_imports().unwrap();

    let changes = refactor.changes();
    assert!(changes.len() >= 3);
}

#[test]
fn test_ast_validation() {
    let ast = ast_of(vec![fndef("hello", vec![], vec![Stmt::Pass])]);
    assert!(ast.validate().is_ok());

    let ast = ast_of(vec![]);
    assert!(ast.validate().is_err());
}

#[test]
fn test_import_analysis() {
    let body = vec![
        Stmt::Import { names: vec![al("os", None)] },
        Stmt::Import { names: vec![al("sys", Some("system"))] },
        Stmt::ImportFrom { module: Some("pathlib".to_string()), names: vec![al("Path", None)] },
        Stmt::ImportFrom {
            module: Some("typing".to_string()),
            names: vec![al("List", None), al("Dict", None)],
        },
        Stmt::ImportFrom { module: None, names: vec![al("local_module", None)] },
        Stmt::ImportFrom {
            module: Some("..parent".to_string()),
            names: vec![al("parent_module", None)],
        },
    ];
    let ast = ast_of(body);

    let imports = ast.imports();
    assert!(imports.len() >= 4);

    let os_import = imports.iter().find(|i| i.module == "os").unwrap();
    assert!(!os_import.is_from_import);
    assert!(os_import.alias.is_none());

    let sys_import = imports.iter().find(|i| i.module == "sys").unwrap();
    assert!(!sys_import.is_from_import);
    assert_eq!(sys_import.alias.as_ref().unwrap(), "system");

    let path_import = imports.iter().find(|i| i.module == "Path").unwrap();
    assert!(path_import.is_from_import);
    assert_eq!(path_import.from_module.as_ref().unwrap(), "pathlib");
}
