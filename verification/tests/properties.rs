//! Scenario tests for the documented behaviour of the library: flattening,
//! renaming, import replacement, call search, strict rendering, and the
//! exact canonical output of the code generator.

use pyrustor::ClassDef;
use pyrustor::ExceptHandler;
use pyrustor::Expr;
use pyrustor::FunctionDef;
use pyrustor::ImportAlias;
use pyrustor::Module;
use pyrustor::Operator;
use pyrustor::PyRustorError;
use pyrustor::PythonAst;
use pyrustor::Refactor;
use pyrustor::Stmt;

fn nm(s: &str) -> Expr {
    Expr::Name { id: s.to_string() }
}

fn sl(s: &str) -> Expr {
    Expr::StringLiteral { value: s.to_string() }
}

fn num(s: &str) -> Expr {
    Expr::NumberLiteral { value: s.to_string() }
}

fn al(n: &str, a: Option<&str>) -> ImportAlias {
    ImportAlias { name: n.to_string(), asname: a.map(|x| x.to_string()) }
}

fn fndef(name: &str, params: Vec<&str>, body: Vec<Stmt>) -> Stmt {
    Stmt::FunctionDef(FunctionDef {
        name: name.to_string(),
        params: params.into_iter().map(|p| p.to_string()).collect(),
        body,
    })
}

fn classdef(name: &str, bases: Vec<Expr>, body: Vec<Stmt>) -> Stmt {
    Stmt::ClassDef(ClassDef { name: name.to_string(), bases, body })
}

fn ast_of(body: Vec<Stmt>) -> PythonAst {
    PythonAst::new(Module { body }, String::new(), true, true)
}

/// `import json, csv` yields two records, both plain, in source order.
#[test]
fn flattening_plain_import_preserves_order() {
    let ast = ast_of(vec![Stmt::Import { names: vec![al("json", None), al("csv", None)] }]);
    let imports = ast.imports();
    assert_eq!(imports.len(), 2);
    assert_eq!(imports[0].module, "json");
    assert!(!imports[0].is_from_import);
    assert!(imports[0].alias.is_none());
    assert_eq!(imports[1].module, "csv");
    assert!(!imports[1].is_from_import);
}

/// `from a.b import c as d, e` yields two records with the same source
/// module; the first carries the alias, the second none.
#[test]
fn flattening_from_import_keeps_aliases() {
    let ast = ast_of(vec![Stmt::ImportFrom {
        module: Some("a.b".to_string()),
        names: vec![al("c", Some("d")), al("e", None)],
    }]);
    let imports = ast.imports();
    assert_eq!(imports.len(), 2);
    assert_eq!(imports[0].module, "c");
    assert_eq!(imports[0].alias.as_deref(), Some("d"));
    assert!(imports[0].is_from_import);
    assert_eq!(imports[0].from_module.as_deref(), Some("a.b"));
    assert_eq!(imports[1].module, "e");
    assert!(imports[1].alias.is_none());
    assert_eq!(imports[1].from_module.as_deref(), Some("a.b"));
}

/// Renaming touches only the top-level definition, not a method of the same
/// name nested in a class, and appends exactly one change.
#[test]
fn rename_function_top_level_only() {
    let ast = ast_of(vec![
        fndef("f", vec![], vec![Stmt::Pass]),
        classdef("C", vec![], vec![fndef("f", vec![], vec![Stmt::Pass])]),
    ]);
    let mut r = Refactor::new(ast);
    r.rename_function("f", "g").unwrap();
    assert_eq!(r.changes().len(), 1);
    let tops = r.ast().functions();
    assert_eq!(tops.len(), 1);
    assert_eq!(tops[0].name.as_str(), "g");
    let all = r.ast().function_names();
    assert!(all.contains(&"f".to_string()));
    assert!(all.contains(&"g".to_string()));
}

/// Renaming a missing function is an operation error.
#[test]
fn rename_missing_function_is_operation_error() {
    let ast = ast_of(vec![fndef("hello", vec![], vec![Stmt::Pass])]);
    let mut r = Refactor::new(ast);
    let err = r.rename_function("missing", "x").unwrap_err();
    assert!(matches!(err, PyRustorError::OperationError { .. }));
}

/// A second identical import replacement finds nothing left to replace and
/// records no further change.
#[test]
fn replace_import_twice_is_idempotent() {
    let ast = ast_of(vec![
        Stmt::Import { names: vec![al("os", None)] },
        Stmt::ImportFrom { module: Some("os".to_string()), names: vec![al("path", None)] },
    ]);
    let mut r = Refactor::new(ast);
    r.replace_import("os", "pathlib").unwrap();
    assert_eq!(r.changes().len(), 1);
    r.replace_import("os", "pathlib").unwrap();
    assert_eq!(r.changes().len(), 1);
    let imports = r.ast().imports();
    assert!(imports.iter().all(|i| i.module != "os"));
    assert!(imports.iter().all(|i| i.from_module.as_deref() != Some("os")));
}

/// The call search matches a call wrapped in an attribute access, as in
/// `x = get_distribution(__name__).version`.
#[test]
fn find_function_calls_through_attribute_wrapping() {
    let ast = ast_of(vec![Stmt::Assign {
        targets: vec![nm("x")],
        value: Expr::Attribute {
            value: Box::new(Expr::Call {
                func: Box::new(nm("get_distribution")),
                args: vec![nm("__name__")],
            }),
            attr: "version".to_string(),
        },
    }]);
    let calls = ast.find_function_calls("get_distribution");
    assert_eq!(calls.len(), 1);
    assert_eq!(calls[0].function_name, "get_distribution");
    assert_eq!(calls[0].node_ref.node_type, "call");
}

/// Both the bare `f()` and the attribute `obj.f()` shapes match.
#[test]
fn find_function_calls_both_shapes() {
    let ast = ast_of(vec![
        Stmt::Expr {
            value: Expr::Call { func: Box::new(nm("f")), args: vec![] },
        },
        Stmt::Expr {
            value: Expr::Call {
                func: Box::new(Expr::Attribute {
                    value: Box::new(nm("obj")),
                    attr: "f".to_string(),
                }),
                args: vec![],
            },
        },
        Stmt::Expr {
            value: Expr::Call { func: Box::new(nm("other")), args: vec![
                Expr::Call { func: Box::new(nm("f")), args: vec![] },
            ] },
        },
    ]);
    let calls = ast.find_function_calls("f");
    assert_eq!(calls.len(), 3);
}

/// Strict rendering of a tree holding an unsupported construct fails with a
/// structure error naming the unsupported kind; lenient rendering succeeds
/// with a placeholder.
#[test]
fn strict_rendering_names_unsupported_kind() {
    let ast = ast_of(vec![
        fndef("f", vec![], vec![Stmt::Pass]),
        Stmt::Unknown { kind: "while".to_string() },
    ]);
    let err = ast.to_code().unwrap_err();
    assert!(matches!(err, PyRustorError::StructureError { .. }));
    assert_eq!(err.message(), "Unsupported statement type: while");

    let lenient = ast.to_string().unwrap();
    assert!(lenient.contains("# Unsupported statement type"));
}

/// Strict rendering also reports unsupported expressions.
#[test]
fn strict_rendering_reports_unsupported_expression() {
    let ast = ast_of(vec![Stmt::Expr { value: Expr::Unknown { kind: "lambda".to_string() } }]);
    let err = ast.to_code().unwrap_err();
    assert_eq!(err.message(), "Unsupported expression type: lambda");
}

/// Strict rendering of a fully supported tree succeeds; each top-level
/// statement's rendering is followed by one newline, where the lenient
/// form joins with newlines in between only.
#[test]
fn strict_rendering_succeeds_on_supported_tree() {
    let ast = ast_of(vec![fndef("f", vec!["a", "b"], vec![Stmt::Return {
        value: Some(Expr::BinOp {
            left: Box::new(nm("a")),
            op: Operator::Add,
            right: Box::new(nm("b")),
        }),
    }])]);
    let strict = ast.to_code().unwrap();
    let lenient = ast.to_string().unwrap();
    assert_eq!(lenient, "def f(a, b):\n    return a + b");
    assert_eq!(strict, "def f(a, b):\n    return a + b\n");
}

/// Strict rendering terminates every top-level statement with a newline.
#[test]
fn strict_rendering_newline_per_statement() {
    let one = ast_of(vec![Stmt::Pass]);
    assert_eq!(one.to_code().unwrap(), "pass\n");

    let several = ast_of(vec![
        Stmt::Import { names: vec![al("os", None)] },
        Stmt::Assign { targets: vec![nm("a")], value: num("1") },
        Stmt::Return { value: None },
    ]);
    assert_eq!(several.to_code().unwrap(), "import os\na = 1\nreturn\n");

    let empty = ast_of(vec![]);
    assert_eq!(empty.to_code().unwrap(), "");
}

/// The exact canonical renderings of the statement forms.
#[test]
fn renderer_exact_statements() {
    let ast = ast_of(vec![
        Stmt::Import { names: vec![al("m1", None), al("m2", Some("alias2"))] },
        Stmt::ImportFrom {
            module: Some("module".to_string()),
            names: vec![al("n1", None), al("n2", Some("alias2"))],
        },
        Stmt::ImportFrom { module: None, names: vec![al("n3", None)] },
        Stmt::Assign { targets: vec![nm("a"), nm("b")], value: num("1") },
        Stmt::Return { value: None },
        Stmt::Pass,
    ]);
    assert_eq!(
        ast.to_string().unwrap(),
        "import m1, m2 as alias2\nfrom module import n1, n2 as alias2\nfrom . import n3\na, b = 1\nreturn\npass",
    );
}

/// Function and class definitions render with four-space indentation and a
/// `pass` body when empty.
#[test]
fn renderer_exact_definitions() {
    let ast = ast_of(vec![
        fndef("f", vec!["p1", "p2"], vec![]),
        classdef("C", vec![nm("Base1"), nm("Base2")], vec![fndef("m", vec!["self"], vec![
            Stmt::Return { value: Some(sl("x")) },
        ])]),
        classdef("D", vec![], vec![]),
    ]);
    assert_eq!(
        ast.to_string().unwrap(),
        "def f(p1, p2):\n    pass\nclass C(Base1, Base2):\n    def m(self):\n        return \"x\"\nclass D:\n    pass",
    );
}

/// String literals re-render with the fixed escaping order, so the result
/// re-parses to the identical value.
#[test]
fn renderer_exact_escaping() {
    let ast = ast_of(vec![Stmt::Expr {
        value: sl("a\\b\"c\nd\re\tf"),
    }]);
    assert_eq!(ast.to_string().unwrap(), "\"a\\\\b\\\"c\\nd\\re\\tf\"");
}

/// Every binary operator token renders one-to-one, with no
/// precedence-driven parenthesization.
#[test]
fn renderer_exact_operators() {
    let ops = vec![
        (Operator::Add, "+"),
        (Operator::Sub, "-"),
        (Operator::Mult, "*"),
        (Operator::Div, "/"),
        (Operator::Mod, "%"),
        (Operator::Pow, "**"),
        (Operator::LShift, "<<"),
        (Operator::RShift, ">>"),
        (Operator::BitOr, "|"),
        (Operator::BitXor, "^"),
        (Operator::BitAnd, "&"),
        (Operator::FloorDiv, "//"),
        (Operator::MatMult, "@"),
    ];
    for (op, text) in ops {
        let ast = ast_of(vec![Stmt::Expr {
            value: Expr::BinOp { left: Box::new(nm("x")), op, right: Box::new(nm("y")) },
        }]);
        assert_eq!(ast.to_string().unwrap(), format!("x {} y", text));
    }

    // Composed expressions render flat: sub-expressions are not
    // re-parenthesized.
    let ast = ast_of(vec![Stmt::Expr {
        value: Expr::BinOp {
            left: Box::new(Expr::BinOp {
                left: Box::new(nm("a")),
                op: Operator::Add,
                right: Box::new(nm("b")),
            }),
            op: Operator::Mult,
            right: Box::new(nm("c")),
        },
    }]);
    assert_eq!(ast.to_string().unwrap(), "a + b * c");
}

/// Calls, attribute access, subscripts and the literal forms render
/// exactly.
#[test]
fn renderer_exact_expressions() {
    let ast = ast_of(vec![Stmt::Expr {
        value: Expr::Call {
            func: Box::new(Expr::Attribute {
                value: Box::new(nm("obj")),
                attr: "get".to_string(),
            }),
            args: vec![
                Expr::Subscript { value: Box::new(nm("arr")), index: Box::new(num("0")) },
                Expr::BooleanLiteral { value: true },
                Expr::BooleanLiteral { value: false },
                Expr::NoneLiteral,
                num("3.5"),
            ],
        },
    }]);
    assert_eq!(ast.to_string().unwrap(), "obj.get(arr[0], True, False, None, 3.5)");
}

/// `generate_statement` renders one statement at the requested indentation
/// level, strictly.
#[test]
fn generate_statement_with_indent() {
    let ast = ast_of(vec![]);
    let stmt = fndef("f", vec![], vec![Stmt::Pass]);
    assert_eq!(ast.generate_statement(&stmt, 1).unwrap(), "    def f():\n        pass");
    let bad = Stmt::Unknown { kind: "global".to_string() };
    let err = ast.generate_statement(&bad, 0).unwrap_err();
    assert_eq!(err.message(), "Unsupported statement type: global");
}

/// Node references carry index paths into the snapshot, depth-first.
#[test]
fn find_nodes_paths_and_kinds() {
    let ast = ast_of(vec![
        Stmt::Import { names: vec![al("os", None)] },
        fndef("f", vec![], vec![Stmt::Pass, Stmt::Return { value: None }]),
    ]);
    let all = ast.find_nodes(None);
    assert_eq!(all.len(), 4);
    assert_eq!(all[0].path, vec![0]);
    assert_eq!(all[0].node_type, "import");
    assert_eq!(all[1].path, vec![1]);
    assert_eq!(all[1].node_type, "function_def");
    assert_eq!(all[2].path, vec![1, 0]);
    assert_eq!(all[2].node_type, "other");
    assert_eq!(all[3].path, vec![1, 1]);

    let only_fns = ast.find_nodes(Some("function_def"));
    assert_eq!(only_fns.len(), 1);
    assert_eq!(only_fns[0].path, vec![1]);
}

/// The try/except query reports handler type names and honours the filter.
#[test]
fn find_try_except_blocks_filter() {
    let try_stmt = Stmt::TryExcept {
        body: vec![Stmt::Pass],
        handlers: vec![
            ExceptHandler { exc_type: Some(nm("ValueError")), body: vec![Stmt::Pass] },
            ExceptHandler { exc_type: Some(nm("KeyError")), body: vec![Stmt::Pass] },
            ExceptHandler { exc_type: None, body: vec![Stmt::Pass] },
        ],
        orelse: vec![],
        finalbody: vec![],
    };
    let ast = ast_of(vec![try_stmt]);
    let all = ast.find_try_except_blocks(None);
    assert_eq!(all.len(), 1);
    assert_eq!(all[0].exception_types, vec!["ValueError".to_string(), "KeyError".to_string()]);

    assert_eq!(ast.find_try_except_blocks(Some("KeyError")).len(), 1);
    assert_eq!(ast.find_try_except_blocks(Some("TypeError")).len(), 0);
}

/// The assignment query matches simple identifier targets by substring and
/// skips other target shapes.
#[test]
fn find_assignments_filter() {
    let ast = ast_of(vec![
        Stmt::Assign { targets: vec![nm("version_number")], value: num("1") },
        Stmt::Assign { targets: vec![nm("other")], value: num("2") },
        Stmt::Assign {
            targets: vec![Expr::Attribute {
                value: Box::new(nm("self")),
                attr: "version".to_string(),
            }],
            value: num("3"),
        },
    ]);
    let hits = ast.find_assignments(Some("version"));
    assert_eq!(hits.len(), 1);
    assert_eq!(hits[0].target, "version_number");
    assert_eq!(ast.find_assignments(None).len(), 2);
}

/// The import query flattens per alias and filters by module path
/// substring.
#[test]
fn find_imports_filter() {
    let ast = ast_of(vec![
        Stmt::Import { names: vec![al("os", None), al("json", None)] },
        Stmt::ImportFrom {
            module: Some("pkg_resources".to_string()),
            names: vec![al("get_distribution", None), al("DistributionNotFound", None)],
        },
    ]);
    let all = ast.find_imports(None);
    assert_eq!(all.len(), 4);

    let pkg = ast.find_imports(Some("pkg"));
    assert_eq!(pkg.len(), 2);
    assert_eq!(pkg[0].module, "pkg_resources");
    assert_eq!(pkg[0].items, vec!["get_distribution".to_string()]);
    assert_eq!(pkg[1].items, vec!["DistributionNotFound".to_string()]);

    let js = ast.find_imports(Some("js"));
    assert_eq!(js.len(), 1);
    assert_eq!(js[0].module, "json");
}

/// Unused top-level imports are removed after a full usage scan; used ones
/// stay, and one change entry is recorded.
#[test]
fn remove_unused_imports_removes_only_unused() {
    let ast = ast_of(vec![
        Stmt::Import { names: vec![al("os", None)] },
        Stmt::Import { names: vec![al("json", None)] },
        Stmt::ImportFrom {
            module: Some("collections".to_string()),
            names: vec![al("OrderedDict", None)],
        },
        Stmt::Expr {
            value: Expr::Call {
                func: Box::new(Expr::Attribute {
                    value: Box::new(nm("os")),
                    attr: "getcwd".to_string(),
                }),
                args: vec![],
            },
        },
    ]);
    let mut r = Refactor::new(ast);
    r.remove_unused_imports().unwrap();
    assert_eq!(r.changes().len(), 1);
    assert_eq!(r.changes()[0].description, "Removed unused imports");

    let imports = r.ast().imports();
    assert_eq!(imports.len(), 1);
    assert_eq!(imports[0].module, "os");
}

/// A dotted plain import binds its leading segment; usage of that segment
/// keeps the import.
#[test]
fn remove_unused_imports_dotted_and_alias() {
    let ast = ast_of(vec![
        Stmt::Import { names: vec![al("xml.etree.ElementTree", Some("ET"))] },
        Stmt::Import { names: vec![al("os.path", None)] },
        Stmt::Expr {
            value: Expr::Call { func: Box::new(nm("ET")), args: vec![] },
        },
    ]);
    let mut r = Refactor::new(ast);
    r.remove_unused_imports().unwrap();
    let imports = r.ast().imports();
    assert_eq!(imports.len(), 1);
    assert_eq!(imports[0].module, "xml.etree.ElementTree");
}

/// Opaque nodes hide uses, so nothing is removed when one is present.
#[test]
fn remove_unused_imports_conservative_with_opaque_nodes() {
    let ast = ast_of(vec![
        Stmt::Import { names: vec![al("json", None)] },
        Stmt::Unknown { kind: "with".to_string() },
    ]);
    let mut r = Refactor::new(ast);
    r.remove_unused_imports().unwrap();
    assert_eq!(r.changes().len(), 0);
    assert_eq!(r.ast().imports().len(), 1);
}

/// Legacy string syntax is detected and logged by the modernization scans.
#[test]
fn modernize_syntax_detects_legacy_strings() {
    let pct = ast_of(vec![Stmt::Assign {
        targets: vec![nm("s")],
        value: Expr::BinOp {
            left: Box::new(sl("%s")),
            op: Operator::Mod,
            right: Box::new(nm("x")),
        },
    }]);
    let mut r = Refactor::new(pct);
    r.modernize_string_formatting().unwrap();
    assert_eq!(r.changes().len(), 1);
    assert_eq!(r.changes()[0].description, "Modernized string formatting");

    let clean = ast_of(vec![Stmt::Assign { targets: vec![nm("s")], value: num("1") }]);
    let mut r2 = Refactor::new(clean);
    r2.modernize_string_formatting().unwrap();
    r2.modernize_syntax().unwrap();
    assert_eq!(r2.changes().len(), 0);

    let concat = ast_of(vec![Stmt::Expr {
        value: Expr::BinOp {
            left: Box::new(nm("x")),
            op: Operator::Add,
            right: Box::new(sl("suffix")),
        },
    }]);
    let mut r3 = Refactor::new(concat);
    r3.modernize_syntax().unwrap();
    assert_eq!(r3.changes().len(), 1);
    assert_eq!(r3.changes()[0].description, "Modernized Python syntax");
}

/// A numbered summary over many entries, checking the decimal formatting.
#[test]
fn change_summary_numbering() {
    let mut body: Vec<Stmt> = Vec::new();
    for i in 0..12 {
        body.push(fndef(&format!("f{}", i), vec![], vec![Stmt::Pass]));
    }
    let mut r = Refactor::new(ast_of(body));
    for i in 0..12 {
        r.rename_function(&format!("f{}", i), &format!("g{}", i)).unwrap();
    }
    let summary = r.change_summary();
    assert!(summary.starts_with("Made 12 changes:\n1. Renamed function 'f0' to 'g0'\n"));
    assert!(summary.contains("\n10. Renamed function 'f9' to 'g9'\n"));
    assert!(summary.ends_with("\n12. Renamed function 'f11' to 'g11'\n"));
}

/// The strict and lenient formatters drive the session's rendering.
#[test]
fn formatter_modes() {
    let mut lenient = Refactor::new(ast_of(vec![Stmt::Unknown { kind: "while".to_string() }]));
    assert_eq!(lenient.to_string().unwrap(), "# Unsupported statement type");

    let strict_formatter = pyrustor::Formatter::with_mode(true);
    let mut strict = Refactor::with_formatter(
        ast_of(vec![Stmt::Unknown { kind: "while".to_string() }]),
        strict_formatter,
    );
    assert!(strict.to_string().is_err());
}
