//! Round-trip tests: for modules built only from supported variants,
//! rendering to canonical text and re-parsing with the external parser
//! yields an equal variant shape with equal literal values.

use pyrustor::ClassDef;
use pyrustor::ExceptHandler;
use pyrustor::Expr;
use pyrustor::FunctionDef;
use pyrustor::ImportAlias;
use pyrustor::Module;
use pyrustor::Operator;
use pyrustor::PythonAst;
use pyrustor::Stmt;

use ruff_python_ast as ra;

fn conv_alias(a: &ra::Alias) -> ImportAlias {
    ImportAlias {
        name: a.name.to_string(),
        asname: a.asname.as_ref().map(|x| x.to_string()),
    }
}

fn conv_op(op: ra::Operator) -> Operator {
    match op {
        ra::Operator::Add => Operator::Add,
        ra::Operator::Sub => Operator::Sub,
        ra::Operator::Mult => Operator::Mult,
        ra::Operator::Div => Operator::Div,
        ra::Operator::Mod => Operator::Mod,
        ra::Operator::Pow => Operator::Pow,
        ra::Operator::LShift => Operator::LShift,
        ra::Operator::RShift => Operator::RShift,
        ra::Operator::BitOr => Operator::BitOr,
        ra::Operator::BitXor => Operator::BitXor,
        ra::Operator::BitAnd => Operator::BitAnd,
        ra::Operator::FloorDiv => Operator::FloorDiv,
        ra::Operator::MatMult => Operator::MatMult,
    }
}

fn conv_expr(e: &ra::Expr) -> Expr {
    match e {
        ra::Expr::Name(n) => Expr::Name { id: n.id.to_string() },
        ra::Expr::StringLiteral(s) => Expr::StringLiteral { value: s.value.to_str().to_string() },
        ra::Expr::NumberLiteral(n) => Expr::NumberLiteral {
            value: match &n.value {
                ra::Number::Int(i) => i.to_string(),
                ra::Number::Float(f) => f.to_string(),
                ra::Number::Complex { real, imag } => format!("({real}+{imag}j)"),
            },
        },
        ra::Expr::BooleanLiteral(b) => Expr::BooleanLiteral { value: b.value },
        ra::Expr::NoneLiteral(_) => Expr::NoneLiteral,
        ra::Expr::Call(c) => Expr::Call {
            func: Box::new(conv_expr(&c.func)),
            args: c.arguments.args.iter().map(conv_expr).collect(),
        },
        ra::Expr::BinOp(b) => Expr::BinOp {
            left: Box::new(conv_expr(&b.left)),
            op: conv_op(b.op),
            right: Box::new(conv_expr(&b.right)),
        },
        ra::Expr::Attribute(a) => Expr::Attribute {
            value: Box::new(conv_expr(&a.value)),
            attr: a.attr.to_string(),
        },
        ra::Expr::Subscript(s) => Expr::Subscript {
            value: Box::new(conv_expr(&s.value)),
            index: Box::new(conv_expr(&s.slice)),
        },
        _ => Expr::Unknown { kind: "expression".to_string() },
    }
}

fn conv_stmt(s: &ra::Stmt) -> Stmt {
    match s {
        ra::Stmt::FunctionDef(f) => Stmt::FunctionDef(FunctionDef {
            name: f.name.to_string(),
            params: f.parameters.args.iter().map(|p| p.parameter.name.to_string()).collect(),
            body: f.body.iter().map(conv_stmt).collect(),
        }),
        ra::Stmt::ClassDef(c) => Stmt::ClassDef(ClassDef {
            name: c.name.to_string(),
            bases: c.bases().iter().map(conv_expr).collect(),
            body: c.body.iter().map(conv_stmt).collect(),
        }),
        ra::Stmt::Import(i) => Stmt::Import { names: i.names.iter().map(conv_alias).collect() },
        ra::Stmt::ImportFrom(i) => Stmt::ImportFrom {
            module: i.module.as_ref().map(|m| m.to_string()),
            names: i.names.iter().map(conv_alias).collect(),
        },
        ra::Stmt::Assign(a) => Stmt::Assign {
            targets: a.targets.iter().map(conv_expr).collect(),
            value: conv_expr(&a.value),
        },
        ra::Stmt::Return(r) => Stmt::Return { value: r.value.as_deref().map(conv_expr) },
        ra::Stmt::Pass(_) => Stmt::Pass,
        ra::Stmt::Expr(e) => Stmt::Expr { value: conv_expr(&e.value) },
        ra::Stmt::Try(t) => Stmt::TryExcept {
            body: t.body.iter().map(conv_stmt).collect(),
            handlers: t
                .handlers
                .iter()
                .map(|h| match h {
                    ra::ExceptHandler::ExceptHandler(eh) => ExceptHandler {
                        exc_type: eh.type_.as_deref().map(conv_expr),
                        body: eh.body.iter().map(conv_stmt).collect(),
                    },
                })
                .collect(),
            orelse: t.orelse.iter().map(conv_stmt).collect(),
            finalbody: t.finalbody.iter().map(conv_stmt).collect(),
        },
        _ => Stmt::Unknown { kind: "statement".to_string() },
    }
}

/// Renders the module, re-parses the text with the external parser, and
/// asserts that the re-built tree equals the original.
fn assert_round_trip(module: Module) {
    let ast = PythonAst::new(module, String::new(), true, true);
    let text = ast.to_code().expect("supported tree must render strictly");
    let reparsed = ruff_python_parser::parse_module(&text)
        .unwrap_or_else(|e| panic!("rendered text must re-parse: {e}\n{text}"));
    let rebuilt = Module { body: reparsed.into_syntax().body.iter().map(conv_stmt).collect() };
    assert_eq!(rebuilt, *ast.module(), "round trip changed the tree for:\n{text}");
}

fn nm(s: &str) -> Expr {
    Expr::Name { id: s.to_string() }
}

fn sl(s: &str) -> Expr {
    Expr::StringLiteral { value: s.to_string() }
}

fn num(s: &str) -> Expr {
    Expr::NumberLiteral { value: s.to_string() }
}

fn al(n: &str, a: Option<&str>) -> ImportAlias {
    ImportAlias { name: n.to_string(), asname: a.map(|x| x.to_string()) }
}

#[test]
fn round_trip_imports() {
    assert_round_trip(Module {
        body: vec![
            Stmt::Import { names: vec![al("os", None), al("sys", Some("system"))] },
            Stmt::Import { names: vec![al("xml.etree.ElementTree", Some("ET"))] },
            Stmt::ImportFrom {
                module: Some("collections".to_string()),
                names: vec![al("defaultdict", Some("dd")), al("OrderedDict", None)],
            },
        ],
    });
}

#[test]
fn round_trip_definitions() {
    assert_round_trip(Module {
        body: vec![
            Stmt::FunctionDef(FunctionDef {
                name: "f".to_string(),
                params: vec!["a".to_string(), "b".to_string()],
                body: vec![Stmt::Return {
                    value: Some(Expr::BinOp {
                        left: Box::new(nm("a")),
                        op: Operator::Add,
                        right: Box::new(nm("b")),
                    }),
                }],
            }),
            Stmt::ClassDef(ClassDef {
                name: "C".to_string(),
                bases: vec![nm("Base")],
                body: vec![
                    Stmt::FunctionDef(FunctionDef {
                        name: "m".to_string(),
                        params: vec!["self".to_string()],
                        body: vec![Stmt::Pass],
                    }),
                ],
            }),
            // An empty body renders as a single `pass` line, so the
            // canonical form of an empty definition is the one whose body
            // is `[Pass]`; only that form survives the round trip.
            Stmt::ClassDef(ClassDef { name: "D".to_string(), bases: vec![], body: vec![Stmt::Pass] }),
            Stmt::FunctionDef(FunctionDef {
                name: "empty".to_string(),
                params: vec![],
                body: vec![Stmt::Pass],
            }),
        ],
    });
}

#[test]
fn round_trip_expressions() {
    assert_round_trip(Module {
        body: vec![
            Stmt::Assign {
                targets: vec![nm("x")],
                value: Expr::Call {
                    func: Box::new(Expr::Attribute {
                        value: Box::new(nm("obj")),
                        attr: "get".to_string(),
                    }),
                    args: vec![
                        Expr::Subscript {
                            value: Box::new(nm("arr")),
                            index: Box::new(num("0")),
                        },
                        Expr::BooleanLiteral { value: true },
                        Expr::NoneLiteral,
                    ],
                },
            },
            Stmt::Expr {
                value: Expr::BinOp {
                    left: Box::new(num("3")),
                    op: Operator::Pow,
                    right: Box::new(num("2")),
                },
            },
            Stmt::Return { value: None },
        ],
    });
}

#[test]
fn round_trip_string_escaping() {
    assert_round_trip(Module {
        body: vec![
            Stmt::Expr { value: sl("plain") },
            Stmt::Expr { value: sl("back\\slash") },
            Stmt::Expr { value: sl("quote\"inside") },
            Stmt::Expr { value: sl("line\nbreak\ttab\rcarriage") },
            Stmt::Expr { value: sl("mixed \\ \" \n end") },
            Stmt::Expr { value: sl("unicode 世界") },
        ],
    });
}

#[test]
fn round_trip_try_except_is_not_supported_strictly() {
    // The try/except statement lies outside the renderer's supported set:
    // strict rendering refuses it rather than emitting text that would not
    // round-trip.
    let module = Module {
        body: vec![Stmt::TryExcept {
            body: vec![Stmt::Pass],
            handlers: vec![ExceptHandler { exc_type: Some(nm("ValueError")), body: vec![Stmt::Pass] }],
            orelse: vec![],
            finalbody: vec![],
        }],
    };
    let ast = PythonAst::new(module, String::new(), true, true);
    assert!(ast.to_code().is_err());
}

#[test]
fn round_trip_after_refactoring() {
    let module = Module {
        body: vec![
            Stmt::Import { names: vec![al("os", None)] },
            Stmt::FunctionDef(FunctionDef {
                name: "old_name".to_string(),
                params: vec![],
                body: vec![Stmt::Return { value: Some(sl("ok")) }],
            }),
        ],
    };
    let ast = PythonAst::new(module, String::new(), true, true);
    let mut r = pyrustor::Refactor::new(ast);
    r.rename_function("old_name", "new_name").unwrap();
    r.replace_import("os", "pathlib").unwrap();
    let text = r.to_string().unwrap();
    let reparsed = ruff_python_parser::parse_module(&text).unwrap();
    let rebuilt: Vec<Stmt> = reparsed.into_syntax().body.iter().map(conv_stmt).collect();
    assert_eq!(
        rebuilt,
        vec![
            Stmt::Import { names: vec![al("pathlib", None)] },
            Stmt::FunctionDef(FunctionDef {
                name: "new_name".to_string(),
                params: vec![],
                body: vec![Stmt::Return { value: Some(sl("ok")) }],
            }),
        ],
    );
}
