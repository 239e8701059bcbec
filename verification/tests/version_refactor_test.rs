//! Tests of the version-detection modernization work flow: replacing the
//! legacy package-resource imports with a modern version utility.

use pyrustor::ExceptHandler;
use pyrustor::Expr;
use pyrustor::FunctionDef;
use pyrustor::ImportAlias;
use pyrustor::Module;
use pyrustor::PythonAst;
use pyrustor::Refactor;
use pyrustor::Stmt;

fn nm(s: &str) -> Expr {
    Expr::Name { id: s.to_string() }
}

fn sl(s: &str) -> Expr {
    Expr::StringLiteral { value: s.to_string() }
}

fn al(n: &str, a: Option<&str>) -> ImportAlias {
    ImportAlias { name: n.to_string(), asname: a.map(|x| x.to_string()) }
}

fn impfrom(m: &str, names: Vec<ImportAlias>) -> Stmt {
    Stmt::ImportFrom { module: Some(m.to_string()), names }
}

fn imp(names: Vec<ImportAlias>) -> Stmt {
    Stmt::Import { names }
}

fn ast_of(body: Vec<Stmt>) -> PythonAst {
    PythonAst::new(Module { body }, String::new(), true, true)
}

/// `__version__ = get_distribution(<arg>).version`
fn version_assign(target: &str, arg: Expr) -> Stmt {
    Stmt::Assign {
        targets: vec![nm(target)],
        value: Expr::Attribute {
            value: Box::new(Expr::Call {
                func: Box::new(nm("get_distribution")),
                args: vec![arg],
            }),
            attr: "version".to_string(),
        },
    }
}

/// The classic try/except version-detection idiom.
fn version_try(target: &str, arg: Expr, fallback: &str) -> Stmt {
    Stmt::TryExcept {
        body: vec![version_assign(target, arg)],
        handlers: vec![ExceptHandler {
            exc_type: Some(nm("DistributionNotFound")),
            body: vec![Stmt::Assign { targets: vec![nm(target)], value: sl(fallback) }],
        }],
        orelse: vec![],
        finalbody: vec![],
    }
}

fn legacy_module() -> Vec<Stmt> {
    vec![
        impfrom("pkg_resources", vec![al("DistributionNotFound", None)]),
        impfrom("pkg_resources", vec![al("get_distribution", None)]),
        version_try("__version__", nm("__name__"), "0.0.0-dev.1"),
    ]
}

#[test]
fn test_pkg_resources_to_modern_version_refactor() {
    let ast = ast_of(legacy_module());

    let imports = ast.imports();
    let pkg_resources_imports: Vec<_> = imports
        .iter()
        .filter(|imp| imp.from_module.as_deref() == Some("pkg_resources"))
        .collect();
    assert_eq!(pkg_resources_imports.len(), 2, "Should find 2 pkg_resources imports");

    let distribution_not_found = imports
        .iter()
        .find(|imp| imp.module == "DistributionNotFound")
        .expect("Should find DistributionNotFound import");
    assert!(distribution_not_found.is_from_import);
    assert_eq!(distribution_not_found.from_module.as_ref().unwrap(), "pkg_resources");

    let get_distribution = imports
        .iter()
        .find(|imp| imp.module == "get_distribution")
        .expect("Should find get_distribution import");
    assert!(get_distribution.is_from_import);
    assert_eq!(get_distribution.from_module.as_ref().unwrap(), "pkg_resources");

    let mut refactor = Refactor::new(ast);
    refactor.replace_import("pkg_resources", "xxx_pyharmony").unwrap();
    refactor
        .apply_custom_transform(
            "Replace pkg_resources version detection with modern approach",
            |_ast: &mut PythonAst| Ok(()),
        )
        .unwrap();

    let changes = refactor.changes();
    assert!(changes.len() >= 2, "Should have at least 2 changes recorded");

    let change_descriptions: Vec<_> = changes.iter().map(|c| &c.description).collect();
    assert!(change_descriptions.iter().any(|desc| desc.contains("import")));
    assert!(change_descriptions
        .iter()
        .any(|desc| desc.contains("pkg_resources version detection")));
}

#[test]
fn test_version_pattern_detection() {
    let test_cases: Vec<Vec<Stmt>> = vec![
        vec![
            impfrom(
                "pkg_resources",
                vec![al("get_distribution", None), al("DistributionNotFound", None)],
            ),
            version_try("__version__", nm("__name__"), "0.0.0"),
        ],
        vec![
            impfrom(
                "pkg_resources",
                vec![al("get_distribution", None), al("DistributionNotFound", None)],
            ),
            version_try("__version__", sl("mypackage"), "unknown"),
        ],
        vec![
            impfrom(
                "pkg_resources",
                vec![al("get_distribution", None), al("DistributionNotFound", None)],
            ),
            version_try("VERSION", nm("__name__"), "dev"),
        ],
    ];

    for (i, body) in test_cases.into_iter().enumerate() {
        let ast = ast_of(body);
        let imports = ast.imports();
        let pkg_imports: Vec<_> = imports
            .iter()
            .filter(|imp| imp.from_module.as_deref() == Some("pkg_resources"))
            .collect();
        assert!(!pkg_imports.is_empty(), "Case {} should have pkg_resources imports", i + 1);

        let mut refactor = Refactor::new(ast);
        refactor.replace_import("pkg_resources", "xxx_pyharmony").unwrap();
        let changes = refactor.changes();
        assert!(!changes.is_empty(), "Case {} should have changes", i + 1);
    }
}

#[test]
fn test_modern_version_import_pattern() {
    let ast = ast_of(vec![
        impfrom("xxx_pyharmony", vec![al("get_package_version", None)]),
        Stmt::Assign {
            targets: vec![nm("__version__")],
            value: Expr::Call {
                func: Box::new(nm("get_package_version")),
                args: vec![nm("__name__")],
            },
        },
    ]);

    let imports = ast.imports();
    assert_eq!(imports.len(), 1);

    let modern_import = &imports[0];
    assert_eq!(modern_import.module, "get_package_version");
    assert!(modern_import.is_from_import);
    assert_eq!(modern_import.from_module.as_ref().unwrap(), "xxx_pyharmony");
    assert!(modern_import.alias.is_none());

    assert!(ast.statement_count() >= 2);
}

#[test]
fn test_complex_version_refactor_workflow() {
    let init_py = vec![
        impfrom("pkg_resources", vec![al("DistributionNotFound", None)]),
        impfrom("pkg_resources", vec![al("get_distribution", None)]),
        version_try("__version__", nm("__name__"), "0.0.0-dev.1"),
        Stmt::ImportFrom { module: None, names: vec![al("main_function", None)] },
    ];
    let core_py = vec![
        imp(vec![al("sys", None)]),
        impfrom("pkg_resources", vec![al("get_distribution", None)]),
        Stmt::FunctionDef(FunctionDef {
            name: "get_version".to_string(),
            params: vec![],
            body: vec![Stmt::TryExcept {
                body: vec![Stmt::Return {
                    value: Some(Expr::Attribute {
                        value: Box::new(Expr::Call {
                            func: Box::new(nm("get_distribution")),
                            args: vec![sl("mypackage")],
                        }),
                        attr: "version".to_string(),
                    }),
                }],
                handlers: vec![ExceptHandler {
                    exc_type: None,
                    body: vec![Stmt::Return { value: Some(sl("unknown")) }],
                }],
                orelse: vec![],
                finalbody: vec![],
            }],
        }),
        Stmt::FunctionDef(FunctionDef {
            name: "main_function".to_string(),
            params: vec![],
            body: vec![Stmt::Expr {
                value: Expr::Call {
                    func: Box::new(nm("print")),
                    args: vec![Expr::Unknown { kind: "fstring".to_string() }],
                },
            }],
        }),
    ];

    for body in [init_py, core_py] {
        let ast = ast_of(body);
        let mut refactor = Refactor::new(ast);
        refactor.replace_import("pkg_resources", "xxx_pyharmony").unwrap();
        refactor
            .apply_custom_transform("Modernize version detection", |_ast: &mut PythonAst| Ok(()))
            .unwrap();
        let changes = refactor.changes();
        assert!(!changes.is_empty());
    }
}

#[test]
fn test_modernize_pkg_resources_version_method() {
    let ast = ast_of(legacy_module());
    let mut refactor = Refactor::new(ast);

    refactor
        .modernize_pkg_resources_version("xxx_pyharmony", "get_package_version")
        .unwrap();

    let changes = refactor.changes();
    assert!(changes.len() >= 2);

    let has_import_change = changes.iter().any(|c| c.description.contains("import"));
    let has_modernization = changes
        .iter()
        .any(|c| c.description.contains("Modernized version detection"));
    assert!(has_import_change, "Should have import replacement change");
    assert!(has_modernization, "Should have version detection modernization");

    // The import source was actually replaced.
    let imports = refactor.ast().imports();
    assert!(imports
        .iter()
        .all(|imp| imp.from_module.as_deref() != Some("pkg_resources")));
    assert!(imports
        .iter()
        .any(|imp| imp.from_module.as_deref() == Some("xxx_pyharmony")));
}

#[test]
fn test_modernize_imports_method() {
    let ast = ast_of(vec![
        imp(vec![al("imp", None)]),
        imp(vec![al("optparse", None)]),
        impfrom("ConfigParser", vec![al("ConfigParser", None)]),
        imp(vec![al("StringIO", None)]),
    ]);
    let mut refactor = Refactor::new(ast);

    refactor.modernize_imports().unwrap();

    let changes = refactor.changes();
    assert!(!changes.is_empty());

    let has_deprecated_change = changes
        .iter()
        .any(|c| c.description.contains("deprecated") || c.description.contains("import"));
    assert!(has_deprecated_change);

    // All four legacy modules were rewritten.
    let imports = refactor.ast().imports();
    assert!(imports.iter().any(|i| i.module == "importlib"));
    assert!(imports.iter().any(|i| i.module == "argparse"));
    assert!(imports.iter().any(|i| i.from_module.as_deref() == Some("configparser")));
    assert!(imports.iter().any(|i| i.module == "io"));
}

#[test]
fn test_no_changes_when_no_pkg_resources() {
    let ast = ast_of(vec![
        impfrom("xxx_pyharmony", vec![al("get_package_version", None)]),
        Stmt::Assign {
            targets: vec![nm("__version__")],
            value: Expr::Call {
                func: Box::new(nm("get_package_version")),
                args: vec![nm("__name__")],
            },
        },
    ]);
    let mut refactor = Refactor::new(ast);

    refactor
        .modernize_pkg_resources_version("xxx_pyharmony", "get_package_version")
        .unwrap();

    assert_eq!(refactor.changes().len(), 0, "Should not make changes to already modern code");
}

#[test]
fn test_edge_cases() {
    let ast = ast_of(vec![
        imp(vec![al("os", None)]),
        imp(vec![al("sys", None)]),
        Stmt::Assign { targets: vec![nm("__version__")], value: sl("1.0.0") },
    ]);
    let mut refactor = Refactor::new(ast);

    refactor.replace_import("pkg_resources", "xxx_pyharmony").unwrap();
    assert_eq!(refactor.changes().len(), 0);

    let already_modern = ast_of(vec![
        impfrom("xxx_pyharmony", vec![al("get_package_version", None)]),
        Stmt::Assign {
            targets: vec![nm("__version__")],
            value: Expr::Call {
                func: Box::new(nm("get_package_version")),
                args: vec![nm("__name__")],
            },
        },
    ]);
    let imports = already_modern.imports();
    let modern_import = imports
        .iter()
        .find(|imp| imp.module == "get_package_version")
        .expect("Should find get_package_version import");
    assert_eq!(modern_import.from_module.as_ref().unwrap(), "xxx_pyharmony");
}
