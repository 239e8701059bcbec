//! Tests of the refactoring session.

use pyrustor::ClassDef;
use pyrustor::FunctionDef;
use pyrustor::Module;
use pyrustor::PythonAst;
use pyrustor::PyRustorError;
use pyrustor::Refactor;
use pyrustor::Stmt;

fn fndef(name: &str, body: Vec<Stmt>) -> Stmt {
    Stmt::FunctionDef(FunctionDef { name: name.to_string(), params: vec![], body })
}

fn classdef(name: &str, body: Vec<Stmt>) -> Stmt {
    Stmt::ClassDef(ClassDef { name: name.to_string(), bases: vec![], body })
}

fn ast_of(body: Vec<Stmt>, src: &str) -> PythonAst {
    PythonAst::new(Module { body }, src.to_string(), true, true)
}

#[test]
fn test_refactor_creation() {
    let ast = ast_of(vec![fndef("hello", vec![Stmt::Pass])], "def hello(): pass");
    let refactor = Refactor::new(ast);
    assert_eq!(refactor.changes().len(), 0);
}

#[test]
fn test_rename_function() {
    let ast = ast_of(vec![fndef("old_name", vec![Stmt::Pass])], "def old_name(): pass");
    let mut refactor = Refactor::new(ast);

    refactor.rename_function("old_name", "new_name").unwrap();
    assert_eq!(refactor.changes().len(), 1);

    let functions = refactor.ast().functions();
    assert_eq!(functions[0].name.as_str(), "new_name");
}

#[test]
fn test_rename_nonexistent_function() {
    let ast = ast_of(vec![fndef("hello", vec![Stmt::Pass])], "def hello(): pass");
    let mut refactor = Refactor::new(ast);

    let result = refactor.rename_function("nonexistent", "new_name");
    assert!(result.is_err());
}

#[test]
fn test_rename_class() {
    let ast = ast_of(vec![classdef("OldClass", vec![Stmt::Pass])], "class OldClass: pass");
    let mut refactor = Refactor::new(ast);

    refactor.rename_class("OldClass", "NewClass").unwrap();
    assert_eq!(refactor.changes().len(), 1);

    let classes = refactor.ast().classes();
    assert_eq!(classes[0].name.as_str(), "NewClass");
}

#[test]
fn test_change_summary() {
    let ast = ast_of(vec![fndef("hello", vec![Stmt::Pass])], "def hello(): pass");
    let mut refactor = Refactor::new(ast);

    assert_eq!(refactor.change_summary(), "No changes made");

    refactor.rename_function("hello", "greet").unwrap();
    let summary = refactor.change_summary();
    assert!(summary.contains("1 changes"));
    assert!(summary.contains("Renamed function"));
}

#[test]
fn test_change_summary_exact_text() {
    let ast = ast_of(
        vec![fndef("a", vec![Stmt::Pass]), classdef("B", vec![Stmt::Pass])],
        "",
    );
    let mut refactor = Refactor::new(ast);
    refactor.rename_function("a", "c").unwrap();
    refactor.rename_class("B", "D").unwrap();
    assert_eq!(
        refactor.change_summary(),
        "Made 2 changes:\n1. Renamed function 'a' to 'c'\n2. Renamed class 'B' to 'D'\n",
    );
}

#[test]
fn test_rename_error_kind_and_message() {
    let ast = ast_of(vec![fndef("hello", vec![Stmt::Pass])], "def hello(): pass");
    let mut refactor = Refactor::new(ast);
    let err = refactor.rename_function("missing", "x").unwrap_err();
    assert!(matches!(err, PyRustorError::OperationError { .. }));
    assert_eq!(err.message(), "Function 'missing' not found");

    let err = refactor.rename_class("Nope", "x").unwrap_err();
    assert!(matches!(err, PyRustorError::OperationError { .. }));
    assert_eq!(err.message(), "Class 'Nope' not found");
}

#[test]
fn test_rename_does_not_touch_nested_methods() {
    let ast = ast_of(
        vec![
            fndef("f", vec![Stmt::Pass]),
            classdef("C", vec![fndef("f", vec![Stmt::Pass])]),
        ],
        "",
    );
    let mut refactor = Refactor::new(ast);
    refactor.rename_function("f", "g").unwrap();
    assert_eq!(refactor.changes().len(), 1);

    let names = refactor.ast().function_names();
    assert!(names.contains(&"g".to_string()));
    assert!(names.contains(&"f".to_string()));
    let top = refactor.ast().functions();
    assert_eq!(top.len(), 1);
    assert_eq!(top[0].name.as_str(), "g");
}

#[test]
fn test_undo_last_change() {
    let ast = ast_of(vec![fndef("hello", vec![Stmt::Pass])], "def hello(): pass");
    let mut refactor = Refactor::new(ast);

    let err = refactor.undo_last_change().unwrap_err();
    assert!(matches!(err, PyRustorError::OperationError { .. }));
    assert_eq!(err.message(), "No changes to undo");

    refactor.rename_function("hello", "greet").unwrap();
    assert_eq!(refactor.changes().len(), 1);
    refactor.undo_last_change().unwrap();
    assert_eq!(refactor.changes().len(), 0);

    // Removing the entry does not reverse the edit itself.
    let top = refactor.ast().functions();
    assert_eq!(top[0].name.as_str(), "greet");
}

#[test]
fn test_log_only_operations() {
    let ast = ast_of(vec![fndef("hello", vec![Stmt::Pass])], "def hello(): pass");
    let mut refactor = Refactor::new(ast);

    refactor.sort_imports().unwrap();
    refactor.extract_method("helper", 3, 9).unwrap();
    refactor.inline_method("helper").unwrap();
    refactor.format_code().unwrap();
    refactor
        .add_type_hints(vec![("hello".to_string(), "int".to_string())])
        .unwrap();

    let descs: Vec<&String> = refactor.changes().iter().map(|c| &c.description).collect();
    assert_eq!(descs.len(), 5);
    assert_eq!(descs[0], "Sorted imports");
    assert_eq!(descs[1], "Extracted method 'helper'");
    assert_eq!(descs[2], "Inlined method 'helper'");
    assert_eq!(descs[3], "Applied code formatting");
    assert_eq!(descs[4], "Added type hints to function 'hello'");
}

#[test]
fn test_apply_custom_transform_records_one_change() {
    let ast = ast_of(vec![fndef("hello", vec![Stmt::Pass])], "def hello(): pass");
    let mut refactor = Refactor::new(ast);
    refactor
        .apply_custom_transform("my custom edit", |_ast: &mut PythonAst| Ok(()))
        .unwrap();
    assert_eq!(refactor.changes().len(), 1);
    assert_eq!(refactor.changes()[0].description, "my custom edit");
}

#[test]
fn test_apply_custom_transform_error_records_nothing() {
    let ast = ast_of(vec![fndef("hello", vec![Stmt::Pass])], "def hello(): pass");
    let mut refactor = Refactor::new(ast);
    let res = refactor.apply_custom_transform("failing edit", |_ast: &mut PythonAst| {
        Err(PyRustorError::refactor_error("nope".to_string()))
    });
    assert!(res.is_err());
    assert_eq!(refactor.changes().len(), 0);
}

#[test]
fn test_rename_with_format_records_formatting() {
    let ast = ast_of(vec![fndef("a", vec![Stmt::Pass])], "");
    let mut refactor = Refactor::new(ast);
    refactor.rename_function_with_format("a", "b", true).unwrap();
    assert_eq!(refactor.changes().len(), 2);
    assert_eq!(refactor.changes()[1].description, "Applied code formatting");
}
