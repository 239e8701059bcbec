//! The tree handle and the read-only query layer.
//!
//! `PythonAst` owns one module tree together with the source text it came
//! from. The queries are pure depth-first pre-order walks over the node
//! model: they descend into function and class bodies and into all four
//! regions of a try/except statement, never mutate, and return
//! path-addressed references or flattened summaries. A path is valid only
//! against the tree snapshot it was computed from.

use vstd::prelude::*;

use crate::error::PyRustorError;
use crate::nodes::AliasModel;
use crate::nodes::ClassDef;
use crate::nodes::ClassDefModel;
use crate::nodes::Expr;
use crate::nodes::ExprModel;
use crate::nodes::FunctionDef;
use crate::nodes::FunctionDefModel;
use crate::nodes::Module;
use crate::nodes::Stmt;
use crate::nodes::StmtModel;
use crate::nodes::lemma_stmts_model;
use crate::nodes::stmts_model;
use crate::nodes::strings_model;
use crate::strutil::opt_view;
use crate::strutil::str_eq;
use crate::unparse::err_body_m;
use crate::unparse::err_stmt_m;
use crate::unparse::module_supported_m;
use crate::unparse::render_module_m;
use crate::unparse::render_stmt_m;
use crate::unparse::sp_indent;

verus! {

broadcast use {vstd::seq::group_seq_axioms, vstd::std_specs::vec::group_vec_axioms};

/// A position in the original source text.
#[derive(Debug, Clone, Copy, PartialEq, Eq, Structural)]
pub struct SourceLocation {
    pub line: usize,
    pub column: usize,
}

/// A path-addressed reference to one statement within a specific tree
/// snapshot: the ordered index path from the module root, a coarse kind
/// tag, and an optional source location. The reference stays valid only
/// until the tree is mutated.
#[derive(Debug, Clone, PartialEq, Eq)]
pub struct AstNodeRef {
    /// Index path to the node in the tree.
    pub path: Vec<usize>,
    /// Coarse kind tag of the node.
    pub node_type: String,
    /// Source location information, when known.
    pub location: Option<SourceLocation>,
}

/// Ghost counterpart of `AstNodeRef`.
#[verifier::ext_equal]
pub ghost struct NodeRefModel {
    pub path: Seq<usize>,
    pub node_type: Seq<char>,
    pub location: Option<SourceLocation>,
}

impl AstNodeRef {
    /// The mathematical value of this reference.
    pub open spec fn model(self) -> NodeRefModel {
        NodeRefModel { path: self.path@, node_type: self.node_type@, location: self.location }
    }
}

/// The models of a sequence of node references.
pub open spec fn refs_model(s: Seq<AstNodeRef>) -> Seq<NodeRefModel> {
    s.map(|i: int, r: AstNodeRef| r.model())
}

/// One flattened record per aliased imported name.
#[derive(Debug, Clone, PartialEq, Eq)]
pub struct ImportInfo {
    /// The imported module or name.
    pub module: String,
    /// Optional alias for the import.
    pub alias: Option<String>,
    /// Whether this record comes from a `from ... import ...` statement.
    pub is_from_import: bool,
    /// The module imported from, for from-imports that name one.
    pub from_module: Option<String>,
}

/// Ghost counterpart of `ImportInfo`.
#[verifier::ext_equal]
pub ghost struct ImportRecord {
    pub module: Seq<char>,
    pub alias: Option<Seq<char>>,
    pub is_from_import: bool,
    pub from_module: Option<Seq<char>>,
}

impl ImportInfo {
    /// The mathematical value of this record.
    pub open spec fn model(self) -> ImportRecord {
        ImportRecord {
            module: self.module@,
            alias: opt_view(self.alias),
            is_from_import: self.is_from_import,
            from_module: opt_view(self.from_module),
        }
    }
}

/// The models of a sequence of import records.
pub open spec fn infos_model(s: Seq<ImportInfo>) -> Seq<ImportRecord> {
    s.map(|i: int, r: ImportInfo| r.model())
}

/// An import found by `find_imports`.
#[derive(Debug, Clone, PartialEq, Eq)]
pub struct ImportNode {
    /// The module path of the import.
    pub module: String,
    /// Imported items, for from-imports.
    pub items: Vec<String>,
    /// Reference to the statement.
    pub node_ref: AstNodeRef,
}

/// Ghost counterpart of `ImportNode`.
#[verifier::ext_equal]
pub ghost struct ImportNodeModel {
    pub module: Seq<char>,
    pub items: Seq<Seq<char>>,
    pub node_ref: NodeRefModel,
}

impl ImportNode {
    /// The mathematical value of this record.
    pub open spec fn model(self) -> ImportNodeModel {
        ImportNodeModel {
            module: self.module@,
            items: strings_model(self.items@),
            node_ref: self.node_ref.model(),
        }
    }
}

/// A function call found by `find_function_calls`.
#[derive(Debug, Clone, PartialEq, Eq)]
pub struct CallNode {
    /// The matched function name.
    pub function_name: String,
    /// Arguments, in simplified textual form.
    pub args: Vec<String>,
    /// Reference to the enclosing statement.
    pub node_ref: AstNodeRef,
}

/// Ghost counterpart of `CallNode`.
#[verifier::ext_equal]
pub ghost struct CallNodeModel {
    pub function_name: Seq<char>,
    pub args: Seq<Seq<char>>,
    pub node_ref: NodeRefModel,
}

impl CallNode {
    /// The mathematical value of this record.
    pub open spec fn model(self) -> CallNodeModel {
        CallNodeModel {
            function_name: self.function_name@,
            args: strings_model(self.args@),
            node_ref: self.node_ref.model(),
        }
    }
}

/// A try/except statement found by `find_try_except_blocks`.
#[derive(Debug, Clone, PartialEq, Eq)]
pub struct TryExceptNode {
    /// The identifier-form exception type names of its handlers.
    pub exception_types: Vec<String>,
    /// Reference to the statement.
    pub node_ref: AstNodeRef,
}

/// Ghost counterpart of `TryExceptNode`.
#[verifier::ext_equal]
pub ghost struct TryExceptNodeModel {
    pub exception_types: Seq<Seq<char>>,
    pub node_ref: NodeRefModel,
}

impl TryExceptNode {
    /// The mathematical value of this record.
    pub open spec fn model(self) -> TryExceptNodeModel {
        TryExceptNodeModel {
            exception_types: strings_model(self.exception_types@),
            node_ref: self.node_ref.model(),
        }
    }
}

/// An assignment target found by `find_assignments`.
#[derive(Debug, Clone, PartialEq, Eq)]
pub struct AssignmentNode {
    /// The simple-identifier target name.
    pub target: String,
    /// The assigned value, in simplified textual form.
    pub value: String,
    /// Reference to the statement.
    pub node_ref: AstNodeRef,
}

/// Ghost counterpart of `AssignmentNode`.
#[verifier::ext_equal]
pub ghost struct AssignmentNodeModel {
    pub target: Seq<char>,
    pub value: Seq<char>,
    pub node_ref: NodeRefModel,
}

impl AssignmentNode {
    /// The mathematical value of this record.
    pub open spec fn model(self) -> AssignmentNodeModel {
        AssignmentNodeModel {
            target: self.target@,
            value: self.value@,
            node_ref: self.node_ref.model(),
        }
    }
}

/// Common operations of path-addressed nodes.
pub trait AstNode {
    /// The coarse kind tag of the node.
    fn node_type(&self) -> &str;

    /// The line where the node starts, when known.
    fn line_number(&self) -> Option<usize>;

    /// The column where the node starts, when known.
    fn column_number(&self) -> Option<usize>;
}

impl AstNode for AstNodeRef {
    fn node_type(&self) -> &str {
        self.node_type.as_str()
    }

    fn line_number(&self) -> Option<usize> {
        match &self.location {
            Some(loc) => Some(loc.line),
            None => None,
        }
    }

    fn column_number(&self) -> Option<usize> {
        match &self.location {
            Some(loc) => Some(loc.column),
            None => None,
        }
    }
}

/// A parsed module tree, together with the source text it was built from
/// and the parse options that were in force.
#[derive(Debug, PartialEq, Eq)]
pub struct PythonAst {
    module: Module,
    source: String,
    preserve_comments: bool,
    preserve_formatting: bool,
}

impl PythonAst {
    /// The tree this handle owns.
    pub closed spec fn spec_module(self) -> Module {
        self.module
    }

    /// The mathematical value of the owned tree.
    pub open spec fn model(self) -> Seq<StmtModel> {
        self.spec_module().model()
    }

    /// The source text the tree was built from.
    pub closed spec fn source_view(self) -> Seq<char> {
        self.source@
    }

    /// Whether comments were preserved at parse time.
    pub closed spec fn preserves_comments(self) -> bool {
        self.preserve_comments
    }

    /// Whether formatting was preserved at parse time.
    pub closed spec fn preserves_formatting(self) -> bool {
        self.preserve_formatting
    }

    /// Wraps a ready-made tree.
    pub fn new(module: Module, source: String, preserve_comments: bool, preserve_formatting: bool)
        -> (r: PythonAst)
        ensures
            r.spec_module() == module,
            r.source_view() == source@,
            r.preserves_comments() == preserve_comments,
            r.preserves_formatting() == preserve_formatting,
    {
        PythonAst { module, source, preserve_comments, preserve_formatting }
    }

    /// Read access to the tree root.
    pub fn module(&self) -> (r: &Module)
        ensures
            *r == self.spec_module(),
    {
        &self.module
    }

    /// Mutable access to the tree root.
    pub fn module_mut(&mut self) -> (r: &mut Module)
        ensures
            *r == old(self).spec_module(),
            final(self).spec_module() == *final(r),
            final(self).source_view() == old(self).source_view(),
            final(self).preserves_comments() == old(self).preserves_comments(),
            final(self).preserves_formatting() == old(self).preserves_formatting(),
    {
        &mut self.module
    }

    /// The source text.
    pub fn source(&self) -> (r: &str)
        ensures
            r@ == self.source_view(),
    {
        self.source.as_str()
    }

    /// Whether the module holds no statements.
    pub fn is_empty(&self) -> (r: bool)
        ensures
            r == (self.model().len() == 0),
    {
        proof {
            lemma_stmts_model(self.module.body@);
        }
        self.module.body.len() == 0
    }

    /// The number of statements in the module.
    pub fn statement_count(&self) -> (r: usize)
        ensures
            r == self.model().len(),
    {
        proof {
            lemma_stmts_model(self.module.body@);
        }
        self.module.body.len()
    }

    /// Whether every statement is a bare string-literal expression, so the
    /// module holds only docstrings and no executable code.
    pub fn is_comments_only(&self) -> (r: bool)
        ensures
            r == comments_only_m(self.model()),
    {
        let n = self.module.body.len();
        proof {
            lemma_stmts_model(self.module.body@);
        }
        let mut i: usize = 0;
        while i < n
            invariant
                n == self.module.body@.len(),
                i <= n,
                stmts_model(self.module.body@).len() == n,
                forall|j: int|
                    0 <= j < n ==> #[trigger] stmts_model(self.module.body@)[j]
                        == self.module.body@[j].model(),
                forall|j: int| 0 <= j < i ==> is_docstring_m(#[trigger] stmts_model(self.module.body@)[j]),
            decreases n - i,
        {
            let ok = match &self.module.body[i] {
                Stmt::Expr { value: Expr::StringLiteral { .. } } => true,
                _ => false,
            };
            if !ok {
                proof {
                    let s = self.module.body@[i as int];
                    assert(stmts_model(self.module.body@)[i as int] == s.model());
                    assert(!is_docstring_m(s.model()));
                }
                return false;
            }
            i = i + 1;
        }
        true
    }

    /// Renders the tree back to canonical source text, leniently: nodes
    /// outside the supported set appear as placeholder comments and the
    /// call always succeeds.
    pub fn to_string(&self) -> (r: crate::error::Result<String>)
        ensures
            r is Ok,
            r->Ok_0@ == render_module_m(self.model()),
    {
        Ok(crate::unparse::render_module(&self.module))
    }

    /// Renders the tree back to source text, strictly: the first node
    /// outside the supported set fails the call with a structure error
    /// naming the unsupported kind. On success every top-level statement's
    /// rendering is followed by one newline.
    pub fn to_code(&self) -> (r: crate::error::Result<String>)
        ensures
            module_supported_m(self.model()) ==> r is Ok && r->Ok_0@
                == crate::unparse::render_module_strict_m(self.model()),
            !module_supported_m(self.model()) ==> r is Err && r->Err_0 is StructureError
                && r->Err_0.message_view() == err_body_m(self.model())->Some_0,
    {
        crate::unparse::render_module_strict(&self.module)
    }

    /// Renders one statement at the given indentation level, strictly.
    pub fn generate_statement(&self, stmt: &Stmt, indent_level: usize) -> (r: crate::error::Result<
        String,
    >)
        ensures
            err_stmt_m(stmt.model()) is None ==> r is Ok && r->Ok_0@ == render_stmt_m(
                stmt.model(),
                sp_indent(indent_level as nat),
            ),
            err_stmt_m(stmt.model()) is Some ==> r is Err && r->Err_0 is StructureError
                && r->Err_0.message_view() == err_stmt_m(stmt.model())->Some_0,
    {
        let bad = crate::unparse::check_stmt(stmt);
        match bad {
            Some(msg) => Err(PyRustorError::ast_error(msg)),
            None => {
                let ind = crate::unparse::make_indent(indent_level);
                let mut out = String::new();
                crate::unparse::render_stmt(stmt, ind.as_str(), &mut out);
                Ok(out)
            },
        }
    }

    /// Fails with a structure error when the module is empty; otherwise the
    /// tree is considered valid.
    pub fn validate(&self) -> (r: crate::error::Result<()>)
        ensures
            self.model().len() == 0 ==> r is Err && r->Err_0 is StructureError
                && r->Err_0.message_view() == "Empty module"@,
            self.model().len() > 0 ==> r is Ok,
    {
        proof {
            lemma_stmts_model(self.module.body@);
        }
        if self.module.body.len() == 0 {
            let mut m = String::new();
            m.append("Empty module");
            Err(PyRustorError::ast_error(m))
        } else {
            Ok(())
        }
    }
}

impl PythonAst {
    /// One flattened record per aliased imported name, in source order. A
    /// single import statement naming three aliases yields three records;
    /// aliases are never merged or dropped.
    pub fn imports(&self) -> (r: Vec<ImportInfo>)
        ensures
            infos_model(r@) == import_records_m(self.model()),
    {
        let n = self.module.body.len();
        let mut out: Vec<ImportInfo> = Vec::new();
        proof {
            assert(self.module.body@.subrange(0, 0) =~= Seq::<Stmt>::empty());
            assert(infos_model(out@) =~= import_records_m(
                stmts_model(self.module.body@.subrange(0, 0)),
            ));
        }
        let mut i: usize = 0;
        while i < n
            invariant
                n == self.module.body@.len(),
                i <= n,
                infos_model(out@) == import_records_m(
                    stmts_model(self.module.body@.subrange(0, i as int)),
                ),
            decreases n - i,
        {
            match &self.module.body[i] {
                Stmt::Import { names } => {
                    let ghost base = out@;
                    let m = names.len();
                    proof {
                        assert(names@.subrange(0, 0) =~= Seq::<crate::nodes::ImportAlias>::empty());
                        assert(infos_model(out@) =~= infos_model(base) + alias_records(
                            crate::nodes::aliases_model(names@.subrange(0, 0)),
                            false,
                            None,
                        ));
                    }
                    let mut j: usize = 0;
                    while j < m
                        invariant
                            m == names@.len(),
                            j <= m,
                            infos_model(out@) == infos_model(base) + alias_records(
                                crate::nodes::aliases_model(names@.subrange(0, j as int)),
                                false,
                                None,
                            ),
                        decreases m - j,
                    {
                        let info = ImportInfo {
                            module: names[j].name.clone(),
                            alias: clone_opt_string(&names[j].asname),
                            is_from_import: false,
                            from_module: None,
                        };
                        let ghost prev = out@;
                        out.push(info);
                        proof {
                            let a = names@[j as int];
                            assert(a.model() == AliasModel {
                                name: a.name@,
                                asname: opt_view(a.asname),
                            });
                            assert(info.model() == ImportRecord {
                                module: a.name@,
                                alias: opt_view(a.asname),
                                is_from_import: false,
                                from_module: None,
                            });
                            assert(infos_model(out@) =~= infos_model(prev).push(info.model()));
                            assert(infos_model(out@) =~= infos_model(base) + alias_records(
                                crate::nodes::aliases_model(names@.subrange(0, j + 1 as int)),
                                false,
                                None,
                            ));
                        }
                        j = j + 1;
                    }
                    proof {
                        assert(names@.subrange(0, m as int) =~= names@);
                    }
                },
                Stmt::ImportFrom { module, names } => {
                    let ghost base = out@;
                    let m = names.len();
                    proof {
                        assert(names@.subrange(0, 0) =~= Seq::<crate::nodes::ImportAlias>::empty());
                        assert(infos_model(out@) =~= infos_model(base) + alias_records(
                            crate::nodes::aliases_model(names@.subrange(0, 0)),
                            true,
                            opt_view(*module),
                        ));
                    }
                    let mut j: usize = 0;
                    while j < m
                        invariant
                            m == names@.len(),
                            j <= m,
                            infos_model(out@) == infos_model(base) + alias_records(
                                crate::nodes::aliases_model(names@.subrange(0, j as int)),
                                true,
                                opt_view(*module),
                            ),
                        decreases m - j,
                    {
                        let info = ImportInfo {
                            module: names[j].name.clone(),
                            alias: clone_opt_string(&names[j].asname),
                            is_from_import: true,
                            from_module: clone_opt_string(module),
                        };
                        let ghost prev = out@;
                        out.push(info);
                        proof {
                            let a = names@[j as int];
                            assert(a.model() == AliasModel {
                                name: a.name@,
                                asname: opt_view(a.asname),
                            });
                            assert(info.model() == ImportRecord {
                                module: a.name@,
                                alias: opt_view(a.asname),
                                is_from_import: true,
                                from_module: opt_view(*module),
                            });
                            assert(infos_model(out@) =~= infos_model(prev).push(info.model()));
                            assert(infos_model(out@) =~= infos_model(base) + alias_records(
                                crate::nodes::aliases_model(names@.subrange(0, j + 1 as int)),
                                true,
                                opt_view(*module),
                            ));
                        }
                        j = j + 1;
                    }
                    proof {
                        assert(names@.subrange(0, m as int) =~= names@);
                    }
                },
                _ => {},
            }
            proof {
                let pre = self.module.body@.subrange(0, i as int);
                let cur = self.module.body@.subrange(0, i + 1 as int);
                assert(cur.drop_last() =~= pre);
                assert(cur.last() == self.module.body@[i as int]);
                lemma_stmts_model(pre);
                lemma_stmts_model(cur);
                assert(stmts_model(cur).drop_last() =~= stmts_model(pre));
                assert(stmts_model(cur).last() == self.module.body@[i as int].model());
            }
            i = i + 1;
        }
        proof {
            assert(self.module.body@.subrange(0, n as int) =~= self.module.body@);
        }
        out
    }

    /// The names of all function definitions, including methods nested
    /// inside class bodies, collected depth-first.
    pub fn function_names(&self) -> (r: Vec<String>)
        ensures
            strings_model(r@) == fn_names_m(self.model()),
    {
        let mut out: Vec<String> = Vec::new();
        proof {
            assert(strings_model(out@) =~= Seq::<Seq<char>>::empty());
        }
        collect_function_names(&self.module.body, &mut out);
        proof {
            assert(Seq::<Seq<char>>::empty() + fn_names_m(self.model()) =~= fn_names_m(
                self.model(),
            ));
        }
        out
    }

    /// The names of the top-level class definitions.
    pub fn class_names(&self) -> (r: Vec<String>)
        ensures
            strings_model(r@) == class_names_m(self.model()),
    {
        let n = self.module.body.len();
        let mut out: Vec<String> = Vec::new();
        proof {
            assert(self.module.body@.subrange(0, 0) =~= Seq::<Stmt>::empty());
            assert(strings_model(out@) =~= class_names_m(
                stmts_model(self.module.body@.subrange(0, 0)),
            ));
        }
        let mut i: usize = 0;
        while i < n
            invariant
                n == self.module.body@.len(),
                i <= n,
                strings_model(out@) == class_names_m(
                    stmts_model(self.module.body@.subrange(0, i as int)),
                ),
            decreases n - i,
        {
            match &self.module.body[i] {
                Stmt::ClassDef(c) => {
                    out.push(c.name.clone());
                },
                _ => {},
            }
            proof {
                let pre = self.module.body@.subrange(0, i as int);
                let cur = self.module.body@.subrange(0, i + 1 as int);
                assert(cur.drop_last() =~= pre);
                assert(cur.last() == self.module.body@[i as int]);
                lemma_stmts_model(pre);
                lemma_stmts_model(cur);
                assert(stmts_model(cur).drop_last() =~= stmts_model(pre));
                assert(stmts_model(cur).last() == self.module.body@[i as int].model());
                assert(strings_model(out@) =~= class_names_m(stmts_model(cur)));
            }
            i = i + 1;
        }
        proof {
            assert(self.module.body@.subrange(0, n as int) =~= self.module.body@);
        }
        out
    }

    /// The top-level function definitions, in order.
    pub fn functions(&self) -> (r: Vec<&FunctionDef>)
        ensures
            fn_refs_model(r@) == top_fns_m(self.model()),
    {
        let n = self.module.body.len();
        let mut out: Vec<&FunctionDef> = Vec::new();
        proof {
            assert(self.module.body@.subrange(0, 0) =~= Seq::<Stmt>::empty());
            assert(fn_refs_model(out@) =~= top_fns_m(stmts_model(self.module.body@.subrange(0, 0))));
        }
        let mut i: usize = 0;
        while i < n
            invariant
                n == self.module.body@.len(),
                i <= n,
                fn_refs_model(out@) == top_fns_m(
                    stmts_model(self.module.body@.subrange(0, i as int)),
                ),
            decreases n - i,
        {
            match &self.module.body[i] {
                Stmt::FunctionDef(f) => {
                    out.push(f);
                },
                _ => {},
            }
            proof {
                let pre = self.module.body@.subrange(0, i as int);
                let cur = self.module.body@.subrange(0, i + 1 as int);
                assert(cur.drop_last() =~= pre);
                assert(cur.last() == self.module.body@[i as int]);
                lemma_stmts_model(pre);
                lemma_stmts_model(cur);
                assert(stmts_model(cur).drop_last() =~= stmts_model(pre));
                assert(stmts_model(cur).last() == self.module.body@[i as int].model());
                assert(fn_refs_model(out@) =~= top_fns_m(stmts_model(cur)));
            }
            i = i + 1;
        }
        proof {
            assert(self.module.body@.subrange(0, n as int) =~= self.module.body@);
        }
        out
    }

    /// The top-level class definitions, in order.
    pub fn classes(&self) -> (r: Vec<&ClassDef>)
        ensures
            class_refs_model(r@) == top_classes_m(self.model()),
    {
        let n = self.module.body.len();
        let mut out: Vec<&ClassDef> = Vec::new();
        proof {
            assert(self.module.body@.subrange(0, 0) =~= Seq::<Stmt>::empty());
            assert(class_refs_model(out@) =~= top_classes_m(
                stmts_model(self.module.body@.subrange(0, 0)),
            ));
        }
        let mut i: usize = 0;
        while i < n
            invariant
                n == self.module.body@.len(),
                i <= n,
                class_refs_model(out@) == top_classes_m(
                    stmts_model(self.module.body@.subrange(0, i as int)),
                ),
            decreases n - i,
        {
            match &self.module.body[i] {
                Stmt::ClassDef(c) => {
                    out.push(c);
                },
                _ => {},
            }
            proof {
                let pre = self.module.body@.subrange(0, i as int);
                let cur = self.module.body@.subrange(0, i + 1 as int);
                assert(cur.drop_last() =~= pre);
                assert(cur.last() == self.module.body@[i as int]);
                lemma_stmts_model(pre);
                lemma_stmts_model(cur);
                assert(stmts_model(cur).drop_last() =~= stmts_model(pre));
                assert(stmts_model(cur).last() == self.module.body@[i as int].model());
                assert(class_refs_model(out@) =~= top_classes_m(stmts_model(cur)));
            }
            i = i + 1;
        }
        proof {
            assert(self.module.body@.subrange(0, n as int) =~= self.module.body@);
        }
        out
    }
}

/// Copies an optional string.
fn clone_opt_string(o: &Option<String>) -> (r: Option<String>)
    ensures
        r == *o,
{
    match o {
        Some(s) => Some(s.clone()),
        None => None,
    }
}

/// Collects function names from a statement block: function definitions
/// contribute their names and class bodies are searched recursively.
fn collect_function_names(ss: &Vec<Stmt>, out: &mut Vec<String>)
    ensures
        strings_model(final(out)@) == strings_model(old(out)@) + fn_names_m(stmts_model(ss@)),
    decreases ss@,
{
    let n = ss.len();
    proof {
        assert(ss@.subrange(0, 0) =~= Seq::<Stmt>::empty());
        assert(strings_model(out@) =~= strings_model(old(out)@) + fn_names_m(
            stmts_model(ss@.subrange(0, 0)),
        ));
    }
    let mut i: usize = 0;
    while i < n
        invariant
            n == ss@.len(),
            i <= n,
            strings_model(out@) == strings_model(old(out)@) + fn_names_m(
                stmts_model(ss@.subrange(0, i as int)),
            ),
        decreases n - i,
    {
        match &ss[i] {
            Stmt::FunctionDef(f) => {
                let ghost prev = out@;
                out.push(f.name.clone());
                proof {
                    assert(ss@[i as int].model() == StmtModel::FunctionDef(f.model()));
                    assert(stmt_fn_names(ss@[i as int].model()) =~= seq![f.name@]);
                    assert(strings_model(out@) =~= strings_model(prev).push(f.name@));
                }
            },
            Stmt::ClassDef(c) => {
                proof {
                    assert(ss@[i as int] == Stmt::ClassDef(*c));
                    assert(ss@[i as int].model() == StmtModel::ClassDef(c.model()));
                    assert(stmt_fn_names(ss@[i as int].model()) == fn_names_m(
                        stmts_model(c.body@),
                    ));
                }
                collect_function_names(&c.body, out);
            },
            _ => {},
        }
        proof {
            let pre = ss@.subrange(0, i as int);
            let cur = ss@.subrange(0, i + 1 as int);
            assert(cur.drop_last() =~= pre);
            assert(cur.last() == ss@[i as int]);
            lemma_stmts_model(pre);
            lemma_stmts_model(cur);
            assert(stmts_model(cur).drop_last() =~= stmts_model(pre));
            assert(stmts_model(cur).last() == ss@[i as int].model());
            assert(stmts_model(cur).drop_last() == stmts_model(pre));
            assert(fn_names_m(stmts_model(cur)) == fn_names_m(stmts_model(pre)) + stmt_fn_names(
                ss@[i as int].model(),
            ));
            assert(strings_model(out@) =~= strings_model(old(out)@) + fn_names_m(
                stmts_model(cur),
            ));
        }
        i = i + 1;
    }
    proof {
        assert(ss@.subrange(0, n as int) =~= ss@);
    }
}

/// The flattened import records contributed by one statement.
pub open spec fn stmt_import_records(s: StmtModel) -> Seq<ImportRecord> {
    match s {
        StmtModel::Import { names } => alias_records(names, false, None),
        StmtModel::ImportFrom { module, names } => alias_records(names, true, module),
        _ => Seq::empty(),
    }
}

/// The flattened records of a sequence of aliases.
pub open spec fn alias_records(
    names: Seq<AliasModel>,
    is_from: bool,
    from_mod: Option<Seq<char>>,
) -> Seq<ImportRecord> {
    names.map(
        |i: int, a: AliasModel|
            ImportRecord {
                module: a.name,
                alias: a.asname,
                is_from_import: is_from,
                from_module: from_mod,
            },
    )
}

/// All flattened import records of a module, in source order.
pub open spec fn import_records_m(ss: Seq<StmtModel>) -> Seq<ImportRecord>
    decreases ss,
{
    if ss.len() == 0 {
        Seq::empty()
    } else {
        import_records_m(ss.drop_last()) + stmt_import_records(ss.last())
    }
}

/// The function names contributed by one statement.
pub open spec fn stmt_fn_names(s: StmtModel) -> Seq<Seq<char>>
    decreases s,
{
    match s {
        StmtModel::FunctionDef(f) => seq![f.name],
        StmtModel::ClassDef(c) => fn_names_m(c.body),
        _ => Seq::empty(),
    }
}

/// The function names of a statement block, including methods nested inside
/// class bodies, depth-first.
pub open spec fn fn_names_m(ss: Seq<StmtModel>) -> Seq<Seq<char>>
    decreases ss,
{
    if ss.len() == 0 {
        Seq::empty()
    } else {
        fn_names_m(ss.drop_last()) + stmt_fn_names(ss.last())
    }
}

/// The top-level class names of a module.
pub open spec fn class_names_m(ss: Seq<StmtModel>) -> Seq<Seq<char>>
    decreases ss,
{
    if ss.len() == 0 {
        Seq::empty()
    } else {
        class_names_m(ss.drop_last()) + (match ss.last() {
            StmtModel::ClassDef(c) => seq![c.name],
            _ => Seq::empty(),
        })
    }
}

/// The top-level function definitions of a module.
pub open spec fn top_fns_m(ss: Seq<StmtModel>) -> Seq<FunctionDefModel>
    decreases ss,
{
    if ss.len() == 0 {
        Seq::empty()
    } else {
        top_fns_m(ss.drop_last()) + (match ss.last() {
            StmtModel::FunctionDef(f) => seq![f],
            _ => Seq::empty(),
        })
    }
}

/// The top-level class definitions of a module.
pub open spec fn top_classes_m(ss: Seq<StmtModel>) -> Seq<ClassDefModel>
    decreases ss,
{
    if ss.len() == 0 {
        Seq::empty()
    } else {
        top_classes_m(ss.drop_last()) + (match ss.last() {
            StmtModel::ClassDef(c) => seq![c],
            _ => Seq::empty(),
        })
    }
}

/// The models of a sequence of function-definition references.
pub open spec fn fn_refs_model(s: Seq<&FunctionDef>) -> Seq<FunctionDefModel> {
    s.map(|i: int, f: &FunctionDef| f.model())
}

/// The models of a sequence of class-definition references.
pub open spec fn class_refs_model(s: Seq<&ClassDef>) -> Seq<ClassDefModel> {
    s.map(|i: int, c: &ClassDef| c.model())
}

impl PythonAst {
    /// One path-addressed reference per statement, recursively, optionally
    /// filtered to one coarse kind among function_def, class_def, import,
    /// import_from, try_except, assign and other.
    pub fn find_nodes(&self, node_type: Option<&str>) -> (r: Vec<AstNodeRef>)
        ensures
            refs_model(r@) == find_nodes_m(self.model(), opt_pat_view(node_type), Seq::empty()),
    {
        let mut out: Vec<AstNodeRef> = Vec::new();
        let mut path: Vec<usize> = Vec::new();
        proof {
            assert(refs_model(out@) =~= Seq::<NodeRefModel>::empty());
        }
        find_nodes_rec(&self.module.body, node_type, &mut path, &mut out);
        proof {
            assert(Seq::<NodeRefModel>::empty() + find_nodes_m(
                self.model(),
                opt_pat_view(node_type),
                Seq::empty(),
            ) =~= find_nodes_m(self.model(), opt_pat_view(node_type), Seq::empty()));
        }
        out
    }
}

/// Copies an index path.
fn clone_path(v: &Vec<usize>) -> (r: Vec<usize>)
    ensures
        r@ == v@,
{
    let n = v.len();
    let mut out: Vec<usize> = Vec::new();
    let mut i: usize = 0;
    while i < n
        invariant
            n == v@.len(),
            i <= n,
            out@ == v@.subrange(0, i as int),
        decreases n - i,
    {
        out.push(v[i]);
        proof {
            assert(out@ =~= v@.subrange(0, i + 1 as int));
        }
        i = i + 1;
    }
    proof {
        assert(v@.subrange(0, n as int) =~= v@);
    }
    out
}

/// The coarse kind tag of a statement.
fn kind_of(s: &Stmt) -> (r: &'static str)
    ensures
        r@ == stmt_kind_m(s.model()),
{
    match s {
        Stmt::FunctionDef(..) => "function_def",
        Stmt::ClassDef(..) => "class_def",
        Stmt::Import { .. } => "import",
        Stmt::ImportFrom { .. } => "import_from",
        Stmt::TryExcept { .. } => "try_except",
        Stmt::Assign { .. } => "assign",
        _ => "other",
    }
}

/// Collects node references from a block, appending to `out`; `path` holds
/// the index path of the enclosing statement and is restored on return.
#[verifier::rlimit(100)]
#[verifier::spinoff_prover]
#[verifier::loop_isolation(false)]
fn find_nodes_rec(ss: &Vec<Stmt>, filt: Option<&str>, path: &mut Vec<usize>, out: &mut Vec<
    AstNodeRef,
>)
    ensures
        final(path)@ == old(path)@,
        refs_model(final(out)@) == refs_model(old(out)@) + find_nodes_m(
            stmts_model(ss@),
            opt_pat_view(filt),
            old(path)@,
        ),
    decreases ss@,
{
    let n = ss.len();
    proof {
        assert(ss@.subrange(0, 0) =~= Seq::<Stmt>::empty());
        assert(refs_model(out@) =~= refs_model(old(out)@) + find_nodes_m(
            stmts_model(ss@.subrange(0, 0)),
            opt_pat_view(filt),
            old(path)@,
        ));
    }
    let mut i: usize = 0;
    while i < n
        invariant
            n == ss@.len(),
            i <= n,
            path@ == old(path)@,
            refs_model(out@) == refs_model(old(out)@) + find_nodes_m(
                stmts_model(ss@.subrange(0, i as int)),
                opt_pat_view(filt),
                old(path)@,
            ),
        decreases n - i,
    {
        path.push(i);
        let ghost deeper = old(path)@.push(i as usize);
        let kind = kind_of(&ss[i]);
        let selected = match filt {
            Some(f) => str_eq(f, kind),
            None => true,
        };
        let ghost mid0 = out@;
        if selected {
            let node = AstNodeRef { path: clone_path(path), node_type: kind.to_owned(), location: None };
            out.push(node);
            proof {
                assert(node.model() == NodeRefModel {
                    path: deeper,
                    node_type: stmt_kind_m(ss@[i as int].model()),
                    location: None,
                });
                assert(refs_model(out@) =~= refs_model(mid0).push(node.model()));
            }
        }
        let ghost mid = out@;
        proof {
            if selected {
                assert(refs_model(mid) =~= refs_model(mid0) + seq![
                    NodeRefModel {
                        path: deeper,
                        node_type: stmt_kind_m(ss@[i as int].model()),
                        location: None,
                    },
                ]);
            } else {
                assert(refs_model(mid) =~= refs_model(mid0) + Seq::<NodeRefModel>::empty());
            }
        }
        match &ss[i] {
            Stmt::FunctionDef(f) => {
                proof {
                    assert(ss@[i as int] == Stmt::FunctionDef(*f));
                    assert(ss@[i as int].model() == StmtModel::FunctionDef(f.model()));
                }
                find_nodes_rec(&f.body, filt, path, out);
            },
            Stmt::ClassDef(c) => {
                proof {
                    assert(ss@[i as int] == Stmt::ClassDef(*c));
                    assert(ss@[i as int].model() == StmtModel::ClassDef(c.model()));
                }
                find_nodes_rec(&c.body, filt, path, out);
            },
            Stmt::TryExcept { body, handlers, orelse, finalbody } => {
                proof {
                    assert(ss@[i as int] == Stmt::TryExcept {
                        body: *body,
                        handlers: *handlers,
                        orelse: *orelse,
                        finalbody: *finalbody,
                    });
                }
                find_nodes_rec(body, filt, path, out);
                let ghost afterbody = out@;
                let hn = handlers.len();
                proof {
                    assert(handlers@.subrange(0, 0) =~= Seq::<crate::nodes::ExceptHandler>::empty());
                    assert(refs_model(out@) =~= refs_model(afterbody) + handlers_find_nodes_m(
                        crate::nodes::handlers_model(handlers@.subrange(0, 0)),
                        opt_pat_view(filt),
                        deeper,
                    ));
                }
                let mut j: usize = 0;
                while j < hn
                    invariant
                        hn == handlers@.len(),
                        j <= hn,
                        path@ == old(path)@.push(i as usize),
                        deeper == old(path)@.push(i as usize),
                        refs_model(out@) == refs_model(afterbody) + handlers_find_nodes_m(
                            crate::nodes::handlers_model(handlers@.subrange(0, j as int)),
                            opt_pat_view(filt),
                            deeper,
                        ),
                    decreases hn - j,
                {
                    proof {
                        assert(handlers@[j as int].model() == crate::nodes::HandlerModel {
                            exc_type: crate::nodes::opt_expr_model(handlers@[j as int].exc_type),
                            body: stmts_model(handlers@[j as int].body@),
                        });
                        assert(decreases_to!(ss@ => ss@[i as int]));
                        assert(decreases_to!(ss@[i as int] => *handlers));
                        assert(decreases_to!(*handlers => handlers@));
                        assert(decreases_to!(handlers@ => handlers@[j as int]));
                        assert(decreases_to!(handlers@[j as int] => handlers@[j as int].body));
                        assert(decreases_to!(handlers@[j as int].body => handlers@[j as int].body@));
                        assert(decreases_to!(ss@ => handlers@[j as int].body@));
                    }
                    find_nodes_rec(&handlers[j].body, filt, path, out);
                    proof {
                        let pre = handlers@.subrange(0, j as int);
                        let cur = handlers@.subrange(0, j + 1 as int);
                        assert(cur.drop_last() =~= pre);
                        assert(cur.last() == handlers@[j as int]);
                        crate::nodes::lemma_handlers_model(pre);
                        crate::nodes::lemma_handlers_model(cur);
                        assert(crate::nodes::handlers_model(cur).drop_last() =~= crate::nodes::handlers_model(pre));
                        assert(crate::nodes::handlers_model(cur).drop_last() == crate::nodes::handlers_model(pre));
                        assert(crate::nodes::handlers_model(cur).last() == handlers@[j as int].model());
                        assert(refs_model(out@) =~= refs_model(afterbody) + handlers_find_nodes_m(
                            crate::nodes::handlers_model(cur),
                            opt_pat_view(filt),
                            deeper,
                        ));
                    }
                    j = j + 1;
                }
                proof {
                    assert(handlers@.subrange(0, hn as int) =~= handlers@);
                }
                find_nodes_rec(orelse, filt, path, out);
                find_nodes_rec(finalbody, filt, path, out);
            },
            _ => {},
        }
        path.pop();
        proof {
            assert(path@ =~= old(path)@);
            let pre = ss@.subrange(0, i as int);
            let cur = ss@.subrange(0, i + 1 as int);
            assert(cur.drop_last() =~= pre);
            assert(cur.last() == ss@[i as int]);
            lemma_stmts_model(pre);
            lemma_stmts_model(cur);
            assert(stmts_model(cur).drop_last() =~= stmts_model(pre));
            assert(stmts_model(cur).drop_last() == stmts_model(pre));
            assert(stmts_model(cur).last() == ss@[i as int].model());
            assert((stmts_model(cur).len() - 1) as usize == i as usize);
            assert(find_nodes_m(stmts_model(cur), opt_pat_view(filt), old(path)@) == find_nodes_m(
                stmts_model(pre),
                opt_pat_view(filt),
                old(path)@,
            ) + stmt_find_nodes_m(ss@[i as int].model(), opt_pat_view(filt), deeper));
            assert(refs_model(out@) =~= refs_model(old(out)@) + find_nodes_m(
                stmts_model(cur),
                opt_pat_view(filt),
                old(path)@,
            ));
        }
        i = i + 1;
    }
    proof {
        assert(ss@.subrange(0, n as int) =~= ss@);
    }
}

/// The view of an optional pattern argument.
pub open spec fn opt_pat_view(o: Option<&str>) -> Option<Seq<char>> {
    match o {
        Some(s) => Some(s@),
        None => None,
    }
}

/// Whether a name passes a substring filter: no filter admits everything.
pub open spec fn pat_matches(pat: Option<Seq<char>>, s: Seq<char>) -> bool {
    match pat {
        None => true,
        Some(p) => crate::strutil::contains_sub(s, p),
    }
}

/// Whether a kind tag passes an exact kind filter.
pub open spec fn kind_sel(filt: Option<Seq<char>>, kind: Seq<char>) -> bool {
    match filt {
        None => true,
        Some(f) => f == kind,
    }
}

/// The coarse kind tag of a statement.
pub open spec fn stmt_kind_m(s: StmtModel) -> Seq<char> {
    match s {
        StmtModel::FunctionDef(..) => "function_def"@,
        StmtModel::ClassDef(..) => "class_def"@,
        StmtModel::Import { .. } => "import"@,
        StmtModel::ImportFrom { .. } => "import_from"@,
        StmtModel::TryExcept { .. } => "try_except"@,
        StmtModel::Assign { .. } => "assign"@,
        _ => "other"@,
    }
}

/// The node references contributed by the statements of one block, with
/// `prefix` the index path of the enclosing statement.
pub open spec fn find_nodes_m(
    ss: Seq<StmtModel>,
    filt: Option<Seq<char>>,
    prefix: Seq<usize>,
) -> Seq<NodeRefModel>
    decreases ss,
{
    if ss.len() == 0 {
        Seq::empty()
    } else {
        find_nodes_m(ss.drop_last(), filt, prefix) + stmt_find_nodes_m(
            ss.last(),
            filt,
            prefix.push((ss.len() - 1) as usize),
        )
    }
}

/// The node references contributed by one statement at index path `path`:
/// its own reference when the filter admits it, then those of its nested
/// blocks, depth-first.
pub open spec fn stmt_find_nodes_m(
    s: StmtModel,
    filt: Option<Seq<char>>,
    path: Seq<usize>,
) -> Seq<NodeRefModel>
    decreases s,
{
    (if kind_sel(filt, stmt_kind_m(s)) {
        seq![NodeRefModel { path, node_type: stmt_kind_m(s), location: None }]
    } else {
        Seq::empty()
    }) + (match s {
        StmtModel::FunctionDef(f) => find_nodes_m(f.body, filt, path),
        StmtModel::ClassDef(c) => find_nodes_m(c.body, filt, path),
        StmtModel::TryExcept { body, handlers, orelse, finalbody } => find_nodes_m(
            body,
            filt,
            path,
        ) + handlers_find_nodes_m(handlers, filt, path) + find_nodes_m(orelse, filt, path)
            + find_nodes_m(finalbody, filt, path),
        _ => Seq::empty(),
    })
}

/// The node references contributed by the bodies of a sequence of handlers.
pub open spec fn handlers_find_nodes_m(
    hs: Seq<crate::nodes::HandlerModel>,
    filt: Option<Seq<char>>,
    path: Seq<usize>,
) -> Seq<NodeRefModel>
    decreases hs,
{
    if hs.len() == 0 {
        Seq::empty()
    } else {
        handlers_find_nodes_m(hs.drop_last(), filt, path) + find_nodes_m(
            hs.last().body,
            filt,
            path,
        )
    }
}

/// The models of a sequence of call records.
pub open spec fn calls_model(s: Seq<CallNode>) -> Seq<CallNodeModel> {
    s.map(|i: int, r: CallNode| r.model())
}

/// The models of a sequence of try/except records.
pub open spec fn trys_model(s: Seq<TryExceptNode>) -> Seq<TryExceptNodeModel> {
    s.map(|i: int, r: TryExceptNode| r.model())
}

/// The models of a sequence of assignment records.
pub open spec fn assigns_model(s: Seq<AssignmentNode>) -> Seq<AssignmentNodeModel> {
    s.map(|i: int, r: AssignmentNode| r.model())
}

/// The models of a sequence of import nodes.
pub open spec fn import_nodes_model(s: Seq<ImportNode>) -> Seq<ImportNodeModel> {
    s.map(|i: int, r: ImportNode| r.model())
}

/// One call record for a match at index path `path`.
pub open spec fn call_rec_m(name: Seq<char>, path: Seq<usize>) -> CallNodeModel {
    CallNodeModel {
        function_name: name,
        args: Seq::empty(),
        node_ref: NodeRefModel { path, node_type: "call"@, location: None },
    }
}

/// The call records found inside one expression: a call matches when its
/// callee is a bare identifier equal to `name` or an attribute access whose
/// attribute equals `name`; the search recurses into call arguments,
/// attribute receivers, binary operands and subscript value and index.
pub open spec fn calls_in_expr_m(e: ExprModel, name: Seq<char>, path: Seq<usize>) -> Seq<
    CallNodeModel,
>
    decreases e,
{
    match e {
        ExprModel::Call { func, args } => (if *func matches ExprModel::Name { id } && id == name {
            seq![call_rec_m(name, path)]
        } else {
            Seq::empty()
        }) + (if *func matches ExprModel::Attribute { attr, .. } && attr == name {
            seq![call_rec_m(name, path)]
        } else {
            Seq::empty()
        }) + calls_in_exprs_m(args, name, path),
        ExprModel::Attribute { value, .. } => calls_in_expr_m(*value, name, path),
        ExprModel::BinOp { left, right, .. } => calls_in_expr_m(*left, name, path)
            + calls_in_expr_m(*right, name, path),
        ExprModel::Subscript { value, index } => calls_in_expr_m(*value, name, path)
            + calls_in_expr_m(*index, name, path),
        _ => Seq::empty(),
    }
}

/// The call records found inside a sequence of expressions, in order.
pub open spec fn calls_in_exprs_m(es: Seq<ExprModel>, name: Seq<char>, path: Seq<usize>) -> Seq<
    CallNodeModel,
>
    decreases es,
{
    if es.len() == 0 {
        Seq::empty()
    } else {
        calls_in_exprs_m(es.drop_last(), name, path) + calls_in_expr_m(es.last(), name, path)
    }
}

/// The call records found in the expressions of one statement itself:
/// assignment values and bare expression statements are searched.
pub open spec fn calls_in_stmt_m(s: StmtModel, name: Seq<char>, path: Seq<usize>) -> Seq<
    CallNodeModel,
> {
    match s {
        StmtModel::Assign { value, .. } => calls_in_expr_m(value, name, path),
        StmtModel::Expr { value } => calls_in_expr_m(value, name, path),
        _ => Seq::empty(),
    }
}

/// The call records contributed by one statement: its own expressions, then
/// its nested blocks, depth-first.
pub open spec fn stmt_find_calls_m(s: StmtModel, name: Seq<char>, path: Seq<usize>) -> Seq<
    CallNodeModel,
>
    decreases s,
{
    calls_in_stmt_m(s, name, path) + (match s {
        StmtModel::FunctionDef(f) => find_calls_m(f.body, name, path),
        StmtModel::ClassDef(c) => find_calls_m(c.body, name, path),
        StmtModel::TryExcept { body, handlers, orelse, finalbody } => find_calls_m(
            body,
            name,
            path,
        ) + handlers_find_calls_m(handlers, name, path) + find_calls_m(orelse, name, path)
            + find_calls_m(finalbody, name, path),
        _ => Seq::empty(),
    })
}

/// The call records contributed by a block of statements.
pub open spec fn find_calls_m(ss: Seq<StmtModel>, name: Seq<char>, prefix: Seq<usize>) -> Seq<
    CallNodeModel,
>
    decreases ss,
{
    if ss.len() == 0 {
        Seq::empty()
    } else {
        find_calls_m(ss.drop_last(), name, prefix) + stmt_find_calls_m(
            ss.last(),
            name,
            prefix.push((ss.len() - 1) as usize),
        )
    }
}

/// The call records contributed by the bodies of a sequence of handlers.
pub open spec fn handlers_find_calls_m(
    hs: Seq<crate::nodes::HandlerModel>,
    name: Seq<char>,
    path: Seq<usize>,
) -> Seq<CallNodeModel>
    decreases hs,
{
    if hs.len() == 0 {
        Seq::empty()
    } else {
        handlers_find_calls_m(hs.drop_last(), name, path) + find_calls_m(hs.last().body, name, path)
    }
}

/// The identifier-form exception type names of a sequence of handlers.
pub open spec fn handler_type_names_m(hs: Seq<crate::nodes::HandlerModel>) -> Seq<Seq<char>>
    decreases hs,
{
    if hs.len() == 0 {
        Seq::empty()
    } else {
        handler_type_names_m(hs.drop_last()) + (match hs.last().exc_type {
            Some(ExprModel::Name { id }) => seq![id],
            _ => Seq::empty(),
        })
    }
}

/// Whether a list of names contains a given name.
pub open spec fn names_contain(xs: Seq<Seq<char>>, t: Seq<char>) -> bool {
    exists|i: int| 0 <= i < xs.len() && #[trigger] xs[i] == t
}

/// Whether a try/except statement passes the exception-type filter: no
/// filter admits every try statement; a filter admits those naming the
/// requested type among any handler.
pub open spec fn try_sel(filt: Option<Seq<char>>, types: Seq<Seq<char>>) -> bool {
    match filt {
        None => true,
        Some(t) => names_contain(types, t),
    }
}

/// The try/except records contributed by one statement.
pub open spec fn stmt_find_trys_m(s: StmtModel, filt: Option<Seq<char>>, path: Seq<usize>) -> Seq<
    TryExceptNodeModel,
>
    decreases s,
{
    match s {
        StmtModel::TryExcept { body, handlers, orelse, finalbody } => (if try_sel(
            filt,
            handler_type_names_m(handlers),
        ) {
            seq![
                TryExceptNodeModel {
                    exception_types: handler_type_names_m(handlers),
                    node_ref: NodeRefModel { path, node_type: "try_except"@, location: None },
                },
            ]
        } else {
            Seq::empty()
        }) + find_trys_m(body, filt, path) + handlers_find_trys_m(handlers, filt, path)
            + find_trys_m(orelse, filt, path) + find_trys_m(finalbody, filt, path),
        StmtModel::FunctionDef(f) => find_trys_m(f.body, filt, path),
        StmtModel::ClassDef(c) => find_trys_m(c.body, filt, path),
        _ => Seq::empty(),
    }
}

/// The try/except records contributed by a block of statements.
pub open spec fn find_trys_m(ss: Seq<StmtModel>, filt: Option<Seq<char>>, prefix: Seq<usize>) -> Seq<
    TryExceptNodeModel,
>
    decreases ss,
{
    if ss.len() == 0 {
        Seq::empty()
    } else {
        find_trys_m(ss.drop_last(), filt, prefix) + stmt_find_trys_m(
            ss.last(),
            filt,
            prefix.push((ss.len() - 1) as usize),
        )
    }
}

/// The try/except records contributed by the bodies of a sequence of
/// handlers.
pub open spec fn handlers_find_trys_m(
    hs: Seq<crate::nodes::HandlerModel>,
    filt: Option<Seq<char>>,
    path: Seq<usize>,
) -> Seq<TryExceptNodeModel>
    decreases hs,
{
    if hs.len() == 0 {
        Seq::empty()
    } else {
        handlers_find_trys_m(hs.drop_last(), filt, path) + find_trys_m(hs.last().body, filt, path)
    }
}

/// The assignment records of the targets of one assignment: only simple
/// identifier targets are matched; tuple or attribute targets are not.
pub open spec fn assign_targets_m(
    ts: Seq<ExprModel>,
    filt: Option<Seq<char>>,
    path: Seq<usize>,
) -> Seq<AssignmentNodeModel>
    decreases ts,
{
    if ts.len() == 0 {
        Seq::empty()
    } else {
        assign_targets_m(ts.drop_last(), filt, path) + (match ts.last() {
            ExprModel::Name { id } => if pat_matches(filt, id) {
                seq![
                    AssignmentNodeModel {
                        target: id,
                        value: "..."@,
                        node_ref: NodeRefModel { path, node_type: "assign"@, location: None },
                    },
                ]
            } else {
                Seq::empty()
            },
            _ => Seq::empty(),
        })
    }
}

/// The assignment records contributed by one statement.
pub open spec fn stmt_find_assigns_m(
    s: StmtModel,
    filt: Option<Seq<char>>,
    path: Seq<usize>,
) -> Seq<AssignmentNodeModel>
    decreases s,
{
    match s {
        StmtModel::Assign { targets, .. } => assign_targets_m(targets, filt, path),
        StmtModel::FunctionDef(f) => find_assigns_m(f.body, filt, path),
        StmtModel::ClassDef(c) => find_assigns_m(c.body, filt, path),
        StmtModel::TryExcept { body, handlers, orelse, finalbody } => find_assigns_m(
            body,
            filt,
            path,
        ) + handlers_find_assigns_m(handlers, filt, path) + find_assigns_m(orelse, filt, path)
            + find_assigns_m(finalbody, filt, path),
        _ => Seq::empty(),
    }
}

/// The assignment records contributed by a block of statements.
pub open spec fn find_assigns_m(
    ss: Seq<StmtModel>,
    filt: Option<Seq<char>>,
    prefix: Seq<usize>,
) -> Seq<AssignmentNodeModel>
    decreases ss,
{
    if ss.len() == 0 {
        Seq::empty()
    } else {
        find_assigns_m(ss.drop_last(), filt, prefix) + stmt_find_assigns_m(
            ss.last(),
            filt,
            prefix.push((ss.len() - 1) as usize),
        )
    }
}

/// The assignment records contributed by the bodies of a sequence of
/// handlers.
pub open spec fn handlers_find_assigns_m(
    hs: Seq<crate::nodes::HandlerModel>,
    filt: Option<Seq<char>>,
    path: Seq<usize>,
) -> Seq<AssignmentNodeModel>
    decreases hs,
{
    if hs.len() == 0 {
        Seq::empty()
    } else {
        handlers_find_assigns_m(hs.drop_last(), filt, path) + find_assigns_m(
            hs.last().body,
            filt,
            path,
        )
    }
}

/// The import nodes of one plain import statement at top-level index `idx`:
/// one record per alias whose module name passes the substring filter.
pub open spec fn plain_alias_nodes_m(
    names: Seq<AliasModel>,
    pat: Option<Seq<char>>,
    idx: usize,
) -> Seq<ImportNodeModel>
    decreases names,
{
    if names.len() == 0 {
        Seq::empty()
    } else {
        plain_alias_nodes_m(names.drop_last(), pat, idx) + (if pat_matches(
            pat,
            names.last().name,
        ) {
            seq![
                ImportNodeModel {
                    module: names.last().name,
                    items: Seq::empty(),
                    node_ref: NodeRefModel {
                        path: seq![idx],
                        node_type: "import"@,
                        location: None,
                    },
                },
            ]
        } else {
            Seq::empty()
        })
    }
}

/// The import nodes of one from-import statement: one record per aliased
/// name, carrying the source module as the module path.
pub open spec fn from_alias_nodes_m(names: Seq<AliasModel>, m: Seq<char>, idx: usize) -> Seq<
    ImportNodeModel,
> {
    names.map(
        |i: int, a: AliasModel|
            ImportNodeModel {
                module: m,
                items: seq![a.name],
                node_ref: NodeRefModel {
                    path: seq![idx],
                    node_type: "import_from"@,
                    location: None,
                },
            },
    )
}

/// The import nodes contributed by one top-level statement.
pub open spec fn stmt_find_imports_m(s: StmtModel, pat: Option<Seq<char>>, idx: usize) -> Seq<
    ImportNodeModel,
> {
    match s {
        StmtModel::Import { names } => plain_alias_nodes_m(names, pat, idx),
        StmtModel::ImportFrom { module, names } => match module {
            Some(m) => if pat_matches(pat, m) {
                from_alias_nodes_m(names, m, idx)
            } else {
                Seq::empty()
            },
            None => Seq::empty(),
        },
        _ => Seq::empty(),
    }
}

/// The import nodes of a module's top-level statements: one record per
/// aliased import whose module path passes the substring filter. Relative
/// from-imports without a source module yield no records.
pub open spec fn find_imports_m(ss: Seq<StmtModel>, pat: Option<Seq<char>>) -> Seq<ImportNodeModel>
    decreases ss,
{
    if ss.len() == 0 {
        Seq::empty()
    } else {
        find_imports_m(ss.drop_last(), pat) + stmt_find_imports_m(
            ss.last(),
            pat,
            (ss.len() - 1) as usize,
        )
    }
}

impl PythonAst {
    /// One record per call of the given name: both the bare `f()` shape and
    /// the attribute `obj.f()` shape match, anywhere inside assignment
    /// values and bare expressions, recursively through the tree. The
    /// search descends through every composite variant of the closed
    /// expression set — call arguments, attribute receivers, binary
    /// operands, and subscript value and index. Expressions outside that
    /// set, such as unary, comparison and boolean operations, are held by
    /// the opaque arm, which the search cannot enter: a call buried inside
    /// one is not found.
    pub fn find_function_calls(&self, function_name: &str) -> (r: Vec<CallNode>)
        ensures
            calls_model(r@) == find_calls_m(self.model(), function_name@, Seq::empty()),
    {
        let mut out: Vec<CallNode> = Vec::new();
        let mut path: Vec<usize> = Vec::new();
        proof {
            assert(calls_model(out@) =~= Seq::<CallNodeModel>::empty());
        }
        find_calls_rec(&self.module.body, function_name, &mut path, &mut out);
        proof {
            assert(Seq::<CallNodeModel>::empty() + find_calls_m(
                self.model(),
                function_name@,
                Seq::empty(),
            ) =~= find_calls_m(self.model(), function_name@, Seq::empty()));
        }
        out
    }

    /// One record per try statement, tagged with the identifier-form
    /// exception type names of its handlers; a filter keeps only the try
    /// statements naming the requested type among any handler.
    pub fn find_try_except_blocks(&self, exception_type: Option<&str>) -> (r: Vec<TryExceptNode>)
        ensures
            trys_model(r@) == find_trys_m(self.model(), opt_pat_view(exception_type), Seq::empty()),
    {
        let mut out: Vec<TryExceptNode> = Vec::new();
        let mut path: Vec<usize> = Vec::new();
        proof {
            assert(trys_model(out@) =~= Seq::<TryExceptNodeModel>::empty());
        }
        find_trys_rec(&self.module.body, exception_type, &mut path, &mut out);
        proof {
            assert(Seq::<TryExceptNodeModel>::empty() + find_trys_m(
                self.model(),
                opt_pat_view(exception_type),
                Seq::empty(),
            ) =~= find_trys_m(self.model(), opt_pat_view(exception_type), Seq::empty()));
        }
        out
    }

    /// One record per simple-identifier assignment target whose name passes
    /// the substring filter; tuple and attribute targets are not matched.
    pub fn find_assignments(&self, target_pattern: Option<&str>) -> (r: Vec<AssignmentNode>)
        ensures
            assigns_model(r@) == find_assigns_m(
                self.model(),
                opt_pat_view(target_pattern),
                Seq::empty(),
            ),
    {
        let mut out: Vec<AssignmentNode> = Vec::new();
        let mut path: Vec<usize> = Vec::new();
        proof {
            assert(assigns_model(out@) =~= Seq::<AssignmentNodeModel>::empty());
        }
        find_assigns_rec(&self.module.body, target_pattern, &mut path, &mut out);
        proof {
            assert(Seq::<AssignmentNodeModel>::empty() + find_assigns_m(
                self.model(),
                opt_pat_view(target_pattern),
                Seq::empty(),
            ) =~= find_assigns_m(self.model(), opt_pat_view(target_pattern), Seq::empty()));
        }
        out
    }

    /// One record per aliased import among the top-level statements, with
    /// the module path restricted to those containing the filter substring.
    #[verifier::rlimit(100)]
    #[verifier::spinoff_prover]
    #[verifier::loop_isolation(false)]
    pub fn find_imports(&self, module_pattern: Option<&str>) -> (r: Vec<ImportNode>)
        ensures
            import_nodes_model(r@) == find_imports_m(self.model(), opt_pat_view(module_pattern)),
    {
        let n = self.module.body.len();
        let mut out: Vec<ImportNode> = Vec::new();
        proof {
            assert(self.module.body@.subrange(0, 0) =~= Seq::<Stmt>::empty());
            assert(import_nodes_model(out@) =~= find_imports_m(
                stmts_model(self.module.body@.subrange(0, 0)),
                opt_pat_view(module_pattern),
            ));
        }
        let mut i: usize = 0;
        while i < n
            invariant
                n == self.module.body@.len(),
                i <= n,
                import_nodes_model(out@) == find_imports_m(
                    stmts_model(self.module.body@.subrange(0, i as int)),
                    opt_pat_view(module_pattern),
                ),
            decreases n - i,
        {
            let ghost base = out@;
            match &self.module.body[i] {
                Stmt::Import { names } => {
                    let m = names.len();
                    proof {
                        assert(names@.subrange(0, 0) =~= Seq::<crate::nodes::ImportAlias>::empty());
                        assert(import_nodes_model(out@) =~= import_nodes_model(base)
                            + plain_alias_nodes_m(
                            crate::nodes::aliases_model(names@.subrange(0, 0)),
                            opt_pat_view(module_pattern),
                            i,
                        ));
                    }
                    let mut j: usize = 0;
                    while j < m
                        invariant
                            m == names@.len(),
                            j <= m,
                            import_nodes_model(out@) == import_nodes_model(base)
                                + plain_alias_nodes_m(
                                crate::nodes::aliases_model(names@.subrange(0, j as int)),
                                opt_pat_view(module_pattern),
                                i,
                            ),
                        decreases m - j,
                    {
                        let sel = match module_pattern {
                            None => true,
                            Some(p) => crate::strutil::str_contains(names[j].name.as_str(), p),
                        };
                        proof {
                            assert(names@[j as int].model() == AliasModel {
                                name: names@[j as int].name@,
                                asname: opt_view(names@[j as int].asname),
                            });
                        }
                        if sel {
                            let node = ImportNode {
                                module: names[j].name.clone(),
                                items: Vec::new(),
                                node_ref: AstNodeRef {
                                    path: single_path(i),
                                    node_type: "import".to_owned(),
                                    location: None,
                                },
                            };
                            let ghost prev = out@;
                            out.push(node);
                            proof {
                                assert(node.model() =~= ImportNodeModel {
                                    module: names@[j as int].name@,
                                    items: Seq::empty(),
                                    node_ref: NodeRefModel {
                                        path: seq![i],
                                        node_type: "import"@,
                                        location: None,
                                    },
                                });
                                assert(import_nodes_model(out@) =~= import_nodes_model(prev).push(
                                    node.model(),
                                ));
                            }
                        }
                        proof {
                            let pre = names@.subrange(0, j as int);
                            let cur = names@.subrange(0, j + 1 as int);
                            assert(cur.drop_last() =~= pre);
                            assert(crate::nodes::aliases_model(cur).drop_last()
                                =~= crate::nodes::aliases_model(pre));
                            assert(crate::nodes::aliases_model(cur).drop_last()
                                == crate::nodes::aliases_model(pre));
                            assert(crate::nodes::aliases_model(cur).last() == names@[j as int].model());
                            assert(import_nodes_model(out@) =~= import_nodes_model(base)
                                + plain_alias_nodes_m(
                                crate::nodes::aliases_model(cur),
                                opt_pat_view(module_pattern),
                                i,
                            ));
                        }
                        j = j + 1;
                    }
                    proof {
                        assert(names@.subrange(0, m as int) =~= names@);
                    }
                },
                Stmt::ImportFrom { module, names } => {
                    match module {
                        Some(src) => {
                            let sel = match module_pattern {
                                None => true,
                                Some(p) => crate::strutil::str_contains(src.as_str(), p),
                            };
                            if sel {
                                let m = names.len();
                                proof {
                                    assert(names@.subrange(0, 0) =~= Seq::<
                                        crate::nodes::ImportAlias,
                                    >::empty());
                                    assert(import_nodes_model(out@) =~= import_nodes_model(base)
                                        + from_alias_nodes_m(
                                        crate::nodes::aliases_model(names@.subrange(0, 0)),
                                        src@,
                                        i,
                                    ));
                                }
                                let mut j: usize = 0;
                                while j < m
                                    invariant
                                        m == names@.len(),
                                        j <= m,
                                        import_nodes_model(out@) == import_nodes_model(base)
                                            + from_alias_nodes_m(
                                            crate::nodes::aliases_model(names@.subrange(0, j as int)),
                                            src@,
                                            i,
                                        ),
                                    decreases m - j,
                                {
                                    let mut items: Vec<String> = Vec::new();
                                    items.push(names[j].name.clone());
                                    let node = ImportNode {
                                        module: src.clone(),
                                        items,
                                        node_ref: AstNodeRef {
                                            path: single_path(i),
                                            node_type: "import_from".to_owned(),
                                            location: None,
                                        },
                                    };
                                    let ghost prev = out@;
                                    out.push(node);
                                    proof {
                                        assert(names@[j as int].model() == AliasModel {
                                            name: names@[j as int].name@,
                                            asname: opt_view(names@[j as int].asname),
                                        });
                                        assert(strings_model(node.items@) =~= seq![
                                            names@[j as int].name@,
                                        ]);
                                        assert(import_nodes_model(out@) =~= import_nodes_model(
                                            prev,
                                        ).push(node.model()));
                                        let pre = names@.subrange(0, j as int);
                                        let cur = names@.subrange(0, j + 1 as int);
                                        assert(cur.drop_last() =~= pre);
                                        assert(crate::nodes::aliases_model(cur).drop_last()
                                            =~= crate::nodes::aliases_model(pre));
                                        assert(crate::nodes::aliases_model(cur).drop_last()
                                            == crate::nodes::aliases_model(pre));
                                        assert(crate::nodes::aliases_model(cur).last() == names@[j as int].model());
                                        assert(import_nodes_model(out@) =~= import_nodes_model(base)
                                            + from_alias_nodes_m(
                                            crate::nodes::aliases_model(cur),
                                            src@,
                                            i,
                                        ));
                                    }
                                    j = j + 1;
                                }
                                proof {
                                    assert(names@.subrange(0, m as int) =~= names@);
                                }
                            }
                        },
                        None => {},
                    }
                },
                _ => {},
            }
            proof {
                let pre = self.module.body@.subrange(0, i as int);
                let cur = self.module.body@.subrange(0, i + 1 as int);
                assert(cur.drop_last() =~= pre);
                assert(cur.last() == self.module.body@[i as int]);
                lemma_stmts_model(pre);
                lemma_stmts_model(cur);
                assert(stmts_model(cur).drop_last() =~= stmts_model(pre));
                assert(stmts_model(cur).drop_last() == stmts_model(pre));
                assert(stmts_model(cur).last() == self.module.body@[i as int].model());
                assert((stmts_model(cur).len() - 1) as usize == i as usize);
                assert(find_imports_m(stmts_model(cur), opt_pat_view(module_pattern))
                    == find_imports_m(stmts_model(pre), opt_pat_view(module_pattern))
                    + stmt_find_imports_m(
                    self.module.body@[i as int].model(),
                    opt_pat_view(module_pattern),
                    i,
                ));
                assert(import_nodes_model(out@) =~= find_imports_m(
                    stmts_model(cur),
                    opt_pat_view(module_pattern),
                ));
            }
            i = i + 1;
        }
        proof {
            assert(self.module.body@.subrange(0, n as int) =~= self.module.body@);
        }
        out
    }
}

/// A one-element index path.
fn single_path(i: usize) -> (r: Vec<usize>)
    ensures
        r@ == seq![i],
{
    let mut out: Vec<usize> = Vec::new();
    out.push(i);
    proof {
        assert(out@ =~= seq![i]);
    }
    out
}

/// Collects the call records inside one expression.
#[verifier::rlimit(100)]
#[verifier::spinoff_prover]
#[verifier::loop_isolation(false)]
fn collect_calls_expr(e: &Expr, name: &str, path: &Vec<usize>, out: &mut Vec<CallNode>)
    ensures
        calls_model(final(out)@) == calls_model(old(out)@) + calls_in_expr_m(
            e.model(),
            name@,
            path@,
        ),
    decreases e,
{
    match e {
        Expr::Call { func, args } => {
            match &**func {
                Expr::Name { id } => {
                    proof {
                        assert((**func).model() == ExprModel::Name { id: id@ });
                    }
                    if str_eq(id.as_str(), name) {
                        push_call_rec(name, path, out);
                    }
                },
                Expr::Attribute { attr, value } => {
                    proof {
                        assert((**func).model() == ExprModel::Attribute {
                            value: Box::new((**value).model()),
                            attr: attr@,
                        });
                    }
                    if str_eq(attr.as_str(), name) {
                        push_call_rec(name, path, out);
                    }
                },
                _ => {},
            }
            let ghost mid = out@;
            let n = args.len();
            proof {
                assert(args@.subrange(0, 0) =~= Seq::<Expr>::empty());
                assert(calls_model(out@) =~= calls_model(mid) + calls_in_exprs_m(
                    crate::nodes::exprs_model(args@.subrange(0, 0)),
                    name@,
                    path@,
                ));
            }
            let mut j: usize = 0;
            while j < n
                invariant
                    n == args@.len(),
                    j <= n,
                    calls_model(out@) == calls_model(mid) + calls_in_exprs_m(
                        crate::nodes::exprs_model(args@.subrange(0, j as int)),
                        name@,
                        path@,
                    ),
                decreases n - j,
            {
                collect_calls_expr(&args[j], name, path, out);
                proof {
                    let pre = args@.subrange(0, j as int);
                    let cur = args@.subrange(0, j + 1 as int);
                    assert(cur.drop_last() =~= pre);
                    assert(cur.last() == args@[j as int]);
                    crate::nodes::lemma_exprs_model(pre);
                    crate::nodes::lemma_exprs_model(cur);
                    assert(crate::nodes::exprs_model(cur).drop_last() =~= crate::nodes::exprs_model(
                        pre,
                    ));
                    assert(crate::nodes::exprs_model(cur).drop_last() == crate::nodes::exprs_model(
                        pre,
                    ));
                    assert(crate::nodes::exprs_model(cur).last() == args@[j as int].model());
                    assert(calls_model(out@) =~= calls_model(mid) + calls_in_exprs_m(
                        crate::nodes::exprs_model(cur),
                        name@,
                        path@,
                    ));
                }
                j = j + 1;
            }
            proof {
                assert(args@.subrange(0, n as int) =~= args@);
                assert(calls_model(out@) =~= calls_model(old(out)@) + calls_in_expr_m(
                    e.model(),
                    name@,
                    path@,
                ));
            }
        },
        Expr::Attribute { value, .. } => {
            collect_calls_expr(&**value, name, path, out);
        },
        Expr::BinOp { left, right, .. } => {
            collect_calls_expr(&**left, name, path, out);
            collect_calls_expr(&**right, name, path, out);
            proof {
                assert(calls_model(out@) =~= calls_model(old(out)@) + calls_in_expr_m(
                    e.model(),
                    name@,
                    path@,
                ));
            }
        },
        Expr::Subscript { value, index } => {
            collect_calls_expr(&**value, name, path, out);
            collect_calls_expr(&**index, name, path, out);
            proof {
                assert(calls_model(out@) =~= calls_model(old(out)@) + calls_in_expr_m(
                    e.model(),
                    name@,
                    path@,
                ));
            }
        },
        _ => {
            proof {
                assert(calls_in_expr_m(e.model(), name@, path@) =~= Seq::<CallNodeModel>::empty());
                assert(calls_model(out@) =~= calls_model(old(out)@) + calls_in_expr_m(
                    e.model(),
                    name@,
                    path@,
                ));
            }
        },
    }
}

/// Appends one call record for a match of `name` at `path`.
fn push_call_rec(name: &str, path: &Vec<usize>, out: &mut Vec<CallNode>)
    ensures
        calls_model(final(out)@) == calls_model(old(out)@) + seq![call_rec_m(name@, path@)],
{
    let node = CallNode {
        function_name: name.to_owned(),
        args: Vec::new(),
        node_ref: AstNodeRef {
            path: clone_path(path),
            node_type: "call".to_owned(),
            location: None,
        },
    };
    out.push(node);
    proof {
        assert(node.model() =~= call_rec_m(name@, path@));
        assert(calls_model(out@) =~= calls_model(old(out)@) + seq![call_rec_m(name@, path@)]);
    }
}

/// Collects call records from a block, appending to `out`.
#[verifier::rlimit(100)]
#[verifier::spinoff_prover]
#[verifier::loop_isolation(false)]
fn find_calls_rec(ss: &Vec<Stmt>, name: &str, path: &mut Vec<usize>, out: &mut Vec<CallNode>)
    ensures
        final(path)@ == old(path)@,
        calls_model(final(out)@) == calls_model(old(out)@) + find_calls_m(
            stmts_model(ss@),
            name@,
            old(path)@,
        ),
    decreases ss@,
{
    let n = ss.len();
    proof {
        assert(ss@.subrange(0, 0) =~= Seq::<Stmt>::empty());
        assert(calls_model(out@) =~= calls_model(old(out)@) + find_calls_m(
            stmts_model(ss@.subrange(0, 0)),
            name@,
            old(path)@,
        ));
    }
    let mut i: usize = 0;
    while i < n
        invariant
            n == ss@.len(),
            i <= n,
            path@ == old(path)@,
            calls_model(out@) == calls_model(old(out)@) + find_calls_m(
                stmts_model(ss@.subrange(0, i as int)),
                name@,
                old(path)@,
            ),
        decreases n - i,
    {
        path.push(i);
        let ghost deeper = old(path)@.push(i as usize);
        let ghost mid0 = out@;
        match &ss[i] {
            Stmt::Assign { value, .. } => {
                collect_calls_expr(value, name, path, out);
            },
            Stmt::Expr { value } => {
                collect_calls_expr(value, name, path, out);
            },
            Stmt::FunctionDef(f) => {
                proof {
                    assert(ss@[i as int] == Stmt::FunctionDef(*f));
                    assert(ss@[i as int].model() == StmtModel::FunctionDef(f.model()));
                }
                find_calls_rec(&f.body, name, path, out);
            },
            Stmt::ClassDef(c) => {
                proof {
                    assert(ss@[i as int] == Stmt::ClassDef(*c));
                    assert(ss@[i as int].model() == StmtModel::ClassDef(c.model()));
                }
                find_calls_rec(&c.body, name, path, out);
            },
            Stmt::TryExcept { body, handlers, orelse, finalbody } => {
                proof {
                    assert(ss@[i as int] == Stmt::TryExcept {
                        body: *body,
                        handlers: *handlers,
                        orelse: *orelse,
                        finalbody: *finalbody,
                    });
                }
                find_calls_rec(body, name, path, out);
                let ghost afterbody = out@;
                let hn = handlers.len();
                proof {
                    assert(handlers@.subrange(0, 0) =~= Seq::<crate::nodes::ExceptHandler>::empty());
                    assert(calls_model(out@) =~= calls_model(afterbody) + handlers_find_calls_m(
                        crate::nodes::handlers_model(handlers@.subrange(0, 0)),
                        name@,
                        deeper,
                    ));
                }
                let mut j: usize = 0;
                while j < hn
                    invariant
                        hn == handlers@.len(),
                        j <= hn,
                        path@ == old(path)@.push(i as usize),
                        calls_model(out@) == calls_model(afterbody) + handlers_find_calls_m(
                            crate::nodes::handlers_model(handlers@.subrange(0, j as int)),
                            name@,
                            deeper,
                        ),
                    decreases hn - j,
                {
                    proof {
                        assert(handlers@[j as int].model() == crate::nodes::HandlerModel {
                            exc_type: crate::nodes::opt_expr_model(handlers@[j as int].exc_type),
                            body: stmts_model(handlers@[j as int].body@),
                        });
                        assert(decreases_to!(ss@ => ss@[i as int]));
                        assert(decreases_to!(ss@[i as int] => *handlers));
                        assert(decreases_to!(*handlers => handlers@));
                        assert(decreases_to!(handlers@ => handlers@[j as int]));
                        assert(decreases_to!(handlers@[j as int] => handlers@[j as int].body));
                        assert(decreases_to!(handlers@[j as int].body => handlers@[j as int].body@));
                        assert(decreases_to!(ss@ => handlers@[j as int].body@));
                    }
                    find_calls_rec(&handlers[j].body, name, path, out);
                    proof {
                        let pre = handlers@.subrange(0, j as int);
                        let cur = handlers@.subrange(0, j + 1 as int);
                        assert(cur.drop_last() =~= pre);
                        assert(cur.last() == handlers@[j as int]);
                        crate::nodes::lemma_handlers_model(pre);
                        crate::nodes::lemma_handlers_model(cur);
                        assert(crate::nodes::handlers_model(cur).drop_last()
                            =~= crate::nodes::handlers_model(pre));
                        assert(crate::nodes::handlers_model(cur).drop_last()
                            == crate::nodes::handlers_model(pre));
                        assert(crate::nodes::handlers_model(cur).last() == handlers@[j as int].model());
                        assert(calls_model(out@) =~= calls_model(afterbody) + handlers_find_calls_m(
                            crate::nodes::handlers_model(cur),
                            name@,
                            deeper,
                        ));
                    }
                    j = j + 1;
                }
                proof {
                    assert(handlers@.subrange(0, hn as int) =~= handlers@);
                }
                find_calls_rec(orelse, name, path, out);
                find_calls_rec(finalbody, name, path, out);
            },
            _ => {},
        }
        path.pop();
        proof {
            assert(path@ =~= old(path)@);
            let pre = ss@.subrange(0, i as int);
            let cur = ss@.subrange(0, i + 1 as int);
            assert(cur.drop_last() =~= pre);
            assert(cur.last() == ss@[i as int]);
            lemma_stmts_model(pre);
            lemma_stmts_model(cur);
            assert(stmts_model(cur).drop_last() =~= stmts_model(pre));
            assert(stmts_model(cur).drop_last() == stmts_model(pre));
            assert(stmts_model(cur).last() == ss@[i as int].model());
            assert((stmts_model(cur).len() - 1) as usize == i as usize);
            assert(find_calls_m(stmts_model(cur), name@, old(path)@) == find_calls_m(
                stmts_model(pre),
                name@,
                old(path)@,
            ) + stmt_find_calls_m(ss@[i as int].model(), name@, deeper));
            assert(calls_model(out@) =~= calls_model(old(out)@) + find_calls_m(
                stmts_model(cur),
                name@,
                old(path)@,
            ));
        }
        i = i + 1;
    }
    proof {
        assert(ss@.subrange(0, n as int) =~= ss@);
    }
}

/// The identifier-form exception type names of a handler list.
#[verifier::loop_isolation(false)]
fn handler_types_of(handlers: &Vec<crate::nodes::ExceptHandler>) -> (r: Vec<String>)
    ensures
        strings_model(r@) == handler_type_names_m(crate::nodes::handlers_model(handlers@)),
{
    let n = handlers.len();
    let mut out: Vec<String> = Vec::new();
    proof {
        assert(handlers@.subrange(0, 0) =~= Seq::<crate::nodes::ExceptHandler>::empty());
        assert(strings_model(out@) =~= handler_type_names_m(
            crate::nodes::handlers_model(handlers@.subrange(0, 0)),
        ));
    }
    let mut i: usize = 0;
    while i < n
        invariant
            n == handlers@.len(),
            i <= n,
            strings_model(out@) == handler_type_names_m(
                crate::nodes::handlers_model(handlers@.subrange(0, i as int)),
            ),
        decreases n - i,
    {
        proof {
            assert(handlers@[i as int].model() == crate::nodes::HandlerModel {
                exc_type: crate::nodes::opt_expr_model(handlers@[i as int].exc_type),
                body: stmts_model(handlers@[i as int].body@),
            });
        }
        match &handlers[i].exc_type {
            Some(Expr::Name { id }) => {
                out.push(id.clone());
            },
            _ => {},
        }
        proof {
            let pre = handlers@.subrange(0, i as int);
            let cur = handlers@.subrange(0, i + 1 as int);
            assert(cur.drop_last() =~= pre);
            assert(cur.last() == handlers@[i as int]);
            crate::nodes::lemma_handlers_model(pre);
            crate::nodes::lemma_handlers_model(cur);
            assert(crate::nodes::handlers_model(cur).drop_last() =~= crate::nodes::handlers_model(
                pre,
            ));
            assert(crate::nodes::handlers_model(cur).drop_last() == crate::nodes::handlers_model(
                pre,
            ));
            assert(crate::nodes::handlers_model(cur).last() == handlers@[i as int].model());
            assert(strings_model(out@) =~= handler_type_names_m(
                crate::nodes::handlers_model(cur),
            ));
        }
        i = i + 1;
    }
    proof {
        assert(handlers@.subrange(0, n as int) =~= handlers@);
    }
    out
}

/// Whether a list of names holds the given name.
fn names_contain_exec(v: &Vec<String>, t: &str) -> (r: bool)
    ensures
        r == names_contain(strings_model(v@), t@),
{
    let n = v.len();
    let mut i: usize = 0;
    while i < n
        invariant
            n == v@.len(),
            i <= n,
            forall|k: int| 0 <= k < i ==> #[trigger] strings_model(v@)[k] != t@,
        decreases n - i,
    {
        if str_eq(v[i].as_str(), t) {
            proof {
                assert(strings_model(v@)[i as int] == t@);
            }
            return true;
        }
        proof {
            assert(strings_model(v@)[i as int] == v@[i as int]@);
        }
        i = i + 1;
    }
    false
}

/// Collects try/except records from a block, appending to `out`.
#[verifier::rlimit(100)]
#[verifier::spinoff_prover]
#[verifier::loop_isolation(false)]
fn find_trys_rec(ss: &Vec<Stmt>, filt: Option<&str>, path: &mut Vec<usize>, out: &mut Vec<
    TryExceptNode,
>)
    ensures
        final(path)@ == old(path)@,
        trys_model(final(out)@) == trys_model(old(out)@) + find_trys_m(
            stmts_model(ss@),
            opt_pat_view(filt),
            old(path)@,
        ),
    decreases ss@,
{
    let n = ss.len();
    proof {
        assert(ss@.subrange(0, 0) =~= Seq::<Stmt>::empty());
        assert(trys_model(out@) =~= trys_model(old(out)@) + find_trys_m(
            stmts_model(ss@.subrange(0, 0)),
            opt_pat_view(filt),
            old(path)@,
        ));
    }
    let mut i: usize = 0;
    while i < n
        invariant
            n == ss@.len(),
            i <= n,
            path@ == old(path)@,
            trys_model(out@) == trys_model(old(out)@) + find_trys_m(
                stmts_model(ss@.subrange(0, i as int)),
                opt_pat_view(filt),
                old(path)@,
            ),
        decreases n - i,
    {
        path.push(i);
        let ghost deeper = old(path)@.push(i as usize);
        match &ss[i] {
            Stmt::TryExcept { body, handlers, orelse, finalbody } => {
                proof {
                    assert(ss@[i as int] == Stmt::TryExcept {
                        body: *body,
                        handlers: *handlers,
                        orelse: *orelse,
                        finalbody: *finalbody,
                    });
                }
                let types = handler_types_of(handlers);
                let sel = match filt {
                    None => true,
                    Some(t) => names_contain_exec(&types, t),
                };
                let ghost mid0 = out@;
                if sel {
                    let node = TryExceptNode {
                        exception_types: types,
                        node_ref: AstNodeRef {
                            path: clone_path(path),
                            node_type: "try_except".to_owned(),
                            location: None,
                        },
                    };
                    out.push(node);
                    proof {
                        assert(node.model() == TryExceptNodeModel {
                            exception_types: handler_type_names_m(
                                crate::nodes::handlers_model(handlers@),
                            ),
                            node_ref: NodeRefModel {
                                path: deeper,
                                node_type: "try_except"@,
                                location: None,
                            },
                        });
                        assert(trys_model(out@) =~= trys_model(mid0).push(node.model()));
                    }
                }
                proof {
                    if sel {
                        assert(trys_model(out@) =~= trys_model(mid0) + seq![
                            TryExceptNodeModel {
                                exception_types: handler_type_names_m(
                                    crate::nodes::handlers_model(handlers@),
                                ),
                                node_ref: NodeRefModel {
                                    path: deeper,
                                    node_type: "try_except"@,
                                    location: None,
                                },
                            },
                        ]);
                    } else {
                        assert(trys_model(out@) =~= trys_model(mid0) + Seq::<
                            TryExceptNodeModel,
                        >::empty());
                    }
                }
                find_trys_rec(body, filt, path, out);
                let ghost afterbody = out@;
                let hn = handlers.len();
                proof {
                    assert(handlers@.subrange(0, 0) =~= Seq::<crate::nodes::ExceptHandler>::empty());
                    assert(trys_model(out@) =~= trys_model(afterbody) + handlers_find_trys_m(
                        crate::nodes::handlers_model(handlers@.subrange(0, 0)),
                        opt_pat_view(filt),
                        deeper,
                    ));
                }
                let mut j: usize = 0;
                while j < hn
                    invariant
                        hn == handlers@.len(),
                        j <= hn,
                        path@ == old(path)@.push(i as usize),
                        trys_model(out@) == trys_model(afterbody) + handlers_find_trys_m(
                            crate::nodes::handlers_model(handlers@.subrange(0, j as int)),
                            opt_pat_view(filt),
                            deeper,
                        ),
                    decreases hn - j,
                {
                    proof {
                        assert(handlers@[j as int].model() == crate::nodes::HandlerModel {
                            exc_type: crate::nodes::opt_expr_model(handlers@[j as int].exc_type),
                            body: stmts_model(handlers@[j as int].body@),
                        });
                        assert(decreases_to!(ss@ => ss@[i as int]));
                        assert(decreases_to!(ss@[i as int] => *handlers));
                        assert(decreases_to!(*handlers => handlers@));
                        assert(decreases_to!(handlers@ => handlers@[j as int]));
                        assert(decreases_to!(handlers@[j as int] => handlers@[j as int].body));
                        assert(decreases_to!(handlers@[j as int].body => handlers@[j as int].body@));
                        assert(decreases_to!(ss@ => handlers@[j as int].body@));
                    }
                    find_trys_rec(&handlers[j].body, filt, path, out);
                    proof {
                        let pre = handlers@.subrange(0, j as int);
                        let cur = handlers@.subrange(0, j + 1 as int);
                        assert(cur.drop_last() =~= pre);
                        assert(cur.last() == handlers@[j as int]);
                        crate::nodes::lemma_handlers_model(pre);
                        crate::nodes::lemma_handlers_model(cur);
                        assert(crate::nodes::handlers_model(cur).drop_last()
                            =~= crate::nodes::handlers_model(pre));
                        assert(crate::nodes::handlers_model(cur).drop_last()
                            == crate::nodes::handlers_model(pre));
                        assert(crate::nodes::handlers_model(cur).last() == handlers@[j as int].model());
                        assert(trys_model(out@) =~= trys_model(afterbody) + handlers_find_trys_m(
                            crate::nodes::handlers_model(cur),
                            opt_pat_view(filt),
                            deeper,
                        ));
                    }
                    j = j + 1;
                }
                proof {
                    assert(handlers@.subrange(0, hn as int) =~= handlers@);
                }
                find_trys_rec(orelse, filt, path, out);
                find_trys_rec(finalbody, filt, path, out);
            },
            Stmt::FunctionDef(f) => {
                proof {
                    assert(ss@[i as int] == Stmt::FunctionDef(*f));
                    assert(ss@[i as int].model() == StmtModel::FunctionDef(f.model()));
                }
                find_trys_rec(&f.body, filt, path, out);
            },
            Stmt::ClassDef(c) => {
                proof {
                    assert(ss@[i as int] == Stmt::ClassDef(*c));
                    assert(ss@[i as int].model() == StmtModel::ClassDef(c.model()));
                }
                find_trys_rec(&c.body, filt, path, out);
            },
            _ => {},
        }
        path.pop();
        proof {
            assert(path@ =~= old(path)@);
            let pre = ss@.subrange(0, i as int);
            let cur = ss@.subrange(0, i + 1 as int);
            assert(cur.drop_last() =~= pre);
            assert(cur.last() == ss@[i as int]);
            lemma_stmts_model(pre);
            lemma_stmts_model(cur);
            assert(stmts_model(cur).drop_last() =~= stmts_model(pre));
            assert(stmts_model(cur).drop_last() == stmts_model(pre));
            assert(stmts_model(cur).last() == ss@[i as int].model());
            assert((stmts_model(cur).len() - 1) as usize == i as usize);
            assert(find_trys_m(stmts_model(cur), opt_pat_view(filt), old(path)@) == find_trys_m(
                stmts_model(pre),
                opt_pat_view(filt),
                old(path)@,
            ) + stmt_find_trys_m(ss@[i as int].model(), opt_pat_view(filt), deeper));
            assert(trys_model(out@) =~= trys_model(old(out)@) + find_trys_m(
                stmts_model(cur),
                opt_pat_view(filt),
                old(path)@,
            ));
        }
        i = i + 1;
    }
    proof {
        assert(ss@.subrange(0, n as int) =~= ss@);
    }
}

/// Collects the assignment records of one target list.
#[verifier::loop_isolation(false)]
fn assign_targets_exec(targets: &Vec<Expr>, filt: Option<&str>, path: &Vec<usize>, out: &mut Vec<
    AssignmentNode,
>)
    ensures
        assigns_model(final(out)@) == assigns_model(old(out)@) + assign_targets_m(
            crate::nodes::exprs_model(targets@),
            opt_pat_view(filt),
            path@,
        ),
{
    let n = targets.len();
    proof {
        assert(targets@.subrange(0, 0) =~= Seq::<Expr>::empty());
        assert(assigns_model(out@) =~= assigns_model(old(out)@) + assign_targets_m(
            crate::nodes::exprs_model(targets@.subrange(0, 0)),
            opt_pat_view(filt),
            path@,
        ));
    }
    let mut i: usize = 0;
    while i < n
        invariant
            n == targets@.len(),
            i <= n,
            assigns_model(out@) == assigns_model(old(out)@) + assign_targets_m(
                crate::nodes::exprs_model(targets@.subrange(0, i as int)),
                opt_pat_view(filt),
                path@,
            ),
        decreases n - i,
    {
        match &targets[i] {
            Expr::Name { id } => {
                let sel = match filt {
                    None => true,
                    Some(p) => crate::strutil::str_contains(id.as_str(), p),
                };
                if sel {
                    let node = AssignmentNode {
                        target: id.clone(),
                        value: "...".to_owned(),
                        node_ref: AstNodeRef {
                            path: clone_path(path),
                            node_type: "assign".to_owned(),
                            location: None,
                        },
                    };
                    let ghost prev = out@;
                    out.push(node);
                    proof {
                        assert(assigns_model(out@) =~= assigns_model(prev).push(node.model()));
                    }
                }
            },
            _ => {},
        }
        proof {
            let pre = targets@.subrange(0, i as int);
            let cur = targets@.subrange(0, i + 1 as int);
            assert(cur.drop_last() =~= pre);
            assert(cur.last() == targets@[i as int]);
            crate::nodes::lemma_exprs_model(pre);
            crate::nodes::lemma_exprs_model(cur);
            assert(crate::nodes::exprs_model(cur).drop_last() =~= crate::nodes::exprs_model(pre));
            assert(crate::nodes::exprs_model(cur).drop_last() == crate::nodes::exprs_model(pre));
            assert(crate::nodes::exprs_model(cur).last() == targets@[i as int].model());
            assert(assigns_model(out@) =~= assigns_model(old(out)@) + assign_targets_m(
                crate::nodes::exprs_model(cur),
                opt_pat_view(filt),
                path@,
            ));
        }
        i = i + 1;
    }
    proof {
        assert(targets@.subrange(0, n as int) =~= targets@);
    }
}

/// Collects assignment records from a block, appending to `out`.
#[verifier::rlimit(100)]
#[verifier::spinoff_prover]
#[verifier::loop_isolation(false)]
fn find_assigns_rec(ss: &Vec<Stmt>, filt: Option<&str>, path: &mut Vec<usize>, out: &mut Vec<
    AssignmentNode,
>)
    ensures
        final(path)@ == old(path)@,
        assigns_model(final(out)@) == assigns_model(old(out)@) + find_assigns_m(
            stmts_model(ss@),
            opt_pat_view(filt),
            old(path)@,
        ),
    decreases ss@,
{
    let n = ss.len();
    proof {
        assert(ss@.subrange(0, 0) =~= Seq::<Stmt>::empty());
        assert(assigns_model(out@) =~= assigns_model(old(out)@) + find_assigns_m(
            stmts_model(ss@.subrange(0, 0)),
            opt_pat_view(filt),
            old(path)@,
        ));
    }
    let mut i: usize = 0;
    while i < n
        invariant
            n == ss@.len(),
            i <= n,
            path@ == old(path)@,
            assigns_model(out@) == assigns_model(old(out)@) + find_assigns_m(
                stmts_model(ss@.subrange(0, i as int)),
                opt_pat_view(filt),
                old(path)@,
            ),
        decreases n - i,
    {
        path.push(i);
        let ghost deeper = old(path)@.push(i as usize);
        match &ss[i] {
            Stmt::Assign { targets, .. } => {
                assign_targets_exec(targets, filt, path, out);
            },
            Stmt::FunctionDef(f) => {
                proof {
                    assert(ss@[i as int] == Stmt::FunctionDef(*f));
                    assert(ss@[i as int].model() == StmtModel::FunctionDef(f.model()));
                }
                find_assigns_rec(&f.body, filt, path, out);
            },
            Stmt::ClassDef(c) => {
                proof {
                    assert(ss@[i as int] == Stmt::ClassDef(*c));
                    assert(ss@[i as int].model() == StmtModel::ClassDef(c.model()));
                }
                find_assigns_rec(&c.body, filt, path, out);
            },
            Stmt::TryExcept { body, handlers, orelse, finalbody } => {
                proof {
                    assert(ss@[i as int] == Stmt::TryExcept {
                        body: *body,
                        handlers: *handlers,
                        orelse: *orelse,
                        finalbody: *finalbody,
                    });
                }
                find_assigns_rec(body, filt, path, out);
                let ghost afterbody = out@;
                let hn = handlers.len();
                proof {
                    assert(handlers@.subrange(0, 0) =~= Seq::<crate::nodes::ExceptHandler>::empty());
                    assert(assigns_model(out@) =~= assigns_model(afterbody)
                        + handlers_find_assigns_m(
                        crate::nodes::handlers_model(handlers@.subrange(0, 0)),
                        opt_pat_view(filt),
                        deeper,
                    ));
                }
                let mut j: usize = 0;
                while j < hn
                    invariant
                        hn == handlers@.len(),
                        j <= hn,
                        path@ == old(path)@.push(i as usize),
                        assigns_model(out@) == assigns_model(afterbody) + handlers_find_assigns_m(
                            crate::nodes::handlers_model(handlers@.subrange(0, j as int)),
                            opt_pat_view(filt),
                            deeper,
                        ),
                    decreases hn - j,
                {
                    proof {
                        assert(handlers@[j as int].model() == crate::nodes::HandlerModel {
                            exc_type: crate::nodes::opt_expr_model(handlers@[j as int].exc_type),
                            body: stmts_model(handlers@[j as int].body@),
                        });
                        assert(decreases_to!(ss@ => ss@[i as int]));
                        assert(decreases_to!(ss@[i as int] => *handlers));
                        assert(decreases_to!(*handlers => handlers@));
                        assert(decreases_to!(handlers@ => handlers@[j as int]));
                        assert(decreases_to!(handlers@[j as int] => handlers@[j as int].body));
                        assert(decreases_to!(handlers@[j as int].body => handlers@[j as int].body@));
                        assert(decreases_to!(ss@ => handlers@[j as int].body@));
                    }
                    find_assigns_rec(&handlers[j].body, filt, path, out);
                    proof {
                        let pre = handlers@.subrange(0, j as int);
                        let cur = handlers@.subrange(0, j + 1 as int);
                        assert(cur.drop_last() =~= pre);
                        assert(cur.last() == handlers@[j as int]);
                        crate::nodes::lemma_handlers_model(pre);
                        crate::nodes::lemma_handlers_model(cur);
                        assert(crate::nodes::handlers_model(cur).drop_last()
                            =~= crate::nodes::handlers_model(pre));
                        assert(crate::nodes::handlers_model(cur).drop_last()
                            == crate::nodes::handlers_model(pre));
                        assert(crate::nodes::handlers_model(cur).last() == handlers@[j as int].model());
                        assert(assigns_model(out@) =~= assigns_model(afterbody)
                            + handlers_find_assigns_m(
                            crate::nodes::handlers_model(cur),
                            opt_pat_view(filt),
                            deeper,
                        ));
                    }
                    j = j + 1;
                }
                proof {
                    assert(handlers@.subrange(0, hn as int) =~= handlers@);
                }
                find_assigns_rec(orelse, filt, path, out);
                find_assigns_rec(finalbody, filt, path, out);
            },
            _ => {},
        }
        path.pop();
        proof {
            assert(path@ =~= old(path)@);
            let pre = ss@.subrange(0, i as int);
            let cur = ss@.subrange(0, i + 1 as int);
            assert(cur.drop_last() =~= pre);
            assert(cur.last() == ss@[i as int]);
            lemma_stmts_model(pre);
            lemma_stmts_model(cur);
            assert(stmts_model(cur).drop_last() =~= stmts_model(pre));
            assert(stmts_model(cur).drop_last() == stmts_model(pre));
            assert(stmts_model(cur).last() == ss@[i as int].model());
            assert((stmts_model(cur).len() - 1) as usize == i as usize);
            assert(find_assigns_m(stmts_model(cur), opt_pat_view(filt), old(path)@)
                == find_assigns_m(stmts_model(pre), opt_pat_view(filt), old(path)@)
                + stmt_find_assigns_m(ss@[i as int].model(), opt_pat_view(filt), deeper));
            assert(assigns_model(out@) =~= assigns_model(old(out)@) + find_assigns_m(
                stmts_model(cur),
                opt_pat_view(filt),
                old(path)@,
            ));
        }
        i = i + 1;
    }
    proof {
        assert(ss@.subrange(0, n as int) =~= ss@);
    }
}

/// Whether a statement is a bare string-literal expression.
pub open spec fn is_docstring_m(s: StmtModel) -> bool {
    match s {
        StmtModel::Expr { value } => value is StringLiteral,
        _ => false,
    }
}

/// Whether a module holds only docstrings (or nothing at all).
pub open spec fn comments_only_m(ss: Seq<StmtModel>) -> bool {
    forall|i: int| 0 <= i < ss.len() ==> is_docstring_m(#[trigger] ss[i])
}

} // verus!
