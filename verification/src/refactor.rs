//! The refactor engine: owns one tree and an append-only change log.
//!
//! Every mutating operation is atomic: it either fully applies its edit and
//! appends its change entries, or it makes no edit and returns a failure. No
//! partial mutation is ever observable. The log records intent; removing an
//! entry with `undo_last_change` does not reverse the tree edit.

use vstd::prelude::*;

use crate::ast::PythonAst;
pub use crate::ast::SourceLocation;
use crate::error::PyRustorError;
use crate::nodes::AliasModel;
use crate::nodes::Expr;
use crate::nodes::ExprModel;
use crate::nodes::Operator;
use crate::nodes::FunctionDefModel;
use crate::nodes::ClassDefModel;
use crate::nodes::Module;
use crate::nodes::Stmt;
use crate::nodes::StmtModel;
use crate::nodes::lemma_stmts_model;
use crate::nodes::stmts_model;
use crate::strutil::dec_repr;
use crate::strutil::opt_view;
use crate::strutil::push_decimal;
use crate::strutil::str_eq;
use crate::unparse::Formatter;
use crate::unparse::err_body_m;
use crate::unparse::module_supported_m;
use crate::unparse::render_module_m;
use crate::unparse::render_module_strict_m;

verus! {

broadcast use {vstd::seq::group_seq_axioms, vstd::std_specs::vec::group_vec_axioms};

/// The kind of one recorded change.
#[derive(Debug, Clone, PartialEq, Eq)]
pub enum ChangeType {
    /// A function definition was renamed.
    FunctionRenamed { old_name: String, new_name: String },
    /// A class definition was renamed.
    ClassRenamed { old_name: String, new_name: String },
    /// An import was rewritten.
    ImportModified { old_import: String, new_import: String },
    /// A variable was renamed.
    VariableRenamed { old_name: String, new_name: String },
    /// Syntax was modernized.
    SyntaxModernized { description: String },
    /// A caller-described transformation.
    Custom { description: String },
}

/// Ghost counterpart of `ChangeType`.
#[verifier::ext_equal]
pub ghost enum ChangeTypeModel {
    FunctionRenamed { old_name: Seq<char>, new_name: Seq<char> },
    ClassRenamed { old_name: Seq<char>, new_name: Seq<char> },
    ImportModified { old_import: Seq<char>, new_import: Seq<char> },
    VariableRenamed { old_name: Seq<char>, new_name: Seq<char> },
    SyntaxModernized { description: Seq<char> },
    Custom { description: Seq<char> },
}

impl ChangeType {
    /// The mathematical value of this kind tag.
    pub open spec fn model(self) -> ChangeTypeModel {
        match self {
            ChangeType::FunctionRenamed { old_name, new_name } => ChangeTypeModel::FunctionRenamed {
                old_name: old_name@,
                new_name: new_name@,
            },
            ChangeType::ClassRenamed { old_name, new_name } => ChangeTypeModel::ClassRenamed {
                old_name: old_name@,
                new_name: new_name@,
            },
            ChangeType::ImportModified { old_import, new_import } => ChangeTypeModel::ImportModified {
                old_import: old_import@,
                new_import: new_import@,
            },
            ChangeType::VariableRenamed { old_name, new_name } => ChangeTypeModel::VariableRenamed {
                old_name: old_name@,
                new_name: new_name@,
            },
            ChangeType::SyntaxModernized { description } => ChangeTypeModel::SyntaxModernized {
                description: description@,
            },
            ChangeType::Custom { description } => ChangeTypeModel::Custom {
                description: description@,
            },
        }
    }
}

/// One immutable log entry: a kind tag, a human-readable description, and
/// an optional location.
#[derive(Debug, Clone, PartialEq, Eq)]
pub struct RefactorChange {
    /// The kind of change performed.
    pub change_type: ChangeType,
    /// Description of the change.
    pub description: String,
    /// Location where the change was made, when known.
    pub location: Option<SourceLocation>,
}

/// Ghost counterpart of `RefactorChange`.
#[verifier::ext_equal]
pub ghost struct ChangeModel {
    pub change_type: ChangeTypeModel,
    pub description: Seq<char>,
    pub location: Option<SourceLocation>,
}

impl RefactorChange {
    /// The mathematical value of this entry.
    pub open spec fn model(self) -> ChangeModel {
        ChangeModel {
            change_type: self.change_type.model(),
            description: self.description@,
            location: self.location,
        }
    }
}

/// The models of a sequence of change entries.
pub open spec fn change_models(s: Seq<RefactorChange>) -> Seq<ChangeModel> {
    s.map(|i: int, c: RefactorChange| c.model())
}

/// Renaming applied to one top-level statement: a function definition whose
/// name equals `o` gets the name `n`; everything else is unchanged.
pub open spec fn rename_fn_stmt_m(s: StmtModel, o: Seq<char>, n: Seq<char>) -> StmtModel {
    match s {
        StmtModel::FunctionDef(f) => if f.name == o {
            StmtModel::FunctionDef(FunctionDefModel { name: n, params: f.params, body: f.body })
        } else {
            s
        },
        _ => s,
    }
}

/// Renaming applied to every top-level statement.
pub open spec fn rename_fns_m(ss: Seq<StmtModel>, o: Seq<char>, n: Seq<char>) -> Seq<StmtModel> {
    ss.map(|i: int, s: StmtModel| rename_fn_stmt_m(s, o, n))
}

/// Whether a top-level function definition of the given name exists.
pub open spec fn has_top_fn_m(ss: Seq<StmtModel>, o: Seq<char>) -> bool {
    exists|i: int|
        {
            &&& 0 <= i < ss.len()
            &&& (#[trigger] ss[i]) matches StmtModel::FunctionDef(f)
            &&& f.name == o
        }
}

/// Renaming applied to one top-level class definition.
pub open spec fn rename_class_stmt_m(s: StmtModel, o: Seq<char>, n: Seq<char>) -> StmtModel {
    match s {
        StmtModel::ClassDef(c) => if c.name == o {
            StmtModel::ClassDef(ClassDefModel { name: n, bases: c.bases, body: c.body })
        } else {
            s
        },
        _ => s,
    }
}

/// Class renaming applied to every top-level statement.
pub open spec fn rename_classes_m(ss: Seq<StmtModel>, o: Seq<char>, n: Seq<char>) -> Seq<
    StmtModel,
> {
    ss.map(|i: int, s: StmtModel| rename_class_stmt_m(s, o, n))
}

/// Whether a top-level class definition of the given name exists.
pub open spec fn has_top_class_m(ss: Seq<StmtModel>, o: Seq<char>) -> bool {
    exists|i: int|
        {
            &&& 0 <= i < ss.len()
            &&& (#[trigger] ss[i]) matches StmtModel::ClassDef(c)
            &&& c.name == o
        }
}

/// Import rewriting applied to one alias: a plain-import alias naming `o`
/// now names `n`.
pub open spec fn replace_alias_m(a: AliasModel, o: Seq<char>, n: Seq<char>) -> AliasModel {
    if a.name == o {
        AliasModel { name: n, asname: a.asname }
    } else {
        a
    }
}

/// Import rewriting applied to one top-level statement: plain-import
/// aliases equal to `o` and from-import source modules equal to `o` are
/// rewritten to `n`.
pub open spec fn replace_import_stmt_m(s: StmtModel, o: Seq<char>, n: Seq<char>) -> StmtModel {
    match s {
        StmtModel::Import { names } => StmtModel::Import {
            names: names.map(|i: int, a: AliasModel| replace_alias_m(a, o, n)),
        },
        StmtModel::ImportFrom { module, names } => if module == Some(o) {
            StmtModel::ImportFrom { module: Some(n), names }
        } else {
            s
        },
        _ => s,
    }
}

/// Import rewriting applied to every top-level statement.
pub open spec fn replace_imports_m(ss: Seq<StmtModel>, o: Seq<char>, n: Seq<char>) -> Seq<
    StmtModel,
> {
    ss.map(|i: int, s: StmtModel| replace_import_stmt_m(s, o, n))
}

/// Whether one statement imports the module `o`: a plain import naming it
/// among its aliases, or a from-import whose source module equals it.
pub open spec fn stmt_imports_module_m(s: StmtModel, o: Seq<char>) -> bool {
    match s {
        StmtModel::Import { names } => exists|j: int|
            0 <= j < names.len() && (#[trigger] names[j]).name == o,
        StmtModel::ImportFrom { module, .. } => module == Some(o),
        _ => false,
    }
}

/// Whether any top-level statement imports the module `o`.
pub open spec fn has_import_module_m(ss: Seq<StmtModel>, o: Seq<char>) -> bool {
    exists|i: int| 0 <= i < ss.len() && stmt_imports_module_m(#[trigger] ss[i], o)
}

/// Whether a from-import of source module `o` with at least one imported
/// name exists at top level; this is what the flattened import records show.
pub open spec fn has_from_import_m(ss: Seq<StmtModel>, o: Seq<char>) -> bool {
    exists|i: int|
        {
            &&& 0 <= i < ss.len()
            &&& (#[trigger] ss[i]) matches StmtModel::ImportFrom { module, names }
            &&& module == Some(o)
            &&& names.len() > 0
        }
}

/// The change entry recorded for a function rename.
pub open spec fn fn_renamed_change_m(o: Seq<char>, n: Seq<char>) -> ChangeModel {
    ChangeModel {
        change_type: ChangeTypeModel::FunctionRenamed { old_name: o, new_name: n },
        description: "Renamed function '"@ + o + "' to '"@ + n + "'"@,
        location: Some(SourceLocation { line: 0, column: 0 }),
    }
}

/// The change entry recorded for a class rename.
pub open spec fn class_renamed_change_m(o: Seq<char>, n: Seq<char>) -> ChangeModel {
    ChangeModel {
        change_type: ChangeTypeModel::ClassRenamed { old_name: o, new_name: n },
        description: "Renamed class '"@ + o + "' to '"@ + n + "'"@,
        location: Some(SourceLocation { line: 0, column: 0 }),
    }
}

/// The change entry recorded for an import rewrite.
pub open spec fn import_change_m(o: Seq<char>, n: Seq<char>) -> ChangeModel {
    ChangeModel {
        change_type: ChangeTypeModel::ImportModified { old_import: o, new_import: n },
        description: "Replaced import '"@ + o + "' with '"@ + n + "'"@,
        location: None,
    }
}

/// The descriptions of a sequence of change entries.
pub open spec fn descs_of(cs: Seq<ChangeModel>) -> Seq<Seq<char>> {
    cs.map(|i: int, c: ChangeModel| c.description)
}

/// The numbered description lines of a summary, numbering from `k`.
pub open spec fn lines_from_m(descs: Seq<Seq<char>>, k: nat) -> Seq<char>
    decreases descs.len(),
{
    if descs.len() == 0 {
        Seq::empty()
    } else {
        (dec_repr(k) + ". "@ + descs.first() + "\n"@) + lines_from_m(descs.drop_first(), k + 1)
    }
}

/// The change summary text: a fixed sentinel when the log is empty, else a
/// headline with the entry count and one numbered line per description.
pub open spec fn summary_m(descs: Seq<Seq<char>>) -> Seq<char> {
    if descs.len() == 0 {
        "No changes made"@
    } else {
        "Made "@ + dec_repr(descs.len() as nat) + " changes:\n"@ + lines_from_m(descs, 1)
    }
}

/// Appending one description extends the numbered lines by one entry, whose
/// number is the start number plus the earlier count.
pub proof fn lemma_lines_snoc(descs: Seq<Seq<char>>, d: Seq<char>, k: nat)
    ensures
        lines_from_m(descs.push(d), k) == lines_from_m(descs, k) + (dec_repr((k + descs.len()) as nat)
            + ". "@ + d + "\n"@),
    decreases descs.len(),
{
    if descs.len() == 0 {
        assert(descs.push(d).drop_first() =~= Seq::<Seq<char>>::empty());
        assert(descs.push(d).first() == d);
        assert(lines_from_m(Seq::<Seq<char>>::empty(), k + 1) == Seq::<char>::empty());
        assert(lines_from_m(descs, k) == Seq::<char>::empty());
        assert(lines_from_m(descs.push(d), k) =~= lines_from_m(descs, k) + (dec_repr(k) + ". "@ + d
            + "\n"@));
    } else {
        assert(descs.push(d).drop_first() =~= descs.drop_first().push(d));
        assert(descs.push(d).first() == descs.first());
        lemma_lines_snoc(descs.drop_first(), d, k + 1);
        assert(lines_from_m(descs.push(d), k) =~= lines_from_m(descs, k) + (dec_repr(
            (k + descs.len()) as nat,
        ) + ". "@ + d + "\n"@));
    }
}

/// Checks whether a top-level function definition of the given name exists.
#[verifier::loop_isolation(false)]
fn module_has_function(m: &Module, name: &str) -> (r: bool)
    ensures
        r == has_top_fn_m(m.model(), name@),
{
    let n = m.body.len();
    proof {
        lemma_stmts_model(m.body@);
    }
    let mut i: usize = 0;
    while i < n
        invariant
            n == m.body@.len(),
            i <= n,
            forall|k: int|
                0 <= k < i ==> !((#[trigger] stmts_model(m.body@)[k]) matches StmtModel::FunctionDef(
                    f,
                ) && f.name == name@),
        decreases n - i,
    {
        let hit = match &m.body[i] {
            Stmt::FunctionDef(f) => str_eq(f.name.as_str(), name),
            _ => false,
        };
        proof {
            match m.body@[i as int] {
                Stmt::FunctionDef(f) => {
                    assert(m.body@[i as int].model() == StmtModel::FunctionDef(f.model()));
                },
                _ => {},
            }
        }
        if hit {
            proof {
                assert(stmts_model(m.body@)[i as int] matches StmtModel::FunctionDef(f) && f.name
                    == name@);
            }
            return true;
        }
        i = i + 1;
    }
    false
}

/// Checks whether a top-level class definition of the given name exists.
#[verifier::loop_isolation(false)]
fn module_has_class(m: &Module, name: &str) -> (r: bool)
    ensures
        r == has_top_class_m(m.model(), name@),
{
    let n = m.body.len();
    proof {
        lemma_stmts_model(m.body@);
    }
    let mut i: usize = 0;
    while i < n
        invariant
            n == m.body@.len(),
            i <= n,
            forall|k: int|
                0 <= k < i ==> !((#[trigger] stmts_model(m.body@)[k]) matches StmtModel::ClassDef(c)
                    && c.name == name@),
        decreases n - i,
    {
        let hit = match &m.body[i] {
            Stmt::ClassDef(c) => str_eq(c.name.as_str(), name),
            _ => false,
        };
        proof {
            match m.body@[i as int] {
                Stmt::ClassDef(c) => {
                    assert(m.body@[i as int].model() == StmtModel::ClassDef(c.model()));
                },
                _ => {},
            }
        }
        if hit {
            proof {
                assert(stmts_model(m.body@)[i as int] matches StmtModel::ClassDef(c) && c.name
                    == name@);
            }
            return true;
        }
        i = i + 1;
    }
    false
}

/// Checks whether any top-level statement imports the module `name`.
#[verifier::rlimit(100)]
#[verifier::loop_isolation(false)]
fn module_has_import(m: &Module, name: &str) -> (r: bool)
    ensures
        r == has_import_module_m(m.model(), name@),
{
    let n = m.body.len();
    proof {
        lemma_stmts_model(m.body@);
    }
    let mut i: usize = 0;
    while i < n
        invariant
            n == m.body@.len(),
            i <= n,
            forall|k: int|
                0 <= k < i ==> !stmt_imports_module_m(#[trigger] stmts_model(m.body@)[k], name@),
        decreases n - i,
    {
        proof {
            match m.body@[i as int] {
                Stmt::Import { names } => {
                    assert(m.body@[i as int].model() == StmtModel::Import {
                        names: crate::nodes::aliases_model(names@),
                    });
                },
                Stmt::ImportFrom { module, names } => {
                    assert(m.body@[i as int].model() == StmtModel::ImportFrom {
                        module: opt_view(module),
                        names: crate::nodes::aliases_model(names@),
                    });
                },
                _ => {},
            }
        }
        match &m.body[i] {
            Stmt::Import { names } => {
                let an = names.len();
                let mut j: usize = 0;
                while j < an
                    invariant
                        an == names@.len(),
                        j <= an,
                        forall|k: int|
                            0 <= k < j ==> (#[trigger] crate::nodes::aliases_model(names@)[k]).name
                                != name@,
                    decreases an - j,
                {
                    if str_eq(names[j].name.as_str(), name) {
                        proof {
                            assert(crate::nodes::aliases_model(names@)[j as int].name == name@);
                            assert(stmt_imports_module_m(stmts_model(m.body@)[i as int], name@));
                        }
                        return true;
                    }
                    proof {
                        assert(crate::nodes::aliases_model(names@)[j as int]
                            == names@[j as int].model());
                    }
                    j = j + 1;
                }
            },
            Stmt::ImportFrom { module, .. } => {
                match module {
                    Some(src) => {
                        if str_eq(src.as_str(), name) {
                            proof {
                                assert(stmt_imports_module_m(
                                    stmts_model(m.body@)[i as int],
                                    name@,
                                ));
                            }
                            return true;
                        }
                    },
                    None => {},
                }
            },
            _ => {},
        }
        i = i + 1;
    }
    false
}

/// Renames every top-level function definition named `old_name`.
#[verifier::rlimit(100)]
#[verifier::loop_isolation(false)]
fn rename_functions_in(m: &mut Module, old_name: &str, new_name: &str)
    ensures
        stmts_model(final(m).body@) == rename_fns_m(stmts_model(old(m).body@), old_name@, new_name@),
{
    let n = m.body.len();
    let mut i: usize = 0;
    while i < n
        invariant
            n == old(m).body@.len(),
            m.body@.len() == n,
            i <= n,
            forall|k: int| i <= k < n ==> m.body@[k] == old(m).body@[k],
            forall|k: int|
                0 <= k < i ==> (#[trigger] m.body@[k]).model() == rename_fn_stmt_m(
                    old(m).body@[k].model(),
                    old_name@,
                    new_name@,
                ),
        decreases n - i,
    {
        let ghost before = m.body@[i as int];
        match &mut m.body[i] {
            Stmt::FunctionDef(f) => {
                if str_eq(f.name.as_str(), old_name) {
                    f.name = new_name.to_owned();
                }
            },
            _ => {},
        }
        proof {
            assert(m.body@[i as int].model() == rename_fn_stmt_m(
                old(m).body@[i as int].model(),
                old_name@,
                new_name@,
            ));
        }
        i = i + 1;
    }
    proof {
        lemma_stmts_model(m.body@);
        lemma_stmts_model(old(m).body@);
        assert(stmts_model(m.body@) =~= rename_fns_m(
            stmts_model(old(m).body@),
            old_name@,
            new_name@,
        ));
    }
}

/// Renames every top-level class definition named `old_name`.
#[verifier::rlimit(100)]
#[verifier::loop_isolation(false)]
fn rename_classes_in(m: &mut Module, old_name: &str, new_name: &str)
    ensures
        stmts_model(final(m).body@) == rename_classes_m(
            stmts_model(old(m).body@),
            old_name@,
            new_name@,
        ),
{
    let n = m.body.len();
    let mut i: usize = 0;
    while i < n
        invariant
            n == old(m).body@.len(),
            m.body@.len() == n,
            i <= n,
            forall|k: int| i <= k < n ==> m.body@[k] == old(m).body@[k],
            forall|k: int|
                0 <= k < i ==> (#[trigger] m.body@[k]).model() == rename_class_stmt_m(
                    old(m).body@[k].model(),
                    old_name@,
                    new_name@,
                ),
        decreases n - i,
    {
        match &mut m.body[i] {
            Stmt::ClassDef(c) => {
                if str_eq(c.name.as_str(), old_name) {
                    c.name = new_name.to_owned();
                }
            },
            _ => {},
        }
        proof {
            assert(m.body@[i as int].model() == rename_class_stmt_m(
                old(m).body@[i as int].model(),
                old_name@,
                new_name@,
            ));
        }
        i = i + 1;
    }
    proof {
        lemma_stmts_model(m.body@);
        lemma_stmts_model(old(m).body@);
        assert(stmts_model(m.body@) =~= rename_classes_m(
            stmts_model(old(m).body@),
            old_name@,
            new_name@,
        ));
    }
}

/// Rewrites every top-level import of `old_name` to `new_name`.
#[verifier::rlimit(100)]
#[verifier::loop_isolation(false)]
fn replace_imports_in(m: &mut Module, old_name: &str, new_name: &str)
    ensures
        stmts_model(final(m).body@) == replace_imports_m(
            stmts_model(old(m).body@),
            old_name@,
            new_name@,
        ),
{
    let n = m.body.len();
    let mut i: usize = 0;
    while i < n
        invariant
            n == old(m).body@.len(),
            m.body@.len() == n,
            i <= n,
            forall|k: int| i <= k < n ==> m.body@[k] == old(m).body@[k],
            forall|k: int|
                0 <= k < i ==> (#[trigger] m.body@[k]).model() == replace_import_stmt_m(
                    old(m).body@[k].model(),
                    old_name@,
                    new_name@,
                ),
        decreases n - i,
    {
        match &mut m.body[i] {
            Stmt::Import { names } => {
                let ghost names0 = names@;
                let an = names.len();
                let mut j: usize = 0;
                while j < an
                    invariant
                        an == names0.len(),
                        names@.len() == an,
                        j <= an,
                        forall|k: int| j <= k < an ==> names@[k] == names0[k],
                        forall|k: int|
                            0 <= k < j ==> (#[trigger] names@[k]).model() == replace_alias_m(
                                names0[k].model(),
                                old_name@,
                                new_name@,
                            ),
                    decreases an - j,
                {
                    let a = &mut names[j];
                    if str_eq(a.name.as_str(), old_name) {
                        a.name = new_name.to_owned();
                    }
                    proof {
                        assert(names@[j as int].model() == replace_alias_m(
                            names0[j as int].model(),
                            old_name@,
                            new_name@,
                        ));
                    }
                    j = j + 1;
                }
                proof {
                    assert(crate::nodes::aliases_model(names@) =~= crate::nodes::aliases_model(
                        names0,
                    ).map(|k: int, a: AliasModel| replace_alias_m(a, old_name@, new_name@)));
                }
            },
            Stmt::ImportFrom { module, .. } => {
                match module {
                    Some(src) => {
                        if str_eq(src.as_str(), old_name) {
                            *src = new_name.to_owned();
                        }
                    },
                    None => {},
                }
            },
            _ => {},
        }
        proof {
            assert(m.body@[i as int].model() == replace_import_stmt_m(
                old(m).body@[i as int].model(),
                old_name@,
                new_name@,
            ));
        }
        i = i + 1;
    }
    proof {
        lemma_stmts_model(m.body@);
        lemma_stmts_model(old(m).body@);
        assert(stmts_model(m.body@) =~= replace_imports_m(
            stmts_model(old(m).body@),
            old_name@,
            new_name@,
        ));
    }
}

/// A refactoring session: exclusive owner of one tree and of the ordered
/// change log describing the edits applied to it.
#[derive(Debug)]
pub struct Refactor {
    ast: PythonAst,
    formatter: Formatter,
    changes: Vec<RefactorChange>,
}

impl Refactor {
    /// The owned tree.
    pub closed spec fn spec_ast(self) -> PythonAst {
        self.ast
    }

    /// The mathematical value of the owned tree.
    pub open spec fn module_model(self) -> Seq<StmtModel> {
        self.spec_ast().model()
    }

    /// The formatter used to render the tree.
    pub closed spec fn spec_formatter(self) -> Formatter {
        self.formatter
    }

    /// The recorded change entries, oldest first.
    pub closed spec fn changes_seq(self) -> Seq<RefactorChange> {
        self.changes@
    }

    /// The mathematical values of the recorded change entries.
    pub open spec fn changes_model(self) -> Seq<ChangeModel> {
        change_models(self.changes_seq())
    }

    /// Takes ownership of a tree, with a lenient formatter and an empty log.
    pub fn new(ast: PythonAst) -> (r: Refactor)
        ensures
            r.spec_ast() == ast,
            !r.spec_formatter().is_strict(),
            r.changes_model() == Seq::<ChangeModel>::empty(),
    {
        let r = Refactor { ast, formatter: Formatter::new(), changes: Vec::new() };
        proof {
            assert(r.changes_model() =~= Seq::<ChangeModel>::empty());
        }
        r
    }

    /// Takes ownership of a tree together with a chosen formatter.
    pub fn with_formatter(ast: PythonAst, formatter: Formatter) -> (r: Refactor)
        ensures
            r.spec_ast() == ast,
            r.spec_formatter() == formatter,
            r.changes_model() == Seq::<ChangeModel>::empty(),
    {
        let r = Refactor { ast, formatter, changes: Vec::new() };
        proof {
            assert(r.changes_model() =~= Seq::<ChangeModel>::empty());
        }
        r
    }

    /// Renames every top-level function definition named `old_name` to
    /// `new_name` and appends exactly one change entry. Nested methods are
    /// not touched and call sites are not updated. When no such definition
    /// exists, nothing changes and an operation error is returned.
    pub fn rename_function(&mut self, old_name: &str, new_name: &str) -> (r: crate::error::Result<
        (),
    >)
        ensures
            has_top_fn_m(old(self).module_model(), old_name@) ==> r is Ok && final(self).module_model() == rename_fns_m(old(self).module_model(), old_name@, new_name@)
                && final(self).changes_model() == old(self).changes_model().push(
                fn_renamed_change_m(old_name@, new_name@),
            ),
            !has_top_fn_m(old(self).module_model(), old_name@) ==> r is Err
                && r->Err_0 is OperationError && r->Err_0.message_view() == "Function '"@
                + old_name@ + "' not found"@ && *final(self) == *old(self),
            final(self).spec_formatter() == old(self).spec_formatter(),
            final(self).spec_ast().source_view() == old(self).spec_ast().source_view(),
    {
        let found = module_has_function(self.ast.module(), old_name);
        if !found {
            let mut msg = String::new();
            msg.append("Function '");
            msg.append(old_name);
            msg.append("' not found");
            return Err(PyRustorError::refactor_error(msg));
        }
        rename_functions_in(self.ast.module_mut(), old_name, new_name);
        let mut d = String::new();
        d.append("Renamed function '");
        d.append(old_name);
        d.append("' to '");
        d.append(new_name);
        d.append("'");
        let change = RefactorChange {
            change_type: ChangeType::FunctionRenamed {
                old_name: old_name.to_owned(),
                new_name: new_name.to_owned(),
            },
            description: d,
            location: Some(SourceLocation { line: 0, column: 0 }),
        };
        let ghost prevc = self.changes@;
        self.changes.push(change);
        proof {
            assert(change.model() =~= fn_renamed_change_m(old_name@, new_name@));
            assert(change_models(self.changes@) =~= change_models(prevc).push(change.model()));
        }
        Ok(())
    }

    /// Renames a function and then optionally records a formatting pass.
    pub fn rename_function_with_format(
        &mut self,
        old_name: &str,
        new_name: &str,
        apply_formatting: bool,
    ) -> (r: crate::error::Result<()>)
        ensures
            has_top_fn_m(old(self).module_model(), old_name@) ==> r is Ok && final(self).module_model() == rename_fns_m(old(self).module_model(), old_name@, new_name@)
                && final(self).changes_model() == (if apply_formatting {
                old(self).changes_model().push(fn_renamed_change_m(old_name@, new_name@)).push(
                    format_change_m(),
                )
            } else {
                old(self).changes_model().push(fn_renamed_change_m(old_name@, new_name@))
            }),
            !has_top_fn_m(old(self).module_model(), old_name@) ==> r is Err
                && r->Err_0 is OperationError && *final(self) == *old(self),
            final(self).spec_formatter() == old(self).spec_formatter(),
            final(self).spec_ast().source_view() == old(self).spec_ast().source_view(),
    {
        let res = self.rename_function(old_name, new_name);
        match res {
            Ok(()) => {
                if apply_formatting {
                    self.format_code()
                } else {
                    Ok(())
                }
            },
            Err(e) => Err(e),
        }
    }

    /// Renames every top-level class definition named `old_name` to
    /// `new_name` and appends exactly one change entry. When no such
    /// definition exists, nothing changes and an operation error is
    /// returned.
    pub fn rename_class(&mut self, old_name: &str, new_name: &str) -> (r: crate::error::Result<()>)
        ensures
            has_top_class_m(old(self).module_model(), old_name@) ==> r is Ok && final(self).module_model() == rename_classes_m(old(self).module_model(), old_name@, new_name@)
                && final(self).changes_model() == old(self).changes_model().push(
                class_renamed_change_m(old_name@, new_name@),
            ),
            !has_top_class_m(old(self).module_model(), old_name@) ==> r is Err
                && r->Err_0 is OperationError && r->Err_0.message_view() == "Class '"@ + old_name@
                + "' not found"@ && *final(self) == *old(self),
            final(self).spec_formatter() == old(self).spec_formatter(),
            final(self).spec_ast().source_view() == old(self).spec_ast().source_view(),
    {
        let found = module_has_class(self.ast.module(), old_name);
        if !found {
            let mut msg = String::new();
            msg.append("Class '");
            msg.append(old_name);
            msg.append("' not found");
            return Err(PyRustorError::refactor_error(msg));
        }
        rename_classes_in(self.ast.module_mut(), old_name, new_name);
        let mut d = String::new();
        d.append("Renamed class '");
        d.append(old_name);
        d.append("' to '");
        d.append(new_name);
        d.append("'");
        let change = RefactorChange {
            change_type: ChangeType::ClassRenamed {
                old_name: old_name.to_owned(),
                new_name: new_name.to_owned(),
            },
            description: d,
            location: Some(SourceLocation { line: 0, column: 0 }),
        };
        let ghost prevc = self.changes@;
        self.changes.push(change);
        proof {
            assert(change.model() =~= class_renamed_change_m(old_name@, new_name@));
            assert(change_models(self.changes@) =~= change_models(prevc).push(change.model()));
        }
        Ok(())
    }

    /// Renames a class and then optionally records a formatting pass.
    pub fn rename_class_with_format(
        &mut self,
        old_name: &str,
        new_name: &str,
        apply_formatting: bool,
    ) -> (r: crate::error::Result<()>)
        ensures
            has_top_class_m(old(self).module_model(), old_name@) ==> r is Ok && final(self).module_model() == rename_classes_m(old(self).module_model(), old_name@, new_name@)
                && final(self).changes_model() == (if apply_formatting {
                old(self).changes_model().push(class_renamed_change_m(old_name@, new_name@)).push(
                    format_change_m(),
                )
            } else {
                old(self).changes_model().push(class_renamed_change_m(old_name@, new_name@))
            }),
            !has_top_class_m(old(self).module_model(), old_name@) ==> r is Err
                && r->Err_0 is OperationError && *final(self) == *old(self),
            final(self).spec_formatter() == old(self).spec_formatter(),
            final(self).spec_ast().source_view() == old(self).spec_ast().source_view(),
    {
        let res = self.rename_class(old_name, new_name);
        match res {
            Ok(()) => {
                if apply_formatting {
                    self.format_code()
                } else {
                    Ok(())
                }
            },
            Err(e) => Err(e),
        }
    }

    /// Rewrites every top-level import of `old_module` to `new_module`:
    /// plain-import aliases equal to it are renamed and from-import source
    /// modules equal to it are replaced. One change entry is recorded only
    /// when at least one rewrite occurred; finding nothing to rewrite is
    /// not an error.
    pub fn replace_import(&mut self, old_module: &str, new_module: &str) -> (r: crate::error::Result<
        (),
    >)
        ensures
            r is Ok,
            final(self).module_model() == replace_imports_m(
                old(self).module_model(),
                old_module@,
                new_module@,
            ),
            has_import_module_m(old(self).module_model(), old_module@) ==> final(self).changes_model() == old(self).changes_model().push(
                import_change_m(old_module@, new_module@),
            ),
            !has_import_module_m(old(self).module_model(), old_module@) ==> final(self).changes_model() == old(self).changes_model(),
            final(self).spec_formatter() == old(self).spec_formatter(),
            final(self).spec_ast().source_view() == old(self).spec_ast().source_view(),
    {
        let _ = self.replace_import_inner(old_module, new_module);
        Ok(())
    }

    /// Performs the import rewrite and records the change entry when
    /// anything was rewritten; reports whether it was.
    fn replace_import_inner(&mut self, old_module: &str, new_module: &str) -> (found: bool)
        ensures
            found == has_import_module_m(old(self).module_model(), old_module@),
            final(self).module_model() == replace_imports_m(
                old(self).module_model(),
                old_module@,
                new_module@,
            ),
            found ==> final(self).changes_model() == old(self).changes_model().push(
                import_change_m(old_module@, new_module@),
            ),
            !found ==> final(self).changes_model() == old(self).changes_model(),
            final(self).spec_formatter() == old(self).spec_formatter(),
            final(self).spec_ast().source_view() == old(self).spec_ast().source_view(),
    {
        let found = module_has_import(self.ast.module(), old_module);
        replace_imports_in(self.ast.module_mut(), old_module, new_module);
        if found {
            let mut d = String::new();
            d.append("Replaced import '");
            d.append(old_module);
            d.append("' with '");
            d.append(new_module);
            d.append("'");
            let change = RefactorChange {
                change_type: ChangeType::ImportModified {
                    old_import: old_module.to_owned(),
                    new_import: new_module.to_owned(),
                },
                description: d,
                location: None,
            };
            let ghost prevc = self.changes@;
            self.changes.push(change);
            proof {
                assert(change.model() =~= import_change_m(old_module@, new_module@));
                assert(change_models(self.changes@) =~= change_models(prevc).push(change.model()));
            }
        }
        found
    }

    /// Records a formatting pass over the rendered output.
    pub fn format_code(&mut self) -> (r: crate::error::Result<()>)
        ensures
            r is Ok,
            final(self).module_model() == old(self).module_model(),
            final(self).changes_model() == old(self).changes_model().push(format_change_m()),
            final(self).spec_formatter() == old(self).spec_formatter(),
            final(self).spec_ast() == old(self).spec_ast(),
    {
        let mut d = String::new();
        d.append("Applied code formatting");
        let mut td = String::new();
        td.append("Applied code formatting");
        let change = RefactorChange {
            change_type: ChangeType::SyntaxModernized { description: td },
            description: d,
            location: None,
        };
        let ghost prevc = self.changes@;
        self.changes.push(change);
        proof {
            assert(change.model() =~= format_change_m());
            assert(change_models(self.changes@) =~= change_models(prevc).push(change.model()));
        }
        Ok(())
    }

    /// Read access to the owned tree.
    pub fn ast(&self) -> (r: &PythonAst)
        ensures
            *r == self.spec_ast(),
    {
        &self.ast
    }

    /// Mutable access to the owned tree.
    pub fn ast_mut(&mut self) -> (r: &mut PythonAst)
        ensures
            *r == old(self).spec_ast(),
            final(self).spec_ast() == *final(r),
            final(self).spec_formatter() == old(self).spec_formatter(),
            final(self).changes_seq() == old(self).changes_seq(),
    {
        &mut self.ast
    }

    /// The recorded change entries, oldest first.
    pub fn changes(&self) -> (r: &[RefactorChange])
        ensures
            r@ == self.changes_seq(),
    {
        self.changes.as_slice()
    }

    /// Renders the owned tree with the session's formatter.
    pub fn to_string(&mut self) -> (r: crate::error::Result<String>)
        ensures
            *final(self) == *old(self),
            !old(self).spec_formatter().is_strict() ==> r is Ok && r->Ok_0@ == render_module_m(
                old(self).module_model(),
            ),
            old(self).spec_formatter().is_strict() && module_supported_m(
                old(self).module_model(),
            ) ==> r is Ok && r->Ok_0@ == render_module_strict_m(old(self).module_model()),
            old(self).spec_formatter().is_strict() && !module_supported_m(
                old(self).module_model(),
            ) ==> r is Err && r->Err_0 is StructureError && r->Err_0.message_view() == err_body_m(
                old(self).module_model(),
            )->Some_0,
    {
        self.formatter.format_module(self.ast.module())
    }

    /// Optionally records a formatting pass, then renders the owned tree.
    pub fn to_string_with_format(&mut self, apply_formatting: bool) -> (r: crate::error::Result<
        String,
    >)
        ensures
            final(self).module_model() == old(self).module_model(),
            final(self).changes_model() == (if apply_formatting {
                old(self).changes_model().push(format_change_m())
            } else {
                old(self).changes_model()
            }),
            final(self).spec_formatter() == old(self).spec_formatter(),
            !old(self).spec_formatter().is_strict() ==> r is Ok && r->Ok_0@ == render_module_m(
                old(self).module_model(),
            ),
            old(self).spec_formatter().is_strict() && module_supported_m(
                old(self).module_model(),
            ) ==> r is Ok && r->Ok_0@ == render_module_strict_m(old(self).module_model()),
            old(self).spec_formatter().is_strict() && !module_supported_m(
                old(self).module_model(),
            ) ==> r is Err && r->Err_0 is StructureError,
    {
        if apply_formatting {
            let _ = self.format_code();
        }
        self.formatter.format_module(self.ast.module())
    }

    /// Records a formatting pass and renders the owned tree in one step.
    pub fn refactor_and_format(&mut self) -> (r: crate::error::Result<String>)
        ensures
            final(self).module_model() == old(self).module_model(),
            final(self).changes_model() == old(self).changes_model().push(format_change_m()),
            final(self).spec_formatter() == old(self).spec_formatter(),
            !old(self).spec_formatter().is_strict() ==> r is Ok && r->Ok_0@ == render_module_m(
                old(self).module_model(),
            ),
            old(self).spec_formatter().is_strict() && module_supported_m(
                old(self).module_model(),
            ) ==> r is Ok && r->Ok_0@ == render_module_strict_m(old(self).module_model()),
            old(self).spec_formatter().is_strict() && !module_supported_m(
                old(self).module_model(),
            ) ==> r is Err && r->Err_0 is StructureError,
    {
        let _ = self.format_code();
        self.formatter.format_module(self.ast.module())
    }

    /// Removes the most recent change entry; fails with an operation error
    /// when the log is empty. The underlying tree edit is not reversed.
    pub fn undo_last_change(&mut self) -> (r: crate::error::Result<()>)
        ensures
            old(self).changes_model().len() > 0 ==> r is Ok && final(self).changes_model() == old(self).changes_model().drop_last() && final(self).module_model() == old(self).module_model()
                && final(self).spec_ast() == old(self).spec_ast(),
            old(self).changes_model().len() == 0 ==> r is Err && r->Err_0 is OperationError
                && r->Err_0.message_view() == "No changes to undo"@ && *final(self) == *old(self),
            final(self).spec_formatter() == old(self).spec_formatter(),
    {
        if self.changes.len() == 0 {
            let mut msg = String::new();
            msg.append("No changes to undo");
            return Err(PyRustorError::refactor_error(msg));
        }
        let ghost prevc = self.changes@;
        let _ = self.changes.pop();
        proof {
            assert(change_models(self.changes@) =~= change_models(prevc).drop_last());
        }
        Ok(())
    }

    /// The numbered, newline-joined list of change descriptions, or a fixed
    /// sentinel when the log is empty.
    #[verifier::loop_isolation(false)]
    pub fn change_summary(&self) -> (r: String)
        ensures
            r@ == summary_m(descs_of(self.changes_model())),
    {
        let n = self.changes.len();
        if n == 0 {
            let mut out = String::new();
            out.append("No changes made");
            return out;
        }
        let mut out = String::new();
        out.append("Made ");
        push_decimal(&mut out, n);
        out.append(" changes:\n");
        proof {
            assert(descs_of(change_models(self.changes@)).subrange(0, 0) =~= Seq::<
                Seq<char>,
            >::empty());
            assert(out@ =~= "Made "@ + dec_repr(n as nat) + " changes:\n"@ + lines_from_m(
                descs_of(change_models(self.changes@)).subrange(0, 0),
                1,
            ));
        }
        let mut i: usize = 0;
        while i < n
            invariant
                n == self.changes@.len(),
                0 < n,
                i <= n,
                out@ == "Made "@ + dec_repr(n as nat) + " changes:\n"@ + lines_from_m(
                    descs_of(change_models(self.changes@)).subrange(0, i as int),
                    1,
                ),
            decreases n - i,
        {
            push_decimal(&mut out, i + 1);
            out.append(". ");
            out.append(self.changes[i].description.as_str());
            out.append("\n");
            proof {
                let ds = descs_of(change_models(self.changes@));
                let pre = ds.subrange(0, i as int);
                let cur = ds.subrange(0, i + 1 as int);
                assert(cur =~= pre.push(ds[i as int]));
                lemma_lines_snoc(pre, ds[i as int], 1);
                assert(ds[i as int] == self.changes@[i as int].description@);
                assert(out@ =~= "Made "@ + dec_repr(n as nat) + " changes:\n"@ + lines_from_m(
                    cur,
                    1,
                ));
            }
            i = i + 1;
        }
        proof {
            let ds = descs_of(change_models(self.changes@));
            assert(ds.subrange(0, n as int) =~= ds);
        }
        out
    }
}

/// The change entry recorded for a caller-described transformation.
pub open spec fn custom_change_m(d: Seq<char>) -> ChangeModel {
    ChangeModel {
        change_type: ChangeTypeModel::Custom { description: d },
        description: d,
        location: None,
    }
}

/// The fixed legacy-to-modern module mapping applied by `modernize_imports`,
/// by position.
pub open spec fn mod_pair(k: int) -> (Seq<char>, Seq<char>) {
    if k == 0 {
        ("imp"@, "importlib"@)
    } else if k == 1 {
        ("optparse"@, "argparse"@)
    } else if k == 2 {
        ("ConfigParser"@, "configparser"@)
    } else if k == 3 {
        ("StringIO"@, "io"@)
    } else if k == 4 {
        ("cPickle"@, "pickle"@)
    } else if k == 5 {
        ("urllib2"@, "urllib.request"@)
    } else {
        ("urlparse"@, "urllib.parse"@)
    }
}

/// The module after the first `k` mappings of the fixed table were applied
/// in order.
pub open spec fn modernize_after_m(ss: Seq<StmtModel>, k: nat) -> Seq<StmtModel>
    decreases k,
{
    if k == 0 {
        ss
    } else {
        replace_imports_m(
            modernize_after_m(ss, (k - 1) as nat),
            mod_pair(k - 1).0,
            mod_pair(k - 1).1,
        )
    }
}

/// The import-rewrite change entries recorded by the first `k` mappings:
/// one per mapping that found something to rewrite.
pub open spec fn modernize_changes_m(ss: Seq<StmtModel>, k: nat) -> Seq<ChangeModel>
    decreases k,
{
    if k == 0 {
        Seq::empty()
    } else {
        modernize_changes_m(ss, (k - 1) as nat) + (if has_import_module_m(
            modernize_after_m(ss, (k - 1) as nat),
            mod_pair(k - 1).0,
        ) {
            seq![import_change_m(mod_pair(k - 1).0, mod_pair(k - 1).1)]
        } else {
            Seq::empty()
        })
    }
}

/// The summary change entry recorded when any of the fixed mappings
/// applied.
pub open spec fn modernized_imports_change_m(cnt: nat) -> ChangeModel {
    ChangeModel {
        change_type: ChangeTypeModel::SyntaxModernized {
            description: "Modernized "@ + dec_repr(cnt) + " deprecated imports"@,
        },
        description: "Modernized deprecated imports"@,
        location: None,
    }
}

/// The change entry describing the intended collapse of the legacy
/// version-detection idiom.
pub open spec fn pkg_modernized_change_m(tm: Seq<char>, tf: Seq<char>) -> ChangeModel {
    ChangeModel {
        change_type: ChangeTypeModel::SyntaxModernized {
            description: "Modernized pkg_resources version detection to use "@ + tm + "::"@ + tf,
        },
        description: "Modernized version detection pattern"@,
        location: None,
    }
}

/// The summary change entry of the version-detection modernization.
pub open spec fn pkg_summary_change_m() -> ChangeModel {
    ChangeModel {
        change_type: ChangeTypeModel::Custom {
            description: "Applied 2 pkg_resources modernization changes"@,
        },
        description: "Completed pkg_resources modernization (2 changes)"@,
        location: None,
    }
}

/// The change entry recorded for one type-hint annotation request.
pub open spec fn hint_change_m(name: Seq<char>, hint: Seq<char>) -> ChangeModel {
    ChangeModel {
        change_type: ChangeTypeModel::Custom {
            description: "Added type hint '"@ + hint + "' to function '"@ + name + "'"@,
        },
        description: "Added type hints to function '"@ + name + "'"@,
        location: None,
    }
}

/// The change entries recorded for a list of type-hint requests.
pub open spec fn hint_changes_m(hs: Seq<(String, String)>) -> Seq<ChangeModel> {
    hs.map(|i: int, h: (String, String)| hint_change_m(h.0@, h.1@))
}

/// The change entry recorded by `sort_imports`.
pub open spec fn sort_imports_change_m() -> ChangeModel {
    ChangeModel {
        change_type: ChangeTypeModel::Custom {
            description: "Sorted imports according to PEP 8"@,
        },
        description: "Sorted imports"@,
        location: None,
    }
}

/// The change entry recorded by `extract_method`.
pub open spec fn extract_change_m(name: Seq<char>, a: usize, b: usize) -> ChangeModel {
    ChangeModel {
        change_type: ChangeTypeModel::Custom {
            description: "Extracted method '"@ + name + "' from lines "@ + dec_repr(a as nat)
                + "-"@ + dec_repr(b as nat),
        },
        description: "Extracted method '"@ + name + "'"@,
        location: Some(SourceLocation { line: a, column: 0 }),
    }
}

/// The change entry recorded by `inline_method`.
pub open spec fn inline_change_m(name: Seq<char>) -> ChangeModel {
    ChangeModel {
        change_type: ChangeTypeModel::Custom { description: "Inlined method '"@ + name + "'"@ },
        description: "Inlined method '"@ + name + "'"@,
        location: None,
    }
}

/// A from-import of a module also counts as an import of that module.
proof fn lemma_from_implies_import(ss: Seq<StmtModel>, o: Seq<char>)
    requires
        has_from_import_m(ss, o),
    ensures
        has_import_module_m(ss, o),
{
    let i = choose|i: int|
        {
            &&& 0 <= i < ss.len()
            &&& (#[trigger] ss[i]) matches StmtModel::ImportFrom { module, names }
            &&& module == Some(o)
            &&& names.len() > 0
        };
    assert(stmt_imports_module_m(ss[i], o));
}

/// Checks whether a from-import of source module `name` with at least one
/// imported name exists at top level.
#[verifier::loop_isolation(false)]
fn module_has_from_import(m: &Module, name: &str) -> (r: bool)
    ensures
        r == has_from_import_m(m.model(), name@),
{
    let n = m.body.len();
    proof {
        lemma_stmts_model(m.body@);
    }
    let mut i: usize = 0;
    while i < n
        invariant
            n == m.body@.len(),
            i <= n,
            forall|k: int|
                0 <= k < i ==> !((#[trigger] stmts_model(m.body@)[k]) matches StmtModel::ImportFrom {
                    module,
                    names,
                } && module == Some(name@) && names.len() > 0),
        decreases n - i,
    {
        proof {
            match m.body@[i as int] {
                Stmt::ImportFrom { module, names } => {
                    assert(m.body@[i as int].model() == StmtModel::ImportFrom {
                        module: opt_view(module),
                        names: crate::nodes::aliases_model(names@),
                    });
                },
                _ => {},
            }
        }
        let hit = match &m.body[i] {
            Stmt::ImportFrom { module, names } => match module {
                Some(src) => str_eq(src.as_str(), name) && names.len() > 0,
                None => false,
            },
            _ => false,
        };
        if hit {
            proof {
                assert(stmts_model(m.body@)[i as int] matches StmtModel::ImportFrom {
                    module,
                    names,
                } && module == Some(name@) && names.len() > 0);
            }
            return true;
        }
        i = i + 1;
    }
    false
}

impl Refactor {
    /// Applies the fixed legacy-to-modern module mapping through repeated
    /// import rewrites, in table order; each mapping that rewrites anything
    /// records its own change entry, and one summary entry is recorded when
    /// any mapping applied.
    #[verifier::rlimit(100)]
    #[verifier::spinoff_prover]
    pub fn modernize_imports(&mut self) -> (r: crate::error::Result<()>)
        ensures
            r is Ok,
            final(self).module_model() == modernize_after_m(old(self).module_model(), 7),
            final(self).changes_model() == old(self).changes_model() + modernize_changes_m(
                old(self).module_model(),
                7,
            ) + (if modernize_changes_m(old(self).module_model(), 7).len() > 0 {
                seq![
                    modernized_imports_change_m(
                        modernize_changes_m(old(self).module_model(), 7).len(),
                    ),
                ]
            } else {
                Seq::<ChangeModel>::empty()
            }),
            final(self).spec_formatter() == old(self).spec_formatter(),
            final(self).spec_ast().source_view() == old(self).spec_ast().source_view(),
    {
        let ghost m0 = self.module_model();
        let ghost c0 = self.changes_model();
        proof {
            reveal_with_fuel(modernize_after_m, 8);
            reveal_with_fuel(modernize_changes_m, 8);
        }
        let mut applied: usize = 0;
        let f = self.replace_import_inner("imp", "importlib");
        if f {
            applied = applied + 1;
        }
        proof {
            assert(self.module_model() == modernize_after_m(m0, 1));
            assert(self.changes_model() =~= c0 + modernize_changes_m(m0, 1));
            assert(applied == modernize_changes_m(m0, 1).len());
        }
        let f = self.replace_import_inner("optparse", "argparse");
        if f {
            applied = applied + 1;
        }
        proof {
            assert(self.module_model() == modernize_after_m(m0, 2));
            assert(self.changes_model() =~= c0 + modernize_changes_m(m0, 2));
            assert(applied == modernize_changes_m(m0, 2).len());
        }
        let f = self.replace_import_inner("ConfigParser", "configparser");
        if f {
            applied = applied + 1;
        }
        proof {
            assert(self.module_model() == modernize_after_m(m0, 3));
            assert(self.changes_model() =~= c0 + modernize_changes_m(m0, 3));
            assert(applied == modernize_changes_m(m0, 3).len());
        }
        let f = self.replace_import_inner("StringIO", "io");
        if f {
            applied = applied + 1;
        }
        proof {
            assert(self.module_model() == modernize_after_m(m0, 4));
            assert(self.changes_model() =~= c0 + modernize_changes_m(m0, 4));
            assert(applied == modernize_changes_m(m0, 4).len());
        }
        let f = self.replace_import_inner("cPickle", "pickle");
        if f {
            applied = applied + 1;
        }
        proof {
            assert(self.module_model() == modernize_after_m(m0, 5));
            assert(self.changes_model() =~= c0 + modernize_changes_m(m0, 5));
            assert(applied == modernize_changes_m(m0, 5).len());
        }
        let f = self.replace_import_inner("urllib2", "urllib.request");
        if f {
            applied = applied + 1;
        }
        proof {
            assert(self.module_model() == modernize_after_m(m0, 6));
            assert(self.changes_model() =~= c0 + modernize_changes_m(m0, 6));
            assert(applied == modernize_changes_m(m0, 6).len());
        }
        let f = self.replace_import_inner("urlparse", "urllib.parse");
        if f {
            applied = applied + 1;
        }
        proof {
            assert(self.module_model() == modernize_after_m(m0, 7));
            assert(self.changes_model() =~= c0 + modernize_changes_m(m0, 7));
            assert(applied == modernize_changes_m(m0, 7).len());
        }
        if applied > 0 {
            let mut td = String::new();
            td.append("Modernized ");
            push_decimal(&mut td, applied);
            td.append(" deprecated imports");
            let mut d = String::new();
            d.append("Modernized deprecated imports");
            let change = RefactorChange {
                change_type: ChangeType::SyntaxModernized { description: td },
                description: d,
                location: None,
            };
            let ghost prevc = self.changes@;
            self.changes.push(change);
            proof {
                assert(change.model() =~= modernized_imports_change_m(applied as nat));
                assert(change_models(self.changes@) =~= change_models(prevc).push(change.model()));
                assert(self.changes_model() =~= c0 + modernize_changes_m(m0, 7) + seq![
                    modernized_imports_change_m(modernize_changes_m(m0, 7).len()),
                ]);
            }
        } else {
            proof {
                assert(self.changes_model() =~= c0 + modernize_changes_m(m0, 7) + Seq::<
                    ChangeModel,
                >::empty());
            }
        }
        Ok(())
    }

    /// Checks for the legacy `from pkg_resources import ...` pattern. When
    /// absent the call is a no-op recording nothing, so the operation is
    /// idempotent on already-modern input. When present, the import source
    /// is replaced by `target_module` and change entries record the intended
    /// collapse of the try/except version-detection idiom into a single
    /// `target_function` call; the statement-level body rewrite itself is
    /// deliberately not invented here.
    pub fn modernize_pkg_resources_version(
        &mut self,
        target_module: &str,
        target_function: &str,
    ) -> (r: crate::error::Result<()>)
        ensures
            r is Ok,
            !has_from_import_m(old(self).module_model(), "pkg_resources"@) ==> *final(self) == *old(self),
            has_from_import_m(old(self).module_model(), "pkg_resources"@) ==> final(self).module_model() == replace_imports_m(
                old(self).module_model(),
                "pkg_resources"@,
                target_module@,
            ) && final(self).changes_model() == old(self).changes_model().push(
                import_change_m("pkg_resources"@, target_module@),
            ).push(pkg_modernized_change_m(target_module@, target_function@)).push(
                pkg_summary_change_m(),
            ),
            final(self).spec_formatter() == old(self).spec_formatter(),
            final(self).spec_ast().source_view() == old(self).spec_ast().source_view(),
    {
        let present = module_has_from_import(self.ast.module(), "pkg_resources");
        if !present {
            return Ok(());
        }
        proof {
            lemma_from_implies_import(self.module_model(), "pkg_resources"@);
        }
        let found = self.replace_import_inner("pkg_resources", target_module);
        let mut td = String::new();
        td.append("Modernized pkg_resources version detection to use ");
        td.append(target_module);
        td.append("::");
        td.append(target_function);
        let mut d = String::new();
        d.append("Modernized version detection pattern");
        let change = RefactorChange {
            change_type: ChangeType::SyntaxModernized { description: td },
            description: d,
            location: None,
        };
        let ghost prevc = self.changes@;
        self.changes.push(change);
        proof {
            assert(change.model() =~= pkg_modernized_change_m(target_module@, target_function@));
            assert(change_models(self.changes@) =~= change_models(prevc).push(change.model()));
        }
        let mut td2 = String::new();
        td2.append("Applied 2 pkg_resources modernization changes");
        let mut d2 = String::new();
        d2.append("Completed pkg_resources modernization (2 changes)");
        let change2 = RefactorChange {
            change_type: ChangeType::Custom { description: td2 },
            description: d2,
            location: None,
        };
        let ghost prevc2 = self.changes@;
        self.changes.push(change2);
        proof {
            assert(change2.model() =~= pkg_summary_change_m());
            assert(change_models(self.changes@) =~= change_models(prevc2).push(change2.model()));
        }
        Ok(())
    }

    /// Runs a caller-supplied edit against the owned tree. The result is
    /// the edit's own: the call succeeds exactly when the edit succeeded,
    /// and a failure is the edit's error returned unchanged. When the edit
    /// succeeds, one change entry with the given description is recorded;
    /// when it fails, no entry is recorded.
    pub fn apply_custom_transform<F: FnOnce(&mut PythonAst) -> crate::error::Result<
        (),
    >>(&mut self, description: &str, transform: F) -> (r: crate::error::Result<()>)
        requires
            forall|a: &mut PythonAst| transform.requires((a,)),
        ensures
            exists|a: &mut PythonAst, res: crate::error::Result<()>|
                call_ensures(transform, (a,), res) && (r is Ok <==> res is Ok) && (r is Err
                    ==> res == crate::error::Result::<()>::Err(r->Err_0)),
            r is Ok ==> final(self).changes_model() == old(self).changes_model().push(
                custom_change_m(description@),
            ),
            r is Err ==> final(self).changes_model() == old(self).changes_model(),
            final(self).spec_formatter() == old(self).spec_formatter(),
    {
        let res = transform(&mut self.ast);
        match res {
            Ok(()) => {
                let change = RefactorChange {
                    change_type: ChangeType::Custom { description: description.to_owned() },
                    description: description.to_owned(),
                    location: None,
                };
                let ghost prevc = self.changes@;
                self.changes.push(change);
                proof {
                    assert(change.model() =~= custom_change_m(description@));
                    assert(change_models(self.changes@) =~= change_models(prevc).push(
                        change.model(),
                    ));
                }
                Ok(())
            },
            Err(e) => Err(e),
        }
    }

    /// Records one change entry per requested annotation: the node model
    /// carries no annotations, so the request is logged as intent.
    #[verifier::loop_isolation(false)]
    pub fn add_type_hints(&mut self, hints: Vec<(String, String)>) -> (r: crate::error::Result<()>)
        ensures
            r is Ok,
            final(self).module_model() == old(self).module_model(),
            final(self).changes_model() == old(self).changes_model() + hint_changes_m(hints@),
            final(self).spec_formatter() == old(self).spec_formatter(),
            final(self).spec_ast() == old(self).spec_ast(),
    {
        let n = hints.len();
        let ghost c0 = self.changes_model();
        proof {
            assert(hints@.subrange(0, 0) =~= Seq::<(String, String)>::empty());
            assert(self.changes_model() =~= c0 + hint_changes_m(hints@.subrange(0, 0)));
        }
        let mut i: usize = 0;
        while i < n
            invariant
                n == hints@.len(),
                i <= n,
                self.changes_model() == c0 + hint_changes_m(hints@.subrange(0, i as int)),
                self.module_model() == old(self).module_model(),
                self.spec_formatter() == old(self).spec_formatter(),
                self.spec_ast() == old(self).spec_ast(),
            decreases n - i,
        {
            let mut td = String::new();
            td.append("Added type hint '");
            td.append(hints[i].1.as_str());
            td.append("' to function '");
            td.append(hints[i].0.as_str());
            td.append("'");
            let mut d = String::new();
            d.append("Added type hints to function '");
            d.append(hints[i].0.as_str());
            d.append("'");
            let change = RefactorChange {
                change_type: ChangeType::Custom { description: td },
                description: d,
                location: None,
            };
            let ghost prevc = self.changes@;
            self.changes.push(change);
            proof {
                assert(change.model() =~= hint_change_m(hints@[i as int].0@, hints@[i as int].1@));
                assert(change_models(self.changes@) =~= change_models(prevc).push(change.model()));
                let pre = hints@.subrange(0, i as int);
                let cur = hints@.subrange(0, i + 1 as int);
                assert(cur =~= pre.push(hints@[i as int]));
                assert(hint_changes_m(cur) =~= hint_changes_m(pre).push(
                    hint_change_m(hints@[i as int].0@, hints@[i as int].1@),
                ));
                assert(self.changes_model() =~= c0 + hint_changes_m(cur));
            }
            i = i + 1;
        }
        proof {
            assert(hints@.subrange(0, n as int) =~= hints@);
        }
        Ok(())
    }

    /// Records the intent to sort imports; the reordering itself is logged
    /// as intent, not applied.
    pub fn sort_imports(&mut self) -> (r: crate::error::Result<()>)
        ensures
            r is Ok,
            final(self).module_model() == old(self).module_model(),
            final(self).changes_model() == old(self).changes_model().push(sort_imports_change_m()),
            final(self).spec_formatter() == old(self).spec_formatter(),
            final(self).spec_ast() == old(self).spec_ast(),
    {
        let mut td = String::new();
        td.append("Sorted imports according to PEP 8");
        let mut d = String::new();
        d.append("Sorted imports");
        let change = RefactorChange {
            change_type: ChangeType::Custom { description: td },
            description: d,
            location: None,
        };
        let ghost prevc = self.changes@;
        self.changes.push(change);
        proof {
            assert(change.model() =~= sort_imports_change_m());
            assert(change_models(self.changes@) =~= change_models(prevc).push(change.model()));
        }
        Ok(())
    }

    /// Records the intent to extract the given line range into a method.
    pub fn extract_method(&mut self, method_name: &str, start_line: usize, end_line: usize) -> (r:
        crate::error::Result<()>)
        ensures
            r is Ok,
            final(self).module_model() == old(self).module_model(),
            final(self).changes_model() == old(self).changes_model().push(
                extract_change_m(method_name@, start_line, end_line),
            ),
            final(self).spec_formatter() == old(self).spec_formatter(),
            final(self).spec_ast() == old(self).spec_ast(),
    {
        let mut td = String::new();
        td.append("Extracted method '");
        td.append(method_name);
        td.append("' from lines ");
        push_decimal(&mut td, start_line);
        td.append("-");
        push_decimal(&mut td, end_line);
        let mut d = String::new();
        d.append("Extracted method '");
        d.append(method_name);
        d.append("'");
        let change = RefactorChange {
            change_type: ChangeType::Custom { description: td },
            description: d,
            location: Some(SourceLocation { line: start_line, column: 0 }),
        };
        let ghost prevc = self.changes@;
        self.changes.push(change);
        proof {
            assert(change.model() =~= extract_change_m(method_name@, start_line, end_line));
            assert(change_models(self.changes@) =~= change_models(prevc).push(change.model()));
        }
        Ok(())
    }

    /// Records the intent to inline the given method.
    pub fn inline_method(&mut self, method_name: &str) -> (r: crate::error::Result<()>)
        ensures
            r is Ok,
            final(self).module_model() == old(self).module_model(),
            final(self).changes_model() == old(self).changes_model().push(
                inline_change_m(method_name@),
            ),
            final(self).spec_formatter() == old(self).spec_formatter(),
            final(self).spec_ast() == old(self).spec_ast(),
    {
        let mut td = String::new();
        td.append("Inlined method '");
        td.append(method_name);
        td.append("'");
        let mut d = String::new();
        d.append("Inlined method '");
        d.append(method_name);
        d.append("'");
        let change = RefactorChange {
            change_type: ChangeType::Custom { description: td },
            description: d,
            location: None,
        };
        let ghost prevc = self.changes@;
        self.changes.push(change);
        proof {
            assert(change.model() =~= inline_change_m(method_name@));
            assert(change_models(self.changes@) =~= change_models(prevc).push(change.model()));
        }
        Ok(())
    }
}

/// Whether one expression is a legacy string operation: with `pct` set, a
/// `%` operation whose left operand is a string literal; otherwise a `+`
/// operation with a string literal on either side.
pub open spec fn legacy_op_m(e: ExprModel, pct: bool) -> bool {
    match e {
        ExprModel::BinOp { left, op, right } => if pct {
            op == Operator::Mod && *left matches ExprModel::StringLiteral { .. }
        } else {
            op == Operator::Add && ((*left matches ExprModel::StringLiteral { .. }) || (
            *right matches ExprModel::StringLiteral { .. }))
        },
        _ => false,
    }
}

/// Whether a legacy string operation occurs anywhere inside an expression.
pub open spec fn legacy_expr_m(e: ExprModel, pct: bool) -> bool
    decreases e,
{
    legacy_op_m(e, pct) || (match e {
        ExprModel::Call { func, args } => legacy_expr_m(*func, pct) || legacy_exprs_m(args, pct),
        ExprModel::BinOp { left, right, .. } => legacy_expr_m(*left, pct) || legacy_expr_m(
            *right,
            pct,
        ),
        ExprModel::Attribute { value, .. } => legacy_expr_m(*value, pct),
        ExprModel::Subscript { value, index } => legacy_expr_m(*value, pct) || legacy_expr_m(
            *index,
            pct,
        ),
        _ => false,
    })
}

/// Whether a legacy string operation occurs in any of the expressions.
pub open spec fn legacy_exprs_m(es: Seq<ExprModel>, pct: bool) -> bool
    decreases es,
{
    if es.len() == 0 {
        false
    } else {
        legacy_exprs_m(es.drop_last(), pct) || legacy_expr_m(es.last(), pct)
    }
}

/// Whether a legacy string operation occurs anywhere inside one statement.
pub open spec fn legacy_stmt_m(s: StmtModel, pct: bool) -> bool
    decreases s,
{
    match s {
        StmtModel::FunctionDef(f) => legacy_body_m(f.body, pct),
        StmtModel::ClassDef(c) => legacy_exprs_m(c.bases, pct) || legacy_body_m(c.body, pct),
        StmtModel::Assign { targets, value } => legacy_exprs_m(targets, pct) || legacy_expr_m(
            value,
            pct,
        ),
        StmtModel::Return { value } => match value {
            Some(v) => legacy_expr_m(v, pct),
            None => false,
        },
        StmtModel::Expr { value } => legacy_expr_m(value, pct),
        StmtModel::TryExcept { body, handlers, orelse, finalbody } => legacy_body_m(body, pct)
            || legacy_handlers_m(handlers, pct) || legacy_body_m(orelse, pct) || legacy_body_m(
            finalbody,
            pct,
        ),
        _ => false,
    }
}

/// Whether a legacy string operation occurs in a block of statements.
pub open spec fn legacy_body_m(ss: Seq<StmtModel>, pct: bool) -> bool
    decreases ss,
{
    if ss.len() == 0 {
        false
    } else {
        legacy_body_m(ss.drop_last(), pct) || legacy_stmt_m(ss.last(), pct)
    }
}

/// Whether a legacy string operation occurs in any handler body.
pub open spec fn legacy_handlers_m(hs: Seq<crate::nodes::HandlerModel>, pct: bool) -> bool
    decreases hs,
{
    if hs.len() == 0 {
        false
    } else {
        legacy_handlers_m(hs.drop_last(), pct) || legacy_body_m(hs.last().body, pct)
    }
}

/// The change entry recorded when legacy string syntax was detected.
pub open spec fn syntax_modernized_change_m() -> ChangeModel {
    ChangeModel {
        change_type: ChangeTypeModel::SyntaxModernized {
            description: "Modernized Python syntax"@,
        },
        description: "Modernized Python syntax"@,
        location: None,
    }
}

/// The change entry recorded when legacy `%` formatting was detected.
pub open spec fn string_formatting_change_m() -> ChangeModel {
    ChangeModel {
        change_type: ChangeTypeModel::SyntaxModernized {
            description: "Modernized string formatting patterns"@,
        },
        description: "Modernized string formatting"@,
        location: None,
    }
}

/// An expression's model is a string literal exactly when the expression
/// is one.
proof fn lemma_is_string_lit(x: &Expr)
    ensures
        ((*x).model() matches ExprModel::StringLiteral { .. }) == (*x
            matches Expr::StringLiteral { .. }),
{
    match x {
        Expr::Name { .. } => {},
        Expr::StringLiteral { .. } => {},
        Expr::NumberLiteral { .. } => {},
        Expr::BooleanLiteral { .. } => {},
        Expr::NoneLiteral => {},
        Expr::Call { .. } => {},
        Expr::BinOp { .. } => {},
        Expr::Attribute { .. } => {},
        Expr::Subscript { .. } => {},
        Expr::Unknown { .. } => {},
    }
}

/// Scans one expression for a legacy string operation.
#[verifier::loop_isolation(false)]
fn legacy_scan_expr(e: &Expr, pct: bool) -> (r: bool)
    ensures
        r == legacy_expr_m(e.model(), pct),
    decreases e,
{
    match e {
        Expr::BinOp { left, op, right } => {
            let hit0: bool = if pct {
                matches!(op, Operator::Mod) && matches!(&**left, Expr::StringLiteral { .. })
            } else {
                matches!(op, Operator::Add) && (matches!(&**left, Expr::StringLiteral { .. })
                    || matches!(&**right, Expr::StringLiteral { .. }))
            };
            proof {
                lemma_is_string_lit(&**left);
                lemma_is_string_lit(&**right);
                assert(hit0 == legacy_op_m(e.model(), pct));
            }
            if hit0 {
                true
            } else {
                let a = legacy_scan_expr(&**left, pct);
                if a {
                    true
                } else {
                    legacy_scan_expr(&**right, pct)
                }
            }
        },
        Expr::Call { func, args } => {
            let a = legacy_scan_expr(&**func, pct);
            if a {
                true
            } else {
                legacy_scan_exprs(args, pct)
            }
        },
        Expr::Attribute { value, .. } => legacy_scan_expr(&**value, pct),
        Expr::Subscript { value, index } => {
            let a = legacy_scan_expr(&**value, pct);
            if a {
                true
            } else {
                legacy_scan_expr(&**index, pct)
            }
        },
        _ => false,
    }
}

/// Scans a sequence of expressions for a legacy string operation.
#[verifier::loop_isolation(false)]
fn legacy_scan_exprs(es: &Vec<Expr>, pct: bool) -> (r: bool)
    ensures
        r == legacy_exprs_m(crate::nodes::exprs_model(es@), pct),
    decreases es@,
{
    let n = es.len();
    let mut acc = false;
    proof {
        assert(es@.subrange(0, 0) =~= Seq::<Expr>::empty());
        assert(acc == legacy_exprs_m(crate::nodes::exprs_model(es@.subrange(0, 0)), pct));
    }
    let mut i: usize = 0;
    while i < n
        invariant
            n == es@.len(),
            i <= n,
            acc == legacy_exprs_m(crate::nodes::exprs_model(es@.subrange(0, i as int)), pct),
        decreases n - i,
    {
        let h = legacy_scan_expr(&es[i], pct);
        acc = acc || h;
        proof {
            let pre = es@.subrange(0, i as int);
            let cur = es@.subrange(0, i + 1 as int);
            assert(cur.drop_last() =~= pre);
            assert(cur.last() == es@[i as int]);
            crate::nodes::lemma_exprs_model(pre);
            crate::nodes::lemma_exprs_model(cur);
            assert(crate::nodes::exprs_model(cur).drop_last() =~= crate::nodes::exprs_model(pre));
            assert(crate::nodes::exprs_model(cur).drop_last() == crate::nodes::exprs_model(pre));
            assert(crate::nodes::exprs_model(cur).last() == es@[i as int].model());
        }
        i = i + 1;
    }
    proof {
        assert(es@.subrange(0, n as int) =~= es@);
    }
    acc
}

/// Scans a block of statements for a legacy string operation.
#[verifier::rlimit(100)]
#[verifier::spinoff_prover]
#[verifier::loop_isolation(false)]
fn legacy_scan_body(ss: &Vec<Stmt>, pct: bool) -> (r: bool)
    ensures
        r == legacy_body_m(stmts_model(ss@), pct),
    decreases ss@,
{
    let n = ss.len();
    let mut acc = false;
    proof {
        assert(ss@.subrange(0, 0) =~= Seq::<Stmt>::empty());
        assert(acc == legacy_body_m(stmts_model(ss@.subrange(0, 0)), pct));
    }
    let mut i: usize = 0;
    while i < n
        invariant
            n == ss@.len(),
            i <= n,
            acc == legacy_body_m(stmts_model(ss@.subrange(0, i as int)), pct),
        decreases n - i,
    {
        let h: bool = match &ss[i] {
            Stmt::FunctionDef(f) => {
                proof {
                    assert(ss@[i as int] == Stmt::FunctionDef(*f));
                    assert(ss@[i as int].model() == StmtModel::FunctionDef(f.model()));
                }
                legacy_scan_body(&f.body, pct)
            },
            Stmt::ClassDef(c) => {
                proof {
                    assert(ss@[i as int] == Stmt::ClassDef(*c));
                    assert(ss@[i as int].model() == StmtModel::ClassDef(c.model()));
                }
                let a = legacy_scan_exprs(&c.bases, pct);
                if a {
                    true
                } else {
                    legacy_scan_body(&c.body, pct)
                }
            },
            Stmt::Assign { targets, value } => {
                let a = legacy_scan_exprs(targets, pct);
                if a {
                    true
                } else {
                    legacy_scan_expr(value, pct)
                }
            },
            Stmt::Return { value } => match value {
                Some(v) => legacy_scan_expr(v, pct),
                None => false,
            },
            Stmt::Expr { value } => legacy_scan_expr(value, pct),
            Stmt::TryExcept { body, handlers, orelse, finalbody } => {
                proof {
                    assert(ss@[i as int] == Stmt::TryExcept {
                        body: *body,
                        handlers: *handlers,
                        orelse: *orelse,
                        finalbody: *finalbody,
                    });
                }
                let mut acc2 = legacy_scan_body(body, pct);
                let hn = handlers.len();
                let ghost handlers_m = crate::nodes::handlers_model(handlers@);
                proof {
                    assert(handlers@.subrange(0, 0) =~= Seq::<crate::nodes::ExceptHandler>::empty());
                }
                let mut j: usize = 0;
                while j < hn
                    invariant
                        hn == handlers@.len(),
                        j <= hn,
                        acc2 == (legacy_body_m(stmts_model(body@), pct) || legacy_handlers_m(
                            crate::nodes::handlers_model(handlers@.subrange(0, j as int)),
                            pct,
                        )),
                    decreases hn - j,
                {
                    proof {
                        assert(handlers@[j as int].model() == crate::nodes::HandlerModel {
                            exc_type: crate::nodes::opt_expr_model(handlers@[j as int].exc_type),
                            body: stmts_model(handlers@[j as int].body@),
                        });
                        assert(decreases_to!(ss@ => ss@[i as int]));
                        assert(decreases_to!(ss@[i as int] => *handlers));
                        assert(decreases_to!(*handlers => handlers@));
                        assert(decreases_to!(handlers@ => handlers@[j as int]));
                        assert(decreases_to!(handlers@[j as int] => handlers@[j as int].body));
                        assert(decreases_to!(handlers@[j as int].body => handlers@[j as int].body@));
                        assert(decreases_to!(ss@ => handlers@[j as int].body@));
                    }
                    let hb = legacy_scan_body(&handlers[j].body, pct);
                    acc2 = acc2 || hb;
                    proof {
                        let pre = handlers@.subrange(0, j as int);
                        let cur = handlers@.subrange(0, j + 1 as int);
                        assert(cur.drop_last() =~= pre);
                        assert(cur.last() == handlers@[j as int]);
                        crate::nodes::lemma_handlers_model(pre);
                        crate::nodes::lemma_handlers_model(cur);
                        assert(crate::nodes::handlers_model(cur).drop_last()
                            =~= crate::nodes::handlers_model(pre));
                        assert(crate::nodes::handlers_model(cur).drop_last()
                            == crate::nodes::handlers_model(pre));
                        assert(crate::nodes::handlers_model(cur).last() == handlers@[j as int].model());
                    }
                    j = j + 1;
                }
                proof {
                    assert(handlers@.subrange(0, hn as int) =~= handlers@);
                }
                if acc2 {
                    true
                } else {
                    let a = legacy_scan_body(orelse, pct);
                    if a {
                        true
                    } else {
                        legacy_scan_body(finalbody, pct)
                    }
                }
            },
            _ => false,
        };
        proof {
            assert(h == legacy_stmt_m(ss@[i as int].model(), pct));
        }
        acc = acc || h;
        proof {
            let pre = ss@.subrange(0, i as int);
            let cur = ss@.subrange(0, i + 1 as int);
            assert(cur.drop_last() =~= pre);
            assert(cur.last() == ss@[i as int]);
            lemma_stmts_model(pre);
            lemma_stmts_model(cur);
            assert(stmts_model(cur).drop_last() =~= stmts_model(pre));
            assert(stmts_model(cur).drop_last() == stmts_model(pre));
            assert(stmts_model(cur).last() == ss@[i as int].model());
        }
        i = i + 1;
    }
    proof {
        assert(ss@.subrange(0, n as int) =~= ss@);
    }
    acc
}

impl Refactor {
    /// Scans the tree for legacy string syntax: `%`-formatting with a
    /// string-literal format and string concatenation with `+`. When either
    /// pattern is present, one change entry records the modernization
    /// intent; the node model has no f-string variant, so the rewrite
    /// itself is left to the renderer's future and not silently invented.
    pub fn modernize_syntax(&mut self) -> (r: crate::error::Result<()>)
        ensures
            r is Ok,
            final(self).module_model() == old(self).module_model(),
            final(self).changes_model() == (if legacy_body_m(old(self).module_model(), true)
                || legacy_body_m(old(self).module_model(), false) {
                old(self).changes_model().push(syntax_modernized_change_m())
            } else {
                old(self).changes_model()
            }),
            final(self).spec_formatter() == old(self).spec_formatter(),
            final(self).spec_ast() == old(self).spec_ast(),
    {
        let pct = legacy_scan_body(&self.ast.module().body, true);
        let cat = legacy_scan_body(&self.ast.module().body, false);
        if pct || cat {
            let mut td = String::new();
            td.append("Modernized Python syntax");
            let mut d = String::new();
            d.append("Modernized Python syntax");
            let change = RefactorChange {
                change_type: ChangeType::SyntaxModernized { description: td },
                description: d,
                location: None,
            };
            let ghost prevc = self.changes@;
            self.changes.push(change);
            proof {
                assert(change.model() =~= syntax_modernized_change_m());
                assert(change_models(self.changes@) =~= change_models(prevc).push(change.model()));
            }
        }
        Ok(())
    }

    /// Scans the tree for legacy `%`-formatting and records the
    /// modernization intent when present.
    pub fn modernize_string_formatting(&mut self) -> (r: crate::error::Result<()>)
        ensures
            r is Ok,
            final(self).module_model() == old(self).module_model(),
            final(self).changes_model() == (if legacy_body_m(old(self).module_model(), true) {
                old(self).changes_model().push(string_formatting_change_m())
            } else {
                old(self).changes_model()
            }),
            final(self).spec_formatter() == old(self).spec_formatter(),
            final(self).spec_ast() == old(self).spec_ast(),
    {
        let pct = legacy_scan_body(&self.ast.module().body, true);
        if pct {
            let mut td = String::new();
            td.append("Modernized string formatting patterns");
            let mut d = String::new();
            d.append("Modernized string formatting");
            let change = RefactorChange {
                change_type: ChangeType::SyntaxModernized { description: td },
                description: d,
                location: None,
            };
            let ghost prevc = self.changes@;
            self.changes.push(change);
            proof {
                assert(change.model() =~= string_formatting_change_m());
                assert(change_models(self.changes@) =~= change_models(prevc).push(change.model()));
            }
        }
        Ok(())
    }

    /// Scans for legacy syntax, then optionally records a formatting pass.
    pub fn modernize_syntax_with_format(&mut self, apply_formatting: bool) -> (r:
        crate::error::Result<()>)
        ensures
            r is Ok,
            final(self).module_model() == old(self).module_model(),
            final(self).changes_model() == (if legacy_body_m(old(self).module_model(), true)
                || legacy_body_m(old(self).module_model(), false) {
                if apply_formatting {
                    old(self).changes_model().push(syntax_modernized_change_m()).push(
                        format_change_m(),
                    )
                } else {
                    old(self).changes_model().push(syntax_modernized_change_m())
                }
            } else {
                if apply_formatting {
                    old(self).changes_model().push(format_change_m())
                } else {
                    old(self).changes_model()
                }
            }),
            final(self).spec_formatter() == old(self).spec_formatter(),
            final(self).spec_ast() == old(self).spec_ast(),
    {
        let res = self.modernize_syntax();
        match res {
            Ok(()) => {
                if apply_formatting {
                    self.format_code()
                } else {
                    Ok(())
                }
            },
            Err(e) => Err(e),
        }
    }
}

/// Whether an expression mentions the free name `x`. The opaque arm counts
/// as mentioning every name, so that a scan over a tree with opaque nodes
/// never declares a name unused.
pub open spec fn uses_expr_m(e: ExprModel, x: Seq<char>) -> bool
    decreases e,
{
    match e {
        ExprModel::Name { id } => id == x,
        ExprModel::Call { func, args } => uses_expr_m(*func, x) || uses_exprs_m(args, x),
        ExprModel::BinOp { left, right, .. } => uses_expr_m(*left, x) || uses_expr_m(*right, x),
        ExprModel::Attribute { value, .. } => uses_expr_m(*value, x),
        ExprModel::Subscript { value, index } => uses_expr_m(*value, x) || uses_expr_m(*index, x),
        ExprModel::Unknown { .. } => true,
        _ => false,
    }
}

/// Whether any of the expressions mentions the free name `x`.
pub open spec fn uses_exprs_m(es: Seq<ExprModel>, x: Seq<char>) -> bool
    decreases es,
{
    if es.len() == 0 {
        false
    } else {
        uses_exprs_m(es.drop_last(), x) || uses_expr_m(es.last(), x)
    }
}

/// Whether a statement mentions the free name `x` anywhere in its
/// expressions or nested blocks. Import statements bind names and never
/// count as uses; the opaque arm counts as using every name.
pub open spec fn uses_stmt_m(s: StmtModel, x: Seq<char>) -> bool
    decreases s,
{
    match s {
        StmtModel::FunctionDef(f) => uses_body_m(f.body, x),
        StmtModel::ClassDef(c) => uses_exprs_m(c.bases, x) || uses_body_m(c.body, x),
        StmtModel::Assign { targets, value } => uses_exprs_m(targets, x) || uses_expr_m(value, x),
        StmtModel::Return { value } => match value {
            Some(v) => uses_expr_m(v, x),
            None => false,
        },
        StmtModel::Expr { value } => uses_expr_m(value, x),
        StmtModel::TryExcept { body, handlers, orelse, finalbody } => uses_body_m(body, x)
            || uses_handlers_m(handlers, x) || uses_body_m(orelse, x) || uses_body_m(finalbody, x),
        StmtModel::Unknown { .. } => true,
        _ => false,
    }
}

/// Whether any statement of a block mentions the free name `x`.
pub open spec fn uses_body_m(ss: Seq<StmtModel>, x: Seq<char>) -> bool
    decreases ss,
{
    if ss.len() == 0 {
        false
    } else {
        uses_body_m(ss.drop_last(), x) || uses_stmt_m(ss.last(), x)
    }
}

/// Whether any handler mentions the free name `x`, in its exception type
/// expression or its body.
pub open spec fn uses_handlers_m(hs: Seq<crate::nodes::HandlerModel>, x: Seq<char>) -> bool
    decreases hs,
{
    if hs.len() == 0 {
        false
    } else {
        uses_handlers_m(hs.drop_last(), x) || (match hs.last().exc_type {
            Some(t) => uses_expr_m(t, x),
            None => false,
        }) || uses_body_m(hs.last().body, x)
    }
}

/// The leading dotted segment of a module path: the name it binds when
/// imported without an alias.
pub open spec fn dotted_head(s: Seq<char>) -> Seq<char>
    decreases s.len(),
{
    if s.len() == 0 {
        Seq::empty()
    } else if s.first() == '.' {
        Seq::empty()
    } else {
        seq![s.first()] + dotted_head(s.drop_first())
    }
}

/// The name bound by one alias of a plain import: its alias when present,
/// else the leading dotted segment of the module path.
pub open spec fn bound_plain_m(a: AliasModel) -> Seq<char> {
    match a.asname {
        Some(x) => x,
        None => dotted_head(a.name),
    }
}

/// The name bound by one alias of a from-import: its alias when present,
/// else the imported name itself.
pub open spec fn bound_from_m(a: AliasModel) -> Seq<char> {
    match a.asname {
        Some(x) => x,
        None => a.name,
    }
}

/// Whether a top-level statement is kept by the unused-import removal: a
/// statement is dropped only when it is an import none of whose bound names
/// is used anywhere in the tree.
pub open spec fn stmt_keep_m(s: StmtModel, orig: Seq<StmtModel>) -> bool {
    match s {
        StmtModel::Import { names } => names.len() == 0 || exists|j: int|
            0 <= j < names.len() && uses_body_m(orig, bound_plain_m(#[trigger] names[j])),
        StmtModel::ImportFrom { names, .. } => names.len() == 0 || exists|j: int|
            0 <= j < names.len() && uses_body_m(orig, bound_from_m(#[trigger] names[j])),
        _ => true,
    }
}

/// The module after unused-import removal: the kept statements, in order.
pub open spec fn prune_m(ss: Seq<StmtModel>, orig: Seq<StmtModel>) -> Seq<StmtModel>
    decreases ss,
{
    if ss.len() == 0 {
        Seq::empty()
    } else {
        (if stmt_keep_m(ss.first(), orig) {
            seq![ss.first()]
        } else {
            Seq::empty()
        }) + prune_m(ss.drop_first(), orig)
    }
}

/// Whether the unused-import removal drops anything.
pub open spec fn any_removed_m(ss: Seq<StmtModel>, orig: Seq<StmtModel>) -> bool {
    exists|i: int| 0 <= i < ss.len() && !stmt_keep_m(#[trigger] ss[i], orig)
}

/// The change entry recorded when unused imports were removed.
pub open spec fn removed_imports_change_m() -> ChangeModel {
    ChangeModel {
        change_type: ChangeTypeModel::Custom { description: "Removed unused imports"@ },
        description: "Removed unused imports"@,
        location: None,
    }
}

/// Scans one expression for a mention of the free name `x`.
#[verifier::loop_isolation(false)]
fn uses_scan_expr(e: &Expr, x: &str) -> (r: bool)
    ensures
        r == uses_expr_m(e.model(), x@),
    decreases e,
{
    match e {
        Expr::Name { id } => str_eq(id.as_str(), x),
        Expr::Call { func, args } => {
            let a = uses_scan_expr(&**func, x);
            if a {
                true
            } else {
                uses_scan_exprs(args, x)
            }
        },
        Expr::BinOp { left, right, .. } => {
            let a = uses_scan_expr(&**left, x);
            if a {
                true
            } else {
                uses_scan_expr(&**right, x)
            }
        },
        Expr::Attribute { value, .. } => uses_scan_expr(&**value, x),
        Expr::Subscript { value, index } => {
            let a = uses_scan_expr(&**value, x);
            if a {
                true
            } else {
                uses_scan_expr(&**index, x)
            }
        },
        Expr::Unknown { .. } => true,
        _ => false,
    }
}

/// Scans a sequence of expressions for a mention of the free name `x`.
#[verifier::loop_isolation(false)]
fn uses_scan_exprs(es: &Vec<Expr>, x: &str) -> (r: bool)
    ensures
        r == uses_exprs_m(crate::nodes::exprs_model(es@), x@),
    decreases es@,
{
    let n = es.len();
    let mut acc = false;
    proof {
        assert(es@.subrange(0, 0) =~= Seq::<Expr>::empty());
    }
    let mut i: usize = 0;
    while i < n
        invariant
            n == es@.len(),
            i <= n,
            acc == uses_exprs_m(crate::nodes::exprs_model(es@.subrange(0, i as int)), x@),
        decreases n - i,
    {
        let h = uses_scan_expr(&es[i], x);
        acc = acc || h;
        proof {
            let pre = es@.subrange(0, i as int);
            let cur = es@.subrange(0, i + 1 as int);
            assert(cur.drop_last() =~= pre);
            assert(cur.last() == es@[i as int]);
            crate::nodes::lemma_exprs_model(pre);
            crate::nodes::lemma_exprs_model(cur);
            assert(crate::nodes::exprs_model(cur).drop_last() =~= crate::nodes::exprs_model(pre));
            assert(crate::nodes::exprs_model(cur).drop_last() == crate::nodes::exprs_model(pre));
            assert(crate::nodes::exprs_model(cur).last() == es@[i as int].model());
        }
        i = i + 1;
    }
    proof {
        assert(es@.subrange(0, n as int) =~= es@);
    }
    acc
}

/// Scans a block of statements for a mention of the free name `x`.
#[verifier::rlimit(100)]
#[verifier::spinoff_prover]
#[verifier::loop_isolation(false)]
fn uses_scan_body(ss: &Vec<Stmt>, x: &str) -> (r: bool)
    ensures
        r == uses_body_m(stmts_model(ss@), x@),
    decreases ss@,
{
    let n = ss.len();
    let mut acc = false;
    proof {
        assert(ss@.subrange(0, 0) =~= Seq::<Stmt>::empty());
    }
    let mut i: usize = 0;
    while i < n
        invariant
            n == ss@.len(),
            i <= n,
            acc == uses_body_m(stmts_model(ss@.subrange(0, i as int)), x@),
        decreases n - i,
    {
        let h: bool = match &ss[i] {
            Stmt::FunctionDef(f) => {
                proof {
                    assert(ss@[i as int] == Stmt::FunctionDef(*f));
                    assert(ss@[i as int].model() == StmtModel::FunctionDef(f.model()));
                }
                uses_scan_body(&f.body, x)
            },
            Stmt::ClassDef(c) => {
                proof {
                    assert(ss@[i as int] == Stmt::ClassDef(*c));
                    assert(ss@[i as int].model() == StmtModel::ClassDef(c.model()));
                }
                let a = uses_scan_exprs(&c.bases, x);
                if a {
                    true
                } else {
                    uses_scan_body(&c.body, x)
                }
            },
            Stmt::Assign { targets, value } => {
                let a = uses_scan_exprs(targets, x);
                if a {
                    true
                } else {
                    uses_scan_expr(value, x)
                }
            },
            Stmt::Return { value } => match value {
                Some(v) => uses_scan_expr(v, x),
                None => false,
            },
            Stmt::Expr { value } => uses_scan_expr(value, x),
            Stmt::TryExcept { body, handlers, orelse, finalbody } => {
                proof {
                    assert(ss@[i as int] == Stmt::TryExcept {
                        body: *body,
                        handlers: *handlers,
                        orelse: *orelse,
                        finalbody: *finalbody,
                    });
                }
                let mut acc2 = uses_scan_body(body, x);
                let hn = handlers.len();
                proof {
                    assert(handlers@.subrange(0, 0) =~= Seq::<crate::nodes::ExceptHandler>::empty());
                }
                let mut j: usize = 0;
                while j < hn
                    invariant
                        hn == handlers@.len(),
                        j <= hn,
                        acc2 == (uses_body_m(stmts_model(body@), x@) || uses_handlers_m(
                            crate::nodes::handlers_model(handlers@.subrange(0, j as int)),
                            x@,
                        )),
                    decreases hn - j,
                {
                    proof {
                        assert(handlers@[j as int].model() == crate::nodes::HandlerModel {
                            exc_type: crate::nodes::opt_expr_model(handlers@[j as int].exc_type),
                            body: stmts_model(handlers@[j as int].body@),
                        });
                        assert(decreases_to!(ss@ => ss@[i as int]));
                        assert(decreases_to!(ss@[i as int] => *handlers));
                        assert(decreases_to!(*handlers => handlers@));
                        assert(decreases_to!(handlers@ => handlers@[j as int]));
                        assert(decreases_to!(handlers@[j as int] => handlers@[j as int].body));
                        assert(decreases_to!(handlers@[j as int].body => handlers@[j as int].body@));
                        assert(decreases_to!(ss@ => handlers@[j as int].body@));
                    }
                    let ht: bool = match &handlers[j].exc_type {
                        Some(t) => uses_scan_expr(t, x),
                        None => false,
                    };
                    let hb = uses_scan_body(&handlers[j].body, x);
                    acc2 = acc2 || ht || hb;
                    proof {
                        let pre = handlers@.subrange(0, j as int);
                        let cur = handlers@.subrange(0, j + 1 as int);
                        assert(cur.drop_last() =~= pre);
                        assert(cur.last() == handlers@[j as int]);
                        crate::nodes::lemma_handlers_model(pre);
                        crate::nodes::lemma_handlers_model(cur);
                        assert(crate::nodes::handlers_model(cur).drop_last()
                            =~= crate::nodes::handlers_model(pre));
                        assert(crate::nodes::handlers_model(cur).drop_last()
                            == crate::nodes::handlers_model(pre));
                        assert(crate::nodes::handlers_model(cur).last() == handlers@[j as int].model());
                    }
                    j = j + 1;
                }
                proof {
                    assert(handlers@.subrange(0, hn as int) =~= handlers@);
                }
                if acc2 {
                    true
                } else {
                    let a = uses_scan_body(orelse, x);
                    if a {
                        true
                    } else {
                        uses_scan_body(finalbody, x)
                    }
                }
            },
            Stmt::Unknown { .. } => true,
            _ => false,
        };
        proof {
            assert(h == uses_stmt_m(ss@[i as int].model(), x@));
        }
        acc = acc || h;
        proof {
            let pre = ss@.subrange(0, i as int);
            let cur = ss@.subrange(0, i + 1 as int);
            assert(cur.drop_last() =~= pre);
            assert(cur.last() == ss@[i as int]);
            lemma_stmts_model(pre);
            lemma_stmts_model(cur);
            assert(stmts_model(cur).drop_last() =~= stmts_model(pre));
            assert(stmts_model(cur).drop_last() == stmts_model(pre));
            assert(stmts_model(cur).last() == ss@[i as int].model());
        }
        i = i + 1;
    }
    proof {
        assert(ss@.subrange(0, n as int) =~= ss@);
    }
    acc
}

/// The leading dotted segment of a module path.
#[verifier::loop_isolation(false)]
fn head_of(s: &str) -> (r: String)
    ensures
        r@ == dotted_head(s@),
{
    let n = s.unicode_len();
    let mut out = String::new();
    proof {
        assert(s@.subrange(0, 0) =~= Seq::<char>::empty());
        assert(s@.subrange(0, n as int) =~= s@);
        assert(Seq::<char>::empty() + dotted_head(s@) =~= dotted_head(s@));
    }
    let mut i: usize = 0;
    while i < n
        invariant
            n == s@.len(),
            i <= n,
            out@ == s@.subrange(0, i as int),
            forall|k: int| 0 <= k < i ==> s@[k] != '.',
            dotted_head(s@) == out@ + dotted_head(s@.subrange(i as int, n as int)),
        decreases n - i,
    {
        let c = s.get_char(i);
        proof {
            let suf = s@.subrange(i as int, n as int);
            let suf2 = s@.subrange(i + 1 as int, n as int);
            assert(suf.first() == s@[i as int]);
            assert(suf.drop_first() =~= suf2);
        }
        if c == '.' {
            proof {
                assert(dotted_head(s@.subrange(i as int, n as int)) =~= Seq::<char>::empty());
                assert(dotted_head(s@) =~= out@);
            }
            return out;
        }
        crate::strutil::push_char(&mut out, c);
        proof {
            assert(out@ =~= s@.subrange(0, i + 1 as int));
            assert(seq![s@[i as int]] + dotted_head(s@.subrange(i + 1 as int, n as int))
                =~= dotted_head(s@.subrange(i as int, n as int)));
        }
        i = i + 1;
    }
    proof {
        assert(s@.subrange(n as int, n as int) =~= Seq::<char>::empty());
        assert(dotted_head(s@.subrange(n as int, n as int)) =~= Seq::<char>::empty());
        assert(dotted_head(s@) =~= out@);
    }
    out
}

impl Refactor {
    /// Removes every top-level import statement none of whose bound names
    /// is used anywhere in the tree, after a full free-name usage scan.
    /// Opaque nodes count as using every name, so nothing is removed from a
    /// tree the scan cannot fully see. One change entry is recorded when
    /// anything was removed.
    #[verifier::rlimit(100)]
    #[verifier::spinoff_prover]
    #[verifier::loop_isolation(false)]
    pub fn remove_unused_imports(&mut self) -> (r: crate::error::Result<()>)
        ensures
            r is Ok,
            final(self).module_model() == prune_m(
                old(self).module_model(),
                old(self).module_model(),
            ),
            any_removed_m(old(self).module_model(), old(self).module_model()) ==> final(self).changes_model() == old(self).changes_model().push(removed_imports_change_m()),
            !any_removed_m(old(self).module_model(), old(self).module_model()) ==> final(self).changes_model() == old(self).changes_model(),
            final(self).spec_formatter() == old(self).spec_formatter(),
            final(self).spec_ast().source_view() == old(self).spec_ast().source_view(),
    {
        let ghost origm = self.module_model();
        let n = self.ast.module().body.len();
        proof {
            lemma_stmts_model(self.spec_ast().spec_module().body@);
        }
        let mut keep: Vec<bool> = Vec::new();
        let mut any_drop = false;
        let mut i: usize = 0;
        while i < n
            invariant
                n == self.spec_ast().spec_module().body@.len(),
                origm == self.module_model(),
                origm == stmts_model(self.spec_ast().spec_module().body@),
                origm.len() == n,
                i <= n,
                keep@.len() == i,
                forall|k: int| 0 <= k < i ==> keep@[k] == stmt_keep_m(#[trigger] origm[k], origm),
                any_drop == (exists|k: int| 0 <= k < i && !stmt_keep_m(#[trigger] origm[k], origm)),
            decreases n - i,
        {
            proof {
                match self.spec_ast().spec_module().body@[i as int] {
                    Stmt::Import { names } => {
                        assert(self.spec_ast().spec_module().body@[i as int].model()
                            == StmtModel::Import { names: crate::nodes::aliases_model(names@) });
                    },
                    Stmt::ImportFrom { module, names } => {
                        assert(self.spec_ast().spec_module().body@[i as int].model()
                            == StmtModel::ImportFrom {
                            module: opt_view(module),
                            names: crate::nodes::aliases_model(names@),
                        });
                    },
                    _ => {},
                }
            }
            let k: bool = match &self.ast.module().body[i] {
                Stmt::Import { names } => {
                    let an = names.len();
                    let mut used = false;
                    let mut j: usize = 0;
                    while j < an
                        invariant
                            an == names@.len(),
                            j <= an,
                            used == (exists|jj: int|
                                0 <= jj < j && uses_body_m(
                                    origm,
                                    bound_plain_m(#[trigger] names@[jj].model()),
                                )),
                        decreases an - j,
                    {
                        let bound: String = match &names[j].asname {
                            Some(x) => x.clone(),
                            None => head_of(names[j].name.as_str()),
                        };
                        proof {
                            assert(bound@ == bound_plain_m(names@[j as int].model()));
                        }
                        let u = uses_scan_body(&self.ast.module().body, bound.as_str());
                        used = used || u;
                        j = j + 1;
                    }
                    proof {
                        let nm = crate::nodes::aliases_model(names@);
                        assert(origm[i as int] == StmtModel::Import { names: nm });
                        if used {
                            let jj = choose|jj: int|
                                0 <= jj < names@.len() && uses_body_m(
                                    origm,
                                    bound_plain_m(#[trigger] names@[jj].model()),
                                );
                            assert(nm[jj] == names@[jj].model());
                            assert(stmt_keep_m(origm[i as int], origm));
                        }
                        if names@.len() != 0 && stmt_keep_m(origm[i as int], origm) {
                            let jj = choose|jj: int|
                                0 <= jj < nm.len() && uses_body_m(
                                    origm,
                                    bound_plain_m(#[trigger] nm[jj]),
                                );
                            assert(nm[jj] == names@[jj].model());
                            assert(used);
                        }
                    }
                    an == 0 || used
                },
                Stmt::ImportFrom { names, .. } => {
                    let an = names.len();
                    let mut used = false;
                    let mut j: usize = 0;
                    while j < an
                        invariant
                            an == names@.len(),
                            j <= an,
                            used == (exists|jj: int|
                                0 <= jj < j && uses_body_m(
                                    origm,
                                    bound_from_m(#[trigger] names@[jj].model()),
                                )),
                        decreases an - j,
                    {
                        let bound: String = match &names[j].asname {
                            Some(x) => x.clone(),
                            None => names[j].name.clone(),
                        };
                        proof {
                            assert(bound@ == bound_from_m(names@[j as int].model()));
                        }
                        let u = uses_scan_body(&self.ast.module().body, bound.as_str());
                        used = used || u;
                        j = j + 1;
                    }
                    proof {
                        let nm = crate::nodes::aliases_model(names@);
                        assert(origm[i as int] matches StmtModel::ImportFrom { names: nms, .. }
                            && nms == nm);
                        if used {
                            let jj = choose|jj: int|
                                0 <= jj < names@.len() && uses_body_m(
                                    origm,
                                    bound_from_m(#[trigger] names@[jj].model()),
                                );
                            assert(nm[jj] == names@[jj].model());
                            assert(stmt_keep_m(origm[i as int], origm));
                        }
                        if names@.len() != 0 && stmt_keep_m(origm[i as int], origm) {
                            let jj = choose|jj: int|
                                0 <= jj < nm.len() && uses_body_m(
                                    origm,
                                    bound_from_m(#[trigger] nm[jj]),
                                );
                            assert(nm[jj] == names@[jj].model());
                            assert(used);
                        }
                    }
                    an == 0 || used
                },
                _ => true,
            };
            proof {
                assert(k == stmt_keep_m(origm[i as int], origm));
            }
            keep.push(k);
            if !k {
                any_drop = true;
            }
            i = i + 1;
        }
        let mr = self.ast.module_mut();
        let ghost ob = mr.body@;
        let ghost mut tail: Seq<Stmt> = Seq::empty();
        proof {
            assert(ob.subrange(0, n as int) =~= ob);
            assert(ob.subrange(n as int, n as int) =~= Seq::<Stmt>::empty());
            lemma_stmts_model(tail);
            assert(stmts_model(ob.subrange(n as int, n as int)) =~= Seq::<StmtModel>::empty());
            assert(prune_m(stmts_model(ob.subrange(n as int, n as int)), origm) =~= Seq::<
                StmtModel,
            >::empty());
            assert(mr.body@ =~= ob.subrange(0, n as int) + tail);
        }
        let mut i2: usize = n;
        while i2 > 0
            invariant
                n == ob.len(),
                origm == stmts_model(ob),
                keep@.len() == n,
                forall|k: int| 0 <= k < n ==> keep@[k] == stmt_keep_m(#[trigger] origm[k], origm),
                i2 <= n,
                mr.body@ == ob.subrange(0, i2 as int) + tail,
                stmts_model(tail) == prune_m(
                    stmts_model(ob.subrange(i2 as int, n as int)),
                    origm,
                ),
            decreases i2,
        {
            i2 = i2 - 1;
            let ghost prev_tail = tail;
            if !keep[i2] {
                let _ = mr.body.remove(i2);
                proof {
                    assert((ob.subrange(0, i2 + 1 as int) + prev_tail).remove(i2 as int)
                        =~= ob.subrange(0, i2 as int) + prev_tail);
                }
            } else {
                proof {
                    tail = seq![ob[i2 as int]] + prev_tail;
                    assert(ob.subrange(0, i2 + 1 as int) + prev_tail =~= ob.subrange(0, i2 as int)
                        + tail);
                }
            }
            proof {
                let sufm = stmts_model(ob.subrange(i2 as int, n as int));
                let sufm2 = stmts_model(ob.subrange(i2 + 1 as int, n as int));
                lemma_stmts_model(ob.subrange(i2 as int, n as int));
                lemma_stmts_model(ob.subrange(i2 + 1 as int, n as int));
                lemma_stmts_model(ob);
                assert(ob.subrange(i2 as int, n as int).first() == ob[i2 as int]);
                assert(ob.subrange(i2 as int, n as int).drop_first() =~= ob.subrange(
                    i2 + 1 as int,
                    n as int,
                ));
                assert(sufm.first() == ob[i2 as int].model());
                assert(sufm.drop_first() =~= sufm2);
                assert(sufm.drop_first() == sufm2);
                assert(sufm.first() == origm[i2 as int]);
                assert(prune_m(sufm, origm) == (if stmt_keep_m(origm[i2 as int], origm) {
                    seq![origm[i2 as int]]
                } else {
                    Seq::<StmtModel>::empty()
                }) + prune_m(sufm2, origm));
                if keep@[i2 as int] {
                    lemma_stmts_model(prev_tail);
                    lemma_stmts_model(tail);
                    assert(stmts_model(tail) =~= seq![ob[i2 as int].model()] + stmts_model(
                        prev_tail,
                    ));
                    assert(stmts_model(tail) =~= prune_m(sufm, origm));
                } else {
                    assert(stmts_model(tail) =~= prune_m(sufm, origm));
                }
            }
        }
        proof {
            assert(ob.subrange(0, 0) =~= Seq::<Stmt>::empty());
            assert(mr.body@ =~= tail);
            assert(ob.subrange(0 as int, n as int) =~= ob);
        }
        if any_drop {
            let mut td = String::new();
            td.append("Removed unused imports");
            let mut d = String::new();
            d.append("Removed unused imports");
            let change = RefactorChange {
                change_type: ChangeType::Custom { description: td },
                description: d,
                location: None,
            };
            let ghost prevc = self.changes@;
            self.changes.push(change);
            proof {
                assert(change.model() =~= removed_imports_change_m());
                assert(change_models(self.changes@) =~= change_models(prevc).push(change.model()));
            }
        }
        Ok(())
    }
}

/// Replacing every import of one module by a different one leaves no import
/// of the old module behind: a second identical replacement therefore finds
/// nothing to rewrite and records no change entry.
pub proof fn lemma_replace_import_exhaustive(ss: Seq<StmtModel>, o: Seq<char>, n: Seq<char>)
    requires
        o != n,
    ensures
        !has_import_module_m(replace_imports_m(ss, o, n), o),
{
    let rs = replace_imports_m(ss, o, n);
    assert forall|i: int| 0 <= i < rs.len() implies !stmt_imports_module_m(
        #[trigger] rs[i],
        o,
    ) by {
        let s = ss[i];
        assert(rs[i] == replace_import_stmt_m(s, o, n));
        match s {
            StmtModel::Import { names } => {
                let mapped = names.map(|j: int, a: AliasModel| replace_alias_m(a, o, n));
                assert forall|j: int| 0 <= j < mapped.len() implies (#[trigger] mapped[j]).name
                    != o by {
                    assert(mapped[j] == replace_alias_m(names[j], o, n));
                }
            },
            _ => {},
        }
    }
}

/// Replacing imports of a module that is not imported at all changes
/// nothing: together with the exhaustiveness law, calling `replace_import`
/// twice with the same arguments leaves the tree exactly as after the first
/// call and appends no second change entry.
pub proof fn lemma_replace_import_absent_identity(ss: Seq<StmtModel>, o: Seq<char>, n: Seq<char>)
    requires
        !has_import_module_m(ss, o),
    ensures
        replace_imports_m(ss, o, n) == ss,
{
    let rs = replace_imports_m(ss, o, n);
    assert forall|i: int| 0 <= i < rs.len() implies #[trigger] rs[i] == ss[i] by {
        let s = ss[i];
        assert(!stmt_imports_module_m(s, o));
        assert(rs[i] == replace_import_stmt_m(s, o, n));
        match s {
            StmtModel::Import { names } => {
                let mapped = names.map(|j: int, a: AliasModel| replace_alias_m(a, o, n));
                assert forall|j: int| 0 <= j < mapped.len() implies #[trigger] mapped[j]
                    == names[j] by {
                    assert(mapped[j] == replace_alias_m(names[j], o, n));
                    assert(names[j].name != o);
                }
                assert(mapped =~= names);
                assert(rs[i] =~= s);
            },
            _ => {},
        }
    }
    assert(rs =~= ss);
}

/// The change entry recorded for a formatting pass.
pub open spec fn format_change_m() -> ChangeModel {
    ChangeModel {
        change_type: ChangeTypeModel::SyntaxModernized {
            description: "Applied code formatting"@,
        },
        description: "Applied code formatting"@,
        location: None,
    }
}

} // verus!
