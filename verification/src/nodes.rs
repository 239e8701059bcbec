//! The node model: a closed, tagged-variant representation of a parsed
//! module's statements and expressions, together with its mathematical model.
//!
//! Every other component of the library operates exclusively on these types.
//! Both variant sets are closed and carry an explicit opaque arm
//! (`Unknown`), so syntax outside the supported set degrades safely instead
//! of being rejected at the boundary.
//!
//! The `*Model` types are the ghost counterparts used in contracts: strings
//! become character sequences and vectors become sequences, so that two trees
//! are equal exactly when they have the same shape and the same literal
//! values.

use vstd::prelude::*;

verus! {

/// A binary operator token. The set is fixed; every member maps one-to-one
/// to a rendering in the code generator.
#[derive(Debug, Clone, Copy, PartialEq, Eq, Structural)]
pub enum Operator {
    Add,
    Sub,
    Mult,
    Div,
    Mod,
    Pow,
    LShift,
    RShift,
    BitOr,
    BitXor,
    BitAnd,
    FloorDiv,
    MatMult,
}

/// An expression of the node model.
#[derive(Debug, PartialEq, Eq)]
pub enum Expr {
    /// A bare identifier.
    Name { id: String },
    /// A string literal; the stored value is the unescaped text.
    StringLiteral { value: String },
    /// A numeric literal, kept in its canonical textual form.
    NumberLiteral { value: String },
    /// A boolean literal.
    BooleanLiteral { value: bool },
    /// The `None` literal.
    NoneLiteral,
    /// A call with positional arguments.
    Call { func: Box<Expr>, args: Vec<Expr> },
    /// A binary operation.
    BinOp { left: Box<Expr>, op: Operator, right: Box<Expr> },
    /// An attribute access `value.attr`.
    Attribute { value: Box<Expr>, attr: String },
    /// A subscript access `value[index]`.
    Subscript { value: Box<Expr>, index: Box<Expr> },
    /// The opaque arm: any expression outside the supported set, tagged with
    /// the kind name the parser reported for it.
    Unknown { kind: String },
}

/// One aliased name inside an import statement.
#[derive(Debug, Clone, PartialEq, Eq)]
pub struct ImportAlias {
    /// The imported module or name.
    pub name: String,
    /// The binding alias, when an `as` clause is present.
    pub asname: Option<String>,
}

/// A function definition: name, ordered parameter names, ordered body.
#[derive(Debug, PartialEq, Eq)]
pub struct FunctionDef {
    pub name: String,
    pub params: Vec<String>,
    pub body: Vec<Stmt>,
}

/// A class definition: name, ordered base-class expressions, ordered body.
#[derive(Debug, PartialEq, Eq)]
pub struct ClassDef {
    pub name: String,
    pub bases: Vec<Expr>,
    pub body: Vec<Stmt>,
}

/// One handler of a try/except statement.
#[derive(Debug, PartialEq, Eq)]
pub struct ExceptHandler {
    /// The handled exception type, when named.
    pub exc_type: Option<Expr>,
    pub body: Vec<Stmt>,
}

/// A statement of the node model.
#[derive(Debug, PartialEq, Eq)]
pub enum Stmt {
    FunctionDef(FunctionDef),
    ClassDef(ClassDef),
    /// `import m1, m2 as alias, ...`
    Import { names: Vec<ImportAlias> },
    /// `from module import n1, n2 as alias, ...`; `module` is absent for a
    /// relative import.
    ImportFrom { module: Option<String>, names: Vec<ImportAlias> },
    /// `t1, t2 = value`
    Assign { targets: Vec<Expr>, value: Expr },
    Return { value: Option<Expr> },
    Pass,
    /// A bare expression statement.
    Expr { value: Expr },
    /// `try` with handlers, an else body and a finally body.
    TryExcept {
        body: Vec<Stmt>,
        handlers: Vec<ExceptHandler>,
        orelse: Vec<Stmt>,
        finalbody: Vec<Stmt>,
    },
    /// The opaque arm: any statement outside the supported set, tagged with
    /// the kind name the parser reported for it.
    Unknown { kind: String },
}

/// A module: an ordered sequence of statements. Order is semantically
/// significant and preserved through every transformation.
#[derive(Debug, PartialEq, Eq)]
pub struct Module {
    pub body: Vec<Stmt>,
}

/// Ghost counterpart of `Expr`.
#[verifier::ext_equal]
pub ghost enum ExprModel {
    Name { id: Seq<char> },
    StringLiteral { value: Seq<char> },
    NumberLiteral { value: Seq<char> },
    BooleanLiteral { value: bool },
    NoneLiteral,
    Call { func: Box<ExprModel>, args: Seq<ExprModel> },
    BinOp { left: Box<ExprModel>, op: Operator, right: Box<ExprModel> },
    Attribute { value: Box<ExprModel>, attr: Seq<char> },
    Subscript { value: Box<ExprModel>, index: Box<ExprModel> },
    Unknown { kind: Seq<char> },
}

/// Ghost counterpart of `ImportAlias`.
#[verifier::ext_equal]
pub ghost struct AliasModel {
    pub name: Seq<char>,
    pub asname: Option<Seq<char>>,
}

/// Ghost counterpart of `FunctionDef`.
#[verifier::ext_equal]
pub ghost struct FunctionDefModel {
    pub name: Seq<char>,
    pub params: Seq<Seq<char>>,
    pub body: Seq<StmtModel>,
}

/// Ghost counterpart of `ClassDef`.
#[verifier::ext_equal]
pub ghost struct ClassDefModel {
    pub name: Seq<char>,
    pub bases: Seq<ExprModel>,
    pub body: Seq<StmtModel>,
}

/// Ghost counterpart of `ExceptHandler`.
#[verifier::ext_equal]
pub ghost struct HandlerModel {
    pub exc_type: Option<ExprModel>,
    pub body: Seq<StmtModel>,
}

/// Ghost counterpart of `Stmt`.
#[verifier::ext_equal]
pub ghost enum StmtModel {
    FunctionDef(FunctionDefModel),
    ClassDef(ClassDefModel),
    Import { names: Seq<AliasModel> },
    ImportFrom { module: Option<Seq<char>>, names: Seq<AliasModel> },
    Assign { targets: Seq<ExprModel>, value: ExprModel },
    Return { value: Option<ExprModel> },
    Pass,
    Expr { value: ExprModel },
    TryExcept {
        body: Seq<StmtModel>,
        handlers: Seq<HandlerModel>,
        orelse: Seq<StmtModel>,
        finalbody: Seq<StmtModel>,
    },
    Unknown { kind: Seq<char> },
}

impl ImportAlias {
    /// The mathematical value of this alias.
    pub open spec fn model(self) -> AliasModel {
        AliasModel { name: self.name@, asname: crate::strutil::opt_view(self.asname) }
    }
}

/// The models of a sequence of aliases.
pub open spec fn aliases_model(s: Seq<ImportAlias>) -> Seq<AliasModel> {
    s.map(|i: int, a: ImportAlias| a.model())
}

/// The views of a sequence of strings.
pub open spec fn strings_model(s: Seq<String>) -> Seq<Seq<char>> {
    s.map(|i: int, a: String| a@)
}

impl FunctionDef {
    /// The mathematical value of this definition.
    pub open spec fn model(self) -> FunctionDefModel
        decreases self,
    {
        FunctionDefModel {
            name: self.name@,
            params: strings_model(self.params@),
            body: stmts_model(self.body@),
        }
    }
}

impl ClassDef {
    /// The mathematical value of this definition.
    pub open spec fn model(self) -> ClassDefModel
        decreases self,
    {
        ClassDefModel {
            name: self.name@,
            bases: exprs_model(self.bases@),
            body: stmts_model(self.body@),
        }
    }
}

impl Expr {
    /// The mathematical value of this expression.
    pub open spec fn model(self) -> ExprModel
        decreases self,
    {
        match self {
            Expr::Name { id } => ExprModel::Name { id: id@ },
            Expr::StringLiteral { value } => ExprModel::StringLiteral { value: value@ },
            Expr::NumberLiteral { value } => ExprModel::NumberLiteral { value: value@ },
            Expr::BooleanLiteral { value } => ExprModel::BooleanLiteral { value },
            Expr::NoneLiteral => ExprModel::NoneLiteral,
            Expr::Call { func, args } => ExprModel::Call {
                func: Box::new(func.model()),
                args: exprs_model(args@),
            },
            Expr::BinOp { left, op, right } => ExprModel::BinOp {
                left: Box::new(left.model()),
                op,
                right: Box::new(right.model()),
            },
            Expr::Attribute { value, attr } => ExprModel::Attribute {
                value: Box::new(value.model()),
                attr: attr@,
            },
            Expr::Subscript { value, index } => ExprModel::Subscript {
                value: Box::new(value.model()),
                index: Box::new(index.model()),
            },
            Expr::Unknown { kind } => ExprModel::Unknown { kind: kind@ },
        }
    }
}

/// The models of a sequence of expressions.
pub open spec fn exprs_model(es: Seq<Expr>) -> Seq<ExprModel>
    decreases es,
{
    if es.len() == 0 {
        Seq::empty()
    } else {
        exprs_model(es.drop_last()).push(es.last().model())
    }
}

/// The model of an optional expression.
pub open spec fn opt_expr_model(e: Option<Expr>) -> Option<ExprModel> {
    match e {
        Some(x) => Some(x.model()),
        None => None,
    }
}

impl ExceptHandler {
    /// The mathematical value of this handler.
    pub open spec fn model(self) -> HandlerModel
        decreases self,
    {
        HandlerModel { exc_type: opt_expr_model(self.exc_type), body: stmts_model(self.body@) }
    }
}

/// The models of a sequence of handlers.
pub open spec fn handlers_model(hs: Seq<ExceptHandler>) -> Seq<HandlerModel>
    decreases hs,
{
    if hs.len() == 0 {
        Seq::empty()
    } else {
        handlers_model(hs.drop_last()).push(hs.last().model())
    }
}

impl Stmt {
    /// The mathematical value of this statement.
    pub open spec fn model(self) -> StmtModel
        decreases self,
    {
        match self {
            Stmt::FunctionDef(f) => StmtModel::FunctionDef(f.model()),
            Stmt::ClassDef(c) => StmtModel::ClassDef(c.model()),
            Stmt::Import { names } => StmtModel::Import { names: aliases_model(names@) },
            Stmt::ImportFrom { module, names } => StmtModel::ImportFrom {
                module: crate::strutil::opt_view(module),
                names: aliases_model(names@),
            },
            Stmt::Assign { targets, value } => StmtModel::Assign {
                targets: exprs_model(targets@),
                value: value.model(),
            },
            Stmt::Return { value } => StmtModel::Return { value: opt_expr_model(value) },
            Stmt::Pass => StmtModel::Pass,
            Stmt::Expr { value } => StmtModel::Expr { value: value.model() },
            Stmt::TryExcept { body, handlers, orelse, finalbody } => StmtModel::TryExcept {
                body: stmts_model(body@),
                handlers: handlers_model(handlers@),
                orelse: stmts_model(orelse@),
                finalbody: stmts_model(finalbody@),
            },
            Stmt::Unknown { kind } => StmtModel::Unknown { kind: kind@ },
        }
    }
}

/// The models of a sequence of statements.
pub open spec fn stmts_model(ss: Seq<Stmt>) -> Seq<StmtModel>
    decreases ss,
{
    if ss.len() == 0 {
        Seq::empty()
    } else {
        stmts_model(ss.drop_last()).push(ss.last().model())
    }
}

impl Module {
    /// The mathematical value of this module: the models of its statements.
    pub open spec fn model(self) -> Seq<StmtModel> {
        stmts_model(self.body@)
    }

    /// Build a module from its statements.
    pub fn new(body: Vec<Stmt>) -> (r: Module)
        ensures
            r.body@ == body@,
    {
        Module { body }
    }
}

/// `stmts_model` is the pointwise model of its argument.
pub proof fn lemma_stmts_model(ss: Seq<Stmt>)
    ensures
        stmts_model(ss).len() == ss.len(),
        forall|i: int| 0 <= i < ss.len() ==> #[trigger] stmts_model(ss)[i] == ss[i].model(),
    decreases ss,
{
    if ss.len() > 0 {
        lemma_stmts_model(ss.drop_last());
        assert forall|i: int| 0 <= i < ss.len() implies #[trigger] stmts_model(ss)[i] == ss[i]
            .model() by {
            if i < ss.len() - 1 {
                assert(ss.drop_last()[i] == ss[i]);
            } else {
                assert(ss.last() == ss[i]);
            }
        }
    }
}

/// `exprs_model` is the pointwise model of its argument.
pub proof fn lemma_exprs_model(es: Seq<Expr>)
    ensures
        exprs_model(es).len() == es.len(),
        forall|i: int| 0 <= i < es.len() ==> #[trigger] exprs_model(es)[i] == es[i].model(),
    decreases es,
{
    if es.len() > 0 {
        lemma_exprs_model(es.drop_last());
        assert forall|i: int| 0 <= i < es.len() implies #[trigger] exprs_model(es)[i] == es[i]
            .model() by {
            if i < es.len() - 1 {
                assert(es.drop_last()[i] == es[i]);
            } else {
                assert(es.last() == es[i]);
            }
        }
    }
}

/// `handlers_model` is the pointwise model of its argument.
pub proof fn lemma_handlers_model(hs: Seq<ExceptHandler>)
    ensures
        handlers_model(hs).len() == hs.len(),
        forall|i: int| 0 <= i < hs.len() ==> #[trigger] handlers_model(hs)[i] == hs[i].model(),
    decreases hs,
{
    if hs.len() > 0 {
        lemma_handlers_model(hs.drop_last());
        assert forall|i: int| 0 <= i < hs.len() implies #[trigger] handlers_model(hs)[i] == hs[i]
            .model() by {
            if i < hs.len() - 1 {
                assert(hs.drop_last()[i] == hs[i]);
            } else {
                assert(hs.last() == hs[i]);
            }
        }
    }
}

} // verus!
