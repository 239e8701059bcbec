//! The code generator: renders a node model back to canonical source text.
//!
//! Rendering uses only the node model, so original formatting and comments
//! are not reproduced; the output is a canonical re-serialization with four
//! spaces of indentation per nesting level.
//!
//! Two modes exist for nodes outside the supported variant set: lenient
//! rendering emits a visible placeholder comment and keeps going, while
//! strict rendering fails with a structure error naming the unsupported
//! kind. Content is never truncated silently.

use vstd::prelude::*;

use crate::error::PyRustorError;
use crate::nodes::AliasModel;
use crate::nodes::Expr;
use crate::nodes::ExprModel;
use crate::nodes::ImportAlias;
use crate::nodes::Module;
use crate::nodes::Operator;
use crate::nodes::Stmt;
use crate::nodes::StmtModel;
use crate::nodes::aliases_model;
use crate::nodes::exprs_model;
use crate::nodes::lemma_exprs_model;
use crate::nodes::lemma_stmts_model;
use crate::nodes::stmts_model;
use crate::nodes::strings_model;
use crate::strutil::opt_view;
use crate::strutil::push_char;

verus! {

/// The rendering of one character inside a string literal: backslash,
/// double-quote, newline, carriage-return and tab are escaped; every other
/// character stands for itself.
pub open spec fn esc_char(c: char) -> Seq<char> {
    if c == '\\' {
        "\\\\"@
    } else if c == '"' {
        "\\\""@
    } else if c == '\n' {
        "\\n"@
    } else if c == '\r' {
        "\\r"@
    } else if c == '\t' {
        "\\t"@
    } else {
        seq![c]
    }
}

/// The escaped form of a string literal's value, character by character.
/// The escaping guarantees that the rendered literal re-parses to the
/// identical value.
pub open spec fn esc_str(s: Seq<char>) -> Seq<char>
    decreases s.len(),
{
    if s.len() == 0 {
        Seq::empty()
    } else {
        esc_str(s.drop_last()) + esc_char(s.last())
    }
}

/// The fixed one-to-one rendering of the binary operator tokens.
pub open spec fn op_text(op: Operator) -> Seq<char> {
    match op {
        Operator::Add => "+"@,
        Operator::Sub => "-"@,
        Operator::Mult => "*"@,
        Operator::Div => "/"@,
        Operator::Mod => "%"@,
        Operator::Pow => "**"@,
        Operator::LShift => "<<"@,
        Operator::RShift => ">>"@,
        Operator::BitOr => "|"@,
        Operator::BitXor => "^"@,
        Operator::BitAnd => "&"@,
        Operator::FloorDiv => "//"@,
        Operator::MatMult => "@"@,
    }
}

/// The canonical rendering of one expression. No precedence-aware
/// parenthesization is performed: sub-expressions are rendered as they
/// stand.
pub open spec fn render_expr_m(e: ExprModel) -> Seq<char>
    decreases e,
{
    match e {
        ExprModel::Name { id } => id,
        ExprModel::StringLiteral { value } => "\""@ + esc_str(value) + "\""@,
        ExprModel::NumberLiteral { value } => value,
        ExprModel::BooleanLiteral { value } => if value {
            "True"@
        } else {
            "False"@
        },
        ExprModel::NoneLiteral => "None"@,
        ExprModel::Call { func, args } => render_expr_m(*func) + "("@ + render_exprs_commas_m(
            args,
        ) + ")"@,
        ExprModel::BinOp { left, op, right } => render_expr_m(*left) + " "@ + op_text(op) + " "@
            + render_expr_m(*right),
        ExprModel::Attribute { value, attr } => render_expr_m(*value) + "."@ + attr,
        ExprModel::Subscript { value, index } => render_expr_m(*value) + "["@ + render_expr_m(
            *index,
        ) + "]"@,
        ExprModel::Unknown { kind } => "# Unsupported expression"@,
    }
}

/// Comma-joined renderings of a sequence of expressions.
pub open spec fn render_exprs_commas_m(es: Seq<ExprModel>) -> Seq<char>
    decreases es,
{
    if es.len() == 0 {
        Seq::empty()
    } else if es.len() == 1 {
        render_expr_m(es.last())
    } else {
        render_exprs_commas_m(es.drop_last()) + ", "@ + render_expr_m(es.last())
    }
}

/// Comma-joined parameter names.
pub open spec fn render_params_m(ps: Seq<Seq<char>>) -> Seq<char>
    decreases ps,
{
    if ps.len() == 0 {
        Seq::empty()
    } else if ps.len() == 1 {
        ps.last()
    } else {
        render_params_m(ps.drop_last()) + ", "@ + ps.last()
    }
}

/// The rendering of one import alias: the name, with an ` as ` suffix only
/// when an alias exists.
pub open spec fn render_alias_m(a: AliasModel) -> Seq<char> {
    match a.asname {
        Some(x) => a.name + " as "@ + x,
        None => a.name,
    }
}

/// Comma-joined import aliases.
pub open spec fn render_aliases_m(aa: Seq<AliasModel>) -> Seq<char>
    decreases aa,
{
    if aa.len() == 0 {
        Seq::empty()
    } else if aa.len() == 1 {
        render_alias_m(aa.last())
    } else {
        render_aliases_m(aa.drop_last()) + ", "@ + render_alias_m(aa.last())
    }
}

/// The canonical rendering of one statement at the given indentation.
pub open spec fn render_stmt_m(s: StmtModel, ind: Seq<char>) -> Seq<char>
    decreases s,
{
    match s {
        StmtModel::FunctionDef(f) => ind + "def "@ + f.name + "("@ + render_params_m(f.params)
            + "):\n"@ + if f.body.len() == 0 {
            ind + "    pass"@
        } else {
            render_body_m(f.body, ind + "    "@)
        },
        StmtModel::ClassDef(c) => ind + "class "@ + c.name + (if c.bases.len() > 0 {
            "("@ + render_exprs_commas_m(c.bases) + ")"@
        } else {
            Seq::empty()
        }) + ":\n"@ + if c.body.len() == 0 {
            ind + "    pass"@
        } else {
            render_body_m(c.body, ind + "    "@)
        },
        StmtModel::Import { names } => ind + "import "@ + render_aliases_m(names),
        StmtModel::ImportFrom { module, names } => ind + "from "@ + (match module {
            Some(m) => m,
            None => "."@,
        }) + " import "@ + render_aliases_m(names),
        StmtModel::Assign { targets, value } => ind + render_exprs_commas_m(targets) + " = "@
            + render_expr_m(value),
        StmtModel::Return { value } => ind + "return"@ + (match value {
            Some(v) => " "@ + render_expr_m(v),
            None => Seq::empty(),
        }),
        StmtModel::Pass => ind + "pass"@,
        StmtModel::Expr { value } => ind + render_expr_m(value),
        StmtModel::TryExcept { .. } => ind + "# Unsupported statement type"@,
        StmtModel::Unknown { .. } => ind + "# Unsupported statement type"@,
    }
}

/// Newline-joined renderings of a statement block at one indentation level.
pub open spec fn render_body_m(ss: Seq<StmtModel>, ind: Seq<char>) -> Seq<char>
    decreases ss,
{
    if ss.len() == 0 {
        Seq::empty()
    } else if ss.len() == 1 {
        render_stmt_m(ss.last(), ind)
    } else {
        render_body_m(ss.drop_last(), ind) + "\n"@ + render_stmt_m(ss.last(), ind)
    }
}

/// The canonical rendering of a whole module: its statements joined by
/// newlines, at indentation zero. An empty module renders as empty text.
pub open spec fn render_module_m(ss: Seq<StmtModel>) -> Seq<char> {
    render_body_m(ss, Seq::empty())
}

/// The error message of the first unsupported node inside an expression, in
/// rendering order, if any.
pub open spec fn err_expr_m(e: ExprModel) -> Option<Seq<char>>
    decreases e,
{
    match e {
        ExprModel::Name { .. } => None,
        ExprModel::StringLiteral { .. } => None,
        ExprModel::NumberLiteral { .. } => None,
        ExprModel::BooleanLiteral { .. } => None,
        ExprModel::NoneLiteral => None,
        ExprModel::Call { func, args } => match err_expr_m(*func) {
            Some(m) => Some(m),
            None => err_exprs_m(args),
        },
        ExprModel::BinOp { left, op, right } => match err_expr_m(*left) {
            Some(m) => Some(m),
            None => err_expr_m(*right),
        },
        ExprModel::Attribute { value, .. } => err_expr_m(*value),
        ExprModel::Subscript { value, index } => match err_expr_m(*value) {
            Some(m) => Some(m),
            None => err_expr_m(*index),
        },
        ExprModel::Unknown { kind } => Some("Unsupported expression type: "@ + kind),
    }
}

/// The first unsupported node among a sequence of expressions.
pub open spec fn err_exprs_m(es: Seq<ExprModel>) -> Option<Seq<char>>
    decreases es,
{
    if es.len() == 0 {
        None
    } else {
        match err_expr_m(es.first()) {
            Some(m) => Some(m),
            None => err_exprs_m(es.drop_first()),
        }
    }
}

/// The error message of the first unsupported node inside a statement, in
/// rendering order, if any.
pub open spec fn err_stmt_m(s: StmtModel) -> Option<Seq<char>>
    decreases s,
{
    match s {
        StmtModel::FunctionDef(f) => err_body_m(f.body),
        StmtModel::ClassDef(c) => match err_exprs_m(c.bases) {
            Some(m) => Some(m),
            None => err_body_m(c.body),
        },
        StmtModel::Import { .. } => None,
        StmtModel::ImportFrom { .. } => None,
        StmtModel::Assign { targets, value } => match err_exprs_m(targets) {
            Some(m) => Some(m),
            None => err_expr_m(value),
        },
        StmtModel::Return { value } => match value {
            Some(v) => err_expr_m(v),
            None => None,
        },
        StmtModel::Pass => None,
        StmtModel::Expr { value } => err_expr_m(value),
        StmtModel::TryExcept { .. } => Some("Unsupported statement type: try_except"@),
        StmtModel::Unknown { kind } => Some("Unsupported statement type: "@ + kind),
    }
}

/// The first unsupported node among a block of statements.
pub open spec fn err_body_m(ss: Seq<StmtModel>) -> Option<Seq<char>>
    decreases ss,
{
    if ss.len() == 0 {
        None
    } else {
        match err_stmt_m(ss.first()) {
            Some(m) => Some(m),
            None => err_body_m(ss.drop_first()),
        }
    }
}

/// Whether every node of the statement lies in the supported variant set.
pub open spec fn stmt_supported_m(s: StmtModel) -> bool {
    err_stmt_m(s) is None
}

/// Whether every node of the module lies in the supported variant set.
pub open spec fn module_supported_m(ss: Seq<StmtModel>) -> bool {
    err_body_m(ss) is None
}

/// The indentation text of `n` nesting levels: four spaces per level.
pub open spec fn sp_indent(n: nat) -> Seq<char>
    decreases n,
{
    if n == 0 {
        Seq::empty()
    } else {
        sp_indent((n - 1) as nat) + "    "@
    }
}

/// Builds the indentation text of `n` nesting levels.
pub fn make_indent(n: usize) -> (r: String)
    ensures
        r@ == sp_indent(n as nat),
{
    let mut out = String::new();
    let mut i: usize = 0;
    while i < n
        invariant
            i <= n,
            out@ == sp_indent(i as nat),
        decreases n - i,
    {
        out.append("    ");
        proof {
            assert(out@ =~= sp_indent((i + 1) as nat));
        }
        i = i + 1;
    }
    out
}

/// Appends the escaped form of `v` to `out`.
fn push_escaped(out: &mut String, v: &str)
    ensures
        final(out)@ == old(out)@ + esc_str(v@),
{
    let n = v.unicode_len();
    let mut i: usize = 0;
    while i < n
        invariant
            n == v@.len(),
            i <= n,
            out@ == old(out)@ + esc_str(v@.subrange(0, i as int)),
        decreases n - i,
    {
        let c = v.get_char(i);
        if c == '\\' {
            out.append("\\\\");
        } else if c == '"' {
            out.append("\\\"");
        } else if c == '\n' {
            out.append("\\n");
        } else if c == '\r' {
            out.append("\\r");
        } else if c == '\t' {
            out.append("\\t");
        } else {
            push_char(out, c);
        }
        proof {
            let pre = v@.subrange(0, i as int);
            let cur = v@.subrange(0, i + 1 as int);
            assert(cur.drop_last() =~= pre);
            assert(cur.last() == v@[i as int]);
            assert(out@ =~= old(out)@ + esc_str(cur));
        }
        i = i + 1;
    }
    proof {
        assert(v@.subrange(0, v@.len() as int) =~= v@);
    }
}

/// The rendering of one operator token.
fn op_str(op: Operator) -> (r: &'static str)
    ensures
        r@ == op_text(op),
{
    match op {
        Operator::Add => "+",
        Operator::Sub => "-",
        Operator::Mult => "*",
        Operator::Div => "/",
        Operator::Mod => "%",
        Operator::Pow => "**",
        Operator::LShift => "<<",
        Operator::RShift => ">>",
        Operator::BitOr => "|",
        Operator::BitXor => "^",
        Operator::BitAnd => "&",
        Operator::FloorDiv => "//",
        Operator::MatMult => "@",
    }
}

/// Appends the rendering of one expression to `out`.
pub fn render_expr(e: &Expr, out: &mut String)
    ensures
        final(out)@ == old(out)@ + render_expr_m(e.model()),
    decreases e,
{
    match e {
        Expr::Name { id } => {
            out.append(id.as_str());
        },
        Expr::StringLiteral { value } => {
            out.append("\"");
            push_escaped(out, value.as_str());
            out.append("\"");
        },
        Expr::NumberLiteral { value } => {
            out.append(value.as_str());
        },
        Expr::BooleanLiteral { value } => {
            if *value {
                out.append("True");
            } else {
                out.append("False");
            }
        },
        Expr::NoneLiteral => {
            out.append("None");
        },
        Expr::Call { func, args } => {
            render_expr(&**func, out);
            out.append("(");
            render_exprs_commas(args, out);
            out.append(")");
        },
        Expr::BinOp { left, op, right } => {
            render_expr(&**left, out);
            out.append(" ");
            out.append(op_str(*op));
            out.append(" ");
            render_expr(&**right, out);
        },
        Expr::Attribute { value, attr } => {
            render_expr(&**value, out);
            out.append(".");
            out.append(attr.as_str());
        },
        Expr::Subscript { value, index } => {
            render_expr(&**value, out);
            out.append("[");
            render_expr(&**index, out);
            out.append("]");
        },
        Expr::Unknown { kind } => {
            out.append("# Unsupported expression");
        },
    }
}

/// Appends the comma-joined renderings of `es` to `out`.
pub fn render_exprs_commas(es: &Vec<Expr>, out: &mut String)
    ensures
        final(out)@ == old(out)@ + render_exprs_commas_m(exprs_model(es@)),
    decreases es@,
{
    let mut i: usize = 0;
    while i < es.len()
        invariant
            i <= es@.len(),
            out@ == old(out)@ + render_exprs_commas_m(exprs_model(es@.subrange(0, i as int))),
        decreases es@.len() - i,
    {
        if i > 0 {
            out.append(", ");
        }
        render_expr(&es[i], out);
        proof {
            let pre = es@.subrange(0, i as int);
            let cur = es@.subrange(0, i + 1 as int);
            assert(cur.drop_last() =~= pre);
            assert(cur.last() == es@[i as int]);
            lemma_exprs_model(pre);
            lemma_exprs_model(cur);
            assert(exprs_model(cur).drop_last() =~= exprs_model(pre));
            assert(exprs_model(cur).last() == es@[i as int].model());
        }
        i = i + 1;
    }
    proof {
        assert(es@.subrange(0, es@.len() as int) =~= es@);
    }
}

/// Appends the comma-joined parameter names of `ps` to `out`.
fn render_params(ps: &Vec<String>, out: &mut String)
    ensures
        final(out)@ == old(out)@ + render_params_m(strings_model(ps@)),
{
    let mut i: usize = 0;
    while i < ps.len()
        invariant
            i <= ps@.len(),
            out@ == old(out)@ + render_params_m(strings_model(ps@.subrange(0, i as int))),
        decreases ps@.len() - i,
    {
        if i > 0 {
            out.append(", ");
        }
        out.append(ps[i].as_str());
        proof {
            let pre = ps@.subrange(0, i as int);
            let cur = ps@.subrange(0, i + 1 as int);
            assert(cur.drop_last() =~= pre);
            assert(strings_model(cur).drop_last() =~= strings_model(pre));
            assert(strings_model(cur).last() == ps@[i as int]@);
        }
        i = i + 1;
    }
    proof {
        assert(ps@.subrange(0, ps@.len() as int) =~= ps@);
    }
}

/// Appends the comma-joined renderings of the aliases to `out`.
fn render_aliases(aa: &Vec<ImportAlias>, out: &mut String)
    ensures
        final(out)@ == old(out)@ + render_aliases_m(aliases_model(aa@)),
{
    let mut i: usize = 0;
    while i < aa.len()
        invariant
            i <= aa@.len(),
            out@ == old(out)@ + render_aliases_m(aliases_model(aa@.subrange(0, i as int))),
        decreases aa@.len() - i,
    {
        if i > 0 {
            out.append(", ");
        }
        out.append(aa[i].name.as_str());
        match &aa[i].asname {
            Some(x) => {
                out.append(" as ");
                out.append(x.as_str());
            },
            None => {},
        }
        proof {
            let pre = aa@.subrange(0, i as int);
            let cur = aa@.subrange(0, i + 1 as int);
            assert(cur.drop_last() =~= pre);
            assert(aliases_model(cur).drop_last() =~= aliases_model(pre));
            assert(aliases_model(cur).last() == aa@[i as int].model());
        }
        i = i + 1;
    }
    proof {
        assert(aa@.subrange(0, aa@.len() as int) =~= aa@);
    }
}

/// Appends the rendering of one statement at indentation `ind` to `out`.
pub fn render_stmt(s: &Stmt, ind: &str, out: &mut String)
    ensures
        final(out)@ == old(out)@ + render_stmt_m(s.model(), ind@),
    decreases s,
{
    match s {
        Stmt::FunctionDef(f) => {
            proof {
                assert(s.model() == StmtModel::FunctionDef(f.model()));
            }
            out.append(ind);
            out.append("def ");
            out.append(f.name.as_str());
            out.append("(");
            render_params(&f.params, out);
            out.append("):\n");
            if f.body.len() == 0 {
                out.append(ind);
                out.append("    pass");
            } else {
                let mut deeper = ind.to_owned();
                deeper.append("    ");
                render_body(&f.body, deeper.as_str(), out);
            }
        },
        Stmt::ClassDef(c) => {
            proof {
                assert(s.model() == StmtModel::ClassDef(c.model()));
            }
            out.append(ind);
            out.append("class ");
            out.append(c.name.as_str());
            if c.bases.len() > 0 {
                out.append("(");
                render_exprs_commas(&c.bases, out);
                out.append(")");
            }
            out.append(":\n");
            if c.body.len() == 0 {
                out.append(ind);
                out.append("    pass");
            } else {
                let mut deeper = ind.to_owned();
                deeper.append("    ");
                render_body(&c.body, deeper.as_str(), out);
            }
        },
        Stmt::Import { names } => {
            out.append(ind);
            out.append("import ");
            render_aliases(names, out);
        },
        Stmt::ImportFrom { module, names } => {
            out.append(ind);
            out.append("from ");
            match module {
                Some(m) => {
                    out.append(m.as_str());
                },
                None => {
                    out.append(".");
                },
            }
            out.append(" import ");
            render_aliases(names, out);
        },
        Stmt::Assign { targets, value } => {
            out.append(ind);
            render_exprs_commas(targets, out);
            out.append(" = ");
            render_expr(value, out);
        },
        Stmt::Return { value } => {
            out.append(ind);
            out.append("return");
            match value {
                Some(v) => {
                    out.append(" ");
                    render_expr(v, out);
                },
                None => {},
            }
        },
        Stmt::Pass => {
            out.append(ind);
            out.append("pass");
        },
        Stmt::Expr { value } => {
            out.append(ind);
            render_expr(value, out);
        },
        Stmt::TryExcept { .. } => {
            out.append(ind);
            out.append("# Unsupported statement type");
        },
        Stmt::Unknown { .. } => {
            out.append(ind);
            out.append("# Unsupported statement type");
        },
    }
}

/// Appends the newline-joined renderings of a statement block to `out`.
pub fn render_body(ss: &Vec<Stmt>, ind: &str, out: &mut String)
    ensures
        final(out)@ == old(out)@ + render_body_m(stmts_model(ss@), ind@),
    decreases ss@,
{
    let mut i: usize = 0;
    while i < ss.len()
        invariant
            i <= ss@.len(),
            out@ == old(out)@ + render_body_m(stmts_model(ss@.subrange(0, i as int)), ind@),
        decreases ss@.len() - i,
    {
        if i > 0 {
            out.append("\n");
        }
        render_stmt(&ss[i], ind, out);
        proof {
            let pre = ss@.subrange(0, i as int);
            let cur = ss@.subrange(0, i + 1 as int);
            assert(cur.drop_last() =~= pre);
            assert(cur.last() == ss@[i as int]);
            lemma_stmts_model(pre);
            lemma_stmts_model(cur);
            assert(stmts_model(cur).drop_last() =~= stmts_model(pre));
            assert(stmts_model(cur).last() == ss@[i as int].model());
        }
        i = i + 1;
    }
    proof {
        assert(ss@.subrange(0, ss@.len() as int) =~= ss@);
    }
}

/// Renders a whole module leniently: unsupported nodes appear as placeholder
/// comments and rendering always succeeds.
pub fn render_module(m: &Module) -> (r: String)
    ensures
        r@ == render_module_m(m.model()),
{
    let mut out = String::new();
    proof {
        reveal_strlit("");
        assert(""@ =~= Seq::<char>::empty());
    }
    render_body(&m.body, "", &mut out);
    out
}

/// Checks one expression for unsupported nodes, returning the error message
/// of the first one in rendering order.
pub fn check_expr(e: &Expr) -> (r: Option<String>)
    ensures
        opt_view(r) == err_expr_m(e.model()),
    decreases e,
{
    match e {
        Expr::Name { .. } => None,
        Expr::StringLiteral { .. } => None,
        Expr::NumberLiteral { .. } => None,
        Expr::BooleanLiteral { .. } => None,
        Expr::NoneLiteral => None,
        Expr::Call { func, args } => {
            let first = check_expr(&**func);
            match first {
                Some(m) => Some(m),
                None => check_exprs(args),
            }
        },
        Expr::BinOp { left, right, .. } => {
            let first = check_expr(&**left);
            match first {
                Some(m) => Some(m),
                None => check_expr(&**right),
            }
        },
        Expr::Attribute { value, .. } => check_expr(&**value),
        Expr::Subscript { value, index } => {
            let first = check_expr(&**value);
            match first {
                Some(m) => Some(m),
                None => check_expr(&**index),
            }
        },
        Expr::Unknown { kind } => {
            let mut m = String::new();
            m.append("Unsupported expression type: ");
            m.append(kind.as_str());
            Some(m)
        },
    }
}

/// Checks a sequence of expressions in order.
pub fn check_exprs(es: &Vec<Expr>) -> (r: Option<String>)
    ensures
        opt_view(r) == err_exprs_m(exprs_model(es@)),
    decreases es@,
{
    let n = es.len();
    proof {
        assert(es@.subrange(0, n as int) =~= es@);
    }
    let mut i: usize = 0;
    while i < n
        invariant
            n == es@.len(),
            i <= n,
            err_exprs_m(exprs_model(es@)) == err_exprs_m(
                exprs_model(es@.subrange(i as int, n as int)),
            ),
            forall|j: int| 0 <= j < i ==> err_expr_m(#[trigger] es@[j].model()) is None,
        decreases n - i,
    {
        let r = check_expr(&es[i]);
        proof {
            let suf = es@.subrange(i as int, n as int);
            let suf2 = es@.subrange(i + 1 as int, n as int);
            lemma_exprs_model(suf);
            lemma_exprs_model(suf2);
            assert(suf[0] == es@[i as int]);
            assert(exprs_model(suf).first() == es@[i as int].model());
            assert(exprs_model(suf).drop_first() =~= exprs_model(suf2));
        }
        match r {
            Some(m) => {
                return Some(m);
            },
            None => {},
        }
        i = i + 1;
    }
    proof {
        let suf = es@.subrange(n as int, n as int);
        lemma_exprs_model(suf);
        assert(exprs_model(suf) =~= Seq::<ExprModel>::empty());
    }
    None
}

/// Checks one statement for unsupported nodes, returning the error message
/// of the first one in rendering order.
pub fn check_stmt(s: &Stmt) -> (r: Option<String>)
    ensures
        opt_view(r) == err_stmt_m(s.model()),
    decreases s,
{
    match s {
        Stmt::FunctionDef(f) => {
            proof {
                assert(s.model() == StmtModel::FunctionDef(f.model()));
            }
            check_body(&f.body)
        },
        Stmt::ClassDef(c) => {
            proof {
                assert(s.model() == StmtModel::ClassDef(c.model()));
            }
            let first = check_exprs(&c.bases);
            match first {
                Some(m) => Some(m),
                None => check_body(&c.body),
            }
        },
        Stmt::Import { .. } => None,
        Stmt::ImportFrom { .. } => None,
        Stmt::Assign { targets, value } => {
            let first = check_exprs(targets);
            match first {
                Some(m) => Some(m),
                None => check_expr(value),
            }
        },
        Stmt::Return { value } => match value {
            Some(v) => check_expr(v),
            None => None,
        },
        Stmt::Pass => None,
        Stmt::Expr { value } => check_expr(value),
        Stmt::TryExcept { .. } => {
            let mut m = String::new();
            m.append("Unsupported statement type: try_except");
            Some(m)
        },
        Stmt::Unknown { kind } => {
            let mut m = String::new();
            m.append("Unsupported statement type: ");
            m.append(kind.as_str());
            Some(m)
        },
    }
}

/// Checks a block of statements in order.
pub fn check_body(ss: &Vec<Stmt>) -> (r: Option<String>)
    ensures
        opt_view(r) == err_body_m(stmts_model(ss@)),
    decreases ss@,
{
    let n = ss.len();
    proof {
        assert(ss@.subrange(0, n as int) =~= ss@);
    }
    let mut i: usize = 0;
    while i < n
        invariant
            n == ss@.len(),
            i <= n,
            err_body_m(stmts_model(ss@)) == err_body_m(
                stmts_model(ss@.subrange(i as int, n as int)),
            ),
            forall|j: int| 0 <= j < i ==> err_stmt_m(#[trigger] ss@[j].model()) is None,
        decreases n - i,
    {
        let r = check_stmt(&ss[i]);
        proof {
            let suf = ss@.subrange(i as int, n as int);
            let suf2 = ss@.subrange(i + 1 as int, n as int);
            lemma_stmts_model(suf);
            lemma_stmts_model(suf2);
            assert(suf[0] == ss@[i as int]);
            assert(stmts_model(suf).first() == ss@[i as int].model());
            assert(stmts_model(suf).drop_first() =~= stmts_model(suf2));
        }
        match r {
            Some(m) => {
                return Some(m);
            },
            None => {},
        }
        i = i + 1;
    }
    proof {
        let suf = ss@.subrange(n as int, n as int);
        lemma_stmts_model(suf);
        assert(stmts_model(suf) =~= Seq::<StmtModel>::empty());
    }
    None
}

/// The strict rendering of a whole module: each top-level statement's
/// rendering followed by one newline, so non-empty output ends with a
/// newline. The lenient form (`render_module_m`) instead joins statements
/// with newlines in between and no trailing one; the two agree on every
/// statement's own text.
pub open spec fn render_module_strict_m(ss: Seq<StmtModel>) -> Seq<char>
    decreases ss,
{
    if ss.len() == 0 {
        Seq::empty()
    } else {
        render_module_strict_m(ss.drop_last()) + render_stmt_m(ss.last(), Seq::empty()) + "\n"@
    }
}

/// Renders a whole module strictly: fails with a structure error naming the
/// first unsupported kind, and succeeds exactly when every node is
/// supported, with one newline after each top-level statement.
#[verifier::loop_isolation(false)]
pub fn render_module_strict(m: &Module) -> (r: crate::error::Result<String>)
    ensures
        module_supported_m(m.model()) ==> r is Ok && r->Ok_0@ == render_module_strict_m(m.model()),
        !module_supported_m(m.model()) ==> r is Err && r->Err_0 is StructureError
            && r->Err_0.message_view() == err_body_m(m.model())->Some_0,
{
    let bad = check_body(&m.body);
    match bad {
        Some(msg) => {
            return Err(PyRustorError::ast_error(msg));
        },
        None => {},
    }
    let n = m.body.len();
    let mut out = String::new();
    proof {
        reveal_strlit("");
        assert(""@ =~= Seq::<char>::empty());
        assert(m.body@.subrange(0, 0) =~= Seq::<Stmt>::empty());
        assert(out@ =~= render_module_strict_m(stmts_model(m.body@.subrange(0, 0))));
    }
    let mut i: usize = 0;
    while i < n
        invariant
            n == m.body@.len(),
            i <= n,
            out@ == render_module_strict_m(stmts_model(m.body@.subrange(0, i as int))),
        decreases n - i,
    {
        render_stmt(&m.body[i], "", &mut out);
        out.append("\n");
        proof {
            let pre = m.body@.subrange(0, i as int);
            let cur = m.body@.subrange(0, i + 1 as int);
            assert(cur.drop_last() =~= pre);
            assert(cur.last() == m.body@[i as int]);
            lemma_stmts_model(pre);
            lemma_stmts_model(cur);
            assert(stmts_model(cur).drop_last() =~= stmts_model(pre));
            assert(stmts_model(cur).drop_last() == stmts_model(pre));
            assert(stmts_model(cur).last() == m.body@[i as int].model());
            assert(out@ =~= render_module_strict_m(stmts_model(cur)));
        }
        i = i + 1;
    }
    proof {
        assert(m.body@.subrange(0, n as int) =~= m.body@);
    }
    Ok(out)
}

/// Chooses how trees are rendered back to text: leniently, with placeholder
/// comments for unsupported nodes, or strictly, failing on the first
/// unsupported node.
#[derive(Debug, Clone, Copy, PartialEq, Eq, Structural)]
pub struct Formatter {
    strict: bool,
}

impl Formatter {
    /// Whether this formatter renders strictly.
    pub closed spec fn is_strict(self) -> bool {
        self.strict
    }

    /// A lenient formatter.
    pub fn new() -> (r: Formatter)
        ensures
            !r.is_strict(),
    {
        Formatter { strict: false }
    }

    /// A formatter with the given mode: strict when the flag is set.
    pub fn with_mode(strict: bool) -> (r: Formatter)
        ensures
            r.is_strict() == strict,
    {
        Formatter { strict }
    }

    /// Renders a module in this formatter's mode.
    pub fn format_module(&self, m: &Module) -> (r: crate::error::Result<String>)
        ensures
            !self.is_strict() ==> r is Ok && r->Ok_0@ == render_module_m(m.model()),
            self.is_strict() && module_supported_m(m.model()) ==> r is Ok && r->Ok_0@
                == render_module_strict_m(m.model()),
            self.is_strict() && !module_supported_m(m.model()) ==> r is Err
                && r->Err_0 is StructureError && r->Err_0.message_view() == err_body_m(
                m.model(),
            )->Some_0,
    {
        if self.strict {
            render_module_strict(m)
        } else {
            Ok(render_module(m))
        }
    }
}

} // verus!
