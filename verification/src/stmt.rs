//! Statement lowering: action-language statements to indented C99 lines.

use vstd::prelude::*;

use crate::expr::{push_args_into, push_expr_into, push_field_ref_into, spec_args, spec_expr, spec_field_ref};
use crate::ir::{Expr, Statement};
use crate::text::{push_spaces, spec_spaces};

verus! {

/// Names the statement emitter needs: the machine prefix for helper calls
/// (`Motor_raise(m, ...)`) and the C roots of the context and payload.
pub struct StmtContext<'a> {
    pub machine_prefix: &'a str,
    pub ctx_prefix: &'a str,
    pub payload_prefix: &'a str,
}

/// Nesting depth in indentation steps of four columns.
pub open spec fn depth_one(s: Statement) -> nat
    decreases s,
{
    match s {
        Statement::If { then, else_, .. } => {
            let a = depth_stmts(then@);
            let b = depth_stmts(else_@);
            1 + if a > b {
                a
            } else {
                b
            }
        },
        Statement::While { body, .. } => 1 + depth_stmts(body@),
        Statement::For { init, update, body, .. } => {
            let a = 1 + depth_one(*init);
            let b = 2 + depth_stmts(body@);
            let c = 2 + depth_one(*update);
            if a >= b && a >= c {
                a
            } else if b >= c {
                b
            } else {
                c
            }
        },
        _ => 0,
    }
}

pub open spec fn depth_stmts(ss: Seq<Statement>) -> nat
    decreases ss,
{
    if ss.len() == 0 {
        0
    } else {
        let a = depth_stmts(ss.drop_last());
        let b = depth_one(ss.last());
        if a > b {
            a
        } else {
            b
        }
    }
}

/// The C lines of one statement at `indent` columns.
pub open spec fn spec_one(s: Statement, mp: Seq<char>, cp: Seq<char>, pp: Seq<char>, indent: nat) -> Seq<char>
    decreases s,
{
    let sp = spec_spaces(indent);
    match s {
        Statement::Assign { target, value } => sp + spec_field_ref(target, cp, pp) + " = "@ + spec_expr(
            value,
            cp,
            pp,
        ) + ";\n"@,
        Statement::If { condition, then, else_ } => sp + "if ("@ + spec_expr(condition, cp, pp)
            + ") {\n"@ + spec_stmts(then@, mp, cp, pp, indent + 4) + (if else_@.len() > 0 {
            sp + "} else {\n"@ + spec_stmts(else_@, mp, cp, pp, indent + 4)
        } else {
            Seq::empty()
        }) + sp + "}\n"@,
        Statement::While { condition, body } => sp + "while ("@ + spec_expr(condition, cp, pp)
            + ") {\n"@ + spec_stmts(body@, mp, cp, pp, indent + 4) + sp + "}\n"@,
        Statement::For { init, condition, update, body } => sp + "{ /* for */\n"@ + spec_one(
            *init,
            mp,
            cp,
            pp,
            indent + 4,
        ) + sp + "    while ("@ + spec_expr(condition, cp, pp) + ") {\n"@ + spec_stmts(
            body@,
            mp,
            cp,
            pp,
            indent + 8,
        ) + spec_one(*update, mp, cp, pp, indent + 8) + sp + "    }\n"@ + sp + "}\n"@,
        Statement::Call { callee, args } => sp + callee@ + "("@ + spec_args(args@, cp, pp) + ");\n"@,
        Statement::Raise { event_id, .. } => sp + mp + "_raise(m, /* event */ "@ + event_id@ + ");\n"@,
        Statement::Send { event_id, machine_id, .. } => sp + mp + "_send_to("@ + machine_id@
            + ", /* event */ "@ + event_id@ + ");\n"@,
        Statement::Defer { event_id } => sp + mp + "_defer(m, /* event */ "@ + event_id@ + ");\n"@,
    }
}

/// The C lines of a statement list, in order.
pub open spec fn spec_stmts(ss: Seq<Statement>, mp: Seq<char>, cp: Seq<char>, pp: Seq<char>, indent: nat) -> Seq<char>
    decreases ss,
{
    if ss.len() == 0 {
        Seq::empty()
    } else {
        spec_stmts(ss.drop_last(), mp, cp, pp, indent) + spec_one(ss.last(), mp, cp, pp, indent)
    }
}

proof fn lemma_depth_prefix(ss: Seq<Statement>, k: int)
    requires
        0 <= k < ss.len(),
    ensures
        depth_one(ss[k]) <= depth_stmts(ss),
    decreases ss.len(),
{
    if k < ss.len() - 1 {
        lemma_depth_prefix(ss.drop_last(), k);
        assert(ss.drop_last()[k] == ss[k]);
    }
}

fn push_stmt_vec(out: &mut String, ss: &Vec<Statement>, ctx: &StmtContext<'_>, indent: usize)
    requires
        indent + 4 * depth_stmts(ss@) <= usize::MAX,
    ensures
        final(out)@ == old(out)@ + spec_stmts(ss@, ctx.machine_prefix@, ctx.ctx_prefix@, ctx.payload_prefix@, indent as nat),
    decreases ss,
{
    let ghost start = out@;
    let ghost (mp, cp, pp) = (ctx.machine_prefix@, ctx.ctx_prefix@, ctx.payload_prefix@);
    let mut i: usize = 0;
    assert(ss@.take(0) =~= Seq::<Statement>::empty());
    while i < ss.len()
        invariant
            i <= ss.len(),
            indent + 4 * depth_stmts(ss@) <= usize::MAX,
            mp == ctx.machine_prefix@,
            cp == ctx.ctx_prefix@,
            pp == ctx.payload_prefix@,
            out@ == start + spec_stmts(ss@.take(i as int), mp, cp, pp, indent as nat),
        decreases ss.len() - i,
    {
        assert(ss@.take(i + 1).drop_last() =~= ss@.take(i as int));
        proof {
            lemma_depth_prefix(ss@, i as int);
        }
        emit_one(&ss[i], ctx, indent, out);
        i += 1;
        assert(out@ =~= start + spec_stmts(ss@.take(i as int), mp, cp, pp, indent as nat));
    }
    assert(ss@.take(i as int) =~= ss@);
}

/// Append the lines of one statement at `indent` columns.
#[verifier::rlimit(100)]
fn emit_one(s: &Statement, ctx: &StmtContext<'_>, indent: usize, out: &mut String)
    requires
        indent + 4 * depth_one(*s) <= usize::MAX,
    ensures
        final(out)@ == old(out)@ + spec_one(*s, ctx.machine_prefix@, ctx.ctx_prefix@, ctx.payload_prefix@, indent as nat),
    decreases s,
{
    match s {
        Statement::Assign { target, value } => {
            push_spaces(out, indent);
            push_field_ref_into(out, target, ctx.ctx_prefix, ctx.payload_prefix);
            out.append(" = ");
            push_expr_into(out, value, ctx.ctx_prefix, ctx.payload_prefix);
            out.append(";\n");
        },
        Statement::If { condition, then, else_ } => {
            push_spaces(out, indent);
            out.append("if (");
            push_expr_into(out, condition, ctx.ctx_prefix, ctx.payload_prefix);
            out.append(") {\n");
            push_stmt_vec(out, then, ctx, indent + 4);
            if else_.len() > 0 {
                push_spaces(out, indent);
                out.append("} else {\n");
                push_stmt_vec(out, else_, ctx, indent + 4);
            }
            push_spaces(out, indent);
            out.append("}\n");
        },
        Statement::While { condition, body } => {
            push_spaces(out, indent);
            out.append("while (");
            push_expr_into(out, condition, ctx.ctx_prefix, ctx.payload_prefix);
            out.append(") {\n");
            push_stmt_vec(out, body, ctx, indent + 4);
            push_spaces(out, indent);
            out.append("}\n");
        },
        Statement::For { init, condition, update, body } => {
            push_spaces(out, indent);
            out.append("{ /* for */\n");
            emit_one(init, ctx, indent + 4, out);
            push_spaces(out, indent);
            out.append("    while (");
            push_expr_into(out, condition, ctx.ctx_prefix, ctx.payload_prefix);
            out.append(") {\n");
            push_stmt_vec(out, body, ctx, indent + 8);
            emit_one(update, ctx, indent + 8, out);
            push_spaces(out, indent);
            out.append("    }\n");
            push_spaces(out, indent);
            out.append("}\n");
        },
        Statement::Call { callee, args } => {
            push_spaces(out, indent);
            out.append(callee.as_str());
            out.append("(");
            push_args_into(out, args, ctx.ctx_prefix, ctx.payload_prefix);
            out.append(");\n");
        },
        Statement::Raise { event_id, .. } => {
            push_spaces(out, indent);
            out.append(ctx.machine_prefix);
            out.append("_raise(m, /* event */ ");
            out.append(event_id.as_str());
            out.append(");\n");
        },
        Statement::Send { event_id, machine_id, .. } => {
            push_spaces(out, indent);
            out.append(ctx.machine_prefix);
            out.append("_send_to(");
            out.append(machine_id.as_str());
            out.append(", /* event */ ");
            out.append(event_id.as_str());
            out.append(");\n");
        },
        Statement::Defer { event_id } => {
            push_spaces(out, indent);
            out.append(ctx.machine_prefix);
            out.append("_defer(m, /* event */ ");
            out.append(event_id.as_str());
            out.append(");\n");
        },
    }
    assert(final(out)@ =~= old(out)@ + spec_one(*s, ctx.machine_prefix@, ctx.ctx_prefix@, ctx.payload_prefix@, indent as nat));
}

/// Emit a statement list at the given indent: each line starts with
/// `indent` blanks and ends with a newline.
pub fn emit_stmts(stmts: &[Statement], ctx: &StmtContext<'_>, indent: usize) -> (r: String)
    requires
        indent + 4 * depth_stmts(stmts@) <= usize::MAX,
    ensures
        r@ == spec_stmts(stmts@, ctx.machine_prefix@, ctx.ctx_prefix@, ctx.payload_prefix@, indent as nat),
{
    let mut out = String::new();
    let ghost (mp, cp, pp) = (ctx.machine_prefix@, ctx.ctx_prefix@, ctx.payload_prefix@);
    let mut i: usize = 0;
    assert(stmts@.take(0) =~= Seq::<Statement>::empty());
    while i < stmts.len()
        invariant
            i <= stmts@.len(),
            indent + 4 * depth_stmts(stmts@) <= usize::MAX,
            mp == ctx.machine_prefix@,
            cp == ctx.ctx_prefix@,
            pp == ctx.payload_prefix@,
            out@ == spec_stmts(stmts@.take(i as int), mp, cp, pp, indent as nat),
        decreases stmts@.len() - i,
    {
        assert(stmts@.take(i + 1).drop_last() =~= stmts@.take(i as int));
        proof {
            lemma_depth_prefix(stmts@, i as int);
        }
        emit_one(&stmts[i], ctx, indent, &mut out);
        i += 1;
        assert(out@ =~= spec_stmts(stmts@.take(i as int), mp, cp, pp, indent as nat));
    }
    assert(stmts@.take(i as int) =~= stmts@);
    out
}


fn depth_one_sat(s: &Statement) -> (r: usize)
    ensures
        r as nat == (if depth_one(*s) < usize::MAX { depth_one(*s) } else { usize::MAX as nat }),
    decreases s,
{
    match s {
        Statement::If { then, else_, .. } => {
            let a = depth_stmts_sat(then);
            let b = depth_stmts_sat(else_);
            let m = if a > b { a } else { b };
            if m < usize::MAX { m + 1 } else { usize::MAX }
        },
        Statement::While { body, .. } => {
            let a = depth_stmts_sat(body);
            if a < usize::MAX { a + 1 } else { usize::MAX }
        },
        Statement::For { init, update, body, .. } => {
            let i = depth_one_sat(init);
            let b = depth_stmts_sat(body);
            let u = depth_one_sat(update);
            let a1 = if i < usize::MAX { i + 1 } else { usize::MAX };
            let b1 = if b < usize::MAX - 1 { b + 2 } else { usize::MAX };
            let c1 = if u < usize::MAX - 1 { u + 2 } else { usize::MAX };
            if a1 >= b1 && a1 >= c1 { a1 } else if b1 >= c1 { b1 } else { c1 }
        },
        _ => 0,
    }
}

fn depth_stmts_sat(ss: &Vec<Statement>) -> (r: usize)
    ensures
        r as nat == (if depth_stmts(ss@) < usize::MAX { depth_stmts(ss@) } else { usize::MAX as nat }),
    decreases ss,
{
    let mut d: usize = 0;
    let mut i: usize = 0;
    assert(ss@.take(0) =~= Seq::<Statement>::empty());
    while i < ss.len()
        invariant
            i <= ss.len(),
            d as nat == (if depth_stmts(ss@.take(i as int)) < usize::MAX { depth_stmts(ss@.take(i as int)) } else { usize::MAX as nat }),
        decreases ss.len() - i,
    {
        assert(ss@.take(i + 1).drop_last() =~= ss@.take(i as int));
        let e = depth_one_sat(&ss[i]);
        if e > d {
            d = e;
        }
        i += 1;
    }
    assert(ss@.take(i as int) =~= ss@);
    d
}

/// The statements' nesting fits `indent` columns without overflowing a
/// `usize` column count.
pub open spec fn spec_stmts_fit(ss: Seq<Statement>, indent: nat) -> bool {
    indent + 4 * depth_stmts(ss) <= usize::MAX
}

/// Whether `stmts` can be emitted at `indent` columns.
pub fn stmts_fit(stmts: &Vec<Statement>, indent: usize) -> (r: bool)
    ensures
        r == spec_stmts_fit(stmts@, indent as nat),
{
    let d = depth_stmts_sat(stmts);
    let room: usize = (usize::MAX - indent) / 4;
    proof {
        let dd = depth_stmts(stmts@);
        let mx = usize::MAX as int;
        let ii = indent as int;
        assert((dd <= (mx - ii) / 4) == (ii + 4 * dd <= mx)) by (nonlinear_arith)
            requires
                0 <= ii <= mx,
                dd >= 0;
    }
    d <= room
}

/// The lines of `ss` at `indent` columns when their nesting fits a
/// `usize` column count, nothing otherwise.
pub open spec fn spec_stmts_fitting(ss: Seq<Statement>, mp: Seq<char>, cp: Seq<char>, pp: Seq<char>, indent: nat) -> Seq<char> {
    if spec_stmts_fit(ss, indent) {
        spec_stmts(ss, mp, cp, pp, indent)
    } else {
        Seq::empty()
    }
}

/// Emits `stmts` at `indent` columns when their nesting fits (a column
/// count past `usize::MAX` cannot be laid out, and emits nothing).
pub fn emit_stmts_fitting(stmts: &Vec<Statement>, ctx: &StmtContext<'_>, indent: usize) -> (r: String)
    ensures
        r@ == spec_stmts_fitting(stmts@, ctx.machine_prefix@, ctx.ctx_prefix@, ctx.payload_prefix@, indent as nat),
{
    if stmts_fit(stmts, indent) {
        emit_stmts(stmts.as_slice(), ctx, indent)
    } else {
        String::new()
    }
}


/// A `while` statement lowers to a C `while` loop over the lowered
/// condition, with the lowered body one level deeper inside the braces;
/// an `if` without `else` differs from it only in the keyword.
pub proof fn law_while_lowers_to_c_while(
    condition: Expr,
    body: Vec<Statement>,
    else_: Vec<Statement>,
    mp: Seq<char>,
    cp: Seq<char>,
    pp: Seq<char>,
    indent: nat,
)
    ensures
        spec_one(Statement::While { condition, body }, mp, cp, pp, indent) == spec_spaces(indent) + "while ("@
            + spec_expr(condition, cp, pp) + ") {\n"@ + spec_stmts(body@, mp, cp, pp, indent + 4) + spec_spaces(indent)
            + "}\n"@,
        else_@.len() == 0 ==> spec_one(Statement::If { condition, then: body, else_ }, mp, cp, pp, indent)
            == spec_spaces(indent) + "if ("@ + spec_expr(condition, cp, pp) + ") {\n"@
            + spec_stmts(body@, mp, cp, pp, indent + 4) + spec_spaces(indent) + "}\n"@,
{
}


/// An `if` statement lowers to a C `if` over the lowered condition with
/// the lowered branches one level deeper, the `else` branch only when it
/// has statements; a statement list lowers to its statements in order.
pub proof fn law_if_lowers_to_c_if(
    condition: Expr,
    then: Vec<Statement>,
    else_: Vec<Statement>,
    ss: Seq<Statement>,
    st: Statement,
    mp: Seq<char>,
    cp: Seq<char>,
    pp: Seq<char>,
    indent: nat,
)
    ensures
        else_@.len() > 0 ==> spec_one(Statement::If { condition, then, else_ }, mp, cp, pp, indent)
            == spec_spaces(indent) + "if ("@ + spec_expr(condition, cp, pp) + ") {\n"@
            + spec_stmts(then@, mp, cp, pp, indent + 4) + spec_spaces(indent) + "} else {\n"@
            + spec_stmts(else_@, mp, cp, pp, indent + 4) + spec_spaces(indent) + "}\n"@,
        spec_stmts(Seq::<Statement>::empty(), mp, cp, pp, indent) == Seq::<char>::empty(),
        spec_stmts(ss.push(st), mp, cp, pp, indent) == spec_stmts(ss, mp, cp, pp, indent) + spec_one(st, mp, cp, pp, indent),
{
    assert(ss.push(st).drop_last() =~= ss);
}

} // verus!
