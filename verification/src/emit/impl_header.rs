//! `<Machine>_impl.h`: the declarations the user implements: guard
//! externs, entry and exit actions of every enterable state, and action
//! externs.

use vstd::prelude::*;

use crate::expr::{c_type_str, spec_c_type};
use crate::ir::{ExternObject, Param};
use crate::state_index::{spec_active_at_rest, spec_c_ident, StateRecordKind};

use super::license::{header_block, spec_header_block};
use super::{EmittedFile, FileRole, CtxView, MachineEmitCtx};

verus! {

/// One parameter of an extern declaration: its C type, then its name when
/// it has one.
pub open spec fn spec_param_decl(p: Param) -> Seq<char> {
    if p.name@.len() == 0 { spec_c_type(p.ty) } else { spec_c_type(p.ty) + " "@ + p.name@ }
}

/// The parameters joined by `, ` (`void` when there are none).
pub open spec fn spec_param_list(ps: Seq<Param>) -> Seq<char>
    decreases ps.len(),
{
    if ps.len() == 0 {
        Seq::empty()
    } else if ps.len() == 1 {
        spec_param_decl(ps[0])
    } else {
        spec_param_list(ps.drop_last()) + ", "@ + spec_param_decl(ps.last())
    }
}

/// The bare C declaration of an extern: its return type (`bool` for a
/// pure extern, `void` otherwise, when none is declared), name and
/// parameters.
pub open spec fn spec_bare_extern(e: ExternObject) -> Seq<char> {
    (match e.return_type {
        Some(t) => spec_c_type(t),
        None => if e.pure { "bool"@ } else { "void"@ },
    }) + " "@ + e.name@ + "("@ + (if e.params@.len() == 0 { "void"@ } else { spec_param_list(e.params@) }) + ");\n"@
}

fn bare_extern_decl(e: &ExternObject) -> (r: String)
    ensures
        r@ == spec_bare_extern(*e),
{
    let mut s = match &e.return_type {
        Some(t) => c_type_str(t),
        None => if e.pure { "bool".to_owned() } else { "void".to_owned() },
    };
    s.append(" ");
    s.append(e.name.as_str());
    s.append("(");
    let mut ps = String::new();
    if e.params.len() == 0 {
        ps.append("void");
    } else {
        let mut i: usize = 0;
        assert(e.params@.take(0) =~= Seq::<Param>::empty());
        while i < e.params.len()
            invariant
                i <= e.params.len(),
                e.params@.len() > 0,
                i == 0 ==> ps@ == Seq::<char>::empty(),
                i > 0 ==> ps@ == spec_param_list(e.params@.take(i as int)),
            decreases e.params.len() - i,
        {
            assert(e.params@.take(i + 1).drop_last() =~= e.params@.take(i as int));
            assert(e.params@.take(i + 1).last() == e.params@[i as int]);
            let p = &e.params[i];
            let mut d = c_type_str(&p.ty);
            if p.name.as_str().unicode_len() > 0 {
                d.append(" ");
                d.append(p.name.as_str());
            }
            if i > 0 {
                ps.append(", ");
            }
            ps.append(d.as_str());
            proof {
                if i == 0 {
                    assert(e.params@.take(1) =~= seq![e.params@[0]]);
                }
            }
            i += 1;
        }
        assert(e.params@.take(i as int) =~= e.params@);
    }
    s.append(ps.as_str());
    s.append(");\n");
    s
}

/// The guard declarations (pure externs) or the action declarations
/// (other externs).
pub open spec fn spec_extern_decls(p: Seq<char>, es: Seq<ExternObject>, pure: bool) -> Seq<char>
    decreases es.len(),
{
    if es.len() == 0 {
        Seq::empty()
    } else {
        let e = es.last();
        spec_extern_decls(p, es.drop_last(), pure) + if e.pure == pure {
            (if pure {
                "bool "@ + p + "_guard_"@ + e.name@ + "(const "@ + p + "_t *m, const "@ + p + "_Event_t *ev);\n"@
            } else {
                "void "@ + p + "_action_"@ + e.name@ + "("@ + p + "_t *m, const "@ + p + "_Event_t *ev);\n"@
            }) + spec_bare_extern(e)
        } else {
            Seq::empty()
        }
    }
}

fn extern_decls(p: &str, es: &Vec<ExternObject>, pure: bool) -> (r: String)
    ensures
        r@ == spec_extern_decls(p@, es@, pure),
{
    let mut s = String::new();
    let mut i: usize = 0;
    assert(es@.take(0) =~= Seq::<ExternObject>::empty());
    while i < es.len()
        invariant
            i <= es.len(),
            s@ == spec_extern_decls(p@, es@.take(i as int), pure),
        decreases es.len() - i,
    {
        assert(es@.take(i + 1).drop_last() =~= es@.take(i as int));
        assert(es@.take(i + 1).last() == es@[i as int]);
        let e = &es[i];
        if e.pure == pure {
            let mut b = if pure { "bool ".to_owned() } else { "void ".to_owned() };
            b.append(p);
            if pure {
                b.append("_guard_");
                b.append(e.name.as_str());
                b.append("(const ");
            } else {
                b.append("_action_");
                b.append(e.name.as_str());
                b.append("(");
            }
            b.append(p);
            b.append("_t *m, const ");
            b.append(p);
            b.append("_Event_t *ev);\n");
            let d = bare_extern_decl(e);
            b.append(d.as_str());
            s.append(b.as_str());
        }
        i += 1;
    }
    assert(es@.take(i as int) =~= es@);
    s
}

/// The entry (`kind` = `"entry"`) or exit declarations of the enterable
/// states: active at rest, not final, not a reference state.
pub open spec fn spec_action_decls(ctx: CtxView, n: int, kind: Seq<char>) -> Seq<char>
    decreases n,
{
    if n <= 0 {
        Seq::empty()
    } else {
        let rec = ctx.index@[n - 1];
        let p = ctx.machine.name@;
        spec_action_decls(ctx, n - 1, kind) + if spec_active_at_rest(rec.kind) && rec.kind != StateRecordKind::Final
            && rec.kind != StateRecordKind::Submachine {
            "void "@ + p + "_"@ + kind + "_"@ + rec.c_name + "("@ + p + "_t *m);\n"@
        } else {
            Seq::empty()
        }
    }
}

fn action_decls(ctx: &MachineEmitCtx<'_>, p: &str, kind: &str) -> (r: String)
    requires
        p@ == ctx.machine.name@,
    ensures
        r@ == spec_action_decls(ctx@, ctx.index@.len() as int, kind@),
{
    let n = ctx.index.records.len();
    let mut s = String::new();
    let mut i: usize = 0;
    while i < n
        invariant
            p@ == ctx.machine.name@,
            n == ctx.index@.len(),
            i <= n,
            s@ == spec_action_decls(ctx@, i as int, kind@),
        decreases n - i,
    {
        let rec = &ctx.index.records[i];
        assert(ctx.index@[i as int] == rec@);
        if rec.kind.is_active_at_rest() && rec.kind != StateRecordKind::Final && !super::submachine::is_submachine_record(rec.kind) {
            let mut b = "void ".to_owned();
            b.append(p);
            b.append("_");
            b.append(kind);
            b.append("_");
            b.append(rec.c_name.as_str());
            b.append("(");
            b.append(p);
            b.append("_t *m);\n");
            s.append(b.as_str());
        }
        i += 1;
    }
    s
}

/// The body of the implementation header of type prefix `p`, macro
/// prefix `m`.
pub open spec fn spec_impl_body(ctx: CtxView) -> Seq<char> {
    let p = ctx.machine.name@;
    let m = spec_c_ident(p);
    let n = ctx.index@.len() as int;
    "#ifndef "@ + m + "_IMPL_H\n#define "@ + m + "_IMPL_H\n\n#include \""@ + p + ".h\"\n\n"@
        + "#ifdef __cplusplus\nextern \"C\" {\n#endif\n\n"@
        + "/* ── Guards (pure — no side effects, MUST NOT mutate context) ─────── */\n"@
        + spec_extern_decls(p, ctx.machine.externs@, true)
        + "\n/* ── Entry actions ────────────────────────────────────────────────── */\n"@ + spec_action_decls(ctx, n, "entry"@)
        + "\n/* ── Exit actions ─────────────────────────────────────────────────── */\n"@ + spec_action_decls(ctx, n, "exit"@)
        + "\n/* ── Transition actions ───────────────────────────────────────────── */\n"@ + spec_extern_decls(p, ctx.machine.externs@, false)
        + "\n#ifdef __cplusplus\n}\n#endif\n\n#endif /* "@ + m + "_IMPL_H */\n"@
}

/// The implementation header `<stem>_impl.h`.
pub fn emit(ctx: &MachineEmitCtx<'_>) -> (f: EmittedFile)
    ensures
        f.path@ == ctx.machine.name@ + "_impl.h"@,
        f.role == FileRole::ImplHeader,
        f.content@ == spec_header_block(ctx.config.license_spdx@, Some(ctx.machine.name@ + ".fsm (user-implemented externs)"@))
            + "\n"@ + spec_impl_body(ctx@),
{
    let p = ctx.type_prefix();
    let mstr = ctx.macro_prefix();
    let m = mstr.as_str();
    let stem = ctx.file_stem();
    let mut src = stem.to_owned();
    src.append(".fsm (user-implemented externs)");
    let mut content = header_block(ctx.config, Some(src.as_str()));
    content.append("\n");
    let guards = extern_decls(p, &ctx.machine.externs, true);
    let entries = action_decls(ctx, p, "entry");
    let exits = action_decls(ctx, p, "exit");
    let actions = extern_decls(p, &ctx.machine.externs, false);
    let mut b = "#ifndef ".to_owned();
    b.append(m); b.append("_IMPL_H\n#define "); b.append(m); b.append("_IMPL_H\n\n#include \""); b.append(p); b.append(".h\"\n\n");
    b.append("#ifdef __cplusplus\nextern \"C\" {\n#endif\n\n");
    b.append("/* ── Guards (pure — no side effects, MUST NOT mutate context) ─────── */\n");
    b.append(guards.as_str());
    b.append("\n/* ── Entry actions ────────────────────────────────────────────────── */\n");
    b.append(entries.as_str());
    b.append("\n/* ── Exit actions ─────────────────────────────────────────────────── */\n");
    b.append(exits.as_str());
    b.append("\n/* ── Transition actions ───────────────────────────────────────────── */\n");
    b.append(actions.as_str());
    b.append("\n#ifdef __cplusplus\n}\n#endif\n\n#endif /* "); b.append(m); b.append("_IMPL_H */\n");
    content.append(b.as_str());
    let mut path = stem.to_owned();
    path.append("_impl.h");
    EmittedFile { path, role: FileRole::ImplHeader, content }
}

} // verus!
