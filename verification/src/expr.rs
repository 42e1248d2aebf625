//! Expression lowering: guards, action expressions, literals and types to
//! C99 source fragments.

use vstd::prelude::*;

use crate::ir::{BinaryOp, CmpOp, EnumVariantLit, Expr, FieldRef, GuardExpr, GuardOperand, Literal, Type, UnaryOp};
use crate::state_index::{c_ident, spec_c_ident};
use crate::text::{push_char, push_decimal, push_int, push_string, spec_decimal, spec_int_decimal, str_eq};

verus! {

/// C99 spelling of a primitive type name (`int` for unknown names).
pub open spec fn spec_primitive_to_c(name: Seq<char>) -> Seq<char> {
    if name == "bool"@ {
        "bool"@
    } else if name == "u8"@ {
        "uint8_t"@
    } else if name == "u16"@ {
        "uint16_t"@
    } else if name == "u32"@ {
        "uint32_t"@
    } else if name == "u64"@ {
        "uint64_t"@
    } else if name == "i8"@ {
        "int8_t"@
    } else if name == "i16"@ {
        "int16_t"@
    } else if name == "i32"@ {
        "int32_t"@
    } else if name == "i64"@ {
        "int64_t"@
    } else if name == "f32"@ {
        "float"@
    } else if name == "f64"@ {
        "double"@
    } else if name == "string"@ {
        "const char *"@
    } else {
        "int"@
    }
}

/// Map an IR primitive type name to its C99 fixed-width type.
pub fn primitive_to_c(name: &str) -> (r: &'static str)
    ensures
        r@ == spec_primitive_to_c(name@),
{
    if str_eq(name, "bool") {
        "bool"
    } else if str_eq(name, "u8") {
        "uint8_t"
    } else if str_eq(name, "u16") {
        "uint16_t"
    } else if str_eq(name, "u32") {
        "uint32_t"
    } else if str_eq(name, "u64") {
        "uint64_t"
    } else if str_eq(name, "i8") {
        "int8_t"
    } else if str_eq(name, "i16") {
        "int16_t"
    } else if str_eq(name, "i32") {
        "int32_t"
    } else if str_eq(name, "i64") {
        "int64_t"
    } else if str_eq(name, "f32") {
        "float"
    } else if str_eq(name, "f64") {
        "double"
    } else if str_eq(name, "string") {
        "const char *"
    } else {
        "int"
    }
}

/// C99 spelling of a type.
pub open spec fn spec_c_type(t: Type) -> Seq<char>
    decreases t,
{
    match t {
        Type::Primitive { name } => spec_primitive_to_c(name@),
        Type::Enum { enum_id } => "/* enum "@ + enum_id@ + " */ int"@,
        Type::Opaque { c_type } => c_type@,
        Type::Array { element, size } => spec_c_type(*element) + "["@ + spec_decimal(size as nat)
            + "]"@,
    }
}

pub(crate) fn push_c_type_into(out: &mut String, t: &Type)
    ensures
        final(out)@ == old(out)@ + spec_c_type(*t),
    decreases t,
{
    match t {
        Type::Primitive { name } => {
            out.append(primitive_to_c(name.as_str()));
        },
        Type::Enum { enum_id } => {
            out.append("/* enum ");
            out.append(enum_id.as_str());
            out.append(" */ int");
        },
        Type::Opaque { c_type } => {
            out.append(c_type.as_str());
        },
        Type::Array { element, size } => {
            push_c_type_into(out, element);
            out.append("[");
            push_decimal(out, *size as u64);
            out.append("]");
        },
    }
    assert(final(out)@ =~= old(out)@ + spec_c_type(*t));
}

/// Convert an IR type to its C99 spelling.
pub fn c_type_str(t: &Type) -> (r: String)
    ensures
        r@ == spec_c_type(*t),
{
    let mut s = String::new();
    push_c_type_into(&mut s, t);
    assert(s@ =~= spec_c_type(*t));
    s
}

/// `ctx.x` / `payload.x` as a C member access.
pub open spec fn spec_field_ref(f: FieldRef, ctx: Seq<char>, payload: Seq<char>) -> Seq<char> {
    match f {
        FieldRef::Ctx { field } => ctx + "."@ + field@,
        FieldRef::Payload { field } => payload + "."@ + field@,
    }
}

pub(crate) fn push_field_ref_into(out: &mut String, f: &FieldRef, ctx_prefix: &str, payload_prefix: &str)
    ensures
        final(out)@ == old(out)@ + spec_field_ref(*f, ctx_prefix@, payload_prefix@),
{
    match f {
        FieldRef::Ctx { field } => {
            out.append(ctx_prefix);
            out.append(".");
            out.append(field.as_str());
        },
        FieldRef::Payload { field } => {
            out.append(payload_prefix);
            out.append(".");
            out.append(field.as_str());
        },
    }
    assert(final(out)@ =~= old(out)@ + spec_field_ref(*f, ctx_prefix@, payload_prefix@));
}

/// Emit a field reference like `m->context.speed`.
pub fn emit_field_ref(f: &FieldRef, ctx_prefix: &str, payload_prefix: &str) -> (r: String)
    ensures
        r@ == spec_field_ref(*f, ctx_prefix@, payload_prefix@),
{
    let mut s = String::new();
    push_field_ref_into(&mut s, f, ctx_prefix, payload_prefix);
    assert(s@ =~= spec_field_ref(*f, ctx_prefix@, payload_prefix@));
    s
}

/// A character of a C string literal body: `\` and `"` are escaped.
pub open spec fn spec_escape_char(c: char) -> Seq<char> {
    if c == '\\' {
        seq!['\\', '\\']
    } else if c == '"' {
        seq!['\\', '"']
    } else {
        seq![c]
    }
}

pub open spec fn spec_escape_quotes(s: Seq<char>) -> Seq<char>
    decreases s.len(),
{
    if s.len() == 0 {
        Seq::empty()
    } else {
        spec_escape_quotes(s.drop_last()) + spec_escape_char(s.last())
    }
}

/// Whether a float rendering already reads as a floating constant.
pub open spec fn has_float_marker(s: Seq<char>) -> bool {
    s.contains('.') || s.contains('e') || s.contains('E')
}

/// C constant of a literal.
pub open spec fn spec_literal(l: Literal) -> Seq<char> {
    match l {
        Literal::Int(i) => spec_int_decimal(i as int),
        Literal::Float(text) => if has_float_marker(text@) {
            text@
        } else {
            text@ + ".0"@
        },
        Literal::Bool(b) => if b {
            "true"@
        } else {
            "false"@
        },
        Literal::Str(s) => seq!['"'] + spec_escape_quotes(s@) + seq!['"'],
        Literal::EnumVariant(e) => spec_c_ident(e.enum_name@) + "_"@ + spec_c_ident(e.variant_name@),
    }
}

fn has_float_marker_exec(s: &str) -> (r: bool)
    ensures
        r == has_float_marker(s@),
{
    let n = s.unicode_len();
    let mut i: usize = 0;
    while i < n
        invariant
            n == s@.len(),
            i <= n,
            forall|j: int| 0 <= j < i ==> s@[j] != '.' && s@[j] != 'e' && s@[j] != 'E',
        decreases n - i,
    {
        let c = s.get_char(i);
        if c == '.' || c == 'e' || c == 'E' {
            assert(s@[i as int] == c);
            return true;
        }
        i += 1;
    }
    false
}

pub(crate) fn push_literal_into(out: &mut String, l: &Literal)
    ensures
        final(out)@ == old(out)@ + spec_literal(*l),
{
    let ghost start = out@;
    match l {
        Literal::Int(i) => {
            push_int(out, *i);
        },
        Literal::Float(text) => {
            out.append(text.as_str());
            if !has_float_marker_exec(text.as_str()) {
                out.append(".0");
            }
        },
        Literal::Bool(b) => {
            if *b {
                out.append("true");
            } else {
                out.append("false");
            }
        },
        Literal::Str(s) => {
            push_char(out, '"');
            let n = s.unicode_len();
            let mut i: usize = 0;
            while i < n
                invariant
                    n == s@.len(),
                    i <= n,
                    out@ == start + seq!['"'] + spec_escape_quotes(s@.take(i as int)),
                decreases n - i,
            {
                let c = s.as_str().get_char(i);
                assert(s@.take(i + 1).drop_last() =~= s@.take(i as int));
                if c == '\\' {
                    push_char(out, '\\');
                    push_char(out, '\\');
                } else if c == '"' {
                    push_char(out, '\\');
                    push_char(out, '"');
                } else {
                    push_char(out, c);
                }
                i += 1;
                assert(out@ =~= start + seq!['"'] + spec_escape_quotes(s@.take(i as int)));
            }
            assert(s@.take(n as int) =~= s@);
            push_char(out, '"');
        },
        Literal::EnumVariant(e) => {
            let v = emit_enum_variant(e);
            push_string(out, &v);
        },
    }
    assert(final(out)@ =~= old(out)@ + spec_literal(*l));
}

/// Emit a literal as a C constant: integers in decimal, floats always with
/// a decimal point or exponent, strings quoted with `\` and `"` escaped,
/// enum variants as `ENUMNAME_VARIANT`.
pub fn emit_literal(l: &Literal) -> (r: String)
    ensures
        r@ == spec_literal(*l),
{
    let mut s = String::new();
    push_literal_into(&mut s, l);
    assert(s@ =~= spec_literal(*l));
    s
}

/// Emit an enum variant literal: `ENUM_NAME_VARIANT_NAME`.
pub fn emit_enum_variant(e: &EnumVariantLit) -> (r: String)
    ensures
        r@ == spec_c_ident(e.enum_name@) + "_"@ + spec_c_ident(e.variant_name@),
{
    let mut s = c_ident(e.enum_name.as_str());
    s.append("_");
    let b = c_ident(e.variant_name.as_str());
    push_string(&mut s, &b);
    s
}

pub open spec fn spec_cmp_op(op: CmpOp) -> Seq<char> {
    match op {
        CmpOp::Eq => "=="@,
        CmpOp::NotEq => "!="@,
        CmpOp::Lt => "<"@,
        CmpOp::Gt => ">"@,
        CmpOp::LtEq => "<="@,
        CmpOp::GtEq => ">="@,
    }
}

fn emit_cmp_op(op: CmpOp) -> (r: &'static str)
    ensures
        r@ == spec_cmp_op(op),
{
    match op {
        CmpOp::Eq => "==",
        CmpOp::NotEq => "!=",
        CmpOp::Lt => "<",
        CmpOp::Gt => ">",
        CmpOp::LtEq => "<=",
        CmpOp::GtEq => ">=",
    }
}

pub open spec fn spec_binary_op(op: BinaryOp) -> Seq<char> {
    match op {
        BinaryOp::Add => "+"@,
        BinaryOp::Sub => "-"@,
        BinaryOp::Mul => "*"@,
        BinaryOp::Div => "/"@,
        BinaryOp::Mod => "%"@,
        BinaryOp::BitAnd => "&"@,
        BinaryOp::BitOr => "|"@,
        BinaryOp::BitXor => "^"@,
        BinaryOp::Shl => "<<"@,
        BinaryOp::Shr => ">>"@,
        BinaryOp::LogAnd => "&&"@,
        BinaryOp::LogOr => "||"@,
        BinaryOp::Eq => "=="@,
        BinaryOp::NotEq => "!="@,
        BinaryOp::Lt => "<"@,
        BinaryOp::Gt => ">"@,
        BinaryOp::LtEq => "<="@,
        BinaryOp::GtEq => ">="@,
    }
}

fn emit_binary_op(op: BinaryOp) -> (r: &'static str)
    ensures
        r@ == spec_binary_op(op),
{
    match op {
        BinaryOp::Add => "+",
        BinaryOp::Sub => "-",
        BinaryOp::Mul => "*",
        BinaryOp::Div => "/",
        BinaryOp::Mod => "%",
        BinaryOp::BitAnd => "&",
        BinaryOp::BitOr => "|",
        BinaryOp::BitXor => "^",
        BinaryOp::Shl => "<<",
        BinaryOp::Shr => ">>",
        BinaryOp::LogAnd => "&&",
        BinaryOp::LogOr => "||",
        BinaryOp::Eq => "==",
        BinaryOp::NotEq => "!=",
        BinaryOp::Lt => "<",
        BinaryOp::Gt => ">",
        BinaryOp::LtEq => "<=",
        BinaryOp::GtEq => ">=",
    }
}

pub open spec fn spec_unary_op(op: UnaryOp) -> Seq<char> {
    match op {
        UnaryOp::Not => "!"@,
        UnaryOp::Neg => "-"@,
        UnaryOp::BitNot => "~"@,
    }
}

/// C text of an action expression.
pub open spec fn spec_expr(e: Expr, ctx: Seq<char>, pl: Seq<char>) -> Seq<char>
    decreases e,
{
    match e {
        Expr::FieldRef { field_ref } => spec_field_ref(field_ref, ctx, pl),
        Expr::Literal(l) => spec_literal(l),
        Expr::Call { callee, args } => callee@ + "("@ + spec_args(args@, ctx, pl) + ")"@,
        Expr::Unary { op, operand } => "("@ + spec_unary_op(op) + spec_expr(*operand, ctx, pl) + ")"@,
        Expr::Binary { op, left, right } => "("@ + spec_expr(*left, ctx, pl) + " "@ + spec_binary_op(
            op,
        ) + " "@ + spec_expr(*right, ctx, pl) + ")"@,
        Expr::Cast { operand, target_type } => "(("@ + spec_c_type(target_type) + ")"@ + spec_expr(
            *operand,
            ctx,
            pl,
        ) + ")"@,
    }
}

/// Arguments joined by `, `.
pub open spec fn spec_args(args: Seq<Expr>, ctx: Seq<char>, pl: Seq<char>) -> Seq<char>
    decreases args,
{
    if args.len() == 0 {
        Seq::empty()
    } else if args.len() == 1 {
        spec_expr(args[0], ctx, pl)
    } else {
        spec_args(args.drop_last(), ctx, pl) + ", "@ + spec_expr(args.last(), ctx, pl)
    }
}

pub(crate) fn push_expr_into(out: &mut String, e: &Expr, ctx_prefix: &str, payload_prefix: &str)
    ensures
        final(out)@ == old(out)@ + spec_expr(*e, ctx_prefix@, payload_prefix@),
    decreases e,
{
    match e {
        Expr::FieldRef { field_ref } => {
            push_field_ref_into(out, field_ref, ctx_prefix, payload_prefix);
        },
        Expr::Literal(l) => {
            push_literal_into(out, l);
        },
        Expr::Call { callee, args } => {
            out.append(callee.as_str());
            out.append("(");
            push_args_into(out, args, ctx_prefix, payload_prefix);
            out.append(")");
        },
        Expr::Unary { op, operand } => {
            let sym = match op {
                UnaryOp::Not => "!",
                UnaryOp::Neg => "-",
                UnaryOp::BitNot => "~",
            };
            out.append("(");
            out.append(sym);
            push_expr_into(out, operand, ctx_prefix, payload_prefix);
            out.append(")");
        },
        Expr::Binary { op, left, right } => {
            out.append("(");
            push_expr_into(out, left, ctx_prefix, payload_prefix);
            out.append(" ");
            out.append(emit_binary_op(*op));
            out.append(" ");
            push_expr_into(out, right, ctx_prefix, payload_prefix);
            out.append(")");
        },
        Expr::Cast { operand, target_type } => {
            out.append("((");
            push_c_type_into(out, target_type);
            out.append(")");
            push_expr_into(out, operand, ctx_prefix, payload_prefix);
            out.append(")");
        },
    }
    assert(final(out)@ =~= old(out)@ + spec_expr(*e, ctx_prefix@, payload_prefix@));
}

pub(crate) fn push_args_into(out: &mut String, args: &Vec<Expr>, ctx_prefix: &str, payload_prefix: &str)
    ensures
        final(out)@ == old(out)@ + spec_args(args@, ctx_prefix@, payload_prefix@),
    decreases args,
{
    let ghost start = out@;
    let mut i: usize = 0;
    assert(args@.take(0) =~= Seq::<Expr>::empty());
    while i < args.len()
        invariant
            i <= args.len(),
            out@ == start + spec_args(args@.take(i as int), ctx_prefix@, payload_prefix@),
        decreases args.len() - i,
    {
        assert(args@.take(i + 1).drop_last() =~= args@.take(i as int));
        if i > 0 {
            out.append(", ");
        }
        push_expr_into(out, &args[i], ctx_prefix, payload_prefix);
        i += 1;
        proof {
            let t = args@.take(i as int);
            if i == 1 {
                assert(t[0] == args@[0]);
            }
        }
        assert(out@ =~= start + spec_args(args@.take(i as int), ctx_prefix@, payload_prefix@));
    }
    assert(args@.take(i as int) =~= args@);
}

/// Emit an action-block expression.
pub fn emit_expr(e: &Expr, ctx_prefix: &str, payload_prefix: &str) -> (r: String)
    ensures
        r@ == spec_expr(*e, ctx_prefix@, payload_prefix@),
{
    let mut s = String::new();
    push_expr_into(&mut s, e, ctx_prefix, payload_prefix);
    assert(s@ =~= spec_expr(*e, ctx_prefix@, payload_prefix@));
    s
}

pub open spec fn spec_guard_operand(o: GuardOperand, ctx: Seq<char>, pl: Seq<char>) -> Seq<char> {
    match o {
        GuardOperand::Literal(l) => spec_literal(l),
        GuardOperand::FieldRef(f) => spec_field_ref(f, ctx, pl),
    }
}

/// C text of a guard: a parenthesised boolean expression.
pub open spec fn spec_guard(g: GuardExpr, ctx: Seq<char>, pl: Seq<char>) -> Seq<char>
    decreases g,
{
    match g {
        GuardExpr::FieldCmp { lhs, op, rhs } => "("@ + spec_field_ref(lhs, ctx, pl) + " "@ + spec_cmp_op(op)
            + " "@ + spec_guard_operand(rhs, ctx, pl) + ")"@,
        GuardExpr::ExternCall { callee, args } => callee@ + "("@ + spec_args(args@, ctx, pl) + ")"@,
        GuardExpr::Not { operand } => "(!"@ + spec_guard(*operand, ctx, pl) + ")"@,
        GuardExpr::And { left, right } => "("@ + spec_guard(*left, ctx, pl) + " && "@ + spec_guard(
            *right,
            ctx,
            pl,
        ) + ")"@,
        GuardExpr::Or { left, right } => "("@ + spec_guard(*left, ctx, pl) + " || "@ + spec_guard(
            *right,
            ctx,
            pl,
        ) + ")"@,
        GuardExpr::Else => "1 /* [else] */"@,
    }
}

pub(crate) fn push_guard_into(out: &mut String, g: &GuardExpr, ctx_prefix: &str, payload_prefix: &str)
    ensures
        final(out)@ == old(out)@ + spec_guard(*g, ctx_prefix@, payload_prefix@),
    decreases g,
{
    match g {
        GuardExpr::FieldCmp { lhs, op, rhs } => {
            out.append("(");
            push_field_ref_into(out, lhs, ctx_prefix, payload_prefix);
            out.append(" ");
            out.append(emit_cmp_op(*op));
            out.append(" ");
            match rhs {
                GuardOperand::Literal(l) => push_literal_into(out, l),
                GuardOperand::FieldRef(f) => push_field_ref_into(out, f, ctx_prefix, payload_prefix),
            }
            out.append(")");
        },
        GuardExpr::ExternCall { callee, args } => {
            out.append(callee.as_str());
            out.append("(");
            push_args_into(out, args, ctx_prefix, payload_prefix);
            out.append(")");
        },
        GuardExpr::Not { operand } => {
            out.append("(!");
            push_guard_into(out, operand, ctx_prefix, payload_prefix);
            out.append(")");
        },
        GuardExpr::And { left, right } => {
            out.append("(");
            push_guard_into(out, left, ctx_prefix, payload_prefix);
            out.append(" && ");
            push_guard_into(out, right, ctx_prefix, payload_prefix);
            out.append(")");
        },
        GuardExpr::Or { left, right } => {
            out.append("(");
            push_guard_into(out, left, ctx_prefix, payload_prefix);
            out.append(" || ");
            push_guard_into(out, right, ctx_prefix, payload_prefix);
            out.append(")");
        },
        GuardExpr::Else => {
            out.append("1 /* [else] */");
        },
    }
    assert(final(out)@ =~= old(out)@ + spec_guard(*g, ctx_prefix@, payload_prefix@));
}

/// Emit a guard expression as a parenthesised C boolean expression.
/// `ctx_prefix` and `payload_prefix` root `ctx.x` and `payload.x`.
pub fn emit_guard(g: &GuardExpr, ctx_prefix: &str, payload_prefix: &str) -> (r: String)
    ensures
        r@ == spec_guard(*g, ctx_prefix@, payload_prefix@),
{
    let mut s = String::new();
    push_guard_into(&mut s, g, ctx_prefix, payload_prefix);
    assert(s@ =~= spec_guard(*g, ctx_prefix@, payload_prefix@));
    s
}


/// What the comparison `op` of a guard asks of its two operands.
pub open spec fn cmp_holds(op: CmpOp, a: int, b: int) -> bool {
    match op {
        CmpOp::Eq => a == b,
        CmpOp::NotEq => a != b,
        CmpOp::Lt => a < b,
        CmpOp::Gt => a > b,
        CmpOp::LtEq => a <= b,
        CmpOp::GtEq => a >= b,
    }
}

/// What a C relational or equality operator, written as text, computes on
/// two integers (nothing for any other text).
pub open spec fn c_relation(op: Seq<char>, a: int, b: int) -> Option<bool> {
    if op == "=="@ {
        Some(a == b)
    } else if op == "!="@ {
        Some(a != b)
    } else if op == "<"@ {
        Some(a < b)
    } else if op == ">"@ {
        Some(a > b)
    } else if op == "<="@ {
        Some(a <= b)
    } else if op == ">="@ {
        Some(a >= b)
    } else {
        None
    }
}

/// The binary operator of the same name as a guard comparison.
pub open spec fn cmp_as_binary(op: CmpOp) -> BinaryOp {
    match op {
        CmpOp::Eq => BinaryOp::Eq,
        CmpOp::NotEq => BinaryOp::NotEq,
        CmpOp::Lt => BinaryOp::Lt,
        CmpOp::Gt => BinaryOp::Gt,
        CmpOp::LtEq => BinaryOp::LtEq,
        CmpOp::GtEq => BinaryOp::GtEq,
    }
}

/// A guard comparison renders as the C operator that computes the same
/// relation on every pair of operands, the same text as the binary
/// operator of the same name; the rendered guard puts it between the two
/// operands.
pub proof fn law_guard_comparison_means_its_op(op: CmpOp, a: int, b: int, lhs: FieldRef, rhs: GuardOperand, ctx: Seq<char>, pl: Seq<char>)
    ensures
        c_relation(spec_cmp_op(op), a, b) == Some(cmp_holds(op, a, b)),
        spec_cmp_op(op) == spec_binary_op(cmp_as_binary(op)),
        spec_guard(GuardExpr::FieldCmp { lhs, op, rhs }, ctx, pl) == "("@ + spec_field_ref(lhs, ctx, pl) + " "@
            + spec_cmp_op(op) + " "@ + spec_guard_operand(rhs, ctx, pl) + ")"@,
{
    reveal_strlit("==");
    reveal_strlit("!=");
    reveal_strlit("<");
    reveal_strlit(">");
    reveal_strlit("<=");
    reveal_strlit(">=");
    assert("=="@[0] == '=' && "!="@[0] == '!' && "<="@[0] == '<' && ">="@[0] == '>');
    assert("<"@[0] == '<' && ">"@[0] == '>');
    assert("=="@.len() == 2 && "!="@.len() == 2 && "<="@.len() == 2 && ">="@.len() == 2);
    assert("<"@.len() == 1 && ">"@.len() == 1);
    match op {
        CmpOp::Eq => assert(c_relation("=="@, a, b) == Some(a == b)),
        CmpOp::NotEq => assert(c_relation("!="@, a, b) == Some(a != b)),
        CmpOp::Lt => assert(c_relation("<"@, a, b) == Some(a < b)),
        CmpOp::Gt => assert(c_relation(">"@, a, b) == Some(a > b)),
        CmpOp::LtEq => assert(c_relation("<="@, a, b) == Some(a <= b)),
        CmpOp::GtEq => assert(c_relation(">="@, a, b) == Some(a >= b)),
    }
}


/// What a binary operator of the action language computes on two
/// unsigned 32-bit operands (booleans are 0 and 1).
pub open spec fn binary_value(op: BinaryOp, a: u32, b: u32) -> int {
    match op {
        BinaryOp::Add => (a + b) as int,
        BinaryOp::Sub => (a - b) as int,
        BinaryOp::Mul => (a * b) as int,
        BinaryOp::Div => (a / b) as int,
        BinaryOp::Mod => (a % b) as int,
        BinaryOp::BitAnd => (a & b) as int,
        BinaryOp::BitOr => (a | b) as int,
        BinaryOp::BitXor => (a ^ b) as int,
        BinaryOp::Shl => (a << b) as int,
        BinaryOp::Shr => (a >> b) as int,
        BinaryOp::LogAnd => (if a != 0 && b != 0 { 1int } else { 0int }) as int,
        BinaryOp::LogOr => (if a != 0 || b != 0 { 1int } else { 0int }) as int,
        BinaryOp::Eq => (if a == b { 1int } else { 0int }) as int,
        BinaryOp::NotEq => (if a != b { 1int } else { 0int }) as int,
        BinaryOp::Lt => (if a < b { 1int } else { 0int }) as int,
        BinaryOp::Gt => (if a > b { 1int } else { 0int }) as int,
        BinaryOp::LtEq => (if a <= b { 1int } else { 0int }) as int,
        BinaryOp::GtEq => (if a >= b { 1int } else { 0int }) as int,
    }
}

/// What a C binary operator, written as text, computes on two unsigned
/// 32-bit operands (nothing for any other text).
pub open spec fn c_binary_value(op: Seq<char>, a: u32, b: u32) -> Option<int> {
    if op == "+"@ {
        Some((a + b) as int)
    } else if op == "-"@ {
        Some((a - b) as int)
    } else if op == "*"@ {
        Some((a * b) as int)
    } else if op == "/"@ {
        Some((a / b) as int)
    } else if op == "%"@ {
        Some((a % b) as int)
    } else if op == "&"@ {
        Some((a & b) as int)
    } else if op == "|"@ {
        Some((a | b) as int)
    } else if op == "^"@ {
        Some((a ^ b) as int)
    } else if op == "<<"@ {
        Some((a << b) as int)
    } else if op == ">>"@ {
        Some((a >> b) as int)
    } else if op == "&&"@ {
        Some((if a != 0 && b != 0 { 1int } else { 0int }) as int)
    } else if op == "||"@ {
        Some((if a != 0 || b != 0 { 1int } else { 0int }) as int)
    } else if op == "=="@ {
        Some((if a == b { 1int } else { 0int }) as int)
    } else if op == "!="@ {
        Some((if a != b { 1int } else { 0int }) as int)
    } else if op == "<"@ {
        Some((if a < b { 1int } else { 0int }) as int)
    } else if op == ">"@ {
        Some((if a > b { 1int } else { 0int }) as int)
    } else if op == "<="@ {
        Some((if a <= b { 1int } else { 0int }) as int)
    } else if op == ">="@ {
        Some((if a >= b { 1int } else { 0int }) as int)
    } else {
        None
    }
}

/// What a unary operator of the action language computes on an integer
/// (booleans are 0 and 1).
pub open spec fn unary_value(op: UnaryOp, a: int) -> int {
    match op {
        UnaryOp::Not => if a == 0 { 1 } else { 0 },
        UnaryOp::Neg => -a,
        UnaryOp::BitNot => -a - 1,
    }
}

/// What a C unary operator, written as text, computes on an integer.
pub open spec fn c_unary_value(op: Seq<char>, a: int) -> Option<int> {
    if op == "!"@ {
        Some(if a == 0 { 1 } else { 0 })
    } else if op == "-"@ {
        Some(-a)
    } else if op == "~"@ {
        Some(-a - 1)
    } else {
        None
    }
}

/// Every operator of the action language renders as the C operator that
/// computes the same value on all operands; a lowered binary or unary
/// expression applies that operator to the lowered operands, and the
/// guard connectives are the C logical operators.
pub proof fn law_operators_mean_their_c_operators(
    bop: BinaryOp,
    uop: UnaryOp,
    a: u32,
    b: u32,
    x: int,
    left: Expr,
    right: Expr,
    gl: GuardExpr,
    gr: GuardExpr,
    ctx: Seq<char>,
    pl: Seq<char>,
)
    ensures
        c_binary_value(spec_binary_op(bop), a, b) == Some(binary_value(bop, a, b)),
        c_unary_value(spec_unary_op(uop), x) == Some(unary_value(uop, x)),
        spec_expr(Expr::Binary { op: bop, left: Box::new(left), right: Box::new(right) }, ctx, pl) == "("@
            + spec_expr(left, ctx, pl) + " "@ + spec_binary_op(bop) + " "@ + spec_expr(right, ctx, pl) + ")"@,
        spec_expr(Expr::Unary { op: uop, operand: Box::new(left) }, ctx, pl) == "("@ + spec_unary_op(uop)
            + spec_expr(left, ctx, pl) + ")"@,
        spec_guard(GuardExpr::And { left: Box::new(gl), right: Box::new(gr) }, ctx, pl) == "("@ + spec_guard(gl, ctx, pl)
            + " "@ + spec_binary_op(BinaryOp::LogAnd) + " "@ + spec_guard(gr, ctx, pl) + ")"@,
        spec_guard(GuardExpr::Or { left: Box::new(gl), right: Box::new(gr) }, ctx, pl) == "("@ + spec_guard(gl, ctx, pl)
            + " "@ + spec_binary_op(BinaryOp::LogOr) + " "@ + spec_guard(gr, ctx, pl) + ")"@,
        spec_guard(GuardExpr::Not { operand: Box::new(gl) }, ctx, pl) == "("@ + spec_unary_op(UnaryOp::Not)
            + spec_guard(gl, ctx, pl) + ")"@,
{
    reveal_strlit(" ");
    reveal_strlit(" && ");
    reveal_strlit(" || ");
    reveal_strlit("!");
    reveal_strlit("!=");
    reveal_strlit("%");
    reveal_strlit("&");
    reveal_strlit("&&");
    reveal_strlit("(");
    reveal_strlit("(!");
    reveal_strlit("*");
    reveal_strlit("+");
    reveal_strlit("-");
    reveal_strlit("/");
    reveal_strlit("<");
    reveal_strlit("<<");
    reveal_strlit("<=");
    reveal_strlit("==");
    reveal_strlit(">");
    reveal_strlit(">=");
    reveal_strlit(">>");
    reveal_strlit("^");
    reveal_strlit("|");
    reveal_strlit("||");
    reveal_strlit("~");
    assert("+"@.len() == 1 && "+"@[0] == '+');
    assert("-"@.len() == 1 && "-"@[0] == '-');
    assert("*"@.len() == 1 && "*"@[0] == '*');
    assert("/"@.len() == 1 && "/"@[0] == '/');
    assert("%"@.len() == 1 && "%"@[0] == '%');
    assert("&"@.len() == 1 && "&"@[0] == '&');
    assert("|"@.len() == 1 && "|"@[0] == '|');
    assert("^"@.len() == 1 && "^"@[0] == '^');
    assert("<<"@.len() == 2 && "<<"@[0] == '<' && "<<"@[1] == '<');
    assert(">>"@.len() == 2 && ">>"@[0] == '>' && ">>"@[1] == '>');
    assert("&&"@.len() == 2 && "&&"@[0] == '&' && "&&"@[1] == '&');
    assert("||"@.len() == 2 && "||"@[0] == '|' && "||"@[1] == '|');
    assert("=="@.len() == 2 && "=="@[0] == '=' && "=="@[1] == '=');
    assert("!="@.len() == 2 && "!="@[0] == '!' && "!="@[1] == '=');
    assert("<"@.len() == 1 && "<"@[0] == '<');
    assert(">"@.len() == 1 && ">"@[0] == '>');
    assert("<="@.len() == 2 && "<="@[0] == '<' && "<="@[1] == '=');
    assert(">="@.len() == 2 && ">="@[0] == '>' && ">="@[1] == '=');
    assert("!"@.len() == 1 && "!"@[0] == '!' && "~"@.len() == 1 && "~"@[0] == '~');
    assert(" && "@ =~= " "@ + "&&"@ + " "@);
    assert(" || "@ =~= " "@ + "||"@ + " "@);
    assert("(!"@ =~= "("@ + "!"@);
    match bop {
        BinaryOp::Add => assert(c_binary_value("+"@, a, b) == Some(binary_value(bop, a, b))),
        BinaryOp::Sub => assert(c_binary_value("-"@, a, b) == Some(binary_value(bop, a, b))),
        BinaryOp::Mul => assert(c_binary_value("*"@, a, b) == Some(binary_value(bop, a, b))),
        BinaryOp::Div => assert(c_binary_value("/"@, a, b) == Some(binary_value(bop, a, b))),
        BinaryOp::Mod => assert(c_binary_value("%"@, a, b) == Some(binary_value(bop, a, b))),
        BinaryOp::BitAnd => assert(c_binary_value("&"@, a, b) == Some(binary_value(bop, a, b))),
        BinaryOp::BitOr => assert(c_binary_value("|"@, a, b) == Some(binary_value(bop, a, b))),
        BinaryOp::BitXor => assert(c_binary_value("^"@, a, b) == Some(binary_value(bop, a, b))),
        BinaryOp::Shl => assert(c_binary_value("<<"@, a, b) == Some(binary_value(bop, a, b))),
        BinaryOp::Shr => assert(c_binary_value(">>"@, a, b) == Some(binary_value(bop, a, b))),
        BinaryOp::LogAnd => assert(c_binary_value("&&"@, a, b) == Some(binary_value(bop, a, b))),
        BinaryOp::LogOr => assert(c_binary_value("||"@, a, b) == Some(binary_value(bop, a, b))),
        BinaryOp::Eq => assert(c_binary_value("=="@, a, b) == Some(binary_value(bop, a, b))),
        BinaryOp::NotEq => assert(c_binary_value("!="@, a, b) == Some(binary_value(bop, a, b))),
        BinaryOp::Lt => assert(c_binary_value("<"@, a, b) == Some(binary_value(bop, a, b))),
        BinaryOp::Gt => assert(c_binary_value(">"@, a, b) == Some(binary_value(bop, a, b))),
        BinaryOp::LtEq => assert(c_binary_value("<="@, a, b) == Some(binary_value(bop, a, b))),
        BinaryOp::GtEq => assert(c_binary_value(">="@, a, b) == Some(binary_value(bop, a, b))),
    }
    match uop {
        UnaryOp::Not => assert(c_unary_value("!"@, x) == Some(unary_value(uop, x))),
        UnaryOp::Neg => assert(c_unary_value("-"@, x) == Some(unary_value(uop, x))),
        UnaryOp::BitNot => assert(c_unary_value("~"@, x) == Some(unary_value(uop, x))),
    }
    let (l, r) = (spec_guard(gl, ctx, pl), spec_guard(gr, ctx, pl));
    assert(spec_guard(GuardExpr::And { left: Box::new(gl), right: Box::new(gr) }, ctx, pl) =~= "("@ + l + " "@ + "&&"@ + " "@ + r + ")"@);
    assert(spec_guard(GuardExpr::Or { left: Box::new(gl), right: Box::new(gr) }, ctx, pl) =~= "("@ + l + " "@ + "||"@ + " "@ + r + ")"@);
    assert(spec_guard(GuardExpr::Not { operand: Box::new(gl) }, ctx, pl) =~= "("@ + "!"@ + l + ")"@);
}

} // verus!
