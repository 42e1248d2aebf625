use fsm_codegen_c::expr::{emit_expr, emit_field_ref, emit_guard, emit_literal, primitive_to_c, c_type_str};
use fsm_codegen_c::ir::{
    BinaryOp, CmpOp, EnumVariantLit, Expr, FieldRef, GuardExpr, GuardOperand, Literal, Statement, Type,
    UnaryOp,
};
use fsm_codegen_c::stmt::{emit_stmts, StmtContext};

fn ctx_field(name: &str) -> FieldRef {
    FieldRef::Ctx { field: name.into() }
}

fn sctx<'a>() -> StmtContext<'a> {
    StmtContext { machine_prefix: "Motor", ctx_prefix: "m->context", payload_prefix: "ev->__payload" }
}

#[test]
fn primitive_u32_maps_to_uint32_t() {
    assert_eq!(primitive_to_c("u32"), "uint32_t");
}

#[test]
fn primitive_unknown_defaults_to_int() {
    assert_eq!(primitive_to_c("not_a_real_type"), "int");
}

#[test]
fn primitive_table_covers_the_integer_family() {
    assert_eq!(primitive_to_c("u8"), "uint8_t");
    assert_eq!(primitive_to_c("i16"), "int16_t");
    assert_eq!(primitive_to_c("bool"), "bool");
    assert_eq!(c_type_str(&Type::Primitive { name: "u16".into() }), "uint16_t");
}

#[test]
fn int_literal_emits_decimal() {
    assert_eq!(emit_literal(&Literal::Int(42)), "42");
    assert_eq!(emit_literal(&Literal::Int(-7)), "-7");
}

#[test]
fn float_literal_carries_decimal_point() {
    let s = emit_literal(&Literal::Float(format!("{}", 1.0f64)));
    assert!(s.contains('.'), "got: {s}");
    assert_eq!(s, "1.0");
    assert_eq!(emit_literal(&Literal::Float(format!("{}", 2.5f64))), "2.5");
}

#[test]
fn field_ref_uses_ctx_prefix() {
    assert_eq!(emit_field_ref(&ctx_field("speed"), "m->context", "ev->__payload"), "m->context.speed");
    assert_eq!(
        emit_field_ref(&FieldRef::Payload { field: "rpm".into() }, "m->context", "ev->__payload"),
        "ev->__payload.rpm"
    );
}

#[test]
fn guard_field_cmp_lowers_to_parenthesised_expr() {
    let g = GuardExpr::FieldCmp {
        lhs: ctx_field("speed"),
        op: CmpOp::Gt,
        rhs: GuardOperand::Literal(Literal::Int(100)),
    };
    assert_eq!(emit_guard(&g, "m->context", "ev->__payload"), "(m->context.speed > 100)");
}

#[test]
fn cast_renders_c_cast() {
    let c = Expr::Cast {
        operand: Box::new(Expr::Literal(Literal::Int(7))),
        target_type: Type::Primitive { name: "u8".into() },
    };
    assert_eq!(emit_expr(&c, "m->context", "ev->p"), "((uint8_t)7)");
}

#[test]
fn string_literal_escapes_quotes() {
    let s = emit_literal(&Literal::Str(r#"hello "world""#.to_owned()));
    assert!(s.contains(r#"\""#), "got: {s}");
}

#[test]
fn enum_variant_renders_uppercased() {
    let l = Literal::EnumVariant(EnumVariantLit { enum_name: "PacketType".into(), variant_name: "HEARTBEAT".into() });
    assert_eq!(emit_literal(&l), "PACKETTYPE_HEARTBEAT");
}

#[test]
fn binary_and_unary_expressions_are_parenthesised() {
    let e = Expr::Binary {
        op: BinaryOp::Add,
        left: Box::new(Expr::FieldRef { field_ref: ctx_field("a") }),
        right: Box::new(Expr::Unary { op: UnaryOp::Neg, operand: Box::new(Expr::Literal(Literal::Int(1))) }),
    };
    let s = emit_expr(&e, "m->context", "ev->p");
    assert!(s.contains("m->context.a"), "got: {s}");
    assert!(s.contains('+'), "got: {s}");
    assert!(s.starts_with('('), "got: {s}");
}

#[test]
fn assignment_lowers_to_c_assign() {
    let s = Statement::Assign { target: ctx_field("speed"), value: Expr::Literal(Literal::Int(1500)) };
    let out = emit_stmts(&[s], &sctx(), 4);
    assert!(out.contains("m->context.speed = 1500;"), "got: {out}");
    assert_eq!(out, "    m->context.speed = 1500;\n");
}

#[test]
fn if_block_renders_with_braces() {
    let s = Statement::If {
        condition: Expr::Literal(Literal::Bool(true)),
        then: vec![Statement::Call { callee: "Motor_buzz".into(), args: vec![] }],
        else_: vec![],
    };
    let out = emit_stmts(&[s], &sctx(), 4);
    assert!(out.contains("if (true)"), "got: {out}");
    assert!(out.contains("Motor_buzz();"), "got: {out}");
    assert_eq!(out, "    if (true) {\n        Motor_buzz();\n    }\n");
}

#[test]
fn if_else_block_renders_both_arms() {
    let s = Statement::If {
        condition: Expr::Literal(Literal::Bool(false)),
        then: vec![Statement::Call { callee: "a".into(), args: vec![] }],
        else_: vec![Statement::Call { callee: "b".into(), args: vec![] }],
    };
    let out = emit_stmts(&[s], &sctx(), 0);
    assert_eq!(out, "if (false) {\n    a();\n} else {\n    b();\n}\n");
}

#[test]
fn raise_routes_through_machine_helper() {
    let s = Statement::Raise { event_id: "MOTOR_EVENT_FAULT".into(), args: vec![] };
    let out = emit_stmts(&[s], &sctx(), 4);
    assert!(out.contains("Motor_raise(m,"), "got: {out}");
    assert!(out.contains("MOTOR_EVENT_FAULT"), "got: {out}");
}

#[test]
fn defer_and_send_route_through_machine_helpers() {
    let d = Statement::Defer { event_id: "E".into() };
    assert_eq!(emit_stmts(&[d], &sctx(), 2), "  Motor_defer(m, /* event */ E);\n");
    let s = Statement::Send { event_id: "E".into(), args: vec![], machine_id: "pump".into() };
    assert_eq!(emit_stmts(&[s], &sctx(), 0), "Motor_send_to(pump, /* event */ E);\n");
}
