//! End-to-end and unit tests for the interpreter, run with a native
//! floating-point host.

use shader_interp::binary::binary_values;
use shader_interp::error::{Error, NodeKind, TypeMismatchKind};
use shader_interp::host::{HostReq, HostResp};
use shader_interp::interpreter::{bind_arguments, parse_arg_value, type_text, Interpreter};
use shader_interp::ir::{
    module_wf_check, Argument, BinOp, EntryPoint, Expr, Function, Literal, Module, ScalarKind,
    ShaderStage, Stmt, TypeDesc, VectorSize,
};
use shader_interp::scope::Scope;
use shader_interp::value::{PodKind, PodValue, Value};

/// A host backed by the machine's native floats.
fn host(req: HostReq) -> HostResp {
    match req {
        HostReq::Bin { op, width, a, b } => {
            let bits = if width == 4 {
                let x = f32::from_bits(a as u32);
                let y = f32::from_bits(b as u32);
                let r = match op {
                    BinOp::Add => x + y,
                    BinOp::Subtract => x - y,
                    BinOp::Multiply => x * y,
                    BinOp::Divide => x / y,
                    BinOp::Modulo => x % y,
                    _ => f32::NAN,
                };
                r.to_bits() as u64
            } else {
                let x = f64::from_bits(a);
                let y = f64::from_bits(b);
                let r = match op {
                    BinOp::Add => x + y,
                    BinOp::Subtract => x - y,
                    BinOp::Multiply => x * y,
                    BinOp::Divide => x / y,
                    BinOp::Modulo => x % y,
                    _ => f64::NAN,
                };
                r.to_bits()
            };
            HostResp::Bits(bits)
        }
        HostReq::Render { width, bits } => HostResp::Text(if width == 4 {
            format!("{}", f32::from_bits(bits as u32))
        } else {
            format!("{}", f64::from_bits(bits))
        }),
        HostReq::Parse { width, text } => HostResp::Parsed(if width == 4 {
            text.trim().parse::<f32>().ok().map(|v| v.to_bits() as u64)
        } else {
            text.trim().parse::<f64>().ok().map(|v| v.to_bits())
        }),
    }
}

fn sint4() -> TypeDesc {
    TypeDesc::Scalar { kind: ScalarKind::Sint, width: 4 }
}

fn uint4() -> TypeDesc {
    TypeDesc::Scalar { kind: ScalarKind::Uint, width: 4 }
}

fn float4() -> TypeDesc {
    TypeDesc::Scalar { kind: ScalarKind::Float, width: 4 }
}

fn float8() -> TypeDesc {
    TypeDesc::Scalar { kind: ScalarKind::Float, width: 8 }
}

fn bool1() -> TypeDesc {
    TypeDesc::Scalar { kind: ScalarKind::Bool, width: 1 }
}

fn get_i32(v: &Value) -> i32 {
    match v.try_get(PodKind::I32).unwrap() {
        PodValue::I32(x) => x,
        other => panic!("expected an i32, got {:?}", other),
    }
}

fn get_u32(v: &Value) -> u32 {
    match v.try_get(PodKind::U32).unwrap() {
        PodValue::U32(x) => x,
        other => panic!("expected a u32, got {:?}", other),
    }
}

fn lane_f32(v: &Value, lane: usize) -> f32 {
    match v.try_get_offset(PodKind::F32, lane * 4).unwrap() {
        PodValue::F32Bits(b) => f32::from_bits(b),
        other => panic!("expected float bits, got {:?}", other),
    }
}

fn lane_u32(v: &Value, lane: usize) -> u32 {
    match v.try_get_offset(PodKind::U32, lane * 4).unwrap() {
        PodValue::U32(x) => x,
        other => panic!("expected a u32 lane, got {:?}", other),
    }
}

#[test]
fn render_round_trips_i32() {
    let v = Value::from_pod(sint4(), PodValue::I32(-7));
    assert_eq!(v.try_display(&host).unwrap(), "-7");
    let v = Value::from_pod(sint4(), PodValue::I32(i32::MIN));
    assert_eq!(v.try_display(&host).unwrap(), "-2147483648");
}

#[test]
fn render_round_trips_u32() {
    let v = Value::from_pod(uint4(), PodValue::U32(42));
    assert_eq!(v.try_display(&host).unwrap(), "42");
    let v = Value::from_pod(uint4(), PodValue::U32(0));
    assert_eq!(v.try_display(&host).unwrap(), "0");
}

#[test]
fn render_round_trips_bool() {
    let v = Value::from_pod(bool1(), PodValue::U8(1));
    assert_eq!(v.try_display(&host).unwrap(), "1");
    let v = Value::from_pod(bool1(), PodValue::U8(0));
    assert_eq!(v.try_display(&host).unwrap(), "0");
}

#[test]
fn render_round_trips_f32() {
    let v = Value::from_pod(float4(), PodValue::F32Bits(2.5f32.to_bits()));
    assert_eq!(v.try_display(&host).unwrap(), "2.5");
}

#[test]
fn render_round_trips_f64() {
    let v = Value::from_pod(float8(), PodValue::F64Bits((-0.25f64).to_bits()));
    assert_eq!(v.try_display(&host).unwrap(), "-0.25");
}

#[test]
fn render_vector() {
    let mut data = Vec::new();
    data.extend_from_slice(&3i32.to_le_bytes());
    data.extend_from_slice(&(-4i32).to_le_bytes());
    let v = Value::from_data(
        TypeDesc::Vector { size: VectorSize::Bi, kind: ScalarKind::Sint, width: 4 },
        data,
    );
    assert_eq!(v.try_display(&host).unwrap(), "[3, -4]");
}

/// Runs one expression of a function under the given bindings.
fn eval_with_scope(func: &Function, bindings: Vec<(String, Value)>, expr: usize) -> Result<Value, Error> {
    let mut interp = Interpreter::new(ShaderStage::Vertex, 0);
    interp.push_scope(bindings);
    interp.expression(func, &host, expr)
}

fn lit_fn(lits: Vec<Literal>, tail: Vec<Expr>) -> Function {
    let mut expressions: Vec<Expr> = lits.into_iter().map(Expr::Literal).collect();
    expressions.extend(tail);
    Function { arguments: vec![], expressions, body: vec![] }
}

#[test]
fn compose_preserves_lanes_vec2() {
    let func = lit_fn(
        vec![Literal::U32(11), Literal::U32(22)],
        vec![Expr::Compose {
            ty: TypeDesc::Vector { size: VectorSize::Bi, kind: ScalarKind::Uint, width: 4 },
            components: vec![0, 1],
        }],
    );
    let v = eval_with_scope(&func, vec![], 2).unwrap();
    assert_eq!(lane_u32(&v, 0), 11);
    assert_eq!(lane_u32(&v, 1), 22);
}

#[test]
fn compose_preserves_lanes_vec3() {
    let func = lit_fn(
        vec![Literal::U32(5), Literal::U32(6), Literal::U32(7)],
        vec![Expr::Compose {
            ty: TypeDesc::Vector { size: VectorSize::Tri, kind: ScalarKind::Uint, width: 4 },
            components: vec![0, 1, 2],
        }],
    );
    let v = eval_with_scope(&func, vec![], 3).unwrap();
    assert_eq!(lane_u32(&v, 0), 5);
    assert_eq!(lane_u32(&v, 1), 6);
    assert_eq!(lane_u32(&v, 2), 7);
}

#[test]
fn compose_preserves_lanes_vec4() {
    let func = lit_fn(
        vec![
            Literal::F32Bits(1.0f32.to_bits()),
            Literal::F32Bits(2.0f32.to_bits()),
            Literal::F32Bits(3.0f32.to_bits()),
            Literal::F32Bits(4.0f32.to_bits()),
        ],
        vec![Expr::Compose {
            ty: TypeDesc::Vector { size: VectorSize::Quad, kind: ScalarKind::Float, width: 4 },
            components: vec![0, 1, 2, 3],
        }],
    );
    let v = eval_with_scope(&func, vec![], 4).unwrap();
    for (i, expect) in [1.0f32, 2.0, 3.0, 4.0].iter().enumerate() {
        assert_eq!(lane_f32(&v, i), *expect);
    }
}

#[test]
fn compose_wrong_fill_fails() {
    let func = lit_fn(
        vec![Literal::U32(1), Literal::U32(2), Literal::U32(3)],
        vec![Expr::Compose {
            ty: TypeDesc::Vector { size: VectorSize::Bi, kind: ScalarKind::Uint, width: 4 },
            components: vec![0, 1, 2],
        }],
    );
    assert_eq!(eval_with_scope(&func, vec![], 3).unwrap_err(), Error::SizeMismatch(12, 8));
}

#[test]
fn binary_add_sint() {
    let l = Value::from_pod(sint4(), PodValue::I32(3));
    let r = Value::from_pod(sint4(), PodValue::I32(4));
    let out = binary_values(&BinOp::Add, &l, &r, &host).unwrap();
    assert_eq!(get_i32(&out), 7);
    assert_eq!(out.ty, sint4());
}

#[test]
fn binary_add_float_vector() {
    let vec3f = TypeDesc::Vector { size: VectorSize::Tri, kind: ScalarKind::Float, width: 4 };
    let mut a = Vec::new();
    let mut b = Vec::new();
    for x in [1.0f32, 2.0, 3.0] {
        a.extend_from_slice(&x.to_bits().to_le_bytes());
    }
    for x in [10.0f32, 0.0, -1.0] {
        b.extend_from_slice(&x.to_bits().to_le_bytes());
    }
    let l = Value::from_data(vec3f, a);
    let r = Value::from_data(vec3f, b);
    let out = binary_values(&BinOp::Add, &l, &r, &host).unwrap();
    assert_eq!(lane_f32(&out, 0), 11.0);
    assert_eq!(lane_f32(&out, 1), 2.0);
    assert_eq!(lane_f32(&out, 2), 2.0);
}

#[test]
fn binary_width_mismatch_is_type_mismatch() {
    // Equal buffer lengths, differing declared widths.
    let l = Value::from_data(float4(), vec![0; 4]);
    let r = Value::from_data(float8(), vec![0; 4]);
    assert_eq!(
        binary_values(&BinOp::Add, &l, &r, &host).unwrap_err(),
        Error::TypeMismatch(TypeMismatchKind::Operands(float4(), float8()))
    );
}

#[test]
fn binary_length_mismatch_is_size_mismatch() {
    let l = Value::from_pod(float4(), PodValue::F32Bits(0));
    let r = Value::from_pod(float8(), PodValue::F64Bits(0));
    assert_eq!(binary_values(&BinOp::Add, &l, &r, &host).unwrap_err(), Error::SizeMismatch(4, 8));
}

#[test]
fn binary_wrapping_and_shifts() {
    let l = Value::from_pod(sint4(), PodValue::I32(i32::MAX));
    let r = Value::from_pod(sint4(), PodValue::I32(1));
    let out = binary_values(&BinOp::Add, &l, &r, &host).unwrap();
    assert_eq!(get_i32(&out), i32::MIN);

    let l = Value::from_pod(uint4(), PodValue::U32(1));
    let r = Value::from_pod(uint4(), PodValue::U32(5));
    let out = binary_values(&BinOp::ShiftLeft, &l, &r, &host).unwrap();
    assert_eq!(get_u32(&out), 32);

    let l = Value::from_pod(sint4(), PodValue::I32(-8));
    let r = Value::from_pod(sint4(), PodValue::I32(1));
    let out = binary_values(&BinOp::ShiftRight, &l, &r, &host).unwrap();
    assert_eq!(get_i32(&out), -4);
}

#[test]
fn binary_division_by_zero_fails() {
    let l = Value::from_pod(sint4(), PodValue::I32(5));
    let r = Value::from_pod(sint4(), PodValue::I32(0));
    assert_eq!(binary_values(&BinOp::Divide, &l, &r, &host).unwrap_err(), Error::DivisionByZero);
    let l = Value::from_pod(sint4(), PodValue::I32(i32::MIN));
    let r = Value::from_pod(sint4(), PodValue::I32(-1));
    assert_eq!(binary_values(&BinOp::Divide, &l, &r, &host).unwrap_err(), Error::DivisionByZero);
}

#[test]
fn binary_unsupported_operator_fails() {
    let l = Value::from_pod(float4(), PodValue::F32Bits(0));
    let r = Value::from_pod(float4(), PodValue::F32Bits(0));
    assert_eq!(
        binary_values(&BinOp::ShiftLeft, &l, &r, &host).unwrap_err(),
        Error::UnsupportedOperator(BinOp::ShiftLeft)
    );
    let l = Value::from_pod(sint4(), PodValue::I32(1));
    let r = Value::from_pod(sint4(), PodValue::I32(1));
    assert_eq!(
        binary_values(&BinOp::Equal, &l, &r, &host).unwrap_err(),
        Error::UnsupportedOperator(BinOp::Equal)
    );
}

#[test]
fn binary_bool_equality() {
    let l = Value::from_pod(bool1(), PodValue::U8(1));
    let r = Value::from_pod(bool1(), PodValue::U8(0));
    let out = binary_values(&BinOp::Equal, &l, &r, &host).unwrap();
    assert_eq!(out.data, vec![0u8]);
    let out = binary_values(&BinOp::NotEqual, &l, &r, &host).unwrap();
    assert_eq!(out.data, vec![1u8]);
    let out = binary_values(&BinOp::InclusiveOr, &l, &r, &host).unwrap();
    assert_eq!(out.data, vec![1u8]);
}

#[test]
fn binary_unsupported_width_fails() {
    let two = TypeDesc::Scalar { kind: ScalarKind::Sint, width: 2 };
    let l = Value::from_data(two, vec![0, 0]);
    let r = Value::from_data(two, vec![0, 0]);
    assert_eq!(
        binary_values(&BinOp::Add, &l, &r, &host).unwrap_err(),
        Error::Unimplemented(NodeKind::Shape)
    );
}

#[test]
fn binary_f64_scalar() {
    let l = Value::from_pod(float8(), PodValue::F64Bits(1.5f64.to_bits()));
    let r = Value::from_pod(float8(), PodValue::F64Bits(0.25f64.to_bits()));
    let out = binary_values(&BinOp::Multiply, &l, &r, &host).unwrap();
    match out.try_get(PodKind::F64).unwrap() {
        PodValue::F64Bits(b) => assert_eq!(f64::from_bits(b), 0.375),
        other => panic!("expected f64 bits, got {:?}", other),
    }
}

#[test]
fn scope_shadowing() {
    let mut interp = Interpreter::new(ShaderStage::Vertex, 0);
    interp.push_scope(vec![
        ("x".to_owned(), Value::from_pod(sint4(), PodValue::I32(1))),
        ("y".to_owned(), Value::from_pod(sint4(), PodValue::I32(2))),
    ]);
    interp.push_scope(vec![("x".to_owned(), Value::from_pod(sint4(), PodValue::I32(5)))]);
    let inner = interp.current_scope().unwrap();
    assert_eq!(get_i32(&inner.lookup(&"x".to_owned()).unwrap()), 5);
    assert_eq!(get_i32(&inner.lookup(&"y".to_owned()).unwrap()), 2);
    interp.pop_scope().unwrap();
    let outer = interp.current_scope().unwrap();
    assert_eq!(get_i32(&outer.lookup(&"x".to_owned()).unwrap()), 1);
    assert!(outer.lookup(&"z".to_owned()).is_none());
}

#[test]
fn scope_display() {
    let mut scope = Scope::new();
    scope.set_binding("x".to_owned(), Value::from_pod(sint4(), PodValue::I32(5)));
    assert_eq!(scope.try_display(2, &host).unwrap(), "  x: 5\n");
}

#[test]
fn value_writes() {
    let mut v = Value::from_pod(sint4(), PodValue::I32(1));
    v.try_get_mut(PodValue::I32(-9)).unwrap();
    assert_eq!(get_i32(&v), -9);
    assert_eq!(
        v.try_get_mut(PodValue::F64Bits(0)).unwrap_err(),
        Error::TypeMismatch(TypeMismatchKind::Buffer { len: 4, size: 8 })
    );

    let vec2u = TypeDesc::Vector { size: VectorSize::Bi, kind: ScalarKind::Uint, width: 4 };
    let mut v = Value::from_data(vec2u, vec![0; 8]);
    v.try_get_offset_mut(4, PodValue::U32(77)).unwrap();
    assert_eq!(lane_u32(&v, 0), 0);
    assert_eq!(lane_u32(&v, 1), 77);
    assert_eq!(v.try_get_offset_mut(8, PodValue::U32(1)).unwrap_err(), Error::OutOfRange);
    assert_eq!(v.try_get_offset(PodKind::U32, 8).unwrap_err(), Error::OutOfRange);
}

fn one_arg_func(name: Option<&str>, ty: TypeDesc) -> Function {
    Function {
        arguments: vec![Argument { name: name.map(|n| n.to_owned()), ty }],
        expressions: vec![],
        body: vec![],
    }
}

#[test]
fn bind_scalar_argument() {
    let func = one_arg_func(Some("n"), sint4());
    let bound = bind_arguments(&func, &vec!["42".to_owned()], &host).unwrap();
    assert_eq!(bound.len(), 1);
    assert_eq!(bound[0].0, "n");
    assert_eq!(get_i32(&bound[0].1), 42);
}

#[test]
fn bind_argument_parse_failure() {
    let func = one_arg_func(Some("n"), sint4());
    assert_eq!(
        bind_arguments(&func, &vec!["abc".to_owned()], &host).unwrap_err(),
        Error::ArgumentParseFailure
    );
}

#[test]
fn bind_vector_argument_wrong_lane_count() {
    let vec3i = TypeDesc::Vector { size: VectorSize::Tri, kind: ScalarKind::Sint, width: 4 };
    let func = one_arg_func(Some("v"), vec3i);
    assert_eq!(
        bind_arguments(&func, &vec!["42,1".to_owned()], &host).unwrap_err(),
        Error::ArgumentSizeMismatch(2, 3)
    );
}

#[test]
fn bind_vector_argument() {
    let vec3i = TypeDesc::Vector { size: VectorSize::Tri, kind: ScalarKind::Sint, width: 4 };
    let func = one_arg_func(Some("v"), vec3i);
    let bound = bind_arguments(&func, &vec![" 1, -2, 3 ".to_owned()], &host).unwrap();
    let v = &bound[0].1;
    assert_eq!(v.data.len(), 12);
    for (i, expect) in [1i32, -2, 3].iter().enumerate() {
        match v.try_get_offset(PodKind::I32, i * 4).unwrap() {
            PodValue::I32(x) => assert_eq!(x, *expect),
            other => panic!("expected an i32 lane, got {:?}", other),
        }
    }
}

#[test]
fn bind_float_argument() {
    let func = one_arg_func(Some("f"), float4());
    let bound = bind_arguments(&func, &vec!["2.5".to_owned()], &host).unwrap();
    match bound[0].1.try_get(PodKind::F32).unwrap() {
        PodValue::F32Bits(b) => assert_eq!(f32::from_bits(b), 2.5),
        other => panic!("expected float bits, got {:?}", other),
    }
}

#[test]
fn bind_unnamed_argument_fails() {
    let func = one_arg_func(None, sint4());
    assert_eq!(
        bind_arguments(&func, &vec!["1".to_owned()], &host).unwrap_err(),
        Error::UnnamedArgument
    );
}

#[test]
fn bind_missing_line_fails() {
    let func = one_arg_func(Some("n"), sint4());
    assert_eq!(bind_arguments(&func, &vec![], &host).unwrap_err(), Error::ArgumentParseFailure);
}

#[test]
fn parse_bool_argument() {
    let v = parse_arg_value(&host, &bool1(), "true").unwrap();
    assert_eq!(v.data, vec![1u8]);
    let v = parse_arg_value(&host, &bool1(), " false ").unwrap();
    assert_eq!(v.data, vec![0u8]);
    assert_eq!(
        parse_arg_value(&host, &bool1(), "yes").unwrap_err(),
        Error::ArgumentParseFailure
    );
}

#[test]
fn unbound_variable_and_missing_scope() {
    let func = Function {
        arguments: vec![Argument { name: Some("n".to_owned()), ty: sint4() }],
        expressions: vec![Expr::FunctionArgument(0)],
        body: vec![],
    };
    let interp = Interpreter::new(ShaderStage::Vertex, 0);
    assert_eq!(interp.expression(&func, &host, 0).unwrap_err(), Error::MissingScope);
    assert_eq!(
        eval_with_scope(&func, vec![], 0).unwrap_err(),
        Error::UnboundVariable
    );
}

#[test]
fn unimplemented_nodes_fail() {
    let func = lit_fn(vec![], vec![Expr::Other]);
    assert_eq!(
        eval_with_scope(&func, vec![], 0).unwrap_err(),
        Error::Unimplemented(NodeKind::Expression)
    );
    let func = Function { arguments: vec![], expressions: vec![], body: vec![Stmt::Other] };
    let mut interp = Interpreter::new(ShaderStage::Vertex, 0);
    assert_eq!(
        interp.statement(&func, &host, &func.body[0]).unwrap_err(),
        Error::Unimplemented(NodeKind::Statement)
    );
}

#[test]
fn type_text_names() {
    assert_eq!(type_text(&sint4()), "Sint32");
    assert_eq!(type_text(&float8()), "Float64");
    assert_eq!(
        type_text(&TypeDesc::Vector { size: VectorSize::Tri, kind: ScalarKind::Float, width: 4 }),
        "vec3<Float32>"
    );
}

/// The end-to-end module: an entry point whose body emits a compose and a
/// binary expression over the argument, then returns the binary result.
fn end_to_end_module() -> Module {
    let function = Function {
        arguments: vec![Argument { name: Some("n".to_owned()), ty: sint4() }],
        expressions: vec![
            Expr::FunctionArgument(0),
            Expr::Literal(Literal::I32(3)),
            Expr::Compose {
                ty: TypeDesc::Vector { size: VectorSize::Bi, kind: ScalarKind::Sint, width: 4 },
                components: vec![0, 1],
            },
            Expr::Binary { op: BinOp::Add, left: 0, right: 1 },
        ],
        body: vec![
            Stmt::Emit { exprs: vec![2, 3] },
            Stmt::Return { value: Some(3) },
        ],
    };
    Module {
        entry_points: vec![EntryPoint {
            name: "main".to_owned(),
            stage: ShaderStage::Vertex,
            function,
        }],
    }
}

#[test]
fn end_to_end_run() {
    let module = end_to_end_module();
    assert!(module_wf_check(&module));
    let mut interp = Interpreter::new(ShaderStage::Vertex, 0);
    let out = interp.run(&module, &vec!["39".to_owned()], &host).unwrap();
    let v = out.expect("the entry point returns a value");
    assert_eq!(get_i32(&v), 42);
    assert_eq!(v.try_display(&host).unwrap(), "42");
}

#[test]
fn run_without_matching_stage_fails() {
    let module = end_to_end_module();
    let mut interp = Interpreter::new(ShaderStage::Compute, 0);
    assert_eq!(
        interp.run(&module, &vec!["1".to_owned()], &host).unwrap_err(),
        Error::NoEntryPoint
    );
}

#[test]
fn block_scope_is_discarded() {
    // A block's nested return value survives; its scope does not leak.
    let function = Function {
        arguments: vec![Argument { name: Some("n".to_owned()), ty: sint4() }],
        expressions: vec![Expr::FunctionArgument(0)],
        body: vec![Stmt::Block { body: vec![Stmt::Return { value: Some(0) }] }],
    };
    let module = Module {
        entry_points: vec![EntryPoint {
            name: "main".to_owned(),
            stage: ShaderStage::Vertex,
            function,
        }],
    };
    assert!(module_wf_check(&module));
    let mut interp = Interpreter::new(ShaderStage::Vertex, 0);
    let out = interp.run(&module, &vec!["8".to_owned()], &host).unwrap();
    assert_eq!(get_i32(&out.unwrap()), 8);
}

#[test]
fn last_statement_value_wins() {
    // A return that is not last does not short-circuit: the last executed
    // statement's value is kept, and an emit yields none.
    let function = Function {
        arguments: vec![],
        expressions: vec![Expr::Literal(Literal::I32(1))],
        body: vec![
            Stmt::Return { value: Some(0) },
            Stmt::Emit { exprs: vec![0] },
        ],
    };
    let module = Module {
        entry_points: vec![EntryPoint {
            name: "main".to_owned(),
            stage: ShaderStage::Vertex,
            function,
        }],
    };
    assert!(module_wf_check(&module));
    let mut interp = Interpreter::new(ShaderStage::Vertex, 0);
    let out = interp.run(&module, &vec![], &host).unwrap();
    assert!(out.is_none());
}

#[test]
fn error_descriptions_are_stable() {
    assert_eq!(Error::NoEntryPoint.describe(), "no entry point found for the requested stage");
    assert_eq!(Error::DivisionByZero.describe(), "integer division has no representable result");
}

#[test]
fn module_wf_check_rejects_forward_handles() {
    // A binary node whose operand handle does not precede it.
    let function = Function {
        arguments: vec![],
        expressions: vec![Expr::Binary { op: BinOp::Add, left: 0, right: 1 }],
        body: vec![],
    };
    let module = Module {
        entry_points: vec![EntryPoint {
            name: "main".to_owned(),
            stage: ShaderStage::Vertex,
            function,
        }],
    };
    assert!(!module_wf_check(&module));
}

#[test]
fn bind_vector_argument_empty_token_fails() {
    let vec3i = TypeDesc::Vector { size: VectorSize::Tri, kind: ScalarKind::Sint, width: 4 };
    let func = one_arg_func(Some("v"), vec3i);
    assert_eq!(
        bind_arguments(&func, &vec!["1,,3".to_owned()], &host).unwrap_err(),
        Error::ArgumentParseFailure
    );
}

#[test]
fn binary_modulo_uint() {
    let l = Value::from_pod(uint4(), PodValue::U32(17));
    let r = Value::from_pod(uint4(), PodValue::U32(5));
    let out = binary_values(&BinOp::Modulo, &l, &r, &host).unwrap();
    assert_eq!(get_u32(&out), 2);
}

#[test]
fn run_propagates_evaluation_errors() {
    // The emitted division by zero aborts the run.
    let function = Function {
        arguments: vec![],
        expressions: vec![
            Expr::Literal(Literal::I32(1)),
            Expr::Literal(Literal::I32(0)),
            Expr::Binary { op: BinOp::Divide, left: 0, right: 1 },
        ],
        body: vec![Stmt::Emit { exprs: vec![2] }],
    };
    let module = Module {
        entry_points: vec![EntryPoint {
            name: "main".to_owned(),
            stage: ShaderStage::Vertex,
            function,
        }],
    };
    assert!(module_wf_check(&module));
    let mut interp = Interpreter::new(ShaderStage::Vertex, 0);
    assert_eq!(interp.run(&module, &vec![], &host).unwrap_err(), Error::DivisionByZero);
}

#[test]
fn compose_propagates_component_errors() {
    // A failing component decides the compose before the fill check.
    let func = Function {
        arguments: vec![],
        expressions: vec![
            Expr::Literal(Literal::U32(1)),
            Expr::Other,
            Expr::Compose {
                ty: TypeDesc::Vector { size: VectorSize::Bi, kind: ScalarKind::Uint, width: 4 },
                components: vec![0, 1],
            },
        ],
        body: vec![],
    };
    assert_eq!(
        eval_with_scope(&func, vec![], 2).unwrap_err(),
        Error::Unimplemented(NodeKind::Expression)
    );
}

#[test]
fn render_vector_wrong_length_fails() {
    let vec2u = TypeDesc::Vector { size: VectorSize::Bi, kind: ScalarKind::Uint, width: 4 };
    let v = Value::from_data(vec2u, vec![0; 9]);
    assert_eq!(
        v.try_display(&host).unwrap_err(),
        Error::TypeMismatch(TypeMismatchKind::Buffer { len: 9, size: 8 })
    );
    let v = Value::from_data(vec2u, vec![0; 7]);
    assert_eq!(
        v.try_display(&host).unwrap_err(),
        Error::TypeMismatch(TypeMismatchKind::Buffer { len: 7, size: 8 })
    );
}

#[test]
fn bind_f64_argument() {
    let func = one_arg_func(Some("f"), float8());
    let bound = bind_arguments(&func, &vec!["-0.125".to_owned()], &host).unwrap();
    match bound[0].1.try_get(PodKind::F64).unwrap() {
        PodValue::F64Bits(b) => assert_eq!(f64::from_bits(b), -0.125),
        other => panic!("expected f64 bits, got {:?}", other),
    }
}
