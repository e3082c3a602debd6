use mlt_eigen::canon::{transform_ast, transform_expression, transform_matrix_multisegment};
use mlt_eigen::emit::{
    expr_to_cpp, generate_output_file, generate_output_for_function,
    generate_output_for_statement, matrix_to_cpp, type_to_cpp,
};
use mlt_eigen::infer::{expr_type, inline_matrix_type, lvalue_type};
use mlt_eigen::literal::parse_literal;
use mlt_eigen::shape::{Diagnostic, Fatal, ShapeEnv};
use mlt_eigen::syntax::{
    MLtBinOp, MLtExpr, MLtFunction, MLtLValue, MLtMatrixAccess, MLtRange, MLtStatement,
};

fn s(t: &str) -> String {
    t.to_string()
}

fn name(n: &str) -> MLtExpr {
    MLtExpr::Basic(MLtLValue::Matrix(MLtMatrixAccess::Matrix(s(n))))
}

fn lit(k: &str) -> MLtExpr {
    MLtExpr::Basic(MLtLValue::Integer(s(k)))
}

fn call(f: &str, args: Vec<MLtExpr>) -> MLtExpr {
    MLtExpr::Basic(MLtLValue::FunctionCall(s(f), args))
}

fn bin(l: MLtExpr, op: MLtBinOp, r: MLtExpr) -> MLtExpr {
    MLtExpr::BinOp(Box::new(l), op, Box::new(r))
}

fn target(n: &str) -> MLtLValue {
    MLtLValue::Matrix(MLtMatrixAccess::Matrix(s(n)))
}

fn range(a: u32, b: u32) -> MLtRange {
    MLtRange { start: a, end: b }
}

fn env_of(entries: &[(&str, (u32, u32))]) -> ShapeEnv {
    let mut env = ShapeEnv::new();
    for (n, sh) in entries {
        env.insert(s(n), *sh);
    }
    env
}

fn shape(e: &MLtExpr, env: &ShapeEnv) -> Result<(u32, u32), Fatal> {
    let mut d = Vec::new();
    expr_type(e, env, 1, &mut d)
}

fn shape_and_diags(e: &MLtExpr, env: &ShapeEnv) -> (Result<(u32, u32), Fatal>, Vec<Diagnostic>) {
    let mut d = Vec::new();
    let r = expr_type(e, env, 7, &mut d);
    (r, d)
}

#[test]
fn transpose_twice_keeps_shape() {
    let env = env_of(&[("A", (4, 3))]);
    let once = MLtExpr::Transposed(Box::new(name("A")));
    let twice = MLtExpr::Transposed(Box::new(MLtExpr::Transposed(Box::new(name("A")))));
    assert_eq!(shape(&once, &env), Ok((3, 4)));
    assert_eq!(shape(&twice, &env), Ok((4, 3)));
}

#[test]
fn diag_of_vector_is_square() {
    let env = env_of(&[("v", (5, 1)), ("m", (3, 2))]);
    assert_eq!(shape(&call("diag", vec![name("v")]), &env), Ok((5, 5)));
    assert_eq!(
        shape(&call("diag", vec![name("m")]), &env),
        Err(Fatal::NotAVector)
    );
    assert_eq!(shape(&call("diag", vec![]), &env), Err(Fatal::MissingArgument));
}

#[test]
fn scalar_matrix_multiplication_broadcasts() {
    let env = env_of(&[("s", (1, 1)), ("M", (4, 4)), ("P", (4, 3)), ("Q", (3, 2))]);
    assert_eq!(shape(&bin(name("s"), MLtBinOp::Mul, name("M")), &env), Ok((4, 4)));
    assert_eq!(shape(&bin(name("M"), MLtBinOp::Mul, name("s")), &env), Ok((4, 4)));
    assert_eq!(shape(&bin(name("P"), MLtBinOp::Mul, name("Q")), &env), Ok((4, 2)));
}

#[test]
fn shape_rules_give_exact_shapes() {
    let env = env_of(&[("x", (6, 1)), ("c.g", (3, 1)), ("f", (2, 2))]);
    let seg = MLtExpr::Basic(MLtLValue::Matrix(MLtMatrixAccess::MatrixSegment(
        s("x"),
        range(2, 4),
    )));
    assert_eq!(shape(&seg, &env), Ok((3, 1)));
    let block = MLtExpr::Basic(MLtLValue::Matrix(MLtMatrixAccess::MatrixBlock(
        s("x"),
        range(1, 3),
        range(4, 5),
    )));
    assert_eq!(shape(&block, &env), Ok((3, 2)));
    let field = MLtExpr::Basic(MLtLValue::StructMatrix(
        s("c"),
        MLtMatrixAccess::Matrix(s("g")),
    ));
    assert_eq!(shape(&field, &env), Ok((3, 1)));
    assert_eq!(shape(&call("eye", vec![lit("3")]), &env), Ok((3, 3)));
    assert_eq!(shape(&call("zeros", vec![lit("2"), lit("5")]), &env), Ok((2, 5)));
    assert_eq!(shape(&call("ones", vec![lit("4")]), &env), Ok((4, 4)));
    assert_eq!(shape(&call("expm", vec![name("x")]), &env), Ok((6, 1)));
    assert_eq!(shape(&call("norm", vec![name("x")]), &env), Ok((1, 1)));
    assert_eq!(shape(&call("f", vec![name("x")]), &env), Ok((2, 2)));
    assert_eq!(shape(&bin(name("x"), MLtBinOp::Pow, lit("2")), &env), Ok((6, 1)));
    assert_eq!(shape(&bin(name("x"), MLtBinOp::LessThan, name("f")), &env), Ok((1, 1)));
    assert_eq!(shape(&MLtExpr::Negation(Box::new(name("f"))), &env), Ok((2, 2)));
    assert_eq!(shape(&bin(name("f"), MLtBinOp::Div, name("f")), &env), Ok((2, 2)));
    assert_eq!(shape(&bin(name("x"), MLtBinOp::Div, lit("2")), &env), Ok((6, 1)));
}

#[test]
fn inline_matrix_stacks_rows() {
    let env = env_of(&[("a", (2, 1)), ("b", (3, 1)), ("m", (2, 2))]);
    let mut d = Vec::new();
    assert_eq!(
        inline_matrix_type(&vec![name("a"), name("b"), lit("1")], &env, 1, &mut d),
        Ok((6, 1))
    );
    assert!(d.is_empty());
    let mut d = Vec::new();
    assert_eq!(
        inline_matrix_type(&vec![name("a"), name("m")], &env, 9, &mut d),
        Ok((4, 1))
    );
    assert_eq!(d.len(), 1);
    assert!(matches!(d[0], Diagnostic::ConcatMismatch((2, 1), (2, 2), 9)));
    let mut d = Vec::new();
    assert_eq!(
        inline_matrix_type(&vec![], &env, 1, &mut d),
        Err(Fatal::EmptyInlineMatrix)
    );
}

#[test]
fn shape_warnings_are_reported() {
    let env = env_of(&[("a", (2, 1)), ("m", (3, 3)), ("p", (4, 2))]);
    let (r, d) = shape_and_diags(&bin(name("a"), MLtBinOp::Add, name("m")), &env);
    assert_eq!(r, Ok((2, 1)));
    assert!(matches!(d[..], [Diagnostic::AddSubMismatch((2, 1), (3, 3), 7)]));
    let (r, d) = shape_and_diags(&bin(name("p"), MLtBinOp::Mul, name("m")), &env);
    assert_eq!(r, Ok((4, 3)));
    assert!(matches!(d[..], [Diagnostic::MulMismatch((4, 2), (3, 3), 7)]));
    let (r, d) = shape_and_diags(&bin(name("p"), MLtBinOp::Div, name("m")), &env);
    assert_eq!(r, Ok((4, 3)));
    assert!(matches!(d[..], [Diagnostic::DivMismatch((4, 2), (3, 3), 7)]));
    let (r, d) = shape_and_diags(&name("nothing"), &env);
    assert_eq!(r, Ok((0, 0)));
    assert!(matches!(&d[..], [Diagnostic::UnknownName(n)] if n == "nothing"));
    let (r, d) = shape_and_diags(&call("solve", vec![name("a")]), &env);
    assert_eq!(r, Ok((0, 0)));
    assert!(matches!(&d[..], [Diagnostic::UnknownFunction(n)] if n == "solve"));
}

#[test]
fn fatal_calls_abort() {
    let env = env_of(&[("x", (2, 1))]);
    assert_eq!(
        shape(&call("eye", vec![name("x")]), &env),
        Err(Fatal::MissingLiteralArgument)
    );
    assert_eq!(
        shape(&call("zeros", vec![]), &env),
        Err(Fatal::MissingLiteralArgument)
    );
    assert_eq!(
        shape(&call("eye", vec![lit("99999999999")]), &env),
        Err(Fatal::BadIntegerLiteral)
    );
    assert_eq!(shape(&call("abs", vec![]), &env), Err(Fatal::MissingArgument));
    let multi = MLtLValue::Matrix(MLtMatrixAccess::MatrixMultiSegment(
        s("x"),
        vec![range(1, 2)],
    ));
    let mut d = Vec::new();
    assert_eq!(
        lvalue_type(&multi, &env, 1, &mut d),
        Err(Fatal::MultiSegmentAccess)
    );
}

#[test]
fn multi_segment_becomes_inline_matrix_of_segments() {
    let z = MLtLValue::Matrix(MLtMatrixAccess::MatrixMultiSegment(
        s("z"),
        vec![range(1, 3), range(7, 9)],
    ));
    let r = transform_matrix_multisegment(z);
    match &r {
        MLtLValue::InlineMatrix(es) => {
            assert_eq!(es.len(), 2);
            assert!(matches!(&es[0],
                MLtExpr::Basic(MLtLValue::Matrix(MLtMatrixAccess::MatrixSegment(n, MLtRange { start: 1, end: 3 }))) if n == "z"));
            assert!(matches!(&es[1],
                MLtExpr::Basic(MLtLValue::Matrix(MLtMatrixAccess::MatrixSegment(n, MLtRange { start: 7, end: 9 }))) if n == "z"));
        }
        _ => panic!("expected an inline matrix"),
    }
    let env = env_of(&[("z", (9, 1))]);
    let mut d = Vec::new();
    assert_eq!(lvalue_type(&r, &env, 1, &mut d), Ok((6, 1)));
}

#[test]
fn pi_and_index_calls_are_rewritten() {
    let e = transform_expression(bin(name("pi"), MLtBinOp::Mul, call("v", vec![lit("2")])));
    assert_eq!(
        format!("{:?}", e),
        format!(
            "{:?}",
            bin(
                name("M_PI"),
                MLtBinOp::Mul,
                MLtExpr::Basic(MLtLValue::Matrix(MLtMatrixAccess::MatrixIndex(s("v"), s("2"))))
            )
        )
    );
    let kept = transform_expression(call("eye", vec![lit("3")]));
    assert_eq!(format!("{:?}", kept), format!("{:?}", call("eye", vec![lit("3")])));
}

fn norm_assignment(t: &str, d: &str, a: &str) -> MLtStatement {
    MLtStatement::Assignment(
        target(t),
        bin(name(d), MLtBinOp::Div, call("norm", vec![name(a)])),
    )
}

fn function_with(body: Vec<MLtStatement>) -> MLtFunction {
    MLtFunction {
        return_obj: s("y"),
        name: s("step"),
        params: vec![s("x")],
        body,
    }
}

#[test]
fn normalization_idiom_same_name() {
    let f = transform_ast(function_with(vec![norm_assignment("x", "x", "x")]));
    assert_eq!(f.body.len(), 1);
    assert!(matches!(&f.body[0], MLtStatement::Normalization(n) if n == "x"));
}

#[test]
fn normalization_idiom_different_names() {
    let f = transform_ast(function_with(vec![norm_assignment("y", "x", "x")]));
    assert_eq!(f.body.len(), 1);
    assert!(matches!(&f.body[0], MLtStatement::Assignment(_, _)));
}

#[test]
fn persistent_variables_become_reference_parameters() {
    let f = transform_ast(function_with(vec![
        MLtStatement::Persistent(vec![s("p"), s("q")]),
        MLtStatement::NewLine,
        MLtStatement::Assignment(target("y"), name("p")),
    ]));
    assert_eq!(f.params, vec![s("x"), s("&p"), s("&q")]);
    assert_eq!(f.body.len(), 2);
    assert!(matches!(f.body[0], MLtStatement::NewLine));
    assert!(matches!(f.body[1], MLtStatement::Assignment(_, _)));
}

fn sample_function() -> MLtFunction {
    MLtFunction {
        return_obj: s("z"),
        name: s("f"),
        params: vec![s("z")],
        body: vec![
            MLtStatement::Persistent(vec![s("k")]),
            MLtStatement::Assignment(
                target("w"),
                MLtExpr::Basic(MLtLValue::Matrix(MLtMatrixAccess::MatrixMultiSegment(
                    s("z"),
                    vec![range(1, 3), range(7, 9)],
                ))),
            ),
            norm_assignment("pi", "pi", "pi"),
            MLtStatement::IfStatement(
                bin(call("v", vec![lit("1")]), MLtBinOp::GreaterThan, lit("0")),
                vec![
                    MLtStatement::Persistent(vec![s("j")]),
                    norm_assignment("z", "z", "z"),
                    MLtStatement::Comment(s("note")),
                ],
            ),
        ],
    }
}

#[test]
fn canonicalization_is_idempotent() {
    let once = transform_ast(sample_function());
    let once_text = format!("{:?}", once);
    let twice = transform_ast(once);
    assert_eq!(format!("{:?}", twice), once_text);
    assert_eq!(twice.params, vec![s("z"), s("&k"), s("&j")]);
    assert!(matches!(&twice.body[1], MLtStatement::Normalization(n) if n == "M_PI"));
}

#[test]
fn type_names_follow_shapes() {
    assert_eq!(type_to_cpp((1, 1)), "float");
    assert_eq!(type_to_cpp((3, 1)), "Vector3");
    assert_eq!(type_to_cpp((12, 10)), "Matrix12_10");
    assert_eq!(type_to_cpp((1, 4)), "Matrix1_4");
}

#[test]
fn accesses_and_calls_are_written_out() {
    let seg = MLtMatrixAccess::MatrixSegment(s("z"), range(4, 6));
    assert_eq!(matrix_to_cpp(&seg), Ok(s("z.segment<3>(3)")));
    let block = MLtMatrixAccess::MatrixBlock(s("P"), range(1, 3), range(4, 5));
    assert_eq!(matrix_to_cpp(&block), Ok(s("P.block<3, 2>(0, 3)")));
    let idx = MLtMatrixAccess::MatrixIndex(s("v"), s("2"));
    assert_eq!(matrix_to_cpp(&idx), Ok(s("v(2 - 1)")));
    let env = env_of(&[("a", (3, 1)), ("b", (3, 3))]);
    assert_eq!(expr_to_cpp(&call("eye", vec![lit("3")]), &env, 1), Ok(s("Matrix3_3::Identity()")));
    assert_eq!(
        expr_to_cpp(&call("zeros", vec![lit("3"), lit("1")]), &env, 1),
        Ok(s("Vector3::Zero()"))
    );
    assert_eq!(expr_to_cpp(&call("ones", vec![lit("1"), lit("1")]), &env, 1), Ok(s("float::Ones()")));
    assert_eq!(expr_to_cpp(&call("expm", vec![name("b")]), &env, 1), Ok(s("matrixExpPade6(b)")));
    assert_eq!(expr_to_cpp(&call("diag", vec![name("a")]), &env, 1), Ok(s("(a).asDiagonal()")));
    assert_eq!(
        expr_to_cpp(&call("cross", vec![name("a"), name("a")]), &env, 1),
        Ok(s("cross(a, a)"))
    );
    assert_eq!(
        expr_to_cpp(&bin(name("a"), MLtBinOp::Div, name("b")), &env, 1),
        Ok(s("a * b.inverse()"))
    );
    assert_eq!(expr_to_cpp(&bin(name("a"), MLtBinOp::Div, lit("2")), &env, 1), Ok(s("a / 2")));
    assert_eq!(expr_to_cpp(&bin(name("a"), MLtBinOp::Pow, lit("2")), &env, 1), Ok(s("pow(a, 2)")));
    assert_eq!(
        expr_to_cpp(
            &MLtExpr::Transposed(Box::new(MLtExpr::Parenthesized(Box::new(MLtExpr::Negation(
                Box::new(name("a"))
            ))))),
            &env,
            1
        ),
        Ok(s("(-a).transpose()"))
    );
    let inline = MLtExpr::Basic(MLtLValue::InlineMatrix(vec![name("a"), lit("0")]));
    assert_eq!(expr_to_cpp(&inline, &env, 1), Ok(s("(Vector4() << a, 0).finished()")));
    assert_eq!(
        expr_to_cpp(&bin(name("a"), MLtBinOp::NotEqualTo, lit("0")), &env, 1),
        Ok(s("a != 0"))
    );
}

#[test]
fn first_assignment_declares_then_reports_mismatch() {
    let mut env = env_of(&[("a", (3, 1)), ("b", (3, 3))]);
    let mut line = 5;
    let mut d = Vec::new();
    let first = MLtStatement::Assignment(target("t"), name("a"));
    assert_eq!(
        generate_output_for_statement(&first, &mut env, &mut line, &mut d),
        Ok(s("Vector3 t = a;"))
    );
    assert_eq!(env.get(&s("t")), Some((3, 1)));
    assert!(d.is_empty());
    let second = MLtStatement::Assignment(target("t"), name("b"));
    assert_eq!(
        generate_output_for_statement(&second, &mut env, &mut line, &mut d),
        Ok(s("t = b;"))
    );
    assert_eq!(env.get(&s("t")), Some((3, 1)));
    assert!(matches!(d[..], [Diagnostic::AssignMismatch((3, 1), (3, 3), 5)]));
}

#[test]
fn branch_declarations_do_not_leak() {
    let mut env = env_of(&[("_self", (1, 1)), ("c", (1, 1))]);
    let f = MLtFunction {
        return_obj: s("u"),
        name: s("g"),
        params: vec![s("c"), s("&state")],
        body: vec![
            MLtStatement::IfStatement(
                bin(name("c"), MLtBinOp::GreaterThan, lit("0")),
                vec![MLtStatement::Assignment(target("t"), lit("1"))],
            ),
            MLtStatement::Assignment(target("u"), name("t")),
        ],
    };
    let mut line = 3;
    let mut d = Vec::new();
    let text = generate_output_for_function(&f, &mut env, &mut line, &mut d);
    assert_eq!(
        text,
        Ok(s("float g(float c, state_t &state) {if (c > 0) {\nfloat t = 1;}Matrix0_0 u = t;return u;\n}\n"))
    );
    assert_eq!(line, 4);
    assert!(matches!(&d[..], [Diagnostic::UnknownName(n)] if n == "t"));
    assert_eq!(env.get(&s("t")), None);
    assert_eq!(env.get(&s("u")), Some((0, 0)));
}

#[test]
fn inert_statements_pass_through() {
    let mut env = ShapeEnv::new();
    let mut line = 3;
    let mut d = Vec::new();
    assert_eq!(
        generate_output_for_statement(&MLtStatement::Comment(s(" hi")), &mut env, &mut line, &mut d),
        Ok(s("//  hi"))
    );
    assert_eq!(
        generate_output_for_statement(&MLtStatement::Error(s("x = = 1")), &mut env, &mut line, &mut d),
        Ok(s("// x = = 1; // line could not be parsed"))
    );
    assert!(matches!(&d[..], [Diagnostic::Unparsed(t)] if t == "x = = 1"));
    assert_eq!(
        generate_output_for_statement(&MLtStatement::NewLine, &mut env, &mut line, &mut d),
        Ok(s("\n"))
    );
    assert_eq!(line, 4);
    assert_eq!(
        generate_output_for_statement(&MLtStatement::Normalization(s("q")), &mut env, &mut line, &mut d),
        Ok(s("q.normalize();"))
    );
    assert_eq!(
        generate_output_for_statement(
            &MLtStatement::Persistent(vec![s("a"), s("b")]),
            &mut env,
            &mut line,
            &mut d
        ),
        Ok(s("// the following vars are persistent: a, b\n"))
    );
    assert_eq!(line, 5);
}

#[test]
fn output_file_needs_return_shape() {
    let mut env = ShapeEnv::new();
    let mut d = Vec::new();
    let f = function_with(vec![]);
    assert_eq!(generate_output_file(&f, &mut env, &mut d), Err(Fatal::MissingReturnShape));
    let mut env = env_of(&[("_self", (2, 1)), ("x", (2, 1))]);
    assert_eq!(
        generate_output_file(&f, &mut env, &mut d),
        Ok(s("#include \"matlab_funcs.h\"\n\nVector2 step(Vector2 x) {return y;\n}\n"))
    );
}

#[test]
fn literals_parse_within_u32() {
    assert_eq!(parse_literal(&s("0")), Some(0));
    assert_eq!(parse_literal(&s("42")), Some(42));
    assert_eq!(parse_literal(&s("4294967295")), Some(4294967295));
    assert_eq!(parse_literal(&s("4294967296")), None);
    assert_eq!(parse_literal(&s("")), None);
    assert_eq!(parse_literal(&s("1a")), None);
}

#[test]
fn renamed_pi_target_joins_the_normalization_idiom() {
    let f = transform_ast(function_with(vec![norm_assignment("M_PI", "pi", "pi")]));
    assert!(matches!(&f.body[0], MLtStatement::Normalization(n) if n == "M_PI"));
}

#[test]
fn snapshot_is_independent_of_its_source() {
    let env = env_of(&[("a", (2, 1))]);
    let mut copy = env.snapshot();
    copy.insert(s("b"), (3, 3));
    copy.insert(s("a"), (4, 4));
    assert_eq!(env.get(&s("a")), Some((2, 1)));
    assert_eq!(env.get(&s("b")), None);
    assert_eq!(copy.get(&s("a")), Some((4, 4)));
    assert!(copy.contains_key(&s("b")));
}
