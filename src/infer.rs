//! Shape inference: the shape of every expression under the composition rules
//! of linear algebra, with the warnings that the rules report on the way.
use vstd::prelude::*;
use crate::literal::{literal_value, parse_literal};
use crate::shape::{
    diags_view, lemma_diags_view_push, wadd, wrapping_add_u32, wrapping_sub_u32, wsub, DiagV,
    Diagnostic, Fatal, Shape, ShapeEnv,
};
use crate::syntax::{
    expr_view, exprs_view, lemma_exprs_view_index, lvalue_view, AccessV, ExprV, LValueV, MLtBinOp, MLtExpr, MLtLValue,
    MLtMatrixAccess, MLtRange,
};

verus! {

broadcast use vstd::std_specs::vec::group_vec_axioms;

/// The result of inferring a shape, and the warnings reported on the way, in
/// order.
pub type Inferred = (Result<Shape, Fatal>, Seq<DiagV>);

/// Number of indices in an inclusive range.
pub open spec fn width(r: MLtRange) -> u32 {
    wadd(wsub(r.end, r.start), 1)
}

pub open spec fn is_scalar(s: Shape) -> bool {
    s.0 == 1 && s.1 == 1
}

/// Operators whose result shape depends on both operands.
pub open spec fn is_arith(op: MLtBinOp) -> bool {
    op == MLtBinOp::Add || op == MLtBinOp::Sub || op == MLtBinOp::Mul || op == MLtBinOp::Div
}

/// Operators whose result has the shape of the left operand alone.
pub open spec fn is_left_shaped(op: MLtBinOp) -> bool {
    op == MLtBinOp::Pow || op == MLtBinOp::CwisePow || op == MLtBinOp::CwiseMul || op
        == MLtBinOp::CwiseDiv
}

/// Shape of `a op b` for the operators that read both operand shapes.
pub open spec fn arith_shape(op: MLtBinOp, a: Shape, b: Shape) -> Shape {
    if op == MLtBinOp::Mul {
        if is_scalar(a) {
            b
        } else if is_scalar(b) {
            a
        } else {
            (a.0, b.1)
        }
    } else if op == MLtBinOp::Div {
        if is_scalar(b) {
            a
        } else {
            (a.0, b.1)
        }
    } else {
        a
    }
}

/// The warning that `a op b` reports, if any.
pub open spec fn arith_warnings(op: MLtBinOp, a: Shape, b: Shape, line: u32) -> Seq<DiagV> {
    if op == MLtBinOp::Mul {
        if !is_scalar(a) && !is_scalar(b) && a.1 != b.0 {
            seq![DiagV::MulMismatch(a, b, line)]
        } else {
            Seq::empty()
        }
    } else if op == MLtBinOp::Div {
        if !is_scalar(b) && a.1 != b.0 {
            seq![DiagV::DivMismatch(a, b, line)]
        } else {
            Seq::empty()
        }
    } else {
        if a != b {
            seq![DiagV::AddSubMismatch(a, b, line)]
        } else {
            Seq::empty()
        }
    }
}

/// Shape of a matrix access whose name is qualified by `qual` (empty, or a
/// struct prefix followed by a dot).
pub open spec fn access_infer(env: Map<Seq<char>, Shape>, qual: Seq<char>, m: AccessV) -> Inferred {
    match m {
        AccessV::Matrix(n) => if env.contains_key(qual + n) {
            (Ok(env[qual + n]), Seq::empty())
        } else {
            (Ok((0, 0)), seq![DiagV::UnknownName(qual + n)])
        },
        AccessV::Segment(_, r) => (Ok((width(r), 1)), Seq::empty()),
        AccessV::MultiSegment(_, _) => (Err(Fatal::MultiSegmentAccess), Seq::empty()),
        AccessV::Block(_, r, c) => (Ok((width(r), width(c))), Seq::empty()),
        AccessV::Index(_, _) => (Ok((1, 1)), Seq::empty()),
    }
}

/// The first argument of a call, where it is an integer literal.
pub open spec fn literal_arg(args: Seq<ExprV>, i: int) -> Option<Seq<char>> {
    if 0 <= i < args.len() {
        match args[i] {
            ExprV::Basic(LValueV::Integer(k)) => Some(k),
            _ => None,
        }
    } else {
        None
    }
}

pub open spec fn is_shape_preserving(f: Seq<char>) -> bool {
    f == "expm"@ || f == "min"@ || f == "max"@ || f == "cross"@ || f == "abs"@ || f == "exp"@
}

/// Shape of the builder `eye`, `ones` or `zeros` from its literal arguments.
pub open spec fn builder_shape(f: Seq<char>, args: Seq<ExprV>) -> Result<Shape, Fatal> {
    match literal_arg(args, 0) {
        None => Err(Fatal::MissingLiteralArgument),
        Some(k) => match literal_value(k) {
            None => Err(Fatal::BadIntegerLiteral),
            Some(n) => if f == "eye"@ {
                Ok((n, n))
            } else {
                match literal_arg(args, 1) {
                    None => Ok((n, n)),
                    Some(k2) => match literal_value(k2) {
                        None => Err(Fatal::BadIntegerLiteral),
                        Some(c) => Ok((n, c)),
                    },
                }
            },
        },
    }
}

pub open spec fn is_builder(f: Seq<char>) -> bool {
    f == "eye"@ || f == "ones"@ || f == "zeros"@
}

pub open spec fn call_infer(
    env: Map<Seq<char>, Shape>,
    line: u32,
    f: Seq<char>,
    args: Seq<ExprV>,
) -> Inferred
    decreases args,
{
    if is_builder(f) {
        (builder_shape(f, args), Seq::empty())
    } else if is_shape_preserving(f) {
        if args.len() > 0 {
            expr_infer(env, line, args[0])
        } else {
            (Err(Fatal::MissingArgument), Seq::empty())
        }
    } else if f == "norm"@ {
        (Ok((1, 1)), Seq::empty())
    } else if f == "diag"@ {
        if args.len() > 0 {
            let (r, d) = expr_infer(env, line, args[0]);
            match r {
                Ok(s) => if s.1 == 1 {
                    (Ok((s.0, s.0)), d)
                } else {
                    (Err(Fatal::NotAVector), d)
                },
                Err(e) => (Err(e), d),
            }
        } else {
            (Err(Fatal::MissingArgument), Seq::empty())
        }
    } else if env.contains_key(f) {
        (Ok(env[f]), Seq::empty())
    } else {
        (Ok((0, 0)), seq![DiagV::UnknownFunction(f)])
    }
}

/// Vertical concatenation of a non-empty list of elements.
pub open spec fn inline_infer(env: Map<Seq<char>, Shape>, line: u32, es: Seq<ExprV>) -> Inferred
    decreases es,
{
    if es.len() == 0 {
        (Err(Fatal::EmptyInlineMatrix), Seq::empty())
    } else if es.len() == 1 {
        expr_infer(env, line, es[0])
    } else {
        let (acc, d) = inline_infer(env, line, es.drop_last());
        match acc {
            Err(e) => (Err(e), d),
            Ok(a) => {
                let (er, ed) = expr_infer(env, line, es.last());
                match er {
                    Err(e) => (Err(e), d + ed),
                    Ok(b) => (
                        Ok((wadd(a.0, b.0), a.1)),
                        d + ed + if a.1 != b.1 {
                            seq![DiagV::ConcatMismatch(a, b, line)]
                        } else {
                            Seq::empty()
                        },
                    ),
                }
            },
        }
    }
}

pub open spec fn lvalue_infer(env: Map<Seq<char>, Shape>, line: u32, l: LValueV) -> Inferred
    decreases l,
{
    match l {
        LValueV::Integer(_) => (Ok((1, 1)), Seq::empty()),
        LValueV::Float(_) => (Ok((1, 1)), Seq::empty()),
        LValueV::Matrix(m) => access_infer(env, Seq::empty(), m),
        LValueV::StructMatrix(p, m) => access_infer(env, p + "."@, m),
        LValueV::InlineMatrix(es) => inline_infer(env, line, es),
        LValueV::FunctionCall(f, args) => call_infer(env, line, f, args),
    }
}

/// The shape of an expression in environment `env`, with the warnings
/// reported while inferring it; `line` is the line that warnings name.
pub open spec fn expr_infer(env: Map<Seq<char>, Shape>, line: u32, e: ExprV) -> Inferred
    decreases e,
{
    match e {
        ExprV::Basic(l) => lvalue_infer(env, line, l),
        ExprV::Negation(b) => expr_infer(env, line, *b),
        ExprV::Parenthesized(b) => expr_infer(env, line, *b),
        ExprV::Transposed(b) => {
            let (r, d) = expr_infer(env, line, *b);
            match r {
                Ok(s) => (Ok((s.1, s.0)), d),
                Err(x) => (Err(x), d),
            }
        },
        ExprV::BinOp(l, op, r) => if is_arith(op) {
            let (lr, ld) = expr_infer(env, line, *l);
            match lr {
                Err(x) => (Err(x), ld),
                Ok(a) => {
                    let (rr, rd) = expr_infer(env, line, *r);
                    match rr {
                        Err(x) => (Err(x), ld + rd),
                        Ok(b) => (Ok(arith_shape(op, a, b)), ld + rd + arith_warnings(op, a, b, line)),
                    }
                },
            }
        } else if is_left_shaped(op) {
            expr_infer(env, line, *l)
        } else {
            (Ok((1, 1)), Seq::empty())
        },
    }
}

/// The shape of an expression alone.
pub open spec fn shape_of(env: Map<Seq<char>, Shape>, e: ExprV) -> Result<Shape, Fatal> {
    expr_infer(env, 0, e).0
}

/// Whether `s` is the name `lit`.
pub fn is_name(s: &String, lit: &str) -> (r: bool)
    ensures
        r == (s@ == lit@),
{
    let t = lit.to_string();
    s.eq(&t)
}

pub fn push_diag(diags: &mut Vec<Diagnostic>, d: Diagnostic)
    ensures
        diags_view(final(diags)@) == diags_view(old(diags)@) + seq![d@],
{
    let ghost prev = diags@;
    let ghost dv = d@;
    diags.push(d);
    proof {
        lemma_diags_view_push(prev, diags@.last());
        assert(diags@ =~= prev.push(diags@.last()));
        assert(diags_view(prev).push(dv) =~= diags_view(prev) + seq![dv]);
    }
}

pub fn range_width(r: MLtRange) -> (w: u32)
    ensures
        w == width(r),
{
    wrapping_add_u32(wrapping_sub_u32(r.end, r.start), 1)
}

fn matrix_type(
    qual: &String,
    matrix: &MLtMatrixAccess,
    ti_state: &ShapeEnv,
    diags: &mut Vec<Diagnostic>,
) -> (r: Result<Shape, Fatal>)
    ensures
        r == access_infer(ti_state@, qual@, matrix@).0,
        diags_view(final(diags)@) == diags_view(old(diags)@) + access_infer(
            ti_state@,
            qual@,
            matrix@,
        ).1,
{
    match matrix {
        MLtMatrixAccess::Matrix(name) => {
            let mut key = qual.clone();
            key.append(name.as_str());
            match ti_state.get(&key) {
                Some(s) => {
                    assert(diags_view(old(diags)@) + Seq::<DiagV>::empty() =~= diags_view(
                        old(diags)@,
                    ));
                    Ok(s)
                },
                None => {
                    push_diag(diags, Diagnostic::UnknownName(key));
                    Ok((0, 0))
                },
            }
        },
        _ => {
            assert(diags_view(old(diags)@) + Seq::<DiagV>::empty() =~= diags_view(old(diags)@));
            match matrix {
                MLtMatrixAccess::MatrixSegment(_, r) => Ok((range_width(*r), 1)),
                MLtMatrixAccess::MatrixBlock(_, r, c) => Ok((range_width(*r), range_width(*c))),
                MLtMatrixAccess::MatrixIndex(_, _) => Ok((1, 1)),
                _ => Err(Fatal::MultiSegmentAccess),
            }
        },
    }
}

/// The integer literal at position `i` of a call's arguments, if it is one.
fn literal_arg_at(args: &Vec<MLtExpr>, i: usize) -> (r: Option<&String>)
    ensures
        match r {
            Some(k) => literal_arg(exprs_view(args@), i as int) == Some(k@),
            None => literal_arg(exprs_view(args@), i as int) is None,
        },
{
    proof {
        lemma_exprs_view_index(args@);
    }
    if i < args.len() {
        let a = &args[i];
        assert(exprs_view(args@)[i as int] == expr_view(*a));
        match a {
            MLtExpr::Basic(MLtLValue::Integer(k)) => {
                assert(*a == MLtExpr::Basic(MLtLValue::Integer(*k)));
                assert(expr_view(*a) == ExprV::Basic(lvalue_view(MLtLValue::Integer(*k))));
                assert(lvalue_view(MLtLValue::Integer(*k)) == LValueV::Integer(k@));
                assert(literal_arg(exprs_view(args@), i as int) == Some(k@));
                Some(k)
            },
            _ => None,
        }
    } else {
        None
    }
}

pub(crate) fn builder_type(f: &String, args: &Vec<MLtExpr>) -> (r: Result<Shape, Fatal>)
    requires
        is_builder(f@),
    ensures
        r == builder_shape(f@, exprs_view(args@)),
{
    match literal_arg_at(args, 0) {
        None => Err(Fatal::MissingLiteralArgument),
        Some(k) => match parse_literal(k) {
            None => Err(Fatal::BadIntegerLiteral),
            Some(n) => {
                if is_name(f, "eye") {
                    Ok((n, n))
                } else {
                    match literal_arg_at(args, 1) {
                        None => Ok((n, n)),
                        Some(k2) => match parse_literal(k2) {
                            None => Err(Fatal::BadIntegerLiteral),
                            Some(c) => Ok((n, c)),
                        },
                    }
                }
            },
        },
    }
}

fn function_call_type(
    f: &String,
    args: &Vec<MLtExpr>,
    ti_state: &ShapeEnv,
    line_num: u32,
    diags: &mut Vec<Diagnostic>,
) -> (r: Result<Shape, Fatal>)
    ensures
        r == call_infer(ti_state@, line_num, f@, exprs_view(args@)).0,
        diags_view(final(diags)@) == diags_view(old(diags)@) + call_infer(
            ti_state@,
            line_num,
            f@,
            exprs_view(args@),
        ).1,
    decreases args,
{
    proof {
        lemma_exprs_view_index(args@);
        assert(diags_view(old(diags)@) + Seq::<DiagV>::empty() =~= diags_view(old(diags)@));
    }
    if is_name(f, "eye") || is_name(f, "ones") || is_name(f, "zeros") {
        builder_type(f, args)
    } else if is_name(f, "expm") || is_name(f, "min") || is_name(f, "max") || is_name(f, "cross")
        || is_name(f, "abs") || is_name(f, "exp") {
        if args.len() > 0 {
            expr_type(&args[0], ti_state, line_num, diags)
        } else {
            Err(Fatal::MissingArgument)
        }
    } else if is_name(f, "norm") {
        Ok((1, 1))
    } else if is_name(f, "diag") {
        if args.len() > 0 {
            match expr_type(&args[0], ti_state, line_num, diags) {
                Ok(s) => {
                    if s.1 == 1 {
                        Ok((s.0, s.0))
                    } else {
                        Err(Fatal::NotAVector)
                    }
                },
                Err(e) => Err(e),
            }
        } else {
            Err(Fatal::MissingArgument)
        }
    } else {
        match ti_state.get(f) {
            Some(s) => Ok(s),
            None => {
                push_diag(diags, Diagnostic::UnknownFunction(f.clone()));
                Ok((0, 0))
            },
        }
    }
}

proof fn lemma_inline_err_stays(env: Map<Seq<char>, Shape>, line: u32, es: Seq<ExprV>, k: int)
    requires
        1 <= k <= es.len(),
        inline_infer(env, line, es.subrange(0, k)).0 is Err,
    ensures
        inline_infer(env, line, es) == inline_infer(env, line, es.subrange(0, k)),
    decreases es.len() - k,
{
    if k < es.len() {
        assert(es.drop_last().subrange(0, k) =~= es.subrange(0, k));
        lemma_inline_err_stays(env, line, es.drop_last(), k);
    } else {
        assert(es.subrange(0, k) =~= es);
    }
}

/// Shape of the vertical concatenation of `exprs`: rows add up, columns are
/// those of the first element; a later element with other columns is
/// reported.
pub fn inline_matrix_type(
    exprs: &Vec<MLtExpr>,
    ti_state: &ShapeEnv,
    line_num: u32,
    diags: &mut Vec<Diagnostic>,
) -> (r: Result<Shape, Fatal>)
    ensures
        r == inline_infer(ti_state@, line_num, exprs_view(exprs@)).0,
        diags_view(final(diags)@) == diags_view(old(diags)@) + inline_infer(
            ti_state@,
            line_num,
            exprs_view(exprs@),
        ).1,
    decreases exprs,
{
    let ghost es = exprs_view(exprs@);
    let ghost env = ti_state@;
    proof {
        lemma_exprs_view_index(exprs@);
    }
    if exprs.len() == 0 {
        assert(diags_view(old(diags)@) + Seq::<DiagV>::empty() =~= diags_view(old(diags)@));
        return Err(Fatal::EmptyInlineMatrix);
    }
    let first = expr_type(&exprs[0], ti_state, line_num, diags);
    proof {
        assert(es.subrange(0, 1).len() == 1);
        assert(es.subrange(0, 1)[0] == es[0]);
    }
    let (mut rows, cols) = match first {
        Ok(s) => s,
        Err(e) => {
            proof {
                lemma_inline_err_stays(env, line_num, es, 1);
            }
            return Err(e);
        },
    };
    let mut i: usize = 1;
    while i < exprs.len()
        invariant
            es == exprs_view(exprs@),
            env == ti_state@,
            es.len() == exprs@.len(),
            forall|j: int| 0 <= j < exprs@.len() ==> #[trigger] es[j] == exprs@[j]@,
            1 <= i <= exprs@.len(),
            inline_infer(env, line_num, es.subrange(0, i as int)).0 == Ok::<Shape, Fatal>(
                (rows, cols),
            ),
            diags_view(diags@) == diags_view(old(diags)@) + inline_infer(
                env,
                line_num,
                es.subrange(0, i as int),
            ).1,
        decreases exprs@.len() - i,
    {
        let r = expr_type(&exprs[i], ti_state, line_num, diags);
        proof {
            assert(es.subrange(0, i + 1).drop_last() =~= es.subrange(0, i as int));
            assert(es.subrange(0, i + 1).last() == es[i as int]);
        }
        let b = match r {
            Ok(b) => b,
            Err(e) => {
                proof {
                    assert(diags_view(diags@) =~= diags_view(old(diags)@) + inline_infer(
                        env,
                        line_num,
                        es.subrange(0, i + 1),
                    ).1);
                    lemma_inline_err_stays(env, line_num, es, i + 1);
                }
                return Err(e);
            },
        };
        if cols != b.1 {
            push_diag(diags, Diagnostic::ConcatMismatch((rows, cols), b, line_num));
        }
        proof {
            let d0 = diags_view(old(diags)@);
            let dprev = inline_infer(env, line_num, es.subrange(0, i as int)).1;
            let ed = expr_infer(env, line_num, es[i as int]).1;
            if cols != b.1 {
                assert(diags_view(diags@) =~= d0 + (dprev + ed + seq![
                    DiagV::ConcatMismatch((rows, cols), b, line_num),
                ]));
            } else {
                assert(diags_view(diags@) =~= d0 + (dprev + ed + Seq::<DiagV>::empty()));
            }
        }
        rows = wrapping_add_u32(rows, b.0);
        i = i + 1;
    }
    proof {
        assert(es.subrange(0, exprs@.len() as int) =~= es);
    }
    Ok((rows, cols))
}

/// Shape of an access, literal, inline matrix or call.
pub fn lvalue_type(
    lvalue: &MLtLValue,
    ti_state: &ShapeEnv,
    line_num: u32,
    diags: &mut Vec<Diagnostic>,
) -> (r: Result<Shape, Fatal>)
    ensures
        r == lvalue_infer(ti_state@, line_num, lvalue@).0,
        diags_view(final(diags)@) == diags_view(old(diags)@) + lvalue_infer(
            ti_state@,
            line_num,
            lvalue@,
        ).1,
    decreases lvalue,
{
    match lvalue {
        MLtLValue::Integer(_) | MLtLValue::Float(_) => {
            assert(diags_view(old(diags)@) + Seq::<DiagV>::empty() =~= diags_view(old(diags)@));
            Ok((1, 1))
        },
        MLtLValue::Matrix(m) => {
            let q = String::new();
            matrix_type(&q, m, ti_state, diags)
        },
        MLtLValue::StructMatrix(p, m) => {
            let mut q = p.clone();
            q.append(".");
            matrix_type(&q, m, ti_state, diags)
        },
        MLtLValue::InlineMatrix(es) => inline_matrix_type(es, ti_state, line_num, diags),
        MLtLValue::FunctionCall(f, args) => function_call_type(f, args, ti_state, line_num, diags),
    }
}

fn arith_type(op: MLtBinOp, a: Shape, b: Shape, line_num: u32, diags: &mut Vec<Diagnostic>) -> (r:
    Shape)
    requires
        is_arith(op),
    ensures
        r == arith_shape(op, a, b),
        diags_view(final(diags)@) == diags_view(old(diags)@) + arith_warnings(op, a, b, line_num),
{
    let a_scalar = a.0 == 1 && a.1 == 1;
    let b_scalar = b.0 == 1 && b.1 == 1;
    proof {
        assert(diags_view(old(diags)@) + Seq::<DiagV>::empty() =~= diags_view(old(diags)@));
    }
    match op {
        MLtBinOp::Mul => {
            if !a_scalar && !b_scalar && a.1 != b.0 {
                push_diag(diags, Diagnostic::MulMismatch(a, b, line_num));
            }
            if a_scalar {
                b
            } else if b_scalar {
                a
            } else {
                (a.0, b.1)
            }
        },
        MLtBinOp::Div => {
            if !b_scalar && a.1 != b.0 {
                push_diag(diags, Diagnostic::DivMismatch(a, b, line_num));
            }
            if b_scalar {
                a
            } else {
                (a.0, b.1)
            }
        },
        _ => {
            if a.0 != b.0 || a.1 != b.1 {
                push_diag(diags, Diagnostic::AddSubMismatch(a, b, line_num));
            }
            a
        },
    }
}

/// The shape of `expr` under the composition rules, with the warnings that
/// the rules report appended to `diags`; `line_num` is the line they name.
pub fn expr_type(
    expr: &MLtExpr,
    ti_state: &ShapeEnv,
    line_num: u32,
    diags: &mut Vec<Diagnostic>,
) -> (r: Result<Shape, Fatal>)
    ensures
        r == expr_infer(ti_state@, line_num, expr@).0,
        diags_view(final(diags)@) == diags_view(old(diags)@) + expr_infer(
            ti_state@,
            line_num,
            expr@,
        ).1,
    decreases expr,
{
    match expr {
        MLtExpr::Basic(l) => lvalue_type(l, ti_state, line_num, diags),
        MLtExpr::Negation(b) => expr_type(b, ti_state, line_num, diags),
        MLtExpr::Parenthesized(b) => expr_type(b, ti_state, line_num, diags),
        MLtExpr::Transposed(b) => match expr_type(b, ti_state, line_num, diags) {
            Ok(s) => Ok((s.1, s.0)),
            Err(e) => Err(e),
        },
        MLtExpr::BinOp(l, op, r) => {
            match op {
                MLtBinOp::Add | MLtBinOp::Sub | MLtBinOp::Mul | MLtBinOp::Div => {
                    let ghost d0 = diags_view(old(diags)@);
                    let a = match expr_type(l, ti_state, line_num, diags) {
                        Ok(a) => a,
                        Err(e) => return Err(e),
                    };
                    let b = match expr_type(r, ti_state, line_num, diags) {
                        Ok(b) => b,
                        Err(e) => {
                            assert(diags_view(diags@) =~= d0 + (expr_infer(
                                ti_state@,
                                line_num,
                                l@,
                            ).1 + expr_infer(ti_state@, line_num, r@).1));
                            return Err(e);
                        },
                    };
                    let s = arith_type(*op, a, b, line_num, diags);
                    assert(diags_view(diags@) =~= d0 + (expr_infer(ti_state@, line_num, l@).1
                        + expr_infer(ti_state@, line_num, r@).1 + arith_warnings(
                        *op,
                        a,
                        b,
                        line_num,
                    )));
                    Ok(s)
                },
                MLtBinOp::Pow | MLtBinOp::CwisePow | MLtBinOp::CwiseMul | MLtBinOp::CwiseDiv => {
                    expr_type(l, ti_state, line_num, diags)
                },
                _ => {
                    assert(diags_view(old(diags)@) + Seq::<DiagV>::empty() =~= diags_view(
                        old(diags)@,
                    ));
                    Ok((1, 1))
                },
            }
        },
    }
}

/// Transposing twice gives back the shape of the expression, and reports
/// the same warnings.
pub proof fn lemma_transpose_twice(env: Map<Seq<char>, Shape>, line: u32, e: ExprV)
    ensures
        expr_infer(env, line, ExprV::Transposed(Box::new(ExprV::Transposed(Box::new(e)))))
            == expr_infer(env, line, e),
        shape_of(env, ExprV::Transposed(Box::new(ExprV::Transposed(Box::new(e))))) == shape_of(
            env,
            e,
        ),
{
    let t1 = ExprV::Transposed(Box::new(e));
    let t2 = ExprV::Transposed(Box::new(t1));
    reveal_with_fuel(expr_infer, 3);
    assert(expr_infer(env, line, t2) =~= expr_infer(env, line, e));
    assert(expr_infer(env, 0, t2) =~= expr_infer(env, 0, e));
}

proof fn lemma_diag_is_plain_call()
    ensures
        !is_builder("diag"@),
        !is_shape_preserving("diag"@),
        "diag"@ != "norm"@,
{
    reveal_strlit("diag");
    reveal_strlit("eye");
    reveal_strlit("ones");
    reveal_strlit("zeros");
    reveal_strlit("expm");
    reveal_strlit("min");
    reveal_strlit("max");
    reveal_strlit("cross");
    reveal_strlit("abs");
    reveal_strlit("exp");
    reveal_strlit("norm");
    let d = "diag"@;
    assert(d[0] != "eye"@[0]);
    assert(d[0] != "ones"@[0]);
    assert(d[0] != "zeros"@[0]);
    assert(d[0] != "expm"@[0]);
    assert(d[0] != "min"@[0]);
    assert(d[0] != "max"@[0]);
    assert(d[0] != "cross"@[0]);
    assert(d[0] != "abs"@[0]);
    assert(d[0] != "exp"@[0]);
    assert(d[0] != "norm"@[0]);
}

/// The diagonal builder on a vector of `n` rows gives an `n` by `n` matrix.
pub proof fn lemma_diag_of_vector(env: Map<Seq<char>, Shape>, v: ExprV, n: u32)
    requires
        shape_of(env, v) == Ok::<Shape, Fatal>((n, 1)),
    ensures
        shape_of(env, ExprV::Basic(LValueV::FunctionCall("diag"@, seq![v]))) == Ok::<
            Shape,
            Fatal,
        >((n, n)),
{
    lemma_diag_is_plain_call();
    assert(seq![v][0] == v);
    assert(lvalue_infer(env, 0, LValueV::FunctionCall("diag"@, seq![v])) == call_infer(
        env,
        0,
        "diag"@,
        seq![v],
    ));
}

/// The diagonal builder on an argument whose column count is not one is
/// fatal.
pub proof fn lemma_diag_of_non_vector(env: Map<Seq<char>, Shape>, v: ExprV, r: u32, c: u32)
    requires
        shape_of(env, v) == Ok::<Shape, Fatal>((r, c)),
        c != 1,
    ensures
        shape_of(env, ExprV::Basic(LValueV::FunctionCall("diag"@, seq![v]))) == Err::<
            Shape,
            Fatal,
        >(Fatal::NotAVector),
{
    lemma_diag_is_plain_call();
    assert(seq![v][0] == v);
    assert(lvalue_infer(env, 0, LValueV::FunctionCall("diag"@, seq![v])) == call_infer(
        env,
        0,
        "diag"@,
        seq![v],
    ));
}

/// Multiplication broadcasts a scalar operand: the result has the other
/// operand's shape; between two matrices it has the left's rows and the
/// right's columns.
pub proof fn lemma_mul_shape(env: Map<Seq<char>, Shape>, l: ExprV, r: ExprV, a: Shape, b: Shape)
    requires
        shape_of(env, l) == Ok::<Shape, Fatal>(a),
        shape_of(env, r) == Ok::<Shape, Fatal>(b),
    ensures
        shape_of(env, ExprV::BinOp(Box::new(l), MLtBinOp::Mul, Box::new(r))) == Ok::<
            Shape,
            Fatal,
        >(
            if a == (1u32, 1u32) {
                b
            } else if b == (1u32, 1u32) {
                a
            } else {
                (a.0, b.1)
            },
        ),
{
}

} // verus!
