//! Shape-directed emission: one output statement per canonical input
//! statement, typed by the inferred shapes, in a single forward pass.
use vstd::prelude::*;
use crate::infer::{
    builder_shape, builder_type, expr_infer, expr_type, inline_infer, inline_matrix_type, is_name, lvalue_infer,
    lvalue_type, push_diag, range_width, width,
};
use crate::literal::{dec_text, push_u32};
use crate::shape::{
    diags_view, return_key, wrapping_sub_u32, wsub, DiagV, Diagnostic, Fatal, Shape, ShapeEnv,
};
use crate::syntax::{
    expr_view, exprs_view, lemma_exprs_view_index, lemma_stmts_view_index, lvalue_view, names_view,
    stmts_view, AccessV, ExprV, FunctionV, LValueV, MLtBinOp, MLtExpr, MLtFunction, MLtLValue,
    MLtMatrixAccess, MLtStatement, StmtV,
};

verus! {

broadcast use vstd::std_specs::vec::group_vec_axioms;

/// The target type of a shape: a scalar, a vector of `n`, or a matrix.
pub open spec fn type_text(s: Shape) -> Seq<char> {
    if s.0 == 1 && s.1 == 1 {
        "float"@
    } else if s.1 == 1 {
        "Vector"@ + dec_text(s.0 as nat)
    } else {
        "Matrix"@ + dec_text(s.0 as nat) + "_"@ + dec_text(s.1 as nat)
    }
}

/// `ts` joined by `sep`.
pub open spec fn join(ts: Seq<Seq<char>>, sep: Seq<char>) -> Seq<char>
    decreases ts.len(),
{
    if ts.len() == 0 {
        Seq::empty()
    } else if ts.len() == 1 {
        ts[0]
    } else {
        join(ts.drop_last(), sep) + sep + ts.last()
    }
}

/// Text of a matrix access; ranges become zero-based offsets.
pub open spec fn matrix_text(m: AccessV) -> Result<Seq<char>, Fatal> {
    match m {
        AccessV::Matrix(n) => Ok(n),
        AccessV::Segment(n, r) => Ok(
            n + ".segment<"@ + dec_text(width(r) as nat) + ">("@ + dec_text(wsub(r.start, 1) as nat)
                + ")"@,
        ),
        AccessV::MultiSegment(_, _) => Err(Fatal::MultiSegmentAccess),
        AccessV::Block(n, r, c) => Ok(
            n + ".block<"@ + dec_text(width(r) as nat) + ", "@ + dec_text(width(c) as nat) + ">("@
                + dec_text(wsub(r.start, 1) as nat) + ", "@ + dec_text(wsub(c.start, 1) as nat)
                + ")"@,
        ),
        AccessV::Index(n, k) => Ok(n + "("@ + k + " - 1)"@),
    }
}

pub open spec fn binop_text(op: MLtBinOp) -> Seq<char> {
    match op {
        MLtBinOp::Add => "+"@,
        MLtBinOp::Sub => "-"@,
        MLtBinOp::Mul => "*"@,
        MLtBinOp::Div => "/"@,
        MLtBinOp::Pow => "^"@,
        MLtBinOp::CwiseMul => ".*"@,
        MLtBinOp::CwiseDiv => "./"@,
        MLtBinOp::CwisePow => ".^"@,
        MLtBinOp::And => "&&"@,
        MLtBinOp::Or => "||"@,
        MLtBinOp::EqualTo => "=="@,
        MLtBinOp::NotEqualTo => "!="@,
        MLtBinOp::LessThan => "<"@,
        MLtBinOp::LessThanEqualTo => "<="@,
        MLtBinOp::GreaterThan => ">"@,
        MLtBinOp::GreaterThanEqualTo => ">="@,
    }
}

pub open spec fn is_number(e: ExprV) -> bool {
    match e {
        ExprV::Basic(LValueV::Integer(_)) => true,
        ExprV::Basic(LValueV::Float(_)) => true,
        _ => false,
    }
}

/// Text of `l op r` from the texts of its operands: division by anything but
/// a number is multiplication by the inverse, powers are calls, elementwise
/// products and quotients are the library's coefficient-wise operations.
pub open spec fn binop_expr_text(op: MLtBinOp, lt: Seq<char>, rt: Seq<char>, r_is_number: bool) -> Seq<
    char,
> {
    if op == MLtBinOp::Div && !r_is_number {
        lt + " * "@ + rt + ".inverse()"@
    } else if op == MLtBinOp::Pow || op == MLtBinOp::CwisePow {
        "pow("@ + lt + ", "@ + rt + ")"@
    } else if op == MLtBinOp::CwiseMul {
        lt + ".cwiseProduct("@ + rt + ")"@
    } else if op == MLtBinOp::CwiseDiv {
        lt + ".cwiseQuotient("@ + rt + ")"@
    } else {
        lt + " "@ + binop_text(op) + " "@ + rt
    }
}

/// Text of a call from its arguments' texts.
pub open spec fn call_text_from(
    f: Seq<char>,
    args: Seq<ExprV>,
    texts: Seq<Seq<char>>,
) -> Result<Seq<char>, Fatal> {
    if f == "eye"@ || f == "zeros"@ || f == "ones"@ {
        match builder_shape(f, args) {
            Err(x) => Err(x),
            Ok(s) => Ok(
                type_text(s) + if f == "eye"@ {
                    "::Identity()"@
                } else if f == "zeros"@ {
                    "::Zero()"@
                } else {
                    "::Ones()"@
                },
            ),
        }
    } else if f == "expm"@ {
        Ok("matrixExpPade6("@ + join(texts, ", "@) + ")"@)
    } else if f == "diag"@ {
        Ok("("@ + join(texts, ", "@) + ").asDiagonal()"@)
    } else {
        Ok(f + "("@ + join(texts, ", "@) + ")"@)
    }
}

pub open spec fn lvalue_text(env: Map<Seq<char>, Shape>, line: u32, l: LValueV) -> Result<
    Seq<char>,
    Fatal,
>
    decreases l,
{
    match l {
        LValueV::Integer(v) => Ok(v),
        LValueV::Float(v) => Ok(v),
        LValueV::Matrix(m) => matrix_text(m),
        LValueV::StructMatrix(p, m) => match matrix_text(m) {
            Ok(t) => Ok(p + "."@ + t),
            Err(x) => Err(x),
        },
        LValueV::InlineMatrix(es) => match inline_infer(env, line, es).0 {
            Err(x) => Err(x),
            Ok(s) => match exprs_text(env, line, es) {
                Err(x) => Err(x),
                Ok(ts) => Ok("("@ + type_text(s) + "() << "@ + join(ts, ", "@) + ").finished()"@),
            },
        },
        LValueV::FunctionCall(f, args) => {
            if f == "eye"@ || f == "zeros"@ || f == "ones"@ {
                call_text_from(f, args, Seq::empty())
            } else {
                match exprs_text(env, line, args) {
                    Err(x) => Err(x),
                    Ok(ts) => call_text_from(f, args, ts),
                }
            }
        },
    }
}

pub open spec fn exprs_text(env: Map<Seq<char>, Shape>, line: u32, es: Seq<ExprV>) -> Result<
    Seq<Seq<char>>,
    Fatal,
>
    decreases es,
{
    if es.len() == 0 {
        Ok(Seq::empty())
    } else {
        match exprs_text(env, line, es.drop_last()) {
            Err(x) => Err(x),
            Ok(ts) => match expr_text(env, line, es.last()) {
                Err(x) => Err(x),
                Ok(t) => Ok(ts.push(t)),
            },
        }
    }
}

/// Text of an expression in the target language.
pub open spec fn expr_text(env: Map<Seq<char>, Shape>, line: u32, e: ExprV) -> Result<
    Seq<char>,
    Fatal,
>
    decreases e,
{
    match e {
        ExprV::Basic(l) => lvalue_text(env, line, l),
        ExprV::Negation(b) => match expr_text(env, line, *b) {
            Ok(t) => Ok("-"@ + t),
            Err(x) => Err(x),
        },
        ExprV::Transposed(b) => match expr_text(env, line, *b) {
            Ok(t) => Ok(t + ".transpose()"@),
            Err(x) => Err(x),
        },
        ExprV::Parenthesized(b) => match expr_text(env, line, *b) {
            Ok(t) => Ok("("@ + t + ")"@),
            Err(x) => Err(x),
        },
        ExprV::BinOp(l, op, r) => match expr_text(env, line, *l) {
            Err(x) => Err(x),
            Ok(lt) => match expr_text(env, line, *r) {
                Err(x) => Err(x),
                Ok(rt) => Ok(binop_expr_text(op, lt, rt, is_number(*r))),
            },
        },
    }
}

/// `r` holds the text that `t` describes, or the same fatal condition.
pub open spec fn text_result(r: Result<String, Fatal>, t: Result<Seq<char>, Fatal>) -> bool {
    match (r, t) {
        (Ok(a), Ok(b)) => a@ == b,
        (Err(a), Err(b)) => a == b,
        _ => false,
    }
}

/// Name of the target type of a shape.
pub fn type_to_cpp(shape: Shape) -> (r: String)
    ensures
        r@ == type_text(shape),
{
    if shape.0 == 1 && shape.1 == 1 {
        "float".to_string()
    } else if shape.1 == 1 {
        let mut t = "Vector".to_string();
        push_u32(&mut t, shape.0);
        t
    } else {
        let mut t = "Matrix".to_string();
        push_u32(&mut t, shape.0);
        t.append("_");
        push_u32(&mut t, shape.1);
        t
    }
}

/// The texts of `ts` joined by `sep`.
pub fn join_texts(ts: &Vec<String>, sep: &str) -> (r: String)
    ensures
        r@ == join(names_view(ts@), sep@),
{
    let ghost v = names_view(ts@);
    let mut out = String::new();
    let mut i: usize = 0;
    while i < ts.len()
        invariant
            v == names_view(ts@),
            i <= ts@.len(),
            out@ == join(v.subrange(0, i as int), sep@),
        decreases ts@.len() - i,
    {
        proof {
            let w = v.subrange(0, i + 1);
            assert(w.drop_last() =~= v.subrange(0, i as int));
            assert(w.last() == ts@[i as int]@);
            if i == 0 {
                assert(w[0] == ts@[0]@);
            }
        }
        if i > 0 {
            out.append(sep);
        }
        out.append(ts[i].as_str());
        i = i + 1;
    }
    proof {
        assert(v.subrange(0, ts@.len() as int) =~= v);
    }
    out
}

/// Text of an access: segments and blocks take their widths as template
/// arguments and zero-based offsets.
pub fn matrix_to_cpp(matrix: &MLtMatrixAccess) -> (r: Result<String, Fatal>)
    ensures
        text_result(r, matrix_text(matrix@)),
{
    match matrix {
        MLtMatrixAccess::Matrix(ident) => Ok(ident.clone()),
        MLtMatrixAccess::MatrixSegment(ident, range) => {
            let mut t = ident.clone();
            t.append(".segment<");
            push_u32(&mut t, range_width(*range));
            t.append(">(");
            push_u32(&mut t, wrapping_sub_u32(range.start, 1));
            t.append(")");
            Ok(t)
        },
        MLtMatrixAccess::MatrixMultiSegment(_, _) => Err(Fatal::MultiSegmentAccess),
        MLtMatrixAccess::MatrixBlock(ident, rows, cols) => {
            let mut t = ident.clone();
            t.append(".block<");
            push_u32(&mut t, range_width(*rows));
            t.append(", ");
            push_u32(&mut t, range_width(*cols));
            t.append(">(");
            push_u32(&mut t, wrapping_sub_u32(rows.start, 1));
            t.append(", ");
            push_u32(&mut t, wrapping_sub_u32(cols.start, 1));
            t.append(")");
            Ok(t)
        },
        MLtMatrixAccess::MatrixIndex(ident, k) => {
            let mut t = ident.clone();
            t.append("(");
            t.append(k.as_str());
            t.append(" - 1)");
            Ok(t)
        },
    }
}

pub fn binop_to_cpp(op: MLtBinOp) -> (r: &'static str)
    ensures
        r@ == binop_text(op),
{
    match op {
        MLtBinOp::Add => "+",
        MLtBinOp::Sub => "-",
        MLtBinOp::Mul => "*",
        MLtBinOp::Div => "/",
        MLtBinOp::Pow => "^",
        MLtBinOp::CwiseMul => ".*",
        MLtBinOp::CwiseDiv => "./",
        MLtBinOp::CwisePow => ".^",
        MLtBinOp::And => "&&",
        MLtBinOp::Or => "||",
        MLtBinOp::EqualTo => "==",
        MLtBinOp::NotEqualTo => "!=",
        MLtBinOp::LessThan => "<",
        MLtBinOp::LessThanEqualTo => "<=",
        MLtBinOp::GreaterThan => ">",
        MLtBinOp::GreaterThanEqualTo => ">=",
    }
}

fn expr_is_number(e: &MLtExpr) -> (r: bool)
    ensures
        r == is_number(e@),
{
    proof {
        reveal_with_fuel(expr_view, 2);
        reveal_with_fuel(lvalue_view, 2);
    }
    match e {
        MLtExpr::Basic(MLtLValue::Integer(_)) => true,
        MLtExpr::Basic(MLtLValue::Float(_)) => true,
        _ => false,
    }
}

fn binop_expr_to_cpp(op: MLtBinOp, lt: String, rt: String, r_is_number: bool) -> (r: String)
    ensures
        r@ == binop_expr_text(op, lt@, rt@, r_is_number),
{
    if op == MLtBinOp::Div && !r_is_number {
        let mut t = lt;
        t.append(" * ");
        t.append(rt.as_str());
        t.append(".inverse()");
        t
    } else if op == MLtBinOp::Pow || op == MLtBinOp::CwisePow {
        let mut t = "pow(".to_string();
        t.append(lt.as_str());
        t.append(", ");
        t.append(rt.as_str());
        t.append(")");
        t
    } else if op == MLtBinOp::CwiseMul {
        let mut t = lt;
        t.append(".cwiseProduct(");
        t.append(rt.as_str());
        t.append(")");
        t
    } else if op == MLtBinOp::CwiseDiv {
        let mut t = lt;
        t.append(".cwiseQuotient(");
        t.append(rt.as_str());
        t.append(")");
        t
    } else {
        let mut t = lt;
        t.append(" ");
        t.append(binop_to_cpp(op));
        t.append(" ");
        t.append(rt.as_str());
        t
    }
}

fn exprs_to_cpp(es: &Vec<MLtExpr>, ti_state: &ShapeEnv, line_num: u32) -> (r: Result<
    Vec<String>,
    Fatal,
>)
    ensures
        match (r, exprs_text(ti_state@, line_num, exprs_view(es@))) {
            (Ok(a), Ok(b)) => names_view(a@) == b,
            (Err(a), Err(b)) => a == b,
            _ => false,
        },
    decreases es, 0nat,
{
    let ghost v = exprs_view(es@);
    let ghost env = ti_state@;
    proof {
        lemma_exprs_view_index(es@);
    }
    let mut out: Vec<String> = Vec::new();
    let mut i: usize = 0;
    proof {
        assert(v.subrange(0, 0) =~= Seq::<ExprV>::empty());
        assert(names_view(out@) =~= Seq::<Seq<char>>::empty());
    }
    while i < es.len()
        invariant
            v == exprs_view(es@),
            env == ti_state@,
            v.len() == es@.len(),
            forall|j: int| 0 <= j < es@.len() ==> #[trigger] v[j] == es@[j]@,
            i <= es@.len(),
            exprs_text(env, line_num, v.subrange(0, i as int)) == Ok::<Seq<Seq<char>>, Fatal>(
                names_view(out@),
            ),
        decreases es@.len() - i,
    {
        let t = expr_to_cpp(&es[i], ti_state, line_num);
        proof {
            assert(v.subrange(0, i + 1).drop_last() =~= v.subrange(0, i as int));
            assert(v.subrange(0, i + 1).last() == v[i as int]);
        }
        match t {
            Ok(t) => {
                proof {
                    assert(names_view(out@.push(t)) =~= names_view(out@).push(t@));
                }
                out.push(t);
            },
            Err(x) => {
                proof {
                    lemma_exprs_text_err_stays(env, line_num, v, i + 1);
                }
                return Err(x);
            },
        }
        i = i + 1;
    }
    proof {
        assert(v.subrange(0, es@.len() as int) =~= v);
    }
    Ok(out)
}

proof fn lemma_exprs_text_err_stays(env: Map<Seq<char>, Shape>, line: u32, es: Seq<ExprV>, k: int)
    requires
        0 <= k <= es.len(),
        exprs_text(env, line, es.subrange(0, k)) is Err,
    ensures
        exprs_text(env, line, es) == exprs_text(env, line, es.subrange(0, k)),
    decreases es.len() - k,
{
    if k < es.len() {
        assert(es.drop_last().subrange(0, k) =~= es.subrange(0, k));
        lemma_exprs_text_err_stays(env, line, es.drop_last(), k);
    } else {
        assert(es.subrange(0, k) =~= es);
    }
}

/// Text of a call: builders become typed constructors, the matrix
/// exponential and the diagonal builder become the library's routines, any
/// other call stays a call.
pub fn function_call_to_cpp(
    function_name: &String,
    function_params: &Vec<MLtExpr>,
    ti_state: &ShapeEnv,
    line_num: u32,
) -> (r: Result<String, Fatal>)
    ensures
        text_result(
            r,
            lvalue_text(
                ti_state@,
                line_num,
                LValueV::FunctionCall(function_name@, exprs_view(function_params@)),
            ),
        ),
    decreases function_params, 1nat,
{
    let ghost f = function_name@;
    let ghost args = exprs_view(function_params@);
    let is_eye = is_name(function_name, "eye");
    let is_zeros = is_name(function_name, "zeros");
    let is_ones = is_name(function_name, "ones");
    if is_eye || is_zeros || is_ones {
        match builder_type(function_name, function_params) {
            Err(x) => Err(x),
            Ok(s) => {
                let mut t = type_to_cpp(s);
                if is_eye {
                    t.append("::Identity()");
                } else if is_zeros {
                    t.append("::Zero()");
                } else {
                    t.append("::Ones()");
                }
                Ok(t)
            },
        }
    } else {
        let texts = match exprs_to_cpp(function_params, ti_state, line_num) {
            Ok(ts) => ts,
            Err(x) => return Err(x),
        };
        let joined = join_texts(&texts, ", ");
        if is_name(function_name, "expm") {
            let mut t = "matrixExpPade6(".to_string();
            t.append(joined.as_str());
            t.append(")");
            Ok(t)
        } else if is_name(function_name, "diag") {
            let mut t = "(".to_string();
            t.append(joined.as_str());
            t.append(").asDiagonal()");
            Ok(t)
        } else {
            let mut t = function_name.clone();
            t.append("(");
            t.append(joined.as_str());
            t.append(")");
            Ok(t)
        }
    }
}

/// Text of an access, literal, inline matrix or call.
pub fn lvalue_to_cpp(lvalue: &MLtLValue, ti_state: &ShapeEnv, line_num: u32) -> (r: Result<
    String,
    Fatal,
>)
    ensures
        text_result(r, lvalue_text(ti_state@, line_num, lvalue@)),
    decreases lvalue, 0nat,
{
    match lvalue {
        MLtLValue::Integer(v) => Ok(v.clone()),
        MLtLValue::Float(v) => Ok(v.clone()),
        MLtLValue::Matrix(m) => matrix_to_cpp(m),
        MLtLValue::StructMatrix(p, m) => match matrix_to_cpp(m) {
            Ok(t) => {
                let mut s = p.clone();
                s.append(".");
                s.append(t.as_str());
                Ok(s)
            },
            Err(x) => Err(x),
        },
        MLtLValue::InlineMatrix(es) => {
            let mut scratch: Vec<Diagnostic> = Vec::new();
            let shape = match inline_matrix_type(es, ti_state, line_num, &mut scratch) {
                Ok(s) => s,
                Err(x) => return Err(x),
            };
            let texts = match exprs_to_cpp(es, ti_state, line_num) {
                Ok(ts) => ts,
                Err(x) => return Err(x),
            };
            let mut t = "(".to_string();
            t.append(type_to_cpp(shape).as_str());
            t.append("() << ");
            t.append(join_texts(&texts, ", ").as_str());
            t.append(").finished()");
            Ok(t)
        },
        MLtLValue::FunctionCall(f, args) => function_call_to_cpp(f, args, ti_state, line_num),
    }
}

/// Text of an expression in the target language.
pub fn expr_to_cpp(expr: &MLtExpr, ti_state: &ShapeEnv, line_num: u32) -> (r: Result<
    String,
    Fatal,
>)
    ensures
        text_result(r, expr_text(ti_state@, line_num, expr@)),
    decreases expr, 0nat,
{
    match expr {
        MLtExpr::Basic(l) => lvalue_to_cpp(l, ti_state, line_num),
        MLtExpr::Negation(b) => match expr_to_cpp(b, ti_state, line_num) {
            Ok(t) => {
                let mut s = "-".to_string();
                s.append(t.as_str());
                Ok(s)
            },
            Err(x) => Err(x),
        },
        MLtExpr::Transposed(b) => match expr_to_cpp(b, ti_state, line_num) {
            Ok(t) => {
                let mut s = t;
                s.append(".transpose()");
                Ok(s)
            },
            Err(x) => Err(x),
        },
        MLtExpr::Parenthesized(b) => match expr_to_cpp(b, ti_state, line_num) {
            Ok(t) => {
                let mut s = "(".to_string();
                s.append(t.as_str());
                s.append(")");
                Ok(s)
            },
            Err(x) => Err(x),
        },
        MLtExpr::BinOp(l, op, r) => {
            let lt = match expr_to_cpp(l, ti_state, line_num) {
                Ok(t) => t,
                Err(x) => return Err(x),
            };
            let rt = match expr_to_cpp(r, ti_state, line_num) {
                Ok(t) => t,
                Err(x) => return Err(x),
            };
            let n = expr_is_number(r);
            Ok(binop_expr_to_cpp(*op, lt, rt, n))
        },
    }
}

/// The text emitted, the environment and line counter after it, and the
/// warnings reported, in order; or the fatal condition that stopped it.
pub type Emitted = Result<(Seq<char>, Map<Seq<char>, Shape>, u32, Seq<DiagV>), Fatal>;

/// The line counter after a line break; it stops at the largest `u32`.
pub open spec fn next_line(l: u32) -> u32 {
    if l < u32::MAX {
        (l + 1) as u32
    } else {
        l
    }
}

/// A plain matrix or struct field name, which a first assignment declares.
pub open spec fn is_simple_target(l: LValueV) -> bool {
    match l {
        LValueV::Matrix(AccessV::Matrix(_)) => true,
        LValueV::StructMatrix(_, AccessV::Matrix(_)) => true,
        _ => false,
    }
}

/// An assignment: the first to a plain name declares it with the type of the
/// value's shape and records that shape; any other is a plain assignment that
/// reports a target whose shape differs from the value's.
pub open spec fn assign_out(env: Map<Seq<char>, Shape>, line: u32, l: LValueV, e: ExprV) -> Emitted {
    match lvalue_text(env, line, l) {
        Err(x) => Err(x),
        Ok(lt) => match expr_infer(env, line, e).0 {
            Err(x) => Err(x),
            Ok(rs) => match expr_text(env, line, e) {
                Err(x) => Err(x),
                Ok(rt) => if is_simple_target(l) && !env.contains_key(lt) {
                    Ok(
                        (
                            type_text(rs) + " "@ + lt + " = "@ + rt + ";"@,
                            env.insert(lt, rs),
                            line,
                            expr_infer(env, line, e).1,
                        ),
                    )
                } else {
                    match lvalue_infer(env, line, l).0 {
                        Err(x) => Err(x),
                        Ok(ls) => Ok(
                            (
                                lt + " = "@ + rt + ";"@,
                                env,
                                line,
                                expr_infer(env, line, e).1 + lvalue_infer(env, line, l).1 + if ls
                                    != rs {
                                    seq![DiagV::AssignMismatch(ls, rs, line)]
                                } else {
                                    Seq::empty()
                                },
                            ),
                        ),
                    }
                },
            },
        },
    }
}

pub open spec fn stmt_out(env: Map<Seq<char>, Shape>, line: u32, s: StmtV) -> Emitted
    decreases s,
{
    match s {
        StmtV::Assignment(l, e) => assign_out(env, line, l, e),
        StmtV::Normalization(n) => Ok((n + ".normalize();"@, env, line, Seq::empty())),
        StmtV::Persistent(ids) => Ok(
            (
                "// the following vars are persistent: "@ + join(ids, ", "@) + "\n"@,
                env,
                next_line(line),
                Seq::empty(),
            ),
        ),
        StmtV::IfStatement(c, body) => match expr_text(env, next_line(line), c) {
            Err(x) => Err(x),
            Ok(ct) => match expr_infer(env, next_line(line), c).0 {
                Err(x) => Err(x),
                Ok(_) => match stmts_out(env, next_line(line), body) {
                    Err(x) => Err(x),
                    Ok((bt, _, l2, d)) => Ok(
                        (
                            "if ("@ + ct + ") {\n"@ + bt + "}"@,
                            env,
                            l2,
                            expr_infer(env, next_line(line), c).1 + d,
                        ),
                    ),
                },
            },
        },
        StmtV::Comment(t) => Ok(("// "@ + t, env, line, Seq::empty())),
        StmtV::Error(t) => Ok(
            ("// "@ + t + "; // line could not be parsed"@, env, line, seq![DiagV::Unparsed(t)]),
        ),
        StmtV::NewLine => Ok(("\n"@, env, next_line(line), Seq::empty())),
    }
}

/// A statement list, in order, each statement in the environment and at the
/// line that the ones before it left. A conditional body works on a copy of
/// the environment, so what it learns is gone after it.
pub open spec fn stmts_out(env: Map<Seq<char>, Shape>, line: u32, ss: Seq<StmtV>) -> Emitted
    decreases ss,
{
    if ss.len() == 0 {
        Ok((Seq::empty(), env, line, Seq::empty()))
    } else {
        match stmts_out(env, line, ss.drop_last()) {
            Err(x) => Err(x),
            Ok((t, env2, l2, d)) => match stmt_out(env2, l2, ss.last()) {
                Err(x) => Err(x),
                Ok((t2, env3, l3, d2)) => Ok((t + t2, env3, l3, d + d2)),
            },
        }
    }
}

/// `r` returns what `o` describes, with `env`, `line` and `diags` updated
/// as it says; or the same fatal condition.
pub open spec fn emitted(
    o: Emitted,
    r: Result<String, Fatal>,
    env: Map<Seq<char>, Shape>,
    line: u32,
    old_diags: Seq<Diagnostic>,
    diags: Seq<Diagnostic>,
) -> bool {
    match o {
        Ok((t, env2, l2, d)) => text_result(r, Ok(t)) && env == env2 && line == l2 && diags_view(
            diags,
        ) == diags_view(old_diags) + d,
        Err(x) => r == Err::<String, Fatal>(x),
    }
}

fn next_line_exec(l: u32) -> (r: u32)
    ensures
        r == next_line(l),
{
    if l < u32::MAX {
        l + 1
    } else {
        l
    }
}

fn matrix_access_should_have_type(matrix: &MLtMatrixAccess) -> (r: bool)
    ensures
        r == (matrix@ is Matrix),
{
    match matrix {
        MLtMatrixAccess::Matrix(_) => true,
        _ => false,
    }
}

/// Whether a target is a plain matrix or struct field name.
fn lvalue_is_simple_matrix(lvalue: &MLtLValue) -> (r: bool)
    ensures
        r == is_simple_target(lvalue@),
{
    match lvalue {
        MLtLValue::Matrix(m) => matrix_access_should_have_type(m),
        MLtLValue::StructMatrix(_, m) => matrix_access_should_have_type(m),
        _ => false,
    }
}

fn assignment_output(
    lvalue: &MLtLValue,
    expr: &MLtExpr,
    ti_state: &mut ShapeEnv,
    line_num: u32,
    diags: &mut Vec<Diagnostic>,
) -> (r: Result<String, Fatal>)
    ensures
        emitted(
            assign_out(old(ti_state)@, line_num, lvalue@, expr@),
            r,
            final(ti_state)@,
            line_num,
            old(diags)@,
            final(diags)@,
        ),
{
    let simple = lvalue_is_simple_matrix(lvalue);
    let lt = match lvalue_to_cpp(lvalue, ti_state, line_num) {
        Ok(t) => t,
        Err(x) => return Err(x),
    };
    let rs = match expr_type(expr, ti_state, line_num, diags) {
        Ok(s) => s,
        Err(x) => return Err(x),
    };
    let rt = match expr_to_cpp(expr, ti_state, line_num) {
        Ok(t) => t,
        Err(x) => return Err(x),
    };
    if simple && !ti_state.contains_key(&lt) {
        let mut out = type_to_cpp(rs);
        out.append(" ");
        out.append(lt.as_str());
        out.append(" = ");
        out.append(rt.as_str());
        out.append(";");
        ti_state.insert(lt, rs);
        Ok(out)
    } else {
        let ls = match lvalue_type(lvalue, ti_state, line_num, diags) {
            Ok(s) => s,
            Err(x) => return Err(x),
        };
        if ls.0 != rs.0 || ls.1 != rs.1 {
            push_diag(diags, Diagnostic::AssignMismatch(ls, rs, line_num));
            assert(diags_view(diags@) =~= diags_view(old(diags)@) + (expr_infer(
                old(ti_state)@,
                line_num,
                expr@,
            ).1 + lvalue_infer(old(ti_state)@, line_num, lvalue@).1 + seq![
                DiagV::AssignMismatch(ls, rs, line_num),
            ]));
        } else {
            assert(diags_view(diags@) =~= diags_view(old(diags)@) + (expr_infer(
                old(ti_state)@,
                line_num,
                expr@,
            ).1 + lvalue_infer(old(ti_state)@, line_num, lvalue@).1 + Seq::<DiagV>::empty()));
        }
        let mut out = lt;
        out.append(" = ");
        out.append(rt.as_str());
        out.append(";");
        Ok(out)
    }
}

/// Emits one statement, recording what it declares in `ti_state` and the
/// warnings in `diags`, and advancing `line_num` past the lines it stands for.
pub fn generate_output_for_statement(
    statement: &MLtStatement,
    ti_state: &mut ShapeEnv,
    line_num: &mut u32,
    diags: &mut Vec<Diagnostic>,
) -> (r: Result<String, Fatal>)
    ensures
        emitted(
            stmt_out(old(ti_state)@, *old(line_num), statement@),
            r,
            final(ti_state)@,
            *final(line_num),
            old(diags)@,
            final(diags)@,
        ),
    decreases statement,
{
    match statement {
        MLtStatement::Assignment(l, e) => assignment_output(l, e, ti_state, *line_num, diags),
        MLtStatement::Normalization(name) => {
            let mut out = name.clone();
            out.append(".normalize();");
            assert(diags_view(diags@) =~= diags_view(old(diags)@) + Seq::<DiagV>::empty());
            Ok(out)
        },
        MLtStatement::Persistent(idents) => {
            *line_num = next_line_exec(*line_num);
            let mut out = "// the following vars are persistent: ".to_string();
            out.append(join_texts(idents, ", ").as_str());
            out.append("\n");
            assert(diags_view(diags@) =~= diags_view(old(diags)@) + Seq::<DiagV>::empty());
            Ok(out)
        },
        MLtStatement::IfStatement(cond, body) => {
            *line_num = next_line_exec(*line_num);
            let ct = match expr_to_cpp(cond, ti_state, *line_num) {
                Ok(t) => t,
                Err(x) => return Err(x),
            };
            // the condition should be a scalar; its shape is inferred for
            // the warnings, not enforced
            match expr_type(cond, ti_state, *line_num, diags) {
                Ok(_) => {},
                Err(x) => return Err(x),
            }
            let mut inner = ti_state.snapshot();
            let bt = match generate_output_for_statement_list(body, &mut inner, line_num, diags) {
                Ok(t) => t,
                Err(x) => return Err(x),
            };
            proof {
                let cd = expr_infer(old(ti_state)@, next_line(*old(line_num)), cond@).1;
                let o = stmts_out(old(ti_state)@, next_line(*old(line_num)), stmts_view(body@));
                assert(diags_view(diags@) =~= diags_view(old(diags)@) + (cd + o->Ok_0.3));
            }
            let mut out = "if (".to_string();
            out.append(ct.as_str());
            out.append(") {\n");
            out.append(bt.as_str());
            out.append("}");
            Ok(out)
        },
        MLtStatement::Comment(text) => {
            let mut out = "// ".to_string();
            out.append(text.as_str());
            assert(diags_view(diags@) =~= diags_view(old(diags)@) + Seq::<DiagV>::empty());
            Ok(out)
        },
        MLtStatement::Error(text) => {
            let mut out = "// ".to_string();
            out.append(text.as_str());
            out.append("; // line could not be parsed");
            push_diag(diags, Diagnostic::Unparsed(text.clone()));
            Ok(out)
        },
        MLtStatement::NewLine => {
            *line_num = next_line_exec(*line_num);
            assert(diags_view(diags@) =~= diags_view(old(diags)@) + Seq::<DiagV>::empty());
            Ok("\n".to_string())
        },
    }
}

proof fn lemma_stmts_out_err_stays(env: Map<Seq<char>, Shape>, line: u32, ss: Seq<StmtV>, k: int)
    requires
        0 <= k <= ss.len(),
        stmts_out(env, line, ss.subrange(0, k)) is Err,
    ensures
        stmts_out(env, line, ss) == stmts_out(env, line, ss.subrange(0, k)),
    decreases ss.len() - k,
{
    if k < ss.len() {
        assert(ss.drop_last().subrange(0, k) =~= ss.subrange(0, k));
        lemma_stmts_out_err_stays(env, line, ss.drop_last(), k);
    } else {
        assert(ss.subrange(0, k) =~= ss);
    }
}

/// Emits a statement list in order; the texts are concatenated.
pub fn generate_output_for_statement_list(
    statement_list: &Vec<MLtStatement>,
    ti_state: &mut ShapeEnv,
    line_num: &mut u32,
    diags: &mut Vec<Diagnostic>,
) -> (r: Result<String, Fatal>)
    ensures
        emitted(
            stmts_out(old(ti_state)@, *old(line_num), stmts_view(statement_list@)),
            r,
            final(ti_state)@,
            *final(line_num),
            old(diags)@,
            final(diags)@,
        ),
    decreases statement_list,
{
    let ghost v = stmts_view(statement_list@);
    let ghost env0 = ti_state@;
    let ghost line0 = *line_num;
    proof {
        lemma_stmts_view_index(statement_list@);
        assert(v.subrange(0, 0) =~= Seq::<StmtV>::empty());
        assert(diags_view(diags@) =~= diags_view(old(diags)@) + Seq::<DiagV>::empty());
    }
    let mut out = String::new();
    let mut i: usize = 0;
    while i < statement_list.len()
        invariant
            v == stmts_view(statement_list@),
            v.len() == statement_list@.len(),
            forall|j: int| 0 <= j < statement_list@.len() ==> #[trigger] v[j] == statement_list@[j]@,
            env0 == old(ti_state)@,
            line0 == *old(line_num),
            i <= statement_list@.len(),
            match stmts_out(env0, line0, v.subrange(0, i as int)) {
                Ok((t, e2, l2, d)) => out@ == t && ti_state@ == e2 && *line_num == l2 && diags_view(
                    diags@,
                ) == diags_view(old(diags)@) + d,
                Err(_) => false,
            },
        decreases statement_list@.len() - i,
    {
        let r = generate_output_for_statement(&statement_list[i], ti_state, line_num, diags);
        proof {
            assert(v.subrange(0, i + 1).drop_last() =~= v.subrange(0, i as int));
            assert(v.subrange(0, i + 1).last() == v[i as int]);
        }
        match r {
            Ok(t) => {
                out.append(t.as_str());
                proof {
                    let w = v.subrange(0, i + 1);
                    let prev = stmts_out(env0, line0, v.subrange(0, i as int));
                    assert(prev is Ok);
                    let d = prev->Ok_0.3;
                    let d2 = stmt_out(prev->Ok_0.1, prev->Ok_0.2, v[i as int])->Ok_0.3;
                    assert(diags_view(diags@) =~= diags_view(old(diags)@) + (d + d2));
                }
            },
            Err(x) => {
                proof {
                    lemma_stmts_out_err_stays(env0, line0, v, i + 1);
                }
                return Err(x);
            },
        }
        i = i + 1;
    }
    proof {
        assert(v.subrange(0, statement_list@.len() as int) =~= v);
    }
    Ok(out)
}

/// A parameter without the `&` that marks it as by-reference.
pub open spec fn strip_ref(p: Seq<char>) -> Seq<char> {
    if p.len() > 0 && p[0] == '&' {
        p.subrange(1, p.len() as int)
    } else {
        p
    }
}

/// A parameter with its type: that of its recorded shape, or a placeholder
/// named after it.
pub open spec fn param_text(env: Map<Seq<char>, Shape>, p: Seq<char>) -> Seq<char> {
    (if env.contains_key(strip_ref(p)) {
        type_text(env[strip_ref(p)])
    } else {
        strip_ref(p) + "_t"@
    }) + " "@ + p
}

pub open spec fn params_text(env: Map<Seq<char>, Shape>, ps: Seq<Seq<char>>) -> Seq<char> {
    join(Seq::new(ps.len(), |i: int| param_text(env, ps[i])), ", "@)
}

/// A whole function: its return type is that of the shape recorded for its
/// own return value, which must be there.
pub open spec fn function_out(env: Map<Seq<char>, Shape>, line: u32, f: FunctionV) -> Emitted {
    if !env.contains_key(return_key()) {
        Err(Fatal::MissingReturnShape)
    } else {
        match stmts_out(env, line, f.body) {
            Err(x) => Err(x),
            Ok((bt, env2, l2, d)) => Ok(
                (
                    type_text(env[return_key()]) + " "@ + f.name + "("@ + params_text(env, f.params)
                        + ") {"@ + bt + "return "@ + f.return_obj + ";\n}\n"@,
                    env2,
                    l2,
                    d,
                ),
            ),
        }
    }
}

fn strip_ref_exec(p: &String) -> (r: String)
    ensures
        r@ == strip_ref(p@),
{
    let s = p.as_str();
    let n = s.unicode_len();
    if n > 0 && s.get_char(0) == '&' {
        s.substring_char(1, n).to_string()
    } else {
        p.clone()
    }
}

fn param_to_cpp(ti_state: &ShapeEnv, p: &String) -> (r: String)
    ensures
        r@ == param_text(ti_state@, p@),
{
    let q = strip_ref_exec(p);
    let mut out = match ti_state.get(&q) {
        Some(s) => type_to_cpp(s),
        None => {
            let mut t = q;
            t.append("_t");
            t
        },
    };
    out.append(" ");
    out.append(p.as_str());
    out
}

/// Emits a whole function, its body included.
pub fn generate_output_for_function(
    function: &MLtFunction,
    ti_state: &mut ShapeEnv,
    line_num: &mut u32,
    diags: &mut Vec<Diagnostic>,
) -> (r: Result<String, Fatal>)
    ensures
        emitted(
            function_out(old(ti_state)@, *old(line_num), function@),
            r,
            final(ti_state)@,
            *final(line_num),
            old(diags)@,
            final(diags)@,
        ),
{
    let key = "_self".to_string();
    let ret = match ti_state.get(&key) {
        Some(s) => s,
        None => return Err(Fatal::MissingReturnShape),
    };
    let ghost env0 = ti_state@;
    let ghost ps = names_view(function.params@);
    let mut texts: Vec<String> = Vec::new();
    let mut i: usize = 0;
    while i < function.params.len()
        invariant
            i <= function.params@.len(),
            env0 == ti_state@,
            ps == names_view(function.params@),
            names_view(texts@) =~= Seq::new(i as nat, |j: int| param_text(env0, ps[j])),
        decreases function.params@.len() - i,
    {
        let t = param_to_cpp(ti_state, &function.params[i]);
        proof {
            assert(names_view(texts@.push(t)) =~= names_view(texts@).push(t@));
        }
        texts.push(t);
        i = i + 1;
    }
    let params = join_texts(&texts, ", ");
    let body = match generate_output_for_statement_list(&function.body, ti_state, line_num, diags) {
        Ok(t) => t,
        Err(x) => return Err(x),
    };
    let mut out = type_to_cpp(ret);
    out.append(" ");
    out.append(function.name.as_str());
    out.append("(");
    out.append(params.as_str());
    out.append(") {");
    out.append(body.as_str());
    out.append("return ");
    out.append(function.return_obj.as_str());
    out.append(";\n}\n");
    Ok(out)
}

/// The header that every output file starts with.
pub open spec fn file_header() -> Seq<char> {
    "#include \"matlab_funcs.h\"\n\n"@
}

/// The text of a whole output file for `function`, whose body is numbered
/// from line three on; what the function declares is recorded in `ti_state`.
pub fn generate_output_file(
    function: &MLtFunction,
    ti_state: &mut ShapeEnv,
    diags: &mut Vec<Diagnostic>,
) -> (r: Result<String, Fatal>)
    ensures
        match function_out(old(ti_state)@, 3, function@) {
            Ok((t, env2, _, d)) => text_result(r, Ok(file_header() + t)) && final(ti_state)@ == env2
                && diags_view(final(diags)@) == diags_view(old(diags)@) + d,
            Err(x) => r == Err::<String, Fatal>(x),
        },
{
    let mut line_num: u32 = 3;
    let text = match generate_output_for_function(function, ti_state, &mut line_num, diags) {
        Ok(t) => t,
        Err(x) => return Err(x),
    };
    let mut out = "#include \"matlab_funcs.h\"\n\n".to_string();
    out.append(text.as_str());
    Ok(out)
}

/// An assignment to the plain name `n`.
pub open spec fn assign_to(n: Seq<char>, e: ExprV) -> StmtV {
    StmtV::Assignment(LValueV::Matrix(AccessV::Matrix(n)), e)
}

/// A first assignment to a plain name with no recorded shape emits a
/// declaration typed by the value's shape, and records that shape.
pub proof fn lemma_first_assignment_declares(
    env: Map<Seq<char>, Shape>,
    line: u32,
    n: Seq<char>,
    e: ExprV,
    rs: Shape,
    rt: Seq<char>,
)
    requires
        !env.contains_key(n),
        expr_infer(env, line, e).0 == Ok::<Shape, Fatal>(rs),
        expr_text(env, line, e) == Ok::<Seq<char>, Fatal>(rt),
    ensures
        stmt_out(env, line, assign_to(n, e)) == Ok::<
            (Seq<char>, Map<Seq<char>, Shape>, u32, Seq<DiagV>),
            Fatal,
        >((type_text(rs) + " "@ + n + " = "@ + rt + ";"@, env.insert(n, rs), line, expr_infer(env, line, e).1)),
{
}

/// An assignment to a plain name whose recorded shape differs from the
/// value's emits a plain assignment, records nothing new, and reports both
/// shapes.
pub proof fn lemma_reassignment_reports_mismatch(
    env: Map<Seq<char>, Shape>,
    line: u32,
    n: Seq<char>,
    e: ExprV,
    rs: Shape,
    rt: Seq<char>,
)
    requires
        env.contains_key(n),
        env[n] != rs,
        expr_infer(env, line, e).0 == Ok::<Shape, Fatal>(rs),
        expr_text(env, line, e) == Ok::<Seq<char>, Fatal>(rt),
    ensures
        stmt_out(env, line, assign_to(n, e)) == Ok::<
            (Seq<char>, Map<Seq<char>, Shape>, u32, Seq<DiagV>),
            Fatal,
        >(
            (
                n + " = "@ + rt + ";"@,
                env,
                line,
                expr_infer(env, line, e).1 + seq![DiagV::AssignMismatch(env[n], rs, line)],
            ),
        ),
{
    assert(Seq::<char>::empty() + n =~= n);
    assert(lvalue_infer(env, line, LValueV::Matrix(AccessV::Matrix(n))) == (
        Ok::<Shape, Fatal>(env[n]),
        Seq::<DiagV>::empty(),
    ));
    assert(expr_infer(env, line, e).1 + Seq::<DiagV>::empty() + seq![
        DiagV::AssignMismatch(env[n], rs, line),
    ] =~= expr_infer(env, line, e).1 + seq![DiagV::AssignMismatch(env[n], rs, line)]);
}

/// Two assignments to one new plain name with values of different shapes:
/// the first declares the name, the second is a plain assignment that
/// reports the mismatch.
pub proof fn lemma_declare_then_mismatch(
    env: Map<Seq<char>, Shape>,
    line: u32,
    n: Seq<char>,
    e1: ExprV,
    e2: ExprV,
    s1: Shape,
    s2: Shape,
    t1: Seq<char>,
    t2: Seq<char>,
)
    requires
        !env.contains_key(n),
        expr_infer(env, line, e1).0 == Ok::<Shape, Fatal>(s1),
        expr_text(env, line, e1) == Ok::<Seq<char>, Fatal>(t1),
        expr_infer(env.insert(n, s1), line, e2).0 == Ok::<Shape, Fatal>(s2),
        expr_text(env.insert(n, s1), line, e2) == Ok::<Seq<char>, Fatal>(t2),
        s1 != s2,
    ensures
        stmts_out(env, line, seq![assign_to(n, e1), assign_to(n, e2)]) == Ok::<
            (Seq<char>, Map<Seq<char>, Shape>, u32, Seq<DiagV>),
            Fatal,
        >(
            (
                type_text(s1) + " "@ + n + " = "@ + t1 + ";"@ + (n + " = "@ + t2 + ";"@),
                env.insert(n, s1),
                line,
                expr_infer(env, line, e1).1 + (expr_infer(env.insert(n, s1), line, e2).1 + seq![
                    DiagV::AssignMismatch(s1, s2, line),
                ]),
            ),
        ),
{
    let ss = seq![assign_to(n, e1), assign_to(n, e2)];
    let env1 = env.insert(n, s1);
    lemma_first_assignment_declares(env, line, n, e1, s1, t1);
    lemma_reassignment_reports_mismatch(env1, line, n, e2, s2, t2);
    assert(ss.drop_last() =~= seq![assign_to(n, e1)]);
    assert(ss.drop_last().drop_last() =~= Seq::<StmtV>::empty());
    assert(Seq::<char>::empty() + (type_text(s1) + " "@ + n + " = "@ + t1 + ";"@) =~= type_text(s1)
        + " "@ + n + " = "@ + t1 + ";"@);
    assert(Seq::<DiagV>::empty() + expr_infer(env, line, e1).1 =~= expr_infer(env, line, e1).1);
    let decl = type_text(s1) + " "@ + n + " = "@ + t1 + ";"@;
    let d1 = expr_infer(env, line, e1).1;
    assert(stmts_out(env, line, Seq::<StmtV>::empty()) == Ok::<
        (Seq<char>, Map<Seq<char>, Shape>, u32, Seq<DiagV>),
        Fatal,
    >((Seq::<char>::empty(), env, line, Seq::<DiagV>::empty())));
    assert(stmts_out(env, line, ss.drop_last()) == Ok::<
        (Seq<char>, Map<Seq<char>, Shape>, u32, Seq<DiagV>),
        Fatal,
    >((decl, env1, line, d1)));
    assert(ss.last() == assign_to(n, e2));
}

/// What a conditional body declares is gone after the conditional: the
/// environment after it is the one before it, so a name unknown before it
/// is still reported as unknown after it, whatever the body assigned.
pub proof fn lemma_branch_does_not_leak(
    env: Map<Seq<char>, Shape>,
    line: u32,
    c: ExprV,
    body: Seq<StmtV>,
    n: Seq<char>,
    later_line: u32,
)
    requires
        stmt_out(env, line, StmtV::IfStatement(c, body)) is Ok,
        !env.contains_key(n),
    ensures
        stmt_out(env, line, StmtV::IfStatement(c, body))->Ok_0.1 == env,
        lvalue_infer(
            stmt_out(env, line, StmtV::IfStatement(c, body))->Ok_0.1,
            later_line,
            LValueV::Matrix(AccessV::Matrix(n)),
        ) == (Ok::<Shape, Fatal>((0, 0)), seq![DiagV::UnknownName(n)]),
{
    assert(Seq::<char>::empty() + n =~= n);
}

} // verus!
