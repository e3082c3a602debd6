//! Canonicalization: rewrites that leave each later shape rule exactly one
//! way to match. Multi-segment accesses become inline matrices of segments,
//! `pi` becomes the library's constant, a one-literal call that is no builder
//! becomes an element index, `x = x / norm(x)` becomes an in-place
//! normalization, and persistent variables become by-reference parameters.
use vstd::prelude::*;
use crate::infer::{access_infer, expr_infer, inline_infer, is_builder, is_name, lvalue_infer, width};
use crate::shape::{wadd, DiagV, Fatal, Shape};
use crate::syntax::{
    expr_view, exprs_view, lemma_exprs_view_index, lemma_exprs_view_push, lemma_stmts_view_index,
    lemma_stmts_view_push, lvalue_view, names_view, stmts_view, AccessV, ExprV, FunctionV, LValueV,
    MLtBinOp, MLtExpr, MLtFunction, MLtLValue, MLtMatrixAccess, MLtRange, MLtStatement, StmtV,
};

verus! {

broadcast use vstd::std_specs::vec::group_vec_axioms;

/// The segment accesses that a multi-segment access stands for, in order;
/// `prefix` is the struct prefix, if any.
pub open spec fn segment_exprs(prefix: Option<Seq<char>>, n: Seq<char>, rs: Seq<MLtRange>) -> Seq<
    ExprV,
> {
    Seq::new(
        rs.len(),
        |i: int|
            match prefix {
                Some(p) => ExprV::Basic(LValueV::StructMatrix(p, AccessV::Segment(n, rs[i]))),
                None => ExprV::Basic(LValueV::Matrix(AccessV::Segment(n, rs[i]))),
            },
    )
}

/// A call with exactly one integer literal argument that is no builder is an
/// element index.
pub open spec fn index_call(f: Seq<char>, args: Seq<ExprV>) -> LValueV {
    if args.len() == 1 && !is_builder(f) {
        match args[0] {
            ExprV::Basic(LValueV::Integer(k)) => LValueV::Matrix(AccessV::Index(f, k)),
            _ => LValueV::FunctionCall(f, args),
        }
    } else {
        LValueV::FunctionCall(f, args)
    }
}

/// The multi-segment rewrite alone.
pub open spec fn expand_multiseg(l: LValueV) -> LValueV {
    match l {
        LValueV::Matrix(AccessV::MultiSegment(n, rs)) => LValueV::InlineMatrix(
            segment_exprs(None, n, rs),
        ),
        LValueV::StructMatrix(p, AccessV::MultiSegment(n, rs)) => LValueV::InlineMatrix(
            segment_exprs(Some(p), n, rs),
        ),
        _ => l,
    }
}

pub open spec fn canon_lvalue(l: LValueV) -> LValueV
    decreases l,
{
    match l {
        LValueV::Matrix(AccessV::MultiSegment(n, rs)) => LValueV::InlineMatrix(
            segment_exprs(None, n, rs),
        ),
        LValueV::StructMatrix(p, AccessV::MultiSegment(n, rs)) => LValueV::InlineMatrix(
            segment_exprs(Some(p), n, rs),
        ),
        LValueV::Matrix(AccessV::Matrix(n)) => if n == "pi"@ {
            LValueV::Matrix(AccessV::Matrix("M_PI"@))
        } else {
            l
        },
        LValueV::InlineMatrix(es) => LValueV::InlineMatrix(canon_exprs(es)),
        LValueV::FunctionCall(f, es) => index_call(f, canon_exprs(es)),
        _ => l,
    }
}

pub open spec fn canon_expr(e: ExprV) -> ExprV
    decreases e,
{
    match e {
        ExprV::Basic(l) => ExprV::Basic(canon_lvalue(l)),
        ExprV::Negation(b) => ExprV::Negation(Box::new(canon_expr(*b))),
        ExprV::Transposed(b) => ExprV::Transposed(Box::new(canon_expr(*b))),
        ExprV::Parenthesized(b) => ExprV::Parenthesized(Box::new(canon_expr(*b))),
        ExprV::BinOp(l, op, r) => ExprV::BinOp(
            Box::new(canon_expr(*l)),
            op,
            Box::new(canon_expr(*r)),
        ),
    }
}

pub open spec fn canon_exprs(es: Seq<ExprV>) -> Seq<ExprV>
    decreases es,
{
    if es.len() == 0 {
        Seq::empty()
    } else {
        canon_exprs(es.drop_last()).push(canon_expr(es.last()))
    }
}

/// The name `x` where the assignment is `x = x / norm(x)`.
pub open spec fn norm_target(l: LValueV, e: ExprV) -> Option<Seq<char>> {
    match l {
        LValueV::Matrix(AccessV::Matrix(t)) => match e {
            ExprV::BinOp(d, op, r) => match *d {
                ExprV::Basic(LValueV::Matrix(AccessV::Matrix(dn))) => match *r {
                    ExprV::Basic(LValueV::FunctionCall(f, args)) => if op == MLtBinOp::Div && f
                        == "norm"@ && args.len() == 1 && dn == t && args[0] == ExprV::Basic(
                        LValueV::Matrix(AccessV::Matrix(t)),
                    ) {
                        Some(t)
                    } else {
                        None
                    },
                    _ => None,
                },
                _ => None,
            },
            _ => None,
        },
        _ => None,
    }
}

pub open spec fn canon_stmt(s: StmtV) -> StmtV
    decreases s,
{
    match s {
        StmtV::Assignment(l, e) => match norm_target(canon_lvalue(l), canon_expr(e)) {
            Some(t) => StmtV::Normalization(t),
            None => StmtV::Assignment(canon_lvalue(l), canon_expr(e)),
        },
        StmtV::IfStatement(c, body) => StmtV::IfStatement(canon_expr(c), canon_stmts(body)),
        _ => s,
    }
}

/// The canonical statement stream: each statement canonicalized, persistent
/// declarations left out.
pub open spec fn canon_stmts(ss: Seq<StmtV>) -> Seq<StmtV>
    decreases ss,
{
    if ss.len() == 0 {
        Seq::empty()
    } else {
        canon_stmts(ss.drop_last()) + match ss.last() {
            StmtV::Persistent(_) => Seq::empty(),
            _ => seq![canon_stmt(ss.last())],
        }
    }
}

/// A persistent variable as a by-reference parameter.
pub open spec fn by_ref(n: Seq<char>) -> Seq<char> {
    "&"@ + n
}

pub open spec fn hoisted_stmt(s: StmtV) -> Seq<Seq<char>>
    decreases s,
{
    match s {
        StmtV::Persistent(ns) => Seq::new(ns.len(), |i: int| by_ref(ns[i])),
        StmtV::IfStatement(_, body) => hoisted(body),
        _ => Seq::empty(),
    }
}

/// The by-reference parameters that the persistent declarations of `ss` add,
/// in the order of declaration, nested bodies included.
pub open spec fn hoisted(ss: Seq<StmtV>) -> Seq<Seq<char>>
    decreases ss,
{
    if ss.len() == 0 {
        Seq::empty()
    } else {
        hoisted(ss.drop_last()) + hoisted_stmt(ss.last())
    }
}

pub open spec fn canon_function(f: FunctionV) -> FunctionV {
    FunctionV {
        return_obj: f.return_obj,
        name: f.name,
        params: f.params + hoisted(f.body),
        body: canon_stmts(f.body),
    }
}

fn segment_accesses(prefix: Option<&String>, name: &String, segments: &Vec<MLtRange>) -> (r: Vec<
    MLtExpr,
>)
    ensures
        exprs_view(r@) == segment_exprs(
            match prefix {
                Some(p) => Some(p@),
                None => None,
            },
            name@,
            segments@,
        ),
{
    let ghost pv = match prefix {
        Some(p) => Some(p@),
        None => None::<Seq<char>>,
    };
    let mut out: Vec<MLtExpr> = Vec::new();
    let mut i: usize = 0;
    while i < segments.len()
        invariant
            i <= segments@.len(),
            pv == match prefix {
                Some(p) => Some(p@),
                None => None::<Seq<char>>,
            },
            exprs_view(out@) =~= segment_exprs(pv, name@, segments@.subrange(0, i as int)),
        decreases segments@.len() - i,
    {
        let seg = MLtMatrixAccess::MatrixSegment(name.clone(), segments[i]);
        let ghost sv = seg@;
        let e = match prefix {
            Some(p) => {
                let lv = MLtLValue::StructMatrix(p.clone(), seg);
                assert(lvalue_view(lv) == LValueV::StructMatrix(p@, sv));
                MLtExpr::Basic(lv)
            },
            None => {
                let lv = MLtLValue::Matrix(seg);
                assert(lvalue_view(lv) == LValueV::Matrix(sv));
                MLtExpr::Basic(lv)
            },
        };
        proof {
            lemma_exprs_view_push(out@, e);
            assert(e@ == segment_exprs(pv, name@, segments@.subrange(0, i + 1))[i as int]);
        }
        out.push(e);
        i = i + 1;
    }
    proof {
        assert(segments@.subrange(0, segments@.len() as int) =~= segments@);
    }
    out
}

/// A multi-segment access becomes the inline matrix of its segments, in order,
/// under the same name and struct prefix; anything else is returned as it is.
pub fn transform_matrix_multisegment(lvalue: MLtLValue) -> (r: MLtLValue)
    ensures
        r@ == expand_multiseg(lvalue@),
{
    let expanded = match &lvalue {
        MLtLValue::Matrix(MLtMatrixAccess::MatrixMultiSegment(n, rs)) => Some(
            segment_accesses(None, n, rs),
        ),
        MLtLValue::StructMatrix(p, MLtMatrixAccess::MatrixMultiSegment(n, rs)) => Some(
            segment_accesses(Some(p), n, rs),
        ),
        _ => None,
    };
    match expanded {
        Some(es) => MLtLValue::InlineMatrix(es),
        None => lvalue,
    }
}

fn copy_ranges(rs: &Vec<MLtRange>) -> (r: Vec<MLtRange>)
    ensures
        r@ == rs@,
{
    let mut out: Vec<MLtRange> = Vec::new();
    let mut i: usize = 0;
    while i < rs.len()
        invariant
            i <= rs@.len(),
            out@ =~= rs@.subrange(0, i as int),
        decreases rs@.len() - i,
    {
        out.push(rs[i]);
        i = i + 1;
    }
    out
}

fn copy_access(m: &MLtMatrixAccess) -> (r: MLtMatrixAccess)
    ensures
        r@ == m@,
{
    match m {
        MLtMatrixAccess::Matrix(n) => MLtMatrixAccess::Matrix(n.clone()),
        MLtMatrixAccess::MatrixSegment(n, r) => MLtMatrixAccess::MatrixSegment(n.clone(), *r),
        MLtMatrixAccess::MatrixMultiSegment(n, rs) => MLtMatrixAccess::MatrixMultiSegment(
            n.clone(),
            copy_ranges(rs),
        ),
        MLtMatrixAccess::MatrixBlock(n, r, c) => MLtMatrixAccess::MatrixBlock(n.clone(), *r, *c),
        MLtMatrixAccess::MatrixIndex(n, k) => MLtMatrixAccess::MatrixIndex(n.clone(), k.clone()),
    }
}

/// `pi` is renamed to the constant that the target library provides.
fn transform_pi(name: &String) -> (r: String)
    ensures
        r@ == (if name@ == "pi"@ {
            "M_PI"@
        } else {
            name@
        }),
{
    if is_name(name, "pi") {
        "M_PI".to_string()
    } else {
        name.clone()
    }
}

/// A call `f(k)` with one integer literal that is no builder becomes the
/// element access `f(k)`.
fn transform_matrix_index(f: String, args: Vec<MLtExpr>) -> (r: MLtLValue)
    ensures
        r@ == index_call(f@, exprs_view(args@)),
{
    proof {
        lemma_exprs_view_index(args@);
        reveal_with_fuel(expr_view, 2);
        reveal_with_fuel(lvalue_view, 2);
    }
    if args.len() == 1 && !(is_name(&f, "eye") || is_name(&f, "ones") || is_name(&f, "zeros")) {
        let k = match &args[0] {
            MLtExpr::Basic(MLtLValue::Integer(k)) => {
                assert(expr_view(args@[0]) == ExprV::Basic(lvalue_view(MLtLValue::Integer(*k))));
                Some(k.clone())
            },
            _ => None,
        };
        match k {
            Some(k) => MLtLValue::Matrix(MLtMatrixAccess::MatrixIndex(f, k)),
            None => MLtLValue::FunctionCall(f, args),
        }
    } else {
        MLtLValue::FunctionCall(f, args)
    }
}

fn canon_lvalue_ref(l: &MLtLValue) -> (r: MLtLValue)
    ensures
        r@ == canon_lvalue(l@),
    decreases l,
{
    match l {
        MLtLValue::Matrix(MLtMatrixAccess::MatrixMultiSegment(n, rs)) => MLtLValue::InlineMatrix(
            segment_accesses(None, n, rs),
        ),
        MLtLValue::StructMatrix(p, MLtMatrixAccess::MatrixMultiSegment(n, rs)) => {
            MLtLValue::InlineMatrix(segment_accesses(Some(p), n, rs))
        },
        MLtLValue::Matrix(MLtMatrixAccess::Matrix(n)) => MLtLValue::Matrix(
            MLtMatrixAccess::Matrix(transform_pi(n)),
        ),
        MLtLValue::Matrix(m) => MLtLValue::Matrix(copy_access(m)),
        MLtLValue::StructMatrix(p, m) => MLtLValue::StructMatrix(p.clone(), copy_access(m)),
        MLtLValue::InlineMatrix(es) => MLtLValue::InlineMatrix(canon_exprs_ref(es)),
        MLtLValue::FunctionCall(f, es) => transform_matrix_index(f.clone(), canon_exprs_ref(es)),
        MLtLValue::Integer(k) => MLtLValue::Integer(k.clone()),
        MLtLValue::Float(k) => MLtLValue::Float(k.clone()),
    }
}

fn canon_expr_ref(e: &MLtExpr) -> (r: MLtExpr)
    ensures
        r@ == canon_expr(e@),
    decreases e,
{
    match e {
        MLtExpr::Basic(l) => MLtExpr::Basic(canon_lvalue_ref(l)),
        MLtExpr::Negation(b) => MLtExpr::Negation(Box::new(canon_expr_ref(b))),
        MLtExpr::Transposed(b) => MLtExpr::Transposed(Box::new(canon_expr_ref(b))),
        MLtExpr::Parenthesized(b) => MLtExpr::Parenthesized(Box::new(canon_expr_ref(b))),
        MLtExpr::BinOp(l, op, r) => MLtExpr::BinOp(
            Box::new(canon_expr_ref(l)),
            *op,
            Box::new(canon_expr_ref(r)),
        ),
    }
}

fn canon_exprs_ref(es: &Vec<MLtExpr>) -> (r: Vec<MLtExpr>)
    ensures
        exprs_view(r@) == canon_exprs(exprs_view(es@)),
    decreases es,
{
    let ghost v = exprs_view(es@);
    proof {
        lemma_exprs_view_index(es@);
    }
    let mut out: Vec<MLtExpr> = Vec::new();
    let mut i: usize = 0;
    while i < es.len()
        invariant
            v == exprs_view(es@),
            v.len() == es@.len(),
            forall|j: int| 0 <= j < es@.len() ==> #[trigger] v[j] == es@[j]@,
            i <= es@.len(),
            exprs_view(out@) == canon_exprs(v.subrange(0, i as int)),
        decreases es@.len() - i,
    {
        let c = canon_expr_ref(&es[i]);
        proof {
            lemma_exprs_view_push(out@, c);
            assert(v.subrange(0, i + 1).drop_last() =~= v.subrange(0, i as int));
        }
        out.push(c);
        i = i + 1;
    }
    proof {
        assert(v.subrange(0, es@.len() as int) =~= v);
    }
    out
}

/// Canonical form of an expression: every rewrite applied bottom-up.
pub fn transform_expression(expr: MLtExpr) -> (r: MLtExpr)
    ensures
        r@ == canon_expr(expr@),
{
    canon_expr_ref(&expr)
}

/// Canonical form of an access, literal, inline matrix or call.
pub fn transform_lvalue(lvalue: MLtLValue) -> (r: MLtLValue)
    ensures
        r@ == canon_lvalue(lvalue@),
{
    canon_lvalue_ref(&lvalue)
}

/// The name `x` of an assignment `x = x / norm(x)`, if it is one.
fn normalization_target(l: &MLtLValue, e: &MLtExpr) -> (r: Option<String>)
    ensures
        match r {
            Some(t) => norm_target(l@, e@) == Some(t@),
            None => norm_target(l@, e@) is None,
        },
{
    proof {
        reveal_with_fuel(expr_view, 3);
        reveal_with_fuel(lvalue_view, 3);
    }
    match l {
        MLtLValue::Matrix(MLtMatrixAccess::Matrix(t)) => match e {
            MLtExpr::BinOp(d, op, r) => match &**d {
                MLtExpr::Basic(MLtLValue::Matrix(MLtMatrixAccess::Matrix(dn))) => match &**r {
                    MLtExpr::Basic(MLtLValue::FunctionCall(f, args)) => {
                        proof {
                            lemma_exprs_view_index(args@);
                        }
                        if *op == MLtBinOp::Div && is_name(f, "norm") && args.len() == 1 && dn.eq(
                            t,
                        ) {
                            match &args[0] {
                                MLtExpr::Basic(MLtLValue::Matrix(MLtMatrixAccess::Matrix(a))) => {
                                    if a.eq(t) {
                                        Some(t.clone())
                                    } else {
                                        None
                                    }
                                },
                                _ => None,
                            }
                        } else {
                            None
                        }
                    },
                    _ => None,
                },
                _ => None,
            },
            _ => None,
        },
        _ => None,
    }
}

proof fn lemma_names_view_push(s: Seq<String>, x: String)
    ensures
        names_view(s.push(x)) == names_view(s).push(x@),
{
    assert(names_view(s.push(x)) =~= names_view(s).push(x@));
}

/// Canonicalizes one statement onto `out`; the by-reference parameters of a
/// persistent declaration go to `persistent_params` instead.
fn transform_statement(
    statement: &MLtStatement,
    persistent_params: &mut Vec<String>,
    out: &mut Vec<MLtStatement>,
)
    ensures
        stmts_view(final(out)@) == stmts_view(old(out)@) + match statement@ {
            StmtV::Persistent(_) => Seq::empty(),
            _ => seq![canon_stmt(statement@)],
        },
        names_view(final(persistent_params)@) == names_view(old(persistent_params)@)
            + hoisted_stmt(statement@),
    decreases statement,
{
    match statement {
        MLtStatement::Persistent(names) => {
            let ghost ns = names_view(names@);
            let mut i: usize = 0;
            while i < names.len()
                invariant
                    i <= names@.len(),
                    ns == names_view(names@),
                    names_view(persistent_params@) =~= names_view(old(persistent_params)@) + Seq::new(
                        i as nat,
                        |j: int| by_ref(ns[j]),
                    ),
                    out == old(out),
                decreases names@.len() - i,
            {
                let mut p = "&".to_string();
                p.append(names[i].as_str());
                proof {
                    lemma_names_view_push(persistent_params@, p);
                }
                persistent_params.push(p);
                i = i + 1;
            }
            assert(stmts_view(out@) =~= stmts_view(old(out)@) + Seq::<StmtV>::empty());
        },
        MLtStatement::IfStatement(c, body) => {
            let c2 = canon_expr_ref(c);
            let b2 = transform_statement_list(body, persistent_params);
            let st = MLtStatement::IfStatement(c2, b2);
            proof {
                lemma_stmts_view_push(out@, st);
            }
            out.push(st);
        },
        MLtStatement::Assignment(l, e) => {
            let l2 = canon_lvalue_ref(l);
            let e2 = canon_expr_ref(e);
            let st = match normalization_target(&l2, &e2) {
                Some(t) => MLtStatement::Normalization(t),
                None => MLtStatement::Assignment(l2, e2),
            };
            proof {
                lemma_stmts_view_push(out@, st);
                assert(names_view(persistent_params@) =~= names_view(old(persistent_params)@)
                    + Seq::<Seq<char>>::empty());
            }
            out.push(st);
        },
        _ => {
            let st = match statement {
                MLtStatement::Comment(t) => MLtStatement::Comment(t.clone()),
                MLtStatement::Error(t) => MLtStatement::Error(t.clone()),
                MLtStatement::Normalization(t) => MLtStatement::Normalization(t.clone()),
                _ => MLtStatement::NewLine,
            };
            proof {
                lemma_stmts_view_push(out@, st);
                assert(names_view(persistent_params@) =~= names_view(old(persistent_params)@)
                    + Seq::<Seq<char>>::empty());
            }
            out.push(st);
        },
    }
}

/// Canonicalizes a statement list, collecting the by-reference parameters of
/// its persistent declarations, nested bodies included, in order.
fn transform_statement_list(stmts: &Vec<MLtStatement>, persistent_params: &mut Vec<String>) -> (r:
    Vec<MLtStatement>)
    ensures
        stmts_view(r@) == canon_stmts(stmts_view(stmts@)),
        names_view(final(persistent_params)@) == names_view(old(persistent_params)@) + hoisted(
            stmts_view(stmts@),
        ),
    decreases stmts,
{
    let ghost v = stmts_view(stmts@);
    proof {
        lemma_stmts_view_index(stmts@);
    }
    let mut out: Vec<MLtStatement> = Vec::new();
    let mut i: usize = 0;
    while i < stmts.len()
        invariant
            v == stmts_view(stmts@),
            v.len() == stmts@.len(),
            forall|j: int| 0 <= j < stmts@.len() ==> #[trigger] v[j] == stmts@[j]@,
            i <= stmts@.len(),
            stmts_view(out@) == canon_stmts(v.subrange(0, i as int)),
            names_view(persistent_params@) == names_view(old(persistent_params)@) + hoisted(
                v.subrange(0, i as int),
            ),
        decreases stmts@.len() - i,
    {
        transform_statement(&stmts[i], persistent_params, &mut out);
        proof {
            let w = v.subrange(0, i + 1);
            assert(w.drop_last() =~= v.subrange(0, i as int));
            assert(w.last() == v[i as int]);
            assert(names_view(persistent_params@) =~= names_view(old(persistent_params)@) + hoisted(
                w,
            ));
        }
        i = i + 1;
    }
    proof {
        assert(v.subrange(0, stmts@.len() as int) =~= v);
    }
    out
}

/// Canonical form of a function: its body canonicalized, and each persistent
/// variable, in order of declaration, appended to the parameters by reference.
pub fn transform_ast(function: MLtFunction) -> (r: MLtFunction)
    ensures
        r@ == canon_function(function@),
{
    let mut persistent_params: Vec<String> = Vec::new();
    let body = transform_statement_list(&function.body, &mut persistent_params);
    let MLtFunction { return_obj, name, params, body: _ } = function;
    let ghost p0 = names_view(params@);
    let ghost h = names_view(persistent_params@);
    proof {
        assert(h =~= Seq::<Seq<char>>::empty() + hoisted(stmts_view(function.body@)));
    }
    let mut params = params;
    let mut i: usize = 0;
    while i < persistent_params.len()
        invariant
            i <= persistent_params@.len(),
            h == names_view(persistent_params@),
            names_view(params@) =~= p0 + h.subrange(0, i as int),
        decreases persistent_params@.len() - i,
    {
        proof {
            lemma_names_view_push(params@, persistent_params@[i as int]);
        }
        params.push(persistent_params[i].clone());
        i = i + 1;
    }
    proof {
        assert(h.subrange(0, h.len() as int) =~= h);
    }
    MLtFunction { return_obj, name, params, body }
}

proof fn lemma_canon_exprs_fixed(es: Seq<ExprV>)
    requires
        forall|i: int| 0 <= i < es.len() ==> canon_expr(#[trigger] es[i]) == es[i],
    ensures
        canon_exprs(es) == es,
    decreases es.len(),
{
    if es.len() > 0 {
        lemma_canon_exprs_fixed(es.drop_last());
        assert(canon_exprs(es) =~= es);
    }
}

proof fn lemma_canon_lvalue_idem(l: LValueV)
    ensures
        canon_lvalue(canon_lvalue(l)) == canon_lvalue(l),
    decreases l,
{
    match l {
        LValueV::Matrix(AccessV::MultiSegment(n, rs)) => {
            let segs = segment_exprs(None, n, rs);
            assert forall|i: int| 0 <= i < segs.len() implies canon_expr(#[trigger] segs[i])
                == segs[i] by {
                let lv = LValueV::Matrix(AccessV::Segment(n, rs[i]));
                assert(segs[i] == ExprV::Basic(lv));
                assert(canon_lvalue(lv) == lv);
            }
            lemma_canon_exprs_fixed(segs);
        },
        LValueV::StructMatrix(p, AccessV::MultiSegment(n, rs)) => {
            let segs = segment_exprs(Some(p), n, rs);
            assert forall|i: int| 0 <= i < segs.len() implies canon_expr(#[trigger] segs[i])
                == segs[i] by {
                let lv = LValueV::StructMatrix(p, AccessV::Segment(n, rs[i]));
                assert(segs[i] == ExprV::Basic(lv));
                assert(canon_lvalue(lv) == lv);
            }
            lemma_canon_exprs_fixed(segs);
        },
        LValueV::Matrix(AccessV::Matrix(n)) => {
            reveal_strlit("pi");
            reveal_strlit("M_PI");
        },
        LValueV::InlineMatrix(es) => {
            lemma_canon_exprs_idem(es);
        },
        LValueV::FunctionCall(f, es) => {
            lemma_canon_exprs_idem(es);
        },
        _ => {},
    }
}

proof fn lemma_canon_expr_idem(e: ExprV)
    ensures
        canon_expr(canon_expr(e)) == canon_expr(e),
    decreases e,
{
    match e {
        ExprV::Basic(l) => {
            lemma_canon_lvalue_idem(l);
        },
        ExprV::Negation(b) => {
            lemma_canon_expr_idem(*b);
        },
        ExprV::Transposed(b) => {
            lemma_canon_expr_idem(*b);
        },
        ExprV::Parenthesized(b) => {
            lemma_canon_expr_idem(*b);
        },
        ExprV::BinOp(l, _, r) => {
            lemma_canon_expr_idem(*l);
            lemma_canon_expr_idem(*r);
        },
    }
}

proof fn lemma_canon_exprs_idem(es: Seq<ExprV>)
    ensures
        canon_exprs(canon_exprs(es)) == canon_exprs(es),
    decreases es,
{
    if es.len() > 0 {
        lemma_canon_exprs_idem(es.drop_last());
        lemma_canon_expr_idem(es.last());
        let x = canon_exprs(es);
        assert(x.drop_last() =~= canon_exprs(es.drop_last()));
        assert(canon_exprs(x) =~= x);
    }
}

proof fn lemma_canon_stmts_append(a: Seq<StmtV>, b: Seq<StmtV>)
    ensures
        canon_stmts(a + b) == canon_stmts(a) + canon_stmts(b),
        hoisted(a + b) == hoisted(a) + hoisted(b),
    decreases b.len(),
{
    if b.len() == 0 {
        assert(a + b =~= a);
        assert(canon_stmts(a) + canon_stmts(b) =~= canon_stmts(a));
        assert(hoisted(a) + hoisted(b) =~= hoisted(a));
    } else {
        lemma_canon_stmts_append(a, b.drop_last());
        assert((a + b).drop_last() =~= a + b.drop_last());
        assert((a + b).last() == b.last());
        assert(canon_stmts(a + b) =~= canon_stmts(a) + canon_stmts(b));
        assert(hoisted(a + b) =~= hoisted(a) + hoisted(b));
    }
}

proof fn lemma_canon_stmt_idem(s: StmtV)
    requires
        !(s is Persistent),
    ensures
        canon_stmt(canon_stmt(s)) == canon_stmt(s),
        !(canon_stmt(s) is Persistent),
        hoisted_stmt(canon_stmt(s)) == Seq::<Seq<char>>::empty(),
    decreases s,
{
    match s {
        StmtV::Assignment(l, e) => {
            lemma_canon_lvalue_idem(l);
            lemma_canon_expr_idem(e);
        },
        StmtV::IfStatement(c, body) => {
            lemma_canon_expr_idem(c);
            lemma_canon_stmts_idem(body);
        },
        _ => {},
    }
}

proof fn lemma_canon_stmts_idem(ss: Seq<StmtV>)
    ensures
        canon_stmts(canon_stmts(ss)) == canon_stmts(ss),
        hoisted(canon_stmts(ss)) == Seq::<Seq<char>>::empty(),
    decreases ss,
{
    if ss.len() > 0 {
        let d = ss.drop_last();
        lemma_canon_stmts_idem(d);
        let tail = match ss.last() {
            StmtV::Persistent(_) => Seq::<StmtV>::empty(),
            _ => seq![canon_stmt(ss.last())],
        };
        lemma_canon_stmts_append(canon_stmts(d), tail);
        if !(ss.last() is Persistent) {
            lemma_canon_stmt_idem(ss.last());
            let x = canon_stmt(ss.last());
            assert(tail.drop_last() =~= Seq::<StmtV>::empty());
            assert(tail.last() == x);
            assert(canon_stmts(Seq::<StmtV>::empty()) == Seq::<StmtV>::empty());
            assert(hoisted(Seq::<StmtV>::empty()) == Seq::<Seq<char>>::empty());
            assert(canon_stmts(tail) == canon_stmts(tail.drop_last()) + seq![canon_stmt(x)]);
            assert(hoisted(tail) == hoisted(tail.drop_last()) + hoisted_stmt(x));
            assert(canon_stmts(tail) =~= tail);
            assert(hoisted(tail) =~= Seq::<Seq<char>>::empty());
        }
        assert(canon_stmts(canon_stmts(ss)) =~= canon_stmts(ss));
        assert(hoisted(canon_stmts(ss)) =~= Seq::<Seq<char>>::empty());
    }
}

/// Canonicalizing an expression twice gives what canonicalizing it once gives.
pub proof fn lemma_canon_expr_idempotent(e: ExprV)
    ensures
        canon_expr(canon_expr(e)) == canon_expr(e),
{
    lemma_canon_expr_idem(e);
}

/// Canonicalization is idempotent: on a canonical function it changes
/// nothing, so no parameter is added twice and no statement rewritten twice.
pub proof fn lemma_canonicalize_idempotent(f: FunctionV)
    ensures
        canon_function(canon_function(f)) == canon_function(f),
{
    lemma_canon_stmts_idem(f.body);
    let c = canon_function(f);
    assert(c.params + hoisted(c.body) =~= c.params);
}

/// A name as canonicalization leaves it.
pub open spec fn renamed(n: Seq<char>) -> Seq<char> {
    if n == "pi"@ {
        "M_PI"@
    } else {
        n
    }
}

pub open spec fn plain(n: Seq<char>) -> ExprV {
    ExprV::Basic(LValueV::Matrix(AccessV::Matrix(n)))
}

/// The statement `t = d / norm(a);`.
pub open spec fn norm_assignment(t: Seq<char>, d: Seq<char>, a: Seq<char>) -> StmtV {
    StmtV::Assignment(
        LValueV::Matrix(AccessV::Matrix(t)),
        ExprV::BinOp(
            Box::new(plain(d)),
            MLtBinOp::Div,
            Box::new(ExprV::Basic(LValueV::FunctionCall("norm"@, seq![plain(a)]))),
        ),
    )
}

proof fn lemma_canon_norm_assignment(t: Seq<char>, d: Seq<char>, a: Seq<char>)
    ensures
        canon_lvalue(LValueV::Matrix(AccessV::Matrix(t))) == LValueV::Matrix(
            AccessV::Matrix(renamed(t)),
        ),
        canon_expr(plain(d)) == plain(renamed(d)),
        canon_expr(ExprV::Basic(LValueV::FunctionCall("norm"@, seq![plain(a)]))) == ExprV::Basic(
            LValueV::FunctionCall("norm"@, seq![plain(renamed(a))]),
        ),
{
    reveal_strlit("norm");
    reveal_strlit("eye");
    reveal_strlit("ones");
    reveal_strlit("zeros");
    assert("norm"@[0] != "eye"@[0]);
    assert("norm"@[0] != "ones"@[0]);
    assert("norm"@[0] != "zeros"@[0]);
    let args = seq![plain(a)];
    assert(args.drop_last() =~= Seq::<ExprV>::empty());
    assert(canon_lvalue(LValueV::Matrix(AccessV::Matrix(a))) == LValueV::Matrix(
        AccessV::Matrix(renamed(a)),
    ));
    assert(canon_lvalue(LValueV::Matrix(AccessV::Matrix(d))) == LValueV::Matrix(
        AccessV::Matrix(renamed(d)),
    ));
    assert(canon_expr(plain(a)) == plain(renamed(a)));
    assert(canon_exprs(Seq::<ExprV>::empty()) == Seq::<ExprV>::empty());
    assert(args.last() == plain(a));
    assert(canon_exprs(args) =~= seq![plain(renamed(a))]);
    let ra = seq![plain(renamed(a))];
    assert(!is_builder("norm"@));
    assert(ra[0] == plain(renamed(a)));
    assert(index_call("norm"@, ra) == LValueV::FunctionCall("norm"@, ra));
    assert(canon_lvalue(LValueV::FunctionCall("norm"@, args)) == index_call(
        "norm"@,
        canon_exprs(args),
    ));
}

/// `x = x / norm(x)`, one name throughout, becomes the in-place
/// normalization of that name.
pub proof fn lemma_norm_idiom_recognised(x: Seq<char>)
    ensures
        canon_stmt(norm_assignment(x, x, x)) == StmtV::Normalization(renamed(x)),
{
    lemma_canon_norm_assignment(x, x, x);
    assert(seq![plain(renamed(x))][0] == plain(renamed(x)));
}

/// `y = x / norm(x)` with a target other than the divided name stays an
/// assignment, unless renaming `pi` makes the two names one.
pub proof fn lemma_norm_idiom_needs_same_target(x: Seq<char>, y: Seq<char>)
    requires
        renamed(x) != renamed(y),
    ensures
        !(canon_stmt(norm_assignment(y, x, x)) is Normalization),
{
    lemma_canon_norm_assignment(y, x, x);
}

/// Total width of a non-empty list of ranges.
pub open spec fn widths_sum(rs: Seq<MLtRange>) -> u32
    decreases rs.len(),
{
    if rs.len() <= 1 {
        width(rs[0])
    } else {
        wadd(widths_sum(rs.drop_last()), width(rs.last()))
    }
}

/// The segments that a multi-segment access `n(...)` expands to stack into a
/// vector as long as the ranges together, with no warning.
pub proof fn lemma_multisegment_shape(
    env: Map<Seq<char>, Shape>,
    line: u32,
    n: Seq<char>,
    rs: Seq<MLtRange>,
)
    requires
        rs.len() > 0,
    ensures
        inline_infer(env, line, segment_exprs(None, n, rs)) == (
            Ok::<Shape, Fatal>((widths_sum(rs), 1)),
            Seq::<DiagV>::empty(),
        ),
    decreases rs.len(),
{
    let es = segment_exprs(None, n, rs);
    let r = rs.last();
    let lv = LValueV::Matrix(AccessV::Segment(n, r));
    assert(lvalue_infer(env, line, lv) == access_infer(env, Seq::<char>::empty(), AccessV::Segment(n, r)));
    assert(expr_infer(env, line, ExprV::Basic(lv)) == (
        Ok::<Shape, Fatal>((width(r), 1)),
        Seq::<DiagV>::empty(),
    ));
    if rs.len() > 1 {
        lemma_multisegment_shape(env, line, n, rs.drop_last());
        assert(es.drop_last() =~= segment_exprs(None, n, rs.drop_last()));
        assert(es.last() == ExprV::Basic(LValueV::Matrix(AccessV::Segment(n, rs.last()))));
        assert(Seq::<DiagV>::empty() + Seq::<DiagV>::empty() + Seq::<DiagV>::empty()
            =~= Seq::<DiagV>::empty());
    } else {
        assert(es[0] == ExprV::Basic(LValueV::Matrix(AccessV::Segment(n, rs[0]))));
    }
}

/// A persistent declaration leaves the statement stream, and its variables,
/// in declared order, follow the existing parameters as by-reference
/// parameters.
pub proof fn lemma_persistent_hoisted(f: FunctionV, ns: Seq<Seq<char>>, rest: Seq<StmtV>)
    requires
        f.body == seq![StmtV::Persistent(ns)] + rest,
    ensures
        canon_function(f).params == f.params + Seq::new(ns.len(), |i: int| by_ref(ns[i]))
            + hoisted(rest),
        canon_function(f).body == canon_stmts(rest),
{
    let head = seq![StmtV::Persistent(ns)];
    lemma_canon_stmts_append(head, rest);
    assert(head.drop_last() =~= Seq::<StmtV>::empty());
    assert(head.last() == StmtV::Persistent(ns));
    assert(canon_stmts(Seq::<StmtV>::empty()) == Seq::<StmtV>::empty());
    assert(hoisted(Seq::<StmtV>::empty()) == Seq::<Seq<char>>::empty());
    assert(hoisted_stmt(StmtV::Persistent(ns)) == Seq::new(ns.len(), |i: int| by_ref(ns[i])));
    assert(canon_stmts(head) =~= Seq::<StmtV>::empty());
    assert(hoisted(head) =~= Seq::new(ns.len(), |i: int| by_ref(ns[i])));
    assert(canon_stmts(head) + canon_stmts(rest) =~= canon_stmts(rest));
    assert(f.params + hoisted(head + rest) =~= f.params + Seq::new(ns.len(), |i: int| by_ref(ns[i]))
        + hoisted(rest));
}

} // verus!
