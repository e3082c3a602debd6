//! The syntax tree of a translated function, and its mathematical view.
//!
//! Every executable node type has a view in which names are `Seq<char>` and
//! child lists are `Seq`s of views; the contracts of the library speak of the
//! views only.
use vstd::prelude::*;

verus! {

broadcast use vstd::std_specs::vec::group_vec_axioms;

/// An inclusive, one-based index range `start:end`.
#[derive(Clone, Copy, Debug, PartialEq, Eq, Structural)]
pub struct MLtRange {
    pub start: u32,
    pub end: u32,
}

#[derive(Clone, Copy, Debug, PartialEq, Eq, Structural)]
pub enum MLtBinOp {
    Add,
    Sub,
    Mul,
    Div,
    Pow,
    CwiseMul,
    CwiseDiv,
    CwisePow,
    And,
    Or,
    EqualTo,
    NotEqualTo,
    LessThan,
    LessThanEqualTo,
    GreaterThan,
    GreaterThanEqualTo,
}

#[derive(Clone, Debug)]
pub enum MLtMatrixAccess {
    /// `z`
    Matrix(String),
    /// `z(1:3)`
    MatrixSegment(String, MLtRange),
    /// `z([1:3 7:9])`
    MatrixMultiSegment(String, Vec<MLtRange>),
    /// `z(1:3, 4:5)`
    MatrixBlock(String, MLtRange, MLtRange),
    /// `z(4)`, the integer literal kept as written
    MatrixIndex(String, String),
}

#[derive(Debug)]
pub enum MLtLValue {
    /// integer literal, kept as written
    Integer(String),
    /// floating literal, kept as written
    Float(String),
    Matrix(MLtMatrixAccess),
    /// `constants.z`
    StructMatrix(String, MLtMatrixAccess),
    /// `[a; b; c]`, rows stacked vertically
    InlineMatrix(Vec<MLtExpr>),
    /// `f(a, b)`: a call, or an index that canonicalization tells apart
    FunctionCall(String, Vec<MLtExpr>),
}

#[derive(Debug)]
pub enum MLtExpr {
    Basic(MLtLValue),
    Negation(Box<MLtExpr>),
    Transposed(Box<MLtExpr>),
    Parenthesized(Box<MLtExpr>),
    BinOp(Box<MLtExpr>, MLtBinOp, Box<MLtExpr>),
}

#[derive(Debug)]
pub enum MLtStatement {
    Assignment(MLtLValue, MLtExpr),
    /// names of persistent variables
    Persistent(Vec<String>),
    /// condition and body; there is no else branch
    IfStatement(MLtExpr, Vec<MLtStatement>),
    Comment(String),
    /// a line that could not be parsed, as written
    Error(String),
    NewLine,
    /// `x = x / norm(x);`, recognised by canonicalization
    Normalization(String),
}

#[derive(Debug)]
pub struct MLtFunction {
    pub return_obj: String,
    pub name: String,
    pub params: Vec<String>,
    pub body: Vec<MLtStatement>,
}

pub enum AccessV {
    Matrix(Seq<char>),
    Segment(Seq<char>, MLtRange),
    MultiSegment(Seq<char>, Seq<MLtRange>),
    Block(Seq<char>, MLtRange, MLtRange),
    Index(Seq<char>, Seq<char>),
}

pub enum LValueV {
    Integer(Seq<char>),
    Float(Seq<char>),
    Matrix(AccessV),
    StructMatrix(Seq<char>, AccessV),
    InlineMatrix(Seq<ExprV>),
    FunctionCall(Seq<char>, Seq<ExprV>),
}

pub enum ExprV {
    Basic(LValueV),
    Negation(Box<ExprV>),
    Transposed(Box<ExprV>),
    Parenthesized(Box<ExprV>),
    BinOp(Box<ExprV>, MLtBinOp, Box<ExprV>),
}

pub enum StmtV {
    Assignment(LValueV, ExprV),
    Persistent(Seq<Seq<char>>),
    IfStatement(ExprV, Seq<StmtV>),
    Comment(Seq<char>),
    Error(Seq<char>),
    NewLine,
    Normalization(Seq<char>),
}

pub struct FunctionV {
    pub return_obj: Seq<char>,
    pub name: Seq<char>,
    pub params: Seq<Seq<char>>,
    pub body: Seq<StmtV>,
}

pub open spec fn names_view(s: Seq<String>) -> Seq<Seq<char>> {
    Seq::new(s.len(), |i: int| s[i]@)
}

impl View for MLtMatrixAccess {
    type V = AccessV;

    open spec fn view(&self) -> AccessV {
        match self {
            MLtMatrixAccess::Matrix(n) => AccessV::Matrix(n@),
            MLtMatrixAccess::MatrixSegment(n, r) => AccessV::Segment(n@, *r),
            MLtMatrixAccess::MatrixMultiSegment(n, rs) => AccessV::MultiSegment(n@, rs@),
            MLtMatrixAccess::MatrixBlock(n, r, c) => AccessV::Block(n@, *r, *c),
            MLtMatrixAccess::MatrixIndex(n, k) => AccessV::Index(n@, k@),
        }
    }
}

pub open spec fn lvalue_view(l: MLtLValue) -> LValueV
    decreases l,
{
    match l {
        MLtLValue::Integer(s) => LValueV::Integer(s@),
        MLtLValue::Float(s) => LValueV::Float(s@),
        MLtLValue::Matrix(m) => LValueV::Matrix(m@),
        MLtLValue::StructMatrix(p, m) => LValueV::StructMatrix(p@, m@),
        MLtLValue::InlineMatrix(es) => LValueV::InlineMatrix(exprs_view(es@)),
        MLtLValue::FunctionCall(f, es) => LValueV::FunctionCall(f@, exprs_view(es@)),
    }
}

pub open spec fn expr_view(e: MLtExpr) -> ExprV
    decreases e,
{
    match e {
        MLtExpr::Basic(l) => ExprV::Basic(lvalue_view(l)),
        MLtExpr::Negation(b) => ExprV::Negation(Box::new(expr_view(*b))),
        MLtExpr::Transposed(b) => ExprV::Transposed(Box::new(expr_view(*b))),
        MLtExpr::Parenthesized(b) => ExprV::Parenthesized(Box::new(expr_view(*b))),
        MLtExpr::BinOp(l, op, r) => ExprV::BinOp(
            Box::new(expr_view(*l)),
            op,
            Box::new(expr_view(*r)),
        ),
    }
}

pub open spec fn exprs_view(s: Seq<MLtExpr>) -> Seq<ExprV>
    decreases s,
{
    if s.len() == 0 {
        Seq::empty()
    } else {
        exprs_view(s.drop_last()).push(expr_view(s.last()))
    }
}

pub open spec fn stmt_view(s: MLtStatement) -> StmtV
    decreases s,
{
    match s {
        MLtStatement::Assignment(l, e) => StmtV::Assignment(lvalue_view(l), expr_view(e)),
        MLtStatement::Persistent(ns) => StmtV::Persistent(names_view(ns@)),
        MLtStatement::IfStatement(c, body) => StmtV::IfStatement(expr_view(c), stmts_view(body@)),
        MLtStatement::Comment(t) => StmtV::Comment(t@),
        MLtStatement::Error(t) => StmtV::Error(t@),
        MLtStatement::NewLine => StmtV::NewLine,
        MLtStatement::Normalization(n) => StmtV::Normalization(n@),
    }
}

pub open spec fn stmts_view(s: Seq<MLtStatement>) -> Seq<StmtV>
    decreases s,
{
    if s.len() == 0 {
        Seq::empty()
    } else {
        stmts_view(s.drop_last()).push(stmt_view(s.last()))
    }
}

impl View for MLtLValue {
    type V = LValueV;

    open spec fn view(&self) -> LValueV {
        lvalue_view(*self)
    }
}

impl View for MLtExpr {
    type V = ExprV;

    open spec fn view(&self) -> ExprV {
        expr_view(*self)
    }
}

impl View for MLtStatement {
    type V = StmtV;

    open spec fn view(&self) -> StmtV {
        stmt_view(*self)
    }
}

impl View for MLtFunction {
    type V = FunctionV;

    open spec fn view(&self) -> FunctionV {
        FunctionV {
            return_obj: self.return_obj@,
            name: self.name@,
            params: names_view(self.params@),
            body: stmts_view(self.body@),
        }
    }
}

/// The view of a list grows by the view of what is pushed.
pub proof fn lemma_exprs_view_push(s: Seq<MLtExpr>, e: MLtExpr)
    ensures
        exprs_view(s.push(e)) == exprs_view(s).push(e@),
{
    assert(s.push(e).drop_last() =~= s);
}

pub proof fn lemma_stmts_view_push(s: Seq<MLtStatement>, x: MLtStatement)
    ensures
        stmts_view(s.push(x)) == stmts_view(s).push(x@),
{
    assert(s.push(x).drop_last() =~= s);
}

/// The view of a list has the list's length, and holds the view of each item.
pub proof fn lemma_exprs_view_index(s: Seq<MLtExpr>)
    ensures
        exprs_view(s).len() == s.len(),
        forall|i: int| 0 <= i < s.len() ==> #[trigger] exprs_view(s)[i] == s[i]@,
    decreases s.len(),
{
    if s.len() > 0 {
        lemma_exprs_view_index(s.drop_last());
    }
}

pub proof fn lemma_stmts_view_index(s: Seq<MLtStatement>)
    ensures
        stmts_view(s).len() == s.len(),
        forall|i: int| 0 <= i < s.len() ==> #[trigger] stmts_view(s)[i] == s[i]@,
    decreases s.len(),
{
    if s.len() > 0 {
        lemma_stmts_view_index(s.drop_last());
    }
}

} // verus!
