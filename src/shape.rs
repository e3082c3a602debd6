//! Shapes, the shape environment, diagnostics and fatal conditions.
use vstd::prelude::*;

verus! {

/// `(rows, cols)`: `(1, 1)` is a scalar, `(n, 1)` a vector.
pub type Shape = (u32, u32);

/// Addition of two dimensions, wrapping at the width of `u32`.
pub open spec fn wadd(a: u32, b: u32) -> u32 {
    if a + b <= u32::MAX {
        (a + b) as u32
    } else {
        (a + b - u32::MAX - 1) as u32
    }
}

/// Subtraction of two dimensions, wrapping at the width of `u32`.
pub open spec fn wsub(a: u32, b: u32) -> u32 {
    if b <= a {
        (a - b) as u32
    } else {
        (a - b + u32::MAX + 1) as u32
    }
}

pub fn wrapping_add_u32(a: u32, b: u32) -> (r: u32)
    ensures
        r == wadd(a, b),
{
    if a <= u32::MAX - b {
        a + b
    } else {
        ((a as u64 + b as u64) - u32::MAX as u64 - 1) as u32
    }
}

pub fn wrapping_sub_u32(a: u32, b: u32) -> (r: u32)
    ensures
        r == wsub(a, b),
{
    if b <= a {
        a - b
    } else {
        ((a as u64 + u32::MAX as u64 + 1) - b as u64) as u32
    }
}

/// Warnings of the shape rules: reported, never fatal.
#[derive(Debug)]
pub enum Diagnostic {
    /// a matrix name (qualified by its struct prefix) with no recorded shape
    UnknownName(String),
    /// a call of a function with no registered return shape
    UnknownFunction(String),
    /// rows stacked so far, the next element, and the line
    ConcatMismatch(Shape, Shape, u32),
    AddSubMismatch(Shape, Shape, u32),
    MulMismatch(Shape, Shape, u32),
    DivMismatch(Shape, Shape, u32),
    /// shape of the target, shape of the value, and the line
    AssignMismatch(Shape, Shape, u32),
    /// a line that could not be parsed, as written
    Unparsed(String),
}

pub enum DiagV {
    UnknownName(Seq<char>),
    UnknownFunction(Seq<char>),
    ConcatMismatch(Shape, Shape, u32),
    AddSubMismatch(Shape, Shape, u32),
    MulMismatch(Shape, Shape, u32),
    DivMismatch(Shape, Shape, u32),
    AssignMismatch(Shape, Shape, u32),
    Unparsed(Seq<char>),
}

impl View for Diagnostic {
    type V = DiagV;

    open spec fn view(&self) -> DiagV {
        match self {
            Diagnostic::UnknownName(n) => DiagV::UnknownName(n@),
            Diagnostic::UnknownFunction(n) => DiagV::UnknownFunction(n@),
            Diagnostic::ConcatMismatch(a, b, l) => DiagV::ConcatMismatch(*a, *b, *l),
            Diagnostic::AddSubMismatch(a, b, l) => DiagV::AddSubMismatch(*a, *b, *l),
            Diagnostic::MulMismatch(a, b, l) => DiagV::MulMismatch(*a, *b, *l),
            Diagnostic::DivMismatch(a, b, l) => DiagV::DivMismatch(*a, *b, *l),
            Diagnostic::AssignMismatch(a, b, l) => DiagV::AssignMismatch(*a, *b, *l),
            Diagnostic::Unparsed(t) => DiagV::Unparsed(t@),
        }
    }
}

pub open spec fn diags_view(s: Seq<Diagnostic>) -> Seq<DiagV> {
    Seq::new(s.len(), |i: int| s[i]@)
}

pub proof fn lemma_diags_view_push(s: Seq<Diagnostic>, d: Diagnostic)
    ensures
        diags_view(s.push(d)) == diags_view(s).push(d@),
{
    assert(diags_view(s.push(d)) =~= diags_view(s).push(d@));
}

/// Conditions that abort the translation of a whole function.
#[derive(Clone, Copy, Debug, PartialEq, Eq, Structural)]
pub enum Fatal {
    /// an identity, zero or one builder without its integer literal argument
    MissingLiteralArgument,
    /// an integer literal that does not fit in `u32`
    BadIntegerLiteral,
    /// a shape-preserving or diagonal builtin called with no argument
    MissingArgument,
    /// the diagonal builder on an argument with more than one column
    NotAVector,
    /// an inline matrix with no element
    EmptyInlineMatrix,
    /// a multi-segment access, which canonicalization removes
    MultiSegmentAccess,
    /// no shape recorded for the function's own return value
    MissingReturnShape,
}

/// The name under which the function's own return shape is recorded.
pub open spec fn return_key() -> Seq<char> {
    "_self"@
}

/// A mapping from names to shapes, kept as a list of entries in which a later
/// entry overrides an earlier one with the same name.
pub struct ShapeEnv {
    entries: Vec<(String, Shape)>,
}

pub open spec fn entries_map(s: Seq<(String, Shape)>) -> Map<Seq<char>, Shape>
    decreases s.len(),
{
    if s.len() == 0 {
        Map::empty()
    } else {
        entries_map(s.drop_last()).insert(s.last().0@, s.last().1)
    }
}

proof fn lemma_entries_map_suffix(s: Seq<(String, Shape)>, i: int, k: Seq<char>)
    requires
        0 <= i <= s.len(),
        forall|j: int| i <= j < s.len() ==> (#[trigger] s[j]).0@ != k,
    ensures
        entries_map(s).contains_key(k) == entries_map(s.subrange(0, i)).contains_key(k),
        entries_map(s).contains_key(k) ==> entries_map(s)[k] == entries_map(s.subrange(0, i))[k],
    decreases s.len() - i,
{
    if i < s.len() {
        assert(s.drop_last().len() == s.len() - 1);
        assert forall|j: int| i <= j < s.drop_last().len() implies (#[trigger] s.drop_last()[j]).0@
            != k by {
            assert(s.drop_last()[j] == s[j]);
        }
        lemma_entries_map_suffix(s.drop_last(), i, k);
        assert(s.drop_last().subrange(0, i) =~= s.subrange(0, i));
    } else {
        assert(s.subrange(0, i) =~= s);
    }
}

impl View for ShapeEnv {
    type V = Map<Seq<char>, Shape>;

    closed spec fn view(&self) -> Map<Seq<char>, Shape> {
        entries_map(self.entries@)
    }
}

impl ShapeEnv {
    pub fn new() -> (r: ShapeEnv)
        ensures
            r@ == Map::<Seq<char>, Shape>::empty(),
    {
        ShapeEnv { entries: Vec::new() }
    }

    /// The shape recorded for `name`, if any.
    pub fn get(&self, name: &String) -> (r: Option<Shape>)
        ensures
            r == (if self@.contains_key(name@) {
                Some(self@[name@])
            } else {
                None
            }),
    {
        let mut i: usize = self.entries.len();
        while i > 0
            invariant
                i <= self.entries@.len(),
                forall|j: int| i <= j < self.entries@.len() ==> (#[trigger] self.entries@[j]).0@
                    != name@,
            decreases i,
        {
            let e = &self.entries[i - 1];
            if e.0.eq(name) {
                proof {
                    let s = self.entries@;
                    lemma_entries_map_suffix(s, i as int, name@);
                    assert(s.subrange(0, i as int).drop_last() =~= s.subrange(0, i - 1));
                    assert(s.subrange(0, i as int).last() == s[i - 1]);
                }
                return Some(e.1);
            }
            i = i - 1;
        }
        proof {
            lemma_entries_map_suffix(self.entries@, 0, name@);
            assert(self.entries@.subrange(0, 0) =~= Seq::<(String, Shape)>::empty());
        }
        None
    }

    pub fn contains_key(&self, name: &String) -> (r: bool)
        ensures
            r == self@.contains_key(name@),
    {
        self.get(name).is_some()
    }

    /// Records `shape` for `name`, replacing what was recorded before.
    pub fn insert(&mut self, name: String, shape: Shape)
        ensures
            final(self)@ == old(self)@.insert(name@, shape),
    {
        self.entries.push((name, shape));
        proof {
            assert(self.entries@.drop_last() =~= old(self).entries@);
        }
    }

    /// A separate copy with the same contents, for a scope that must not leak
    /// its additions into this one.
    pub fn snapshot(&self) -> (r: ShapeEnv)
        ensures
            r@ == self@,
    {
        let mut entries: Vec<(String, Shape)> = Vec::new();
        let mut i: usize = 0;
        while i < self.entries.len()
            invariant
                i <= self.entries@.len(),
                entries@.len() == i,
                forall|j: int| 0 <= j < i ==> (#[trigger] entries@[j]).0@ == self.entries@[j].0@
                    && entries@[j].1 == self.entries@[j].1,
            decreases self.entries@.len() - i,
        {
            let e = &self.entries[i];
            entries.push((e.0.clone(), e.1));
            i = i + 1;
        }
        proof {
            lemma_entries_map_same(entries@, self.entries@);
        }
        ShapeEnv { entries }
    }
}

proof fn lemma_entries_map_same(a: Seq<(String, Shape)>, b: Seq<(String, Shape)>)
    requires
        a.len() == b.len(),
        forall|j: int| 0 <= j < a.len() ==> (#[trigger] a[j]).0@ == b[j].0@ && a[j].1 == b[j].1,
    ensures
        entries_map(a) == entries_map(b),
    decreases a.len(),
{
    if a.len() > 0 {
        assert forall|j: int| 0 <= j < a.drop_last().len() implies (#[trigger] a.drop_last()[j]).0@
            == b.drop_last()[j].0@ && a.drop_last()[j].1 == b.drop_last()[j].1 by {
            assert(a.drop_last()[j] == a[j]);
            assert(b.drop_last()[j] == b[j]);
        }
        lemma_entries_map_same(a.drop_last(), b.drop_last());
    }
}

} // verus!
