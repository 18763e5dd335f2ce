//! Literal values and the conversions between Rust values and literals.

use vstd::prelude::*;

verus! {

/// A literal constant of the surface language.
#[derive(Debug, PartialEq, Eq)]
pub enum Literal {
    /// A 64-bit signed integer.
    Int(i64),
    /// A 64-bit float, held as its IEEE-754 bit pattern (`f64::to_bits`).
    Float(u64),
    /// A string.
    String(String),
    /// A boolean.
    Bool(bool),
    /// The unit value.
    Unit,
}

/// A `Literal` with its string as characters.
pub enum LiteralView {
    Int(i64),
    Float(u64),
    String(Seq<char>),
    Bool(bool),
    Unit,
}

impl View for Literal {
    type V = LiteralView;

    open spec fn view(&self) -> LiteralView {
        match self {
            Literal::Int(i) => LiteralView::Int(*i),
            Literal::Float(f) => LiteralView::Float(*f),
            Literal::String(s) => LiteralView::String(s@),
            Literal::Bool(b) => LiteralView::Bool(*b),
            Literal::Unit => LiteralView::Unit,
        }
    }
}

/// Rust types that can be converted to and from a literal; values and
/// literals are compared by their views.
pub trait LiteralConvertible: Sized + View {
    /// The literal that a value converts to.
    spec fn literal_of(v: Self::V) -> LiteralView;

    /// The value that a literal converts back to, if it is of this type.
    spec fn value_of(lit: LiteralView) -> Option<Self::V>;

    /// Convert a value to its literal.
    fn to_literal(self) -> (r: Literal)
        ensures
            r@ == Self::literal_of(self@),
    ;

    /// Convert a literal back, `None` when it holds another kind of value.
    fn from_literal(lit: &Literal) -> (r: Option<Self>)
        ensures
            match r {
                Some(v) => Self::value_of(lit@) == Some(v@),
                None => Self::value_of(lit@) is None,
            },
    ;

    /// Converting a value to a literal and back gives the value again.
    proof fn lemma_round_trip(v: Self::V)
        ensures
            Self::value_of(Self::literal_of(v)) == Some(v),
    ;
}

impl LiteralConvertible for i64 {
    open spec fn literal_of(v: i64) -> LiteralView {
        LiteralView::Int(v)
    }

    open spec fn value_of(lit: LiteralView) -> Option<i64> {
        match lit {
            LiteralView::Int(i) => Some(i),
            _ => None,
        }
    }

    fn to_literal(self) -> (r: Literal)
        ensures
            r@ == LiteralView::Int(self),
    {
        Literal::Int(self)
    }

    fn from_literal(lit: &Literal) -> (r: Option<i64>)
        ensures
            r == (match lit@ {
                LiteralView::Int(i) => Some(i),
                _ => None,
            }),
    {
        match lit {
            Literal::Int(i) => Some(*i),
            _ => None,
        }
    }

    proof fn lemma_round_trip(v: i64) {
    }
}

impl LiteralConvertible for bool {
    open spec fn literal_of(v: bool) -> LiteralView {
        LiteralView::Bool(v)
    }

    open spec fn value_of(lit: LiteralView) -> Option<bool> {
        match lit {
            LiteralView::Bool(b) => Some(b),
            _ => None,
        }
    }

    fn to_literal(self) -> (r: Literal)
        ensures
            r@ == LiteralView::Bool(self),
    {
        Literal::Bool(self)
    }

    fn from_literal(lit: &Literal) -> (r: Option<bool>)
        ensures
            r == (match lit@ {
                LiteralView::Bool(b) => Some(b),
                _ => None,
            }),
    {
        match lit {
            Literal::Bool(b) => Some(*b),
            _ => None,
        }
    }

    proof fn lemma_round_trip(v: bool) {
    }
}

impl LiteralConvertible for () {
    open spec fn literal_of(v: ()) -> LiteralView {
        LiteralView::Unit
    }

    open spec fn value_of(lit: LiteralView) -> Option<()> {
        match lit {
            LiteralView::Unit => Some(()),
            _ => None,
        }
    }

    fn to_literal(self) -> (r: Literal)
        ensures
            r@ == LiteralView::Unit,
    {
        Literal::Unit
    }

    fn from_literal(lit: &Literal) -> (r: Option<()>)
        ensures
            r == (if lit@ is Unit { Some(()) } else { None }),
    {
        match lit {
            Literal::Unit => Some(()),
            _ => None,
        }
    }

    proof fn lemma_round_trip(v: ()) {
    }
}

impl LiteralConvertible for String {
    open spec fn literal_of(v: Seq<char>) -> LiteralView {
        LiteralView::String(v)
    }

    open spec fn value_of(lit: LiteralView) -> Option<Seq<char>> {
        match lit {
            LiteralView::String(s) => Some(s),
            _ => None,
        }
    }

    fn to_literal(self) -> (r: Literal)
        ensures
            r@ == LiteralView::String(self@),
    {
        Literal::String(self)
    }

    fn from_literal(lit: &Literal) -> (r: Option<String>)
        ensures
            match r {
                Some(v) => lit@ == LiteralView::String(v@),
                None => lit@ !is String,
            },
    {
        match lit {
            Literal::String(s) => Some(s.clone()),
            _ => None,
        }
    }

    proof fn lemma_round_trip(v: Seq<char>) {
    }
}

/// Each Rust value converts to the literal of its own kind holding that
/// same value (an `i64` to the integer literal of that number, a `bool` to
/// that boolean, `()` to unit, a string to that string), and each such
/// literal converts back to exactly that value.
pub proof fn law_literal_conversions(i: i64, b: bool, s: Seq<char>)
    ensures
        <i64 as LiteralConvertible>::literal_of(i) == LiteralView::Int(i),
        <i64 as LiteralConvertible>::value_of(LiteralView::Int(i)) == Some(i),
        <bool as LiteralConvertible>::literal_of(b) == LiteralView::Bool(b),
        <bool as LiteralConvertible>::value_of(LiteralView::Bool(b)) == Some(b),
        <() as LiteralConvertible>::literal_of(()) == LiteralView::Unit,
        <() as LiteralConvertible>::value_of(LiteralView::Unit) == Some(()),
        <String as LiteralConvertible>::literal_of(s) == LiteralView::String(s),
        <String as LiteralConvertible>::value_of(LiteralView::String(s)) == Some(s),
{
}

} // verus!
