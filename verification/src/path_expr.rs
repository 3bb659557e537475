//! Path-expression legs, as handed over by the (external) path parser:
//! an array index, an object key, or the recursive double-wildcard, plus
//! the descriptive flags that callers outside this core read.

use vstd::prelude::*;

verus! {

/// The sentinel index meaning "all array elements".
pub const PATH_EXPR_ARRAY_INDEX_ASTERISK: i64 = -1;

/// The sentinel key meaning "all object keys".
pub const PATH_EXPR_ASTERISK: &'static str = "*";

/// One step of a path expression.
#[derive(Debug, PartialEq)]
pub enum PathLeg {
    /// Select array element `i`, or every element when `i` is the
    /// wildcard sentinel.
    Index(i64),
    /// Select the object entry with this key, or every entry when the key
    /// is the wildcard sentinel.
    Key(String),
    /// Match at the current node and, recursively, at every descendant.
    DoubleAsterisk,
}

/// The mathematical shape of a leg: the key as a character sequence.
pub enum PathLegView {
    Index(i64),
    Key(Seq<char>),
    DoubleAsterisk,
}

impl View for PathLeg {
    type V = PathLegView;

    open spec fn view(&self) -> PathLegView {
        match self {
            PathLeg::Index(i) => PathLegView::Index(*i),
            PathLeg::Key(k) => PathLegView::Key(k@),
            PathLeg::DoubleAsterisk => PathLegView::DoubleAsterisk,
        }
    }
}

/// The views of a sequence of legs, in order.
pub open spec fn legs_of(s: Seq<PathLeg>) -> Seq<PathLegView> {
    Seq::new(s.len(), |i: int| s[i]@)
}

/// The wildcard key sentinel, as a character sequence.
pub open spec fn key_wildcard() -> Seq<char> {
    seq!['*']
}

/// Descriptive flags of a path expression (whether it contains a wildcard
/// leg, and whether it contains a double-wildcard leg), as a small bit set.
/// They are hints for callers outside this core; extraction itself reads
/// only the legs.
pub type PathExpressionFlag = u8;

/// Flag bit: the expression contains a wildcard index or key.
pub const PATH_EXPRESSION_CONTAINS_ASTERISK: PathExpressionFlag = 0x01;

/// Flag bit: the expression contains a double-wildcard leg.
pub const PATH_EXPRESSION_CONTAINS_DOUBLE_ASTERISK: PathExpressionFlag = 0x02;

/// A parsed path expression: the legs, consumed left to right by
/// extraction, and the descriptive flags.
#[derive(Debug, PartialEq)]
pub struct PathExpression {
    pub legs: Vec<PathLeg>,
    pub flags: PathExpressionFlag,
}

} // verus!
