//! The arithmetic that the library is handed.
//!
//! The library compares numbers itself but does not compute with them. Sums,
//! differences, products and quotients come from a function that the caller
//! supplies, from two bit patterns to one. Every contract of the library is
//! stated over the table of that function's results, so it holds of whatever
//! arithmetic is handed in, as long as it is total and gives equal results on
//! equal operands.
use vstd::prelude::*;

verus! {

/// One of the four operations on two numbers.
#[derive(Clone, Copy, Debug, PartialEq, Eq, Structural)]
pub enum Operation {
    /// `a + b`
    Add,
    /// `a - b`
    Sub,
    /// `a * b`
    Mul,
    /// `a / b`
    Div,
}

/// The results of an arithmetic: for each operation and pair of operands, the
/// bit pattern that comes out.
pub type Table = spec_fn(Operation, u64, u64) -> u64;

/// What `arith` returns for `op` on `a` and `b`.
pub open spec fn outcome<A: Fn(Operation, u64, u64) -> u64>(
    arith: &A,
    op: Operation,
    a: u64,
    b: u64,
) -> u64 {
    choose|r: u64| arith.ensures((op, a, b), r)
}

/// `arith` can be called on every operation and operands, and what it returns
/// depends on them alone.
pub open spec fn is_arithmetic<A: Fn(Operation, u64, u64) -> u64>(arith: &A) -> bool {
    &&& forall|op: Operation, a: u64, b: u64| #[trigger] arith.requires((op, a, b))
    &&& forall|op: Operation, a: u64, b: u64, r: u64| #[trigger]
        arith.ensures((op, a, b), r) ==> r == outcome(arith, op, a, b)
}

/// The table of results of `arith`.
pub open spec fn table<A: Fn(Operation, u64, u64) -> u64>(arith: &A) -> Table {
    |op: Operation, a: u64, b: u64| outcome(arith, op, a, b)
}

} // verus!
