use vstd::prelude::*;
use crate::value::{ArithOp, Number};

verus! {

// The three services that this library takes from its caller, each as a
// function value: rounding arithmetic on numbers, the decimal text of a
// number, and the number that a decimal literal denotes. A service must
// accept every argument. The contracts speak of a service through the
// mathematical functions that it stays within: whatever such a function
// is, the result is the one stated for it.

/// `f` accepts every operator and every pair of numbers.
pub open spec fn arith_total<A: Fn(ArithOp, Number, Number) -> Number>(f: A) -> bool {
    forall|op: ArithOp, a: Number, b: Number| #[trigger] f.requires((op, a, b))
}

/// Whatever `f` answers is what `g` gives.
pub open spec fn arith_within<A: Fn(ArithOp, Number, Number) -> Number>(
    f: A,
    g: spec_fn(ArithOp, Number, Number) -> Number,
) -> bool {
    forall|op: ArithOp, a: Number, b: Number, r: Number| #[trigger]
        f.ensures((op, a, b), r) ==> r == g(op, a, b)
}

/// `f` accepts every number.
pub open spec fn format_total<F: Fn(Number) -> String>(f: F) -> bool {
    forall|n: Number| #[trigger] f.requires((n,))
}

/// Whatever `f` answers is the text that `g` gives.
pub open spec fn format_within<F: Fn(Number) -> String>(
    f: F,
    g: spec_fn(Number) -> Seq<char>,
) -> bool {
    forall|n: Number, s: String| #[trigger] f.ensures((n,), s) ==> s@ == g(n)
}

/// `f` accepts every text.
pub open spec fn parse_total<P: Fn(&str) -> Number>(f: P) -> bool {
    forall|s: &str| #[trigger] f.requires((s,))
}

/// Whatever `f` answers for a text is what `g` gives for it.
pub open spec fn parse_within<P: Fn(&str) -> Number>(f: P, g: spec_fn(Seq<char>) -> Number) -> bool {
    forall|s: &str, n: Number| #[trigger] f.ensures((s,), n) ==> n == g(s@)
}

/// What the virtual machine takes from its caller: the arithmetic and the
/// text of a number.
pub struct Numerics {
    pub arith: spec_fn(ArithOp, Number, Number) -> Number,
    pub format: spec_fn(Number) -> Seq<char>,
}

/// `arith` and `format` stay within `host`.
pub open spec fn serves<A: Fn(ArithOp, Number, Number) -> Number, F: Fn(Number) -> String>(
    arith: A,
    format: F,
    host: Numerics,
) -> bool {
    arith_within(arith, host.arith) && format_within(format, host.format)
}

} // verus!
