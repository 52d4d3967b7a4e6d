use vstd::prelude::*;
use vstd::string::StringExecFns;
use crate::host::{arith_total, arith_within, format_total, format_within, serves, Numerics};

verus! {

/// The bit that holds the sign of a double.
pub const SIGN_BIT: u64 = 0x8000_0000_0000_0000;

/// The bit pattern of positive infinity; the patterns whose magnitude lies
/// above it are the NaNs.
pub const INFINITY_BITS: u64 = 0x7ff0_0000_0000_0000;

/// An IEEE-754 double, held by its bit pattern. `==` on numbers is IEEE
/// equality, not equality of the bits.
#[derive(Debug, Clone, Copy)]
pub struct Number {
    pub bits: u64,
}

/// The four operations that round.
#[derive(Debug, Clone, Copy, PartialEq, Eq, Structural)]
pub enum ArithOp {
    Add,
    Subtract,
    Multiply,
    Divide,
}

impl Number {
    /// The bit pattern without its sign bit.
    pub open spec fn magnitude(self) -> int {
        if self.bits >= SIGN_BIT {
            self.bits - SIGN_BIT
        } else {
            self.bits as int
        }
    }

    /// Whether this is a NaN.
    pub open spec fn nan(self) -> bool {
        self.magnitude() > INFINITY_BITS
    }

    /// The place of a number that is no NaN on the number line: for two such
    /// numbers, the smaller place belongs to the smaller number, and both
    /// zeros share the place 0.
    pub open spec fn place(self) -> int {
        if self.bits >= SIGN_BIT {
            -self.magnitude()
        } else {
            self.magnitude()
        }
    }

    /// IEEE equality: a NaN equals nothing, the two zeros equal each other,
    /// and any other two numbers are equal when their bits are.
    pub open spec fn same(self, other: Number) -> bool {
        !self.nan() && !other.nan() && self.place() == other.place()
    }

    /// IEEE `<`: false whenever a NaN is involved.
    pub open spec fn below(self, other: Number) -> bool {
        !self.nan() && !other.nan() && self.place() < other.place()
    }

    /// The number with the opposite sign.
    pub open spec fn opposite(self) -> Number {
        if self.bits >= SIGN_BIT {
            Number { bits: (self.bits - SIGN_BIT) as u64 }
        } else {
            Number { bits: (self.bits + SIGN_BIT) as u64 }
        }
    }

    /// The number with the given bit pattern.
    pub fn from_bits(bits: u64) -> (n: Number)
        ensures
            n.bits == bits,
    {
        Number { bits }
    }

    /// The bit pattern of this number.
    pub fn to_bits(self) -> (bits: u64)
        ensures
            bits == self.bits,
    {
        self.bits
    }

    fn magnitude_bits(self) -> (m: u64)
        ensures
            m == self.magnitude(),
    {
        if self.bits >= SIGN_BIT {
            self.bits - SIGN_BIT
        } else {
            self.bits
        }
    }

    /// Whether this is a NaN.
    pub fn is_nan(self) -> (r: bool)
        ensures
            r == self.nan(),
    {
        self.magnitude_bits() > INFINITY_BITS
    }

    /// The number with the opposite sign; a NaN stays a NaN.
    pub fn negate(self) -> (n: Number)
        ensures
            n == self.opposite(),
    {
        if self.bits >= SIGN_BIT {
            Number { bits: self.bits - SIGN_BIT }
        } else {
            Number { bits: self.bits + SIGN_BIT }
        }
    }

    /// IEEE equality.
    pub fn equals(self, other: Number) -> (r: bool)
        ensures
            r == self.same(other),
    {
        if self.is_nan() || other.is_nan() {
            false
        } else {
            let a = self.magnitude_bits();
            let b = other.magnitude_bits();
            if a == 0 && b == 0 {
                true
            } else {
                self.bits == other.bits
            }
        }
    }

    /// IEEE `<`.
    pub fn less_than(self, other: Number) -> (r: bool)
        ensures
            r == self.below(other),
    {
        if self.is_nan() || other.is_nan() {
            false
        } else {
            let a = self.magnitude_bits();
            let b = other.magnitude_bits();
            let a_negative = self.bits >= SIGN_BIT;
            let b_negative = other.bits >= SIGN_BIT;
            if a_negative && b_negative {
                b < a
            } else if a_negative {
                a != 0 || b != 0
            } else if b_negative {
                false
            } else {
                a < b
            }
        }
    }

    /// Negating twice gives the number back.
    pub proof fn lemma_opposite_twice(n: Number)
        ensures
            n.opposite().opposite() == n,
            n.opposite().nan() == n.nan(),
    {
    }

    /// Of two numbers that are no NaN exactly one of `<`, `==` and `>`
    /// holds.
    pub proof fn lemma_trichotomy(a: Number, b: Number)
        requires
            !a.nan(),
            !b.nan(),
        ensures
            a.below(b) || a.same(b) || b.below(a),
            !(a.below(b) && a.same(b)),
            !(a.below(b) && b.below(a)),
            !(a.same(b) && b.below(a)),
    {
    }
}

impl PartialEq for Number {
    fn eq(&self, other: &Number) -> (r: bool) {
        self.equals(*other)
    }
}

impl vstd::std_specs::cmp::PartialEqSpecImpl for Number {
    open spec fn obeys_eq_spec() -> bool {
        true
    }

    open spec fn eq_spec(&self, other: &Number) -> bool {
        self.same(*other)
    }
}

/// A value of the language. `==` on values is the equality of the language.
#[derive(Debug, Clone)]
pub enum Value {
    Number(Number),
    Bool(bool),
    String(String),
    /// The name of a global variable; it occurs in constant pools only.
    Ident(String),
    Nil,
}

/// The mathematical content of a [`Value`].
pub enum ValueView {
    Number(Number),
    Bool(bool),
    String(Seq<char>),
    Ident(Seq<char>),
    Nil,
}

impl View for Value {
    type V = ValueView;

    open spec fn view(&self) -> ValueView {
        match self {
            Value::Number(n) => ValueView::Number(*n),
            Value::Bool(b) => ValueView::Bool(*b),
            Value::String(s) => ValueView::String(s@),
            Value::Ident(s) => ValueView::Ident(s@),
            Value::Nil => ValueView::Nil,
        }
    }
}

/// The views of the values of a sequence.
pub open spec fn views(values: Seq<Value>) -> Seq<ValueView> {
    values.map_values(|v: Value| v@)
}

impl ValueView {
    /// `Nil` and `false` are falsy; every other value is truthy.
    pub open spec fn truthy(self) -> bool {
        !(self is Nil || self == ValueView::Bool(false))
    }

    /// Equality of the language: values of different kinds are unequal,
    /// numbers are compared as IEEE doubles, all others by their content.
    pub open spec fn same(self, other: ValueView) -> bool {
        match (self, other) {
            (ValueView::Number(a), ValueView::Number(b)) => a.same(b),
            (ValueView::Bool(a), ValueView::Bool(b)) => a == b,
            (ValueView::String(a), ValueView::String(b)) => a == b,
            (ValueView::Ident(a), ValueView::Ident(b)) => a == b,
            (ValueView::Nil, ValueView::Nil) => true,
            _ => false,
        }
    }

    /// `self < other`, defined for two numbers neither of which is a NaN.
    pub open spec fn below(self, other: ValueView) -> Option<bool> {
        match (self, other) {
            (ValueView::Number(a), ValueView::Number(b)) => if a.nan() || b.nan() {
                None
            } else {
                Some(a.below(b))
            },
            _ => None,
        }
    }

    /// The negation of a number.
    pub open spec fn negated(self) -> Option<ValueView> {
        match self {
            ValueView::Number(a) => Some(ValueView::Number(a.opposite())),
            _ => None,
        }
    }

    /// The logical negation of the truthiness.
    pub open spec fn inverted(self) -> ValueView {
        ValueView::Bool(!self.truthy())
    }

    /// `self + other`: the sum of two numbers, or the concatenation of two
    /// strings or of a string and the text of a number.
    pub open spec fn plus(
        self,
        other: ValueView,
        arith: spec_fn(ArithOp, Number, Number) -> Number,
        format: spec_fn(Number) -> Seq<char>,
    ) -> Option<ValueView> {
        match (self, other) {
            (ValueView::Number(a), ValueView::Number(b)) => Some(
                ValueView::Number(arith(ArithOp::Add, a, b)),
            ),
            (ValueView::Number(a), ValueView::String(b)) => Some(ValueView::String(format(a) + b)),
            (ValueView::String(a), ValueView::Number(b)) => Some(ValueView::String(a + format(b))),
            (ValueView::String(a), ValueView::String(b)) => Some(ValueView::String(a + b)),
            _ => None,
        }
    }

    /// `self op other` for two numbers.
    pub open spec fn combined(
        self,
        op: ArithOp,
        other: ValueView,
        arith: spec_fn(ArithOp, Number, Number) -> Number,
    ) -> Option<ValueView> {
        match (self, other) {
            (ValueView::Number(a), ValueView::Number(b)) => Some(ValueView::Number(arith(op, a, b))),
            _ => None,
        }
    }

    /// The text that stands for a value when it is printed.
    pub open spec fn shown(self, format: spec_fn(Number) -> Seq<char>) -> Seq<char> {
        match self {
            ValueView::Number(n) => format(n),
            ValueView::String(s) => seq!['"'] + s + seq!['"'],
            ValueView::Nil => "Nil"@,
            ValueView::Bool(true) => "True"@,
            ValueView::Bool(false) => "False"@,
            ValueView::Ident(s) => seq!['@'] + s,
        }
    }
}

impl PartialEq for Value {
    fn eq(&self, other: &Value) -> (r: bool) {
        self.equals(other)
    }
}

impl vstd::std_specs::cmp::PartialEqSpecImpl for Value {
    open spec fn obeys_eq_spec() -> bool {
        true
    }

    open spec fn eq_spec(&self, other: &Value) -> bool {
        self@.same(other@)
    }
}

impl Value {
    /// A copy of this value.
    pub fn duplicate(&self) -> (v: Value)
        ensures
            v@ == self@,
    {
        match self {
            Value::Number(n) => Value::Number(*n),
            Value::Bool(b) => Value::Bool(*b),
            Value::String(s) => Value::String(s.clone()),
            Value::Ident(s) => Value::Ident(s.clone()),
            Value::Nil => Value::Nil,
        }
    }

    /// Whether this value counts as true: every value does but `Nil` and
    /// `false`.
    pub fn truthy(&self) -> (r: bool)
        ensures
            r == self@.truthy(),
            r == !(self@ is Nil || self@ == ValueView::Bool(false)),
    {
        match self {
            Value::Nil => false,
            Value::Bool(false) => false,
            _ => true,
        }
    }

    /// Equality of the language.
    pub fn equals(&self, other: &Value) -> (r: bool)
        ensures
            r == self@.same(other@),
    {
        match (self, other) {
            (Value::Number(a), Value::Number(b)) => a.equals(*b),
            (Value::Bool(a), Value::Bool(b)) => *a == *b,
            (Value::String(a), Value::String(b)) => *a == *b,
            (Value::Ident(a), Value::Ident(b)) => *a == *b,
            (Value::Nil, Value::Nil) => true,
            _ => false,
        }
    }

    /// `self < other`; `None` unless both are numbers and neither is a NaN.
    pub fn less(&self, other: &Value) -> (r: Option<bool>)
        ensures
            r == self@.below(other@),
    {
        match (self, other) {
            (Value::Number(a), Value::Number(b)) => {
                if a.is_nan() || b.is_nan() {
                    None
                } else {
                    Some(a.less_than(*b))
                }
            },
            _ => None,
        }
    }

    /// `self > other`; `None` unless both are numbers and neither is a NaN.
    pub fn greater(&self, other: &Value) -> (r: Option<bool>)
        ensures
            r == other@.below(self@),
    {
        other.less(self)
    }

    /// The negation of a number; `None` for any other value.
    pub fn neg(&self) -> (r: Option<Value>)
        ensures
            r is Some <==> self@ is Number,
            r is Some ==> Some(r->0@) == self@.negated(),
    {
        match self {
            Value::Number(n) => Some(Value::Number(n.negate())),
            _ => None,
        }
    }

    /// The boolean opposite of the truthiness of this value.
    pub fn not(&self) -> (r: Value)
        ensures
            r@ == self@.inverted(),
    {
        Value::Bool(!self.truthy())
    }

    /// `self + rhs`. Two numbers are added by `arith`; two strings, or a
    /// string and a number in either order, are joined, the number as the
    /// text that `format` gives for it. `None` for any other pair.
    pub fn add<A: Fn(ArithOp, Number, Number) -> Number, F: Fn(Number) -> String>(
        &self,
        rhs: &Value,
        arith: &A,
        format: &F,
    ) -> (r: Option<Value>)
        requires
            arith_total(*arith),
            format_total(*format),
        ensures
            r is Some <==> (self@ is Number || self@ is String) && (rhs@ is Number || rhs@ is String),
            forall|host: Numerics| #[trigger]
                serves(*arith, *format, host) ==> (match r {
                    Some(sum) => Some(sum@),
                    None => None,
                }) == self@.plus(rhs@, host.arith, host.format),
            self@ is String && rhs@ is String ==> r is Some && r->0@ == ValueView::String(
                self@->String_0 + rhs@->String_0,
            ),
    {
        match (self, rhs) {
            (Value::Number(a), Value::Number(b)) => Some(
                Value::Number(arith(ArithOp::Add, *a, *b)),
            ),
            (Value::Number(a), Value::String(b)) => {
                let mut text = format(*a);
                text.append(b.as_str());
                Some(Value::String(text))
            },
            (Value::String(a), Value::Number(b)) => {
                let mut text = a.clone();
                let shown = format(*b);
                text.append(shown.as_str());
                Some(Value::String(text))
            },
            (Value::String(a), Value::String(b)) => {
                let mut text = a.clone();
                text.append(b.as_str());
                Some(Value::String(text))
            },
            _ => None,
        }
    }

    /// `self op rhs` for two numbers, computed by `arith`; `None` for any
    /// other pair.
    pub fn combine<A: Fn(ArithOp, Number, Number) -> Number>(
        &self,
        op: ArithOp,
        rhs: &Value,
        arith: &A,
    ) -> (r: Option<Value>)
        requires
            arith_total(*arith),
        ensures
            r is Some <==> self@ is Number && rhs@ is Number,
            forall|g: spec_fn(ArithOp, Number, Number) -> Number| #[trigger]
                arith_within(*arith, g) ==> (match r {
                    Some(value) => Some(value@),
                    None => None,
                }) == self@.combined(op, rhs@, g),
    {
        match (self, rhs) {
            (Value::Number(a), Value::Number(b)) => Some(
                Value::Number(arith(op, *a, *b)),
            ),
            _ => None,
        }
    }

    /// `self - rhs` for two numbers.
    pub fn sub<A: Fn(ArithOp, Number, Number) -> Number>(&self, rhs: &Value, arith: &A) -> (r:
        Option<Value>)
        requires
            arith_total(*arith),
        ensures
            r is Some <==> self@ is Number && rhs@ is Number,
            forall|g: spec_fn(ArithOp, Number, Number) -> Number| #[trigger]
                arith_within(*arith, g) ==> (match r {
                    Some(value) => Some(value@),
                    None => None,
                }) == self@.combined(ArithOp::Subtract, rhs@, g),
    {
        self.combine(ArithOp::Subtract, rhs, arith)
    }

    /// `self * rhs` for two numbers.
    pub fn mul<A: Fn(ArithOp, Number, Number) -> Number>(&self, rhs: &Value, arith: &A) -> (r:
        Option<Value>)
        requires
            arith_total(*arith),
        ensures
            r is Some <==> self@ is Number && rhs@ is Number,
            forall|g: spec_fn(ArithOp, Number, Number) -> Number| #[trigger]
                arith_within(*arith, g) ==> (match r {
                    Some(value) => Some(value@),
                    None => None,
                }) == self@.combined(ArithOp::Multiply, rhs@, g),
    {
        self.combine(ArithOp::Multiply, rhs, arith)
    }

    /// `self / rhs` for two numbers.
    pub fn div<A: Fn(ArithOp, Number, Number) -> Number>(&self, rhs: &Value, arith: &A) -> (r:
        Option<Value>)
        requires
            arith_total(*arith),
        ensures
            r is Some <==> self@ is Number && rhs@ is Number,
            forall|g: spec_fn(ArithOp, Number, Number) -> Number| #[trigger]
                arith_within(*arith, g) ==> (match r {
                    Some(value) => Some(value@),
                    None => None,
                }) == self@.combined(ArithOp::Divide, rhs@, g),
    {
        self.combine(ArithOp::Divide, rhs, arith)
    }

    /// The text that stands for this value when it is printed: a number as
    /// `format` gives it, a string between double quotes, `Nil`, `True`,
    /// `False`, and a name after `@`.
    pub fn display<F: Fn(Number) -> String>(&self, format: &F) -> (s: String)
        requires
            format_total(*format),
        ensures
            forall|g: spec_fn(Number) -> Seq<char>| #[trigger]
                format_within(*format, g) ==> s@ == self@.shown(g),
            !(self@ is Number) ==> forall|g: spec_fn(Number) -> Seq<char>| s@ == self@.shown(g),
    {
        match self {
            Value::Number(n) => format(*n),
            Value::String(t) => {
                let mut s = String::new();
                s.push('"');
                s.append(t.as_str());
                s.push('"');
                assert(s@ == seq!['"'] + t@ + seq!['"']);
                s
            },
            Value::Nil => String::from_str("Nil"),
            Value::Bool(true) => String::from_str("True"),
            Value::Bool(false) => String::from_str("False"),
            Value::Ident(t) => {
                let mut s = String::new();
                s.push('@');
                s.append(t.as_str());
                assert(s@ == seq!['@'] + t@);
                s
            },
        }
    }
}

} // verus!
