use vstd::prelude::*;
use vstd::string::*;

verus! {

/// Something that can be called: a function of the program with the scope
/// it closes over, or a command of the host.
#[derive(Debug)]
pub enum CallableImpl {
    LoxFunction { function: usize, env: usize },
    NativeFunction { native: usize },
}

/// A value of a running program. A number is the bit pattern of a 64-bit
/// IEEE 754 float. Functions, classes and instances are handles into the
/// interpreter's stores, so that a copy of the value is the same thing.
#[derive(Debug)]
pub enum Value {
    Number(u64),
    StringValue(String),
    True,
    False,
    Nil,
    Callable(CallableImpl),
    LoxClass(usize),
    LoxInstance(usize),
}

impl Clone for CallableImpl {
    fn clone(&self) -> (r: Self)
        ensures
            r == *self,
    {
        match self {
            CallableImpl::LoxFunction { function, env } => CallableImpl::LoxFunction {
                function: *function,
                env: *env,
            },
            CallableImpl::NativeFunction { native } => CallableImpl::NativeFunction {
                native: *native,
            },
        }
    }
}

impl Clone for Value {
    fn clone(&self) -> (r: Self)
        ensures
            r == *self,
            r@ == self@,
    {
        match self {
            Value::Number(n) => Value::Number(*n),
            Value::StringValue(s) => Value::StringValue(s.clone()),
            Value::True => Value::True,
            Value::False => Value::False,
            Value::Nil => Value::Nil,
            Value::Callable(c) => Value::Callable(c.clone()),
            Value::LoxClass(c) => Value::LoxClass(*c),
            Value::LoxInstance(i) => Value::LoxInstance(*i),
        }
    }
}

/// What a value is, with a text in place of a string.
pub enum ValueView {
    Number(u64),
    Text(Seq<char>),
    True,
    False,
    Nil,
    Function { function: usize, env: usize },
    Native { native: usize },
    Class(usize),
    Instance(usize),
}

impl View for Value {
    type V = ValueView;

    open spec fn view(&self) -> ValueView {
        match self {
            Value::Number(bits) => ValueView::Number(*bits),
            Value::StringValue(s) => ValueView::Text(s@),
            Value::True => ValueView::True,
            Value::False => ValueView::False,
            Value::Nil => ValueView::Nil,
            Value::Callable(CallableImpl::LoxFunction { function, env }) => ValueView::Function {
                function: *function,
                env: *env,
            },
            Value::Callable(CallableImpl::NativeFunction { native }) => ValueView::Native {
                native: *native,
            },
            Value::LoxClass(c) => ValueView::Class(*c),
            Value::LoxInstance(i) => ValueView::Instance(*i),
        }
    }
}

pub const SIGN: u64 = 0x8000_0000_0000_0000;

pub const EXPONENT: u64 = 0x7ff0_0000_0000_0000;

pub const FRACTION: u64 = 0x000f_ffff_ffff_ffff;

/// Whether the bits are those of a NaN: all exponent bits set and a
/// fraction that is not zero.
pub open spec fn is_nan(bits: u64) -> bool {
    bits & EXPONENT == EXPONENT && bits & FRACTION != 0
}

/// The place of a float that is no NaN on the number line, as far as
/// order goes: its magnitude bits, with the sign before them. Both zeros
/// have the place 0.
pub open spec fn place(bits: u64) -> int {
    if bits & SIGN != 0 {
        -((bits & !SIGN) as int)
    } else {
        bits as int
    }
}

/// `a == b` on floats: no NaN equals anything, the two zeros are equal.
pub open spec fn number_eq(a: u64, b: u64) -> bool {
    !is_nan(a) && !is_nan(b) && place(a) == place(b)
}

/// `a < b` on floats: false where either is a NaN.
pub open spec fn number_lt(a: u64, b: u64) -> bool {
    !is_nan(a) && !is_nan(b) && place(a) < place(b)
}

/// `a <= b` on floats: false where either is a NaN.
pub open spec fn number_le(a: u64, b: u64) -> bool {
    !is_nan(a) && !is_nan(b) && place(a) <= place(b)
}

/// The value that says `b`.
pub open spec fn truth(b: bool) -> ValueView {
    if b {
        ValueView::True
    } else {
        ValueView::False
    }
}

/// Nothing and `false` count as false, every other value as true.
pub open spec fn truthy(v: ValueView) -> bool {
    !(v is Nil || v is False)
}

/// Whether two values are equal: numbers as floats, strings by their
/// text, the constants by kind, and functions, classes and instances only
/// each with itself.
pub open spec fn values_equal(a: ValueView, b: ValueView) -> bool {
    match (a, b) {
        (ValueView::Number(x), ValueView::Number(y)) => number_eq(x, y),
        _ => a == b,
    }
}

pub fn nan(bits: u64) -> (r: bool)
    ensures
        r == is_nan(bits),
{
    bits & EXPONENT == EXPONENT && bits & FRACTION != 0
}

/// Whether `a` stands before `b` (`strict`) or not after it.
fn ordered(a: u64, b: u64, strict: bool) -> (r: bool)
    ensures
        r == if strict {
            number_lt(a, b)
        } else {
            number_le(a, b)
        },
{
    if nan(a) || nan(b) {
        return false;
    }
    let a_minus = a & SIGN != 0;
    let b_minus = b & SIGN != 0;
    let x: u64 = a & !SIGN;
    let y: u64 = b & !SIGN;
    assert(a & SIGN == 0 ==> a & !SIGN == a) by (bit_vector);
    assert(b & SIGN == 0 ==> b & !SIGN == b) by (bit_vector);
    if a_minus && b_minus {
        if strict {
            y < x
        } else {
            y <= x
        }
    } else if a_minus {
        if strict {
            x != 0 || y != 0
        } else {
            true
        }
    } else if b_minus {
        if strict {
            false
        } else {
            x == 0 && y == 0
        }
    } else {
        if strict {
            x < y
        } else {
            x <= y
        }
    }
}

pub fn less(a: u64, b: u64) -> (r: bool)
    ensures
        r == number_lt(a, b),
{
    ordered(a, b, true)
}

pub fn less_equal(a: u64, b: u64) -> (r: bool)
    ensures
        r == number_le(a, b),
{
    ordered(a, b, false)
}

pub fn same_number(a: u64, b: u64) -> (r: bool)
    ensures
        r == number_eq(a, b),
{
    less_equal(a, b) && less_equal(b, a)
}

/// The float with the other sign.
pub fn negated(bits: u64) -> (r: u64)
    ensures
        r == bits ^ SIGN,
{
    bits ^ SIGN
}

impl Value {
    pub fn is_truthy(&self) -> (r: bool)
        ensures
            r == truthy(self@),
    {
        match self {
            Value::Nil => false,
            Value::False => false,
            _ => true,
        }
    }

    pub fn from_bool(b: bool) -> (r: Value)
        ensures
            r@ == truth(b),
    {
        if b {
            Value::True
        } else {
            Value::False
        }
    }

    /// Whether `self` and `other` are equal values.
    pub fn equals(&self, other: &Value) -> (r: bool)
        ensures
            r == values_equal(self@, other@),
    {
        match (self, other) {
            (Value::Number(x), Value::Number(y)) => same_number(*x, *y),
            (Value::StringValue(x), Value::StringValue(y)) => *x == *y,
            (Value::True, Value::True) => true,
            (Value::False, Value::False) => true,
            (Value::Nil, Value::Nil) => true,
            (Value::Callable(x), Value::Callable(y)) => match (x, y) {
                (
                    CallableImpl::LoxFunction { function: f, env: e },
                    CallableImpl::LoxFunction { function: g, env: d },
                ) => *f == *g && *e == *d,
                (
                    CallableImpl::NativeFunction { native: f },
                    CallableImpl::NativeFunction { native: g },
                ) => *f == *g,
                _ => false,
            },
            (Value::LoxClass(x), Value::LoxClass(y)) => *x == *y,
            (Value::LoxInstance(x), Value::LoxInstance(y)) => *x == *y,
            _ => false,
        }
    }

    /// The name of the kind of a value, for error messages.
    pub fn to_type(&self) -> (r: &'static str)
        ensures
            r@ == kind_name(self@),
    {
        match self {
            Value::Number(_) => "Número",
            Value::StringValue(_) => "Texto",
            Value::True => "Booleano",
            Value::False => "Booleano",
            Value::Nil => "nulo",
            Value::Callable(_) => "Função",
            Value::LoxClass(_) => "Classe",
            Value::LoxInstance(_) => "Instância",
        }
    }
}

pub open spec fn kind_name(v: ValueView) -> Seq<char> {
    match v {
        ValueView::Number(_) => "Número"@,
        ValueView::Text(_) => "Texto"@,
        ValueView::True => "Booleano"@,
        ValueView::False => "Booleano"@,
        ValueView::Nil => "nulo"@,
        ValueView::Function { .. } => "Função"@,
        ValueView::Native { .. } => "Função"@,
        ValueView::Class(_) => "Classe"@,
        ValueView::Instance(_) => "Instância"@,
    }
}

} // verus!
