use vstd::prelude::*;
use vstd::string::StringExecFns;
use crate::interpreter::{ErrV, RuntimeError};
use crate::text::{int_text, num_text, str_less, str_lt};

verus! {

/// A runtime value: a 64-bit signed integer, a string, a boolean, or the
/// null value. Arithmetic wraps on overflow; division truncates toward zero
/// and division by zero yields zero.
#[derive(Debug, PartialEq)]
pub enum Object {
    StringObj(String),
    BoolObj(bool),
    NumberObj(i64),
    NullObj,
}

impl Clone for Object {
    fn clone(&self) -> (res: Self)
        ensures
            res == *self,
    {
        match self {
            Object::StringObj(s) => Object::StringObj(s.clone()),
            Object::BoolObj(b) => Object::BoolObj(*b),
            Object::NumberObj(n) => Object::NumberObj(*n),
            Object::NullObj => Object::NullObj,
        }
    }
}

/// Mathematical model of an `Object`.
pub enum ObjectV {
    StringObj(Seq<char>),
    BoolObj(bool),
    NumberObj(i64),
    NullObj,
}

impl View for Object {
    type V = ObjectV;

    open spec fn view(&self) -> ObjectV {
        match self {
            Object::StringObj(s) => ObjectV::StringObj(s@),
            Object::BoolObj(b) => ObjectV::BoolObj(*b),
            Object::NumberObj(n) => ObjectV::NumberObj(*n),
            Object::NullObj => ObjectV::NullObj,
        }
    }
}

/// The model of an operator result: the model of the value on success, the
/// model of the error otherwise.
pub open spec fn obj_res_view(r: Result<Object, RuntimeError>) -> Result<ObjectV, ErrV> {
    match r {
        Ok(o) => Ok(o@),
        Err(e) => Err(e@),
    }
}

/// Truncating division of 64-bit signed integers, total: division by zero
/// yields zero, and the one overflowing quotient wraps back to `i64::MIN`.
pub open spec fn div_trunc(a: i64, b: i64) -> i64 {
    if b == 0 {
        0
    } else if a == i64::MIN && b == -1 {
        i64::MIN
    } else {
        let q = abs_val(a as int) / abs_val(b as int);
        if (a < 0) != (b < 0) {
            (-q) as i64
        } else {
            q as i64
        }
    }
}

/// The absolute value of an integer.
pub open spec fn abs_val(n: int) -> int {
    if n < 0 {
        -n
    } else {
        n
    }
}

/// Sum of two values: numbers add with wrapping, strings concatenate, every
/// other pairing is a type error.
pub open spec fn add_v(a: ObjectV, b: ObjectV) -> Result<ObjectV, ErrV> {
    match (a, b) {
        (ObjectV::NumberObj(x), ObjectV::NumberObj(y)) => Ok(
            ObjectV::NumberObj(vstd::wrapping::i64_specs::wrapping_add(x, y)),
        ),
        (ObjectV::StringObj(x), ObjectV::StringObj(y)) => Ok(ObjectV::StringObj(x + y)),
        _ => Err(ErrV::TypeError),
    }
}

/// Difference of two values: numbers only, with wrapping.
pub open spec fn sub_v(a: ObjectV, b: ObjectV) -> Result<ObjectV, ErrV> {
    match (a, b) {
        (ObjectV::NumberObj(x), ObjectV::NumberObj(y)) => Ok(
            ObjectV::NumberObj(vstd::wrapping::i64_specs::wrapping_sub(x, y)),
        ),
        _ => Err(ErrV::TypeError),
    }
}

/// Product of two values: numbers only, with wrapping.
pub open spec fn mul_v(a: ObjectV, b: ObjectV) -> Result<ObjectV, ErrV> {
    match (a, b) {
        (ObjectV::NumberObj(x), ObjectV::NumberObj(y)) => Ok(
            ObjectV::NumberObj(vstd::wrapping::i64_specs::wrapping_mul(x, y)),
        ),
        _ => Err(ErrV::TypeError),
    }
}

/// Quotient of two values: numbers only, truncating, total.
pub open spec fn div_v(a: ObjectV, b: ObjectV) -> Result<ObjectV, ErrV> {
    match (a, b) {
        (ObjectV::NumberObj(x), ObjectV::NumberObj(y)) => Ok(ObjectV::NumberObj(div_trunc(x, y))),
        _ => Err(ErrV::TypeError),
    }
}

/// Arithmetic negation: numbers only, with wrapping.
pub open spec fn neg_v(a: ObjectV) -> Result<ObjectV, ErrV> {
    match a {
        ObjectV::NumberObj(x) => Ok(
            ObjectV::NumberObj(vstd::wrapping::i64_specs::wrapping_sub(0, x)),
        ),
        _ => Err(ErrV::TypeError),
    }
}

/// Logical negation: booleans only.
pub open spec fn not_v(a: ObjectV) -> Result<ObjectV, ErrV> {
    match a {
        ObjectV::BoolObj(b) => Ok(ObjectV::BoolObj(!b)),
        _ => Err(ErrV::TypeError),
    }
}

/// Structural equality of two values. Values of different kinds are unequal,
/// never an error.
pub open spec fn eq_v(a: ObjectV, b: ObjectV) -> bool {
    match (a, b) {
        (ObjectV::NumberObj(x), ObjectV::NumberObj(y)) => x == y,
        (ObjectV::StringObj(x), ObjectV::StringObj(y)) => x == y,
        (ObjectV::BoolObj(x), ObjectV::BoolObj(y)) => x == y,
        (ObjectV::NullObj, ObjectV::NullObj) => true,
        _ => false,
    }
}

/// Whether two values have the same kind, the precondition of an ordering
/// comparison.
pub open spec fn same_obj_kind(a: ObjectV, b: ObjectV) -> bool {
    match (a, b) {
        (ObjectV::NumberObj(_), ObjectV::NumberObj(_)) => true,
        (ObjectV::StringObj(_), ObjectV::StringObj(_)) => true,
        (ObjectV::BoolObj(_), ObjectV::BoolObj(_)) => true,
        (ObjectV::NullObj, ObjectV::NullObj) => true,
        _ => false,
    }
}

/// Strict order within one kind: numeric order on numbers, lexicographic
/// order on strings, `false < true` on booleans, and no order on null.
pub open spec fn lt_same_kind(a: ObjectV, b: ObjectV) -> bool {
    match (a, b) {
        (ObjectV::NumberObj(x), ObjectV::NumberObj(y)) => x < y,
        (ObjectV::StringObj(x), ObjectV::StringObj(y)) => str_lt(x, y),
        (ObjectV::BoolObj(x), ObjectV::BoolObj(y)) => !x && y,
        _ => false,
    }
}

/// An ordering comparison: a type error across kinds, otherwise a boolean.
/// `strict` asks for the strict order, `flip` swaps the operands, so the
/// four operators are `lt`, `lte`, `gt` and `gte`.
pub open spec fn cmp_v(a: ObjectV, b: ObjectV, strict: bool, flip: bool) -> Result<
    ObjectV,
    ErrV,
> {
    if !same_obj_kind(a, b) {
        Err(ErrV::TypeError)
    } else {
        let (x, y) = if flip {
            (b, a)
        } else {
            (a, b)
        };
        if strict {
            Ok(ObjectV::BoolObj(lt_same_kind(x, y)))
        } else {
            Ok(ObjectV::BoolObj(lt_same_kind(x, y) || eq_v(x, y)))
        }
    }
}

/// The truthiness of a value in a condition: a boolean is its own value and
/// every other kind is a type error.
pub open spec fn truthy_v(a: ObjectV) -> Result<bool, ErrV> {
    match a {
        ObjectV::BoolObj(b) => Ok(b),
        _ => Err(ErrV::TypeError),
    }
}

/// The textual form of a value: numbers in decimal, strings verbatim,
/// booleans as `true` or `false`, null as empty text.
pub open spec fn obj_text(a: ObjectV) -> Seq<char> {
    match a {
        ObjectV::NumberObj(n) => int_text(n as int),
        ObjectV::StringObj(s) => s,
        ObjectV::BoolObj(b) => if b {
            "true"@
        } else {
            "false"@
        },
        ObjectV::NullObj => Seq::empty(),
    }
}

fn type_error() -> (r: RuntimeError)
    ensures
        r@ == ErrV::TypeError,
{
    RuntimeError::TypeError(String::from_str("unsupported operand kinds"))
}

impl Object {
    /// Sum: numeric addition, string concatenation, else a type error.
    pub fn add(self, rhs: Object) -> (r: Result<Object, RuntimeError>)
        ensures
            obj_res_view(r) == add_v(self@, rhs@),
    {
        match (self, rhs) {
            (Object::NumberObj(x), Object::NumberObj(y)) => Ok(
                Object::NumberObj(x.wrapping_add(y)),
            ),
            (Object::StringObj(x), Object::StringObj(y)) => Ok(
                Object::StringObj(x.concat(y.as_str())),
            ),
            _ => Err(type_error()),
        }
    }

    /// Difference: numbers only.
    pub fn sub(self, rhs: Object) -> (r: Result<Object, RuntimeError>)
        ensures
            obj_res_view(r) == sub_v(self@, rhs@),
    {
        match (self, rhs) {
            (Object::NumberObj(x), Object::NumberObj(y)) => Ok(
                Object::NumberObj(x.wrapping_sub(y)),
            ),
            _ => Err(type_error()),
        }
    }

    /// Product: numbers only.
    pub fn mul(self, rhs: Object) -> (r: Result<Object, RuntimeError>)
        ensures
            obj_res_view(r) == mul_v(self@, rhs@),
    {
        match (self, rhs) {
            (Object::NumberObj(x), Object::NumberObj(y)) => Ok(
                Object::NumberObj(x.wrapping_mul(y)),
            ),
            _ => Err(type_error()),
        }
    }

    /// Quotient: numbers only, truncating toward zero, division by zero
    /// yields zero.
    pub fn div(self, rhs: Object) -> (r: Result<Object, RuntimeError>)
        ensures
            obj_res_view(r) == div_v(self@, rhs@),
    {
        match (self, rhs) {
            (Object::NumberObj(x), Object::NumberObj(y)) => Ok(
                Object::NumberObj(div_trunc_exec(x, y)),
            ),
            _ => Err(type_error()),
        }
    }

    /// Arithmetic negation: numbers only.
    pub fn neg(self) -> (r: Result<Object, RuntimeError>)
        ensures
            obj_res_view(r) == neg_v(self@),
    {
        match self {
            Object::NumberObj(x) => Ok(Object::NumberObj((0i64).wrapping_sub(x))),
            _ => Err(type_error()),
        }
    }

    /// Logical negation: booleans only.
    pub fn not(self) -> (r: Result<Object, RuntimeError>)
        ensures
            obj_res_view(r) == not_v(self@),
    {
        match self {
            Object::BoolObj(b) => Ok(Object::BoolObj(!b)),
            _ => Err(type_error()),
        }
    }

    /// Structural equality over any kinds: never an error.
    pub fn eq(&self, other: &Self) -> (r: Result<Object, RuntimeError>)
        ensures
            obj_res_view(r) == Ok::<ObjectV, ErrV>(ObjectV::BoolObj(eq_v(self@, other@))),
    {
        Ok(Object::BoolObj(self.eq_value(other)))
    }

    /// Structural inequality over any kinds: never an error.
    pub fn neq(&self, other: &Self) -> (r: Result<Object, RuntimeError>)
        ensures
            obj_res_view(r) == Ok::<ObjectV, ErrV>(ObjectV::BoolObj(!eq_v(self@, other@))),
    {
        Ok(Object::BoolObj(!self.eq_value(other)))
    }

    fn eq_value(&self, other: &Self) -> (r: bool)
        ensures
            r == eq_v(self@, other@),
    {
        match (self, other) {
            (Object::NumberObj(x), Object::NumberObj(y)) => *x == *y,
            (Object::StringObj(x), Object::StringObj(y)) => x.eq(y),
            (Object::BoolObj(x), Object::BoolObj(y)) => *x == *y,
            (Object::NullObj, Object::NullObj) => true,
            _ => false,
        }
    }

    fn lt_value(&self, other: &Self) -> (r: Result<bool, RuntimeError>)
        ensures
            match r {
                Ok(b) => same_obj_kind(self@, other@) && b == lt_same_kind(self@, other@),
                Err(e) => !same_obj_kind(self@, other@) && e@ == ErrV::TypeError,
            },
    {
        match (self, other) {
            (Object::NumberObj(x), Object::NumberObj(y)) => Ok(*x < *y),
            (Object::StringObj(x), Object::StringObj(y)) => Ok(str_less(x, y)),
            (Object::BoolObj(x), Object::BoolObj(y)) => Ok(!*x && *y),
            (Object::NullObj, Object::NullObj) => Ok(false),
            _ => Err(type_error()),
        }
    }

    /// Strictly greater: operands must share a kind, else a type error.
    pub fn gt(&self, other: &Self) -> (r: Result<Object, RuntimeError>)
        ensures
            obj_res_view(r) == cmp_v(self@, other@, true, true),
    {
        match other.lt_value(self) {
            Ok(b) => Ok(Object::BoolObj(b)),
            Err(e) => Err(e),
        }
    }

    /// Greater or equal: operands must share a kind, else a type error.
    pub fn gte(&self, other: &Self) -> (r: Result<Object, RuntimeError>)
        ensures
            obj_res_view(r) == cmp_v(self@, other@, false, true),
    {
        match other.lt_value(self) {
            Ok(b) => Ok(Object::BoolObj(b || other.eq_value(self))),
            Err(e) => Err(e),
        }
    }

    /// Strictly less: operands must share a kind, else a type error.
    pub fn lt(&self, other: &Self) -> (r: Result<Object, RuntimeError>)
        ensures
            obj_res_view(r) == cmp_v(self@, other@, true, false),
    {
        match self.lt_value(other) {
            Ok(b) => Ok(Object::BoolObj(b)),
            Err(e) => Err(e),
        }
    }

    /// Less or equal: operands must share a kind, else a type error.
    pub fn lte(&self, other: &Self) -> (r: Result<Object, RuntimeError>)
        ensures
            obj_res_view(r) == cmp_v(self@, other@, false, false),
    {
        match self.lt_value(other) {
            Ok(b) => Ok(Object::BoolObj(b || self.eq_value(other))),
            Err(e) => Err(e),
        }
    }

    /// The truthiness of the value in a condition: a boolean is its own
    /// value; using any other kind as a condition is a type error.
    pub fn is_truthy(&self) -> (r: Result<bool, RuntimeError>)
        ensures
            match r {
                Ok(b) => truthy_v(self@) == Ok::<bool, ErrV>(b),
                Err(e) => truthy_v(self@) == Err::<bool, ErrV>(e@),
            },
    {
        match self {
            Object::BoolObj(b) => Ok(*b),
            _ => Err(type_error()),
        }
    }

    /// The textual form of the value, as written by a `print` statement.
    pub fn to_text(&self) -> (s: String)
        ensures
            s@ == obj_text(self@),
    {
        match self {
            Object::NumberObj(n) => num_text(*n),
            Object::StringObj(s) => s.clone(),
            Object::BoolObj(b) => {
                if *b {
                    String::from_str("true")
                } else {
                    String::from_str("false")
                }
            },
            Object::NullObj => String::new(),
        }
    }
}

fn div_trunc_exec(a: i64, b: i64) -> (r: i64)
    ensures
        r == div_trunc(a, b),
{
    if b == 0 {
        0
    } else if a == i64::MIN && b == -1 {
        i64::MIN
    } else {
        let ua: u64 = if a == i64::MIN {
            9223372036854775808u64
        } else if a < 0 {
            (-a) as u64
        } else {
            a as u64
        };
        let ub: u64 = if b == i64::MIN {
            9223372036854775808u64
        } else if b < 0 {
            (-b) as u64
        } else {
            b as u64
        };
        assert(ua == abs_val(a as int));
        assert(ub == abs_val(b as int));
        let q: u64 = ua / ub;
        proof {
            vstd::arithmetic::div_mod::lemma_div_nonincreasing(ua as int, ub as int);
        }
        if (a < 0) != (b < 0) {
            if q == 9223372036854775808u64 {
                i64::MIN
            } else {
                -(q as i64)
            }
        } else {
            assert(q < 9223372036854775808u64) by {
                if a == i64::MIN {
                    assert(ub >= 2);
                    vstd::arithmetic::div_mod::lemma_div_decreases(ua as int, ub as int);
                }
            };
            q as i64
        }
    }
}

} // verus!
