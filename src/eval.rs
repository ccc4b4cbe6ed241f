//! Operands, comparison and arithmetic.
use vstd::prelude::*;
use vstd::string::StrSliceExecFns;
use crate::env::{lookup, Env};
use crate::error::ErrorKind;
use crate::value::{normalize, normalize_spec, Value, ValueModel};

verus! {

/// A comparison operator of a condition.
#[derive(Debug, Clone, Copy, PartialEq, Eq, Structural)]
pub enum CmpOp {
    Eq,
    Ne,
    Gt,
    Ge,
    Lt,
    Le,
}

/// An arithmetic operator.
#[derive(Debug, Clone, Copy, PartialEq, Eq, Structural)]
pub enum ArithOp {
    Add,
    Sub,
    Mul,
    Div,
    Rem,
}

/// The comparison operator that `s` spells: `==`, `!=`, `>`, `>=`, `<`, `<=`.
pub open spec fn cmp_op_of(s: Seq<char>) -> Option<CmpOp> {
    if s == seq!['=', '='] {
        Some(CmpOp::Eq)
    } else if s == seq!['!', '='] {
        Some(CmpOp::Ne)
    } else if s == seq!['>'] {
        Some(CmpOp::Gt)
    } else if s == seq!['>', '='] {
        Some(CmpOp::Ge)
    } else if s == seq!['<'] {
        Some(CmpOp::Lt)
    } else if s == seq!['<', '='] {
        Some(CmpOp::Le)
    } else {
        None
    }
}

/// The arithmetic operator that `s` spells: `+`, `-`, `*`, `/`, `%`.
pub open spec fn arith_op_of(s: Seq<char>) -> Option<ArithOp> {
    if s == seq!['+'] {
        Some(ArithOp::Add)
    } else if s == seq!['-'] {
        Some(ArithOp::Sub)
    } else if s == seq!['*'] {
        Some(ArithOp::Mul)
    } else if s == seq!['/'] {
        Some(ArithOp::Div)
    } else if s == seq!['%'] {
        Some(ArithOp::Rem)
    } else {
        None
    }
}

/// Reads a comparison operator.
pub fn parse_cmp_op(s: &str) -> (r: Option<CmpOp>)
    ensures
        r == cmp_op_of(s@),
{
    let n = s.unicode_len();
    if n == 0 || n > 2 {
        assert(s@.len() != 1 && s@.len() != 2);
        return None;
    }
    let c0 = s.get_char(0);
    let c1 = if n == 2 {
        s.get_char(1)
    } else {
        ' '
    };
    let r = if n == 2 && c0 == '=' && c1 == '=' {
        Some(CmpOp::Eq)
    } else if n == 2 && c0 == '!' && c1 == '=' {
        Some(CmpOp::Ne)
    } else if n == 1 && c0 == '>' {
        Some(CmpOp::Gt)
    } else if n == 2 && c0 == '>' && c1 == '=' {
        Some(CmpOp::Ge)
    } else if n == 1 && c0 == '<' {
        Some(CmpOp::Lt)
    } else if n == 2 && c0 == '<' && c1 == '=' {
        Some(CmpOp::Le)
    } else {
        None
    };
    proof {
        if n == 1 {
            assert(s@ =~= seq![c0]);
        } else {
            assert(s@ =~= seq![c0, c1]);
        }
    }
    r
}

/// Reads an arithmetic operator.
pub fn parse_arith_op(s: &str) -> (r: Option<ArithOp>)
    ensures
        r == arith_op_of(s@),
{
    let n = s.unicode_len();
    if n != 1 {
        return None;
    }
    let c = s.get_char(0);
    assert(s@ =~= seq![c]);
    if c == '+' {
        Some(ArithOp::Add)
    } else if c == '-' {
        Some(ArithOp::Sub)
    } else if c == '*' {
        Some(ArithOp::Mul)
    } else if c == '/' {
        Some(ArithOp::Div)
    } else if c == '%' {
        Some(ArithOp::Rem)
    } else {
        None
    }
}

/// What an operand token stands for: the variable it names where it starts
/// with `$`, else the value of the literal; nothing for an empty token.
pub open spec fn resolve_spec(t: Seq<char>, env: Seq<(Seq<char>, ValueModel)>) -> Option<
    ValueModel,
> {
    if t.len() > 0 && t[0] == '$' {
        lookup(env, t)
    } else if t.len() > 0 {
        Some(normalize_spec(t))
    } else {
        None
    }
}

/// Resolves an operand token against an environment.
pub fn resolve(token: &String, env: &Env) -> (r: Option<Value>)
    ensures
        match r {
            Some(v) => resolve_spec(token@, env@) == Some(v@),
            None => resolve_spec(token@, env@).is_none(),
        },
{
    let t = token.as_str();
    let n = t.unicode_len();
    if n == 0 {
        None
    } else if t.get_char(0) == '$' {
        env.get(token)
    } else {
        Some(normalize(t))
    }
}

/// Whether `x` comes before `y` in lexicographic order, looking from
/// position `k` on, where the two agree before `k`.
pub open spec fn less_from(x: Seq<char>, y: Seq<char>, k: int) -> bool
    decreases x.len() - k,
{
    if k >= y.len() || k < 0 {
        false
    } else if k >= x.len() {
        true
    } else if x[k] != y[k] {
        (x[k] as u32) < (y[k] as u32)
    } else {
        less_from(x, y, k + 1)
    }
}

/// Lexicographic order of texts, character by character.
pub open spec fn text_less(x: Seq<char>, y: Seq<char>) -> bool {
    less_from(x, y, 0)
}

/// The outcome of `op` on two operands, given whether the first is below
/// the second and whether they are equal.
pub open spec fn outcome(lt: bool, eq: bool, op: CmpOp) -> bool {
    match op {
        CmpOp::Eq => eq,
        CmpOp::Ne => !eq,
        CmpOp::Gt => !lt && !eq,
        CmpOp::Ge => !lt,
        CmpOp::Lt => lt,
        CmpOp::Le => lt || eq,
    }
}

/// A condition on two values. Values of different variants never satisfy
/// it, nor do floats or nulls.
pub open spec fn evaluate_spec(a: ValueModel, b: ValueModel, op: CmpOp) -> bool {
    match (a, b) {
        (ValueModel::Bool(x), ValueModel::Bool(y)) => outcome(!x && y, x == y, op),
        (ValueModel::Int(x), ValueModel::Int(y)) => outcome(x < y, x == y, op),
        (ValueModel::UInt(x), ValueModel::UInt(y)) => outcome(x < y, x == y, op),
        (ValueModel::Str(x), ValueModel::Str(y)) => outcome(text_less(x, y), x == y, op),
        _ => false,
    }
}

fn text_lt(x: &String, y: &String) -> (r: bool)
    ensures
        r == text_less(x@, y@),
{
    let a = x.as_str();
    let b = y.as_str();
    let n = a.unicode_len();
    let m = b.unicode_len();
    let mut k: usize = 0;
    while k < n && k < m
        invariant
            a@ == x@,
            b@ == y@,
            n == x@.len(),
            m == y@.len(),
            k <= n,
            k <= m,
            text_less(x@, y@) == less_from(x@, y@, k as int),
        decreases n - k,
    {
        let c = a.get_char(k);
        let d = b.get_char(k);
        if c != d {
            return (c as u32) < (d as u32);
        }
        k = k + 1;
    }
    k < m
}

fn holds(lt: bool, eq: bool, op: CmpOp) -> (r: bool)
    ensures
        r == outcome(lt, eq, op),
{
    match op {
        CmpOp::Eq => eq,
        CmpOp::Ne => !eq,
        CmpOp::Gt => !lt && !eq,
        CmpOp::Ge => !lt,
        CmpOp::Lt => lt,
        CmpOp::Le => lt || eq,
    }
}

/// Evaluates a condition on two resolved operands.
pub fn evaluate(a: &Value, b: &Value, op: CmpOp) -> (r: bool)
    ensures
        r == evaluate_spec(a@, b@, op),
{
    match (a, b) {
        (Value::Bool(x), Value::Bool(y)) => holds(!*x && *y, *x == *y, op),
        (Value::Int(x), Value::Int(y)) => holds(*x < *y, *x == *y, op),
        (Value::UInt(x), Value::UInt(y)) => holds(*x < *y, *x == *y, op),
        (Value::Str(x), Value::Str(y)) => holds(text_lt(x, y), *x == *y, op),
        _ => false,
    }
}

/// An integer result kept where `i64` holds it.
pub open spec fn signed_result(v: int) -> Result<ValueModel, ErrorKind> {
    if i64::MIN <= v <= i64::MAX {
        Ok(ValueModel::Int(v as i64))
    } else {
        Err(ErrorKind::ArithmeticOverflow)
    }
}

/// An integer result kept where `u64` holds it.
pub open spec fn unsigned_result(v: int) -> Result<ValueModel, ErrorKind> {
    if 0 <= v <= u64::MAX {
        Ok(ValueModel::UInt(v as u64))
    } else {
        Err(ErrorKind::ArithmeticOverflow)
    }
}

/// Arithmetic on two operands of one integer variant; division and
/// remainder truncate toward zero, as Rust's do, and any remainder by -1 is
/// 0. Any other pair of variants
/// gives `Null`.
pub open spec fn compute_spec(a: ValueModel, b: ValueModel, op: ArithOp) -> Result<
    ValueModel,
    ErrorKind,
> {
    match (a, b) {
        (ValueModel::Int(x), ValueModel::Int(y)) => match op {
            ArithOp::Add => signed_result(x + y),
            ArithOp::Sub => signed_result(x - y),
            ArithOp::Mul => signed_result(x * y),
            ArithOp::Div => if y == 0 {
                Err(ErrorKind::DivisionByZero)
            } else {
                match i64::checked_div(x, y) {
                    Some(q) => Ok(ValueModel::Int(q)),
                    None => Err(ErrorKind::ArithmeticOverflow),
                }
            },
            ArithOp::Rem => if y == 0 {
                Err(ErrorKind::DivisionByZero)
            } else if y == -1 {
                Ok(ValueModel::Int(0))
            } else {
                match i64::checked_rem(x, y) {
                    Some(q) => Ok(ValueModel::Int(q)),
                    None => Err(ErrorKind::ArithmeticOverflow),
                }
            },
        },
        (ValueModel::UInt(x), ValueModel::UInt(y)) => match op {
            ArithOp::Add => unsigned_result(x + y),
            ArithOp::Sub => unsigned_result(x - y),
            ArithOp::Mul => unsigned_result(x * y),
            ArithOp::Div => if y == 0 {
                Err(ErrorKind::DivisionByZero)
            } else {
                Ok(ValueModel::UInt(x / y))
            },
            ArithOp::Rem => if y == 0 {
                Err(ErrorKind::DivisionByZero)
            } else {
                Ok(ValueModel::UInt(x % y))
            },
        },
        _ => Ok(ValueModel::Null),
    }
}

fn some_int(r: Option<i64>) -> (v: Result<Value, ErrorKind>)
    ensures
        match r {
            Some(q) => v matches Ok(Value::Int(x)) && x == q,
            None => v == Err::<Value, ErrorKind>(ErrorKind::ArithmeticOverflow),
        },
{
    match r {
        Some(q) => Ok(Value::Int(q)),
        None => Err(ErrorKind::ArithmeticOverflow),
    }
}

fn some_uint(r: Option<u64>) -> (v: Result<Value, ErrorKind>)
    ensures
        match r {
            Some(q) => v matches Ok(Value::UInt(x)) && x == q,
            None => v == Err::<Value, ErrorKind>(ErrorKind::ArithmeticOverflow),
        },
{
    match r {
        Some(q) => Ok(Value::UInt(q)),
        None => Err(ErrorKind::ArithmeticOverflow),
    }
}

/// Applies an arithmetic operator to two resolved operands.
pub fn compute(a: &Value, b: &Value, op: ArithOp) -> (r: Result<Value, ErrorKind>)
    ensures
        match r {
            Ok(v) => compute_spec(a@, b@, op) == Ok::<ValueModel, ErrorKind>(v@),
            Err(e) => compute_spec(a@, b@, op) == Err::<ValueModel, ErrorKind>(e),
        },
{
    match (a, b) {
        (Value::Int(x), Value::Int(y)) => match op {
            ArithOp::Add => some_int(x.checked_add(*y)),
            ArithOp::Sub => some_int(x.checked_sub(*y)),
            ArithOp::Mul => some_int(x.checked_mul(*y)),
            ArithOp::Div => if *y == 0 {
                Err(ErrorKind::DivisionByZero)
            } else {
                some_int(x.checked_div(*y))
            },
            ArithOp::Rem => if *y == 0 {
                Err(ErrorKind::DivisionByZero)
            } else if *y == -1 {
                Ok(Value::Int(0))
            } else {
                some_int(x.checked_rem(*y))
            },
        },
        (Value::UInt(x), Value::UInt(y)) => match op {
            ArithOp::Add => some_uint(x.checked_add(*y)),
            ArithOp::Sub => some_uint(x.checked_sub(*y)),
            ArithOp::Mul => some_uint(x.checked_mul(*y)),
            ArithOp::Div => if *y == 0 {
                Err(ErrorKind::DivisionByZero)
            } else {
                Ok(Value::UInt(*x / *y))
            },
            ArithOp::Rem => if *y == 0 {
                Err(ErrorKind::DivisionByZero)
            } else {
                Ok(Value::UInt(*x % *y))
            },
        },
        _ => Ok(Value::Null),
    }
}

} // verus!
