//! The typed dynamic value and the rules that turn a literal into one.
use vstd::prelude::*;
use vstd::string::StrSliceExecFns;

verus! {

/// A value as the engine sees it.
///
/// A float is kept as the literal text it was read from: this library does
/// no floating-point arithmetic, so a float never takes part in a computation
/// or a comparison here.
#[derive(Debug, Clone, PartialEq)]
pub enum Value {
    Bool(bool),
    Int(i64),
    UInt(u64),
    Float(String),
    Str(String),
    Null,
}

/// The mathematical form of a [`Value`]: text as a sequence of characters.
pub ghost enum ValueModel {
    Bool(bool),
    Int(i64),
    UInt(u64),
    Float(Seq<char>),
    Str(Seq<char>),
    Null,
}

impl View for Value {
    type V = ValueModel;

    open spec fn view(&self) -> ValueModel {
        match self {
            Value::Bool(b) => ValueModel::Bool(*b),
            Value::Int(i) => ValueModel::Int(*i),
            Value::UInt(u) => ValueModel::UInt(*u),
            Value::Float(t) => ValueModel::Float(t@),
            Value::Str(t) => ValueModel::Str(t@),
            Value::Null => ValueModel::Null,
        }
    }
}

impl Value {
    /// A copy of the value.
    pub fn copy(&self) -> (r: Value)
        ensures
            r@ == self@,
    {
        match self {
            Value::Bool(b) => Value::Bool(*b),
            Value::Int(i) => Value::Int(*i),
            Value::UInt(u) => Value::UInt(*u),
            Value::Float(t) => Value::Float(t.clone()),
            Value::Str(t) => Value::Str(t.clone()),
            Value::Null => Value::Null,
        }
    }
}

pub open spec fn is_digit(c: char) -> bool {
    '0' <= c && c <= '9'
}

pub open spec fn all_digits(s: Seq<char>) -> bool {
    forall|i: int| 0 <= i < s.len() ==> is_digit(#[trigger] s[i])
}

pub open spec fn digit_value(c: char) -> nat {
    (c as nat - '0' as nat) as nat
}

/// The number that a string of decimal digits denotes.
pub open spec fn digits_value(s: Seq<char>) -> nat
    decreases s.len(),
{
    if s.len() == 0 {
        0
    } else {
        digits_value(s.drop_last()) * 10 + digit_value(s.last())
    }
}

/// A non-empty run of digits, with an optional leading `+` or `-`.
pub open spec fn integer_literal(s: Seq<char>) -> Option<int> {
    if s.len() > 1 && s[0] == '-' && all_digits(s.skip(1)) {
        Some(-(digits_value(s.skip(1)) as int))
    } else if s.len() > 1 && s[0] == '+' && all_digits(s.skip(1)) {
        Some(digits_value(s.skip(1)) as int)
    } else if s.len() > 0 && all_digits(s) {
        Some(digits_value(s) as int)
    } else {
        None
    }
}

/// `s` without a leading `+` or `-`.
pub open spec fn unsigned_part(s: Seq<char>) -> Seq<char> {
    if s.len() > 0 && (s[0] == '-' || s[0] == '+') {
        s.skip(1)
    } else {
        s
    }
}

/// `body` is digits around a single `.` at `p`, with at least one digit.
pub open spec fn dot_at(body: Seq<char>, p: int) -> bool {
    &&& 0 <= p < body.len()
    &&& body[p] == '.'
    &&& body.len() > 1
    &&& all_digits(body.take(p))
    &&& all_digits(body.skip(p + 1))
}

/// Digits with at most one `.` among them and at least one digit: `42`,
/// `3.14`, `.5`, `2.`.
pub open spec fn decimal_mantissa(m: Seq<char>) -> bool {
    (m.len() > 0 && all_digits(m)) || exists|p: int| #[trigger] dot_at(m, p)
}

pub open spec fn exp_mark(c: char) -> bool {
    c == 'e' || c == 'E'
}

/// `body` is a mantissa, then `e` or `E` at position `e`, then an exponent
/// with an optional sign: `1e3`, `2.5E-4`.
pub open spec fn exp_at(body: Seq<char>, e: int) -> bool {
    &&& 0 <= e < body.len()
    &&& exp_mark(body[e])
    &&& decimal_mantissa(body.take(e))
    &&& integer_literal(body.skip(e + 1)).is_some()
}

/// `b` spells the same word as `lower`, letter by letter in either case.
pub open spec fn word_ci(b: Seq<char>, lower: Seq<char>, upper: Seq<char>) -> bool {
    &&& b.len() == lower.len()
    &&& upper.len() == lower.len()
    &&& forall|i: int| 0 <= i < b.len() ==> #[trigger] b[i] == lower[i] || b[i] == upper[i]
}

/// `inf`, `infinity` or `nan`, in any case.
pub open spec fn special_float(b: Seq<char>) -> bool {
    word_ci(b, seq!['i', 'n', 'f'], seq!['I', 'N', 'F']) || word_ci(
        b,
        seq!['i', 'n', 'f', 'i', 'n', 'i', 't', 'y'],
        seq!['I', 'N', 'F', 'I', 'N', 'I', 'T', 'Y'],
    ) || word_ci(b, seq!['n', 'a', 'n'], seq!['N', 'A', 'N'])
}

/// A float literal as Rust's float parse reads it, with an optional leading
/// sign: a decimal mantissa with an optional exponent, or one of the special
/// spellings.
pub open spec fn float_literal(s: Seq<char>) -> bool {
    let b = unsigned_part(s);
    special_float(b) || decimal_mantissa(b) || exists|e: int| #[trigger] exp_at(b, e)
}

pub open spec fn seq_true() -> Seq<char> {
    seq!['t', 'r', 'u', 'e']
}

pub open spec fn seq_false() -> Seq<char> {
    seq!['f', 'a', 'l', 's', 'e']
}

/// What a literal string denotes: a boolean, then a signed integer, then an
/// unsigned one, then a float (an integer too large for both is read as a
/// float), and otherwise the string itself.
pub open spec fn normalize_spec(s: Seq<char>) -> ValueModel {
    if s == seq_true() {
        ValueModel::Bool(true)
    } else if s == seq_false() {
        ValueModel::Bool(false)
    } else if integer_literal(s).is_some() {
        let v = integer_literal(s).unwrap();
        if i64::MIN <= v <= i64::MAX {
            ValueModel::Int(v as i64)
        } else if 0 <= v <= u64::MAX {
            ValueModel::UInt(v as u64)
        } else {
            ValueModel::Float(s)
        }
    } else if float_literal(s) {
        ValueModel::Float(s)
    } else {
        ValueModel::Str(s)
    }
}

proof fn lemma_digits_push(s: Seq<char>, lo: int, hi: int)
    requires
        0 <= lo <= hi < s.len(),
    ensures
        digits_value(s.subrange(lo, hi + 1)) == digits_value(s.subrange(lo, hi)) * 10
            + digit_value(s[hi]),
{
    assert(s.subrange(lo, hi + 1).drop_last() =~= s.subrange(lo, hi));
}

/// Reads the digits of `s` from `start` to the end. `None` where one of them
/// is not a digit; otherwise their value, or `None` inside where it is above
/// `u64::MAX`.
fn scan_digits(s: &str, start: usize) -> (r: Option<Option<u64>>)
    requires
        start <= s@.len(),
    ensures
        r.is_some() == all_digits(s@.skip(start as int)),
        r.is_some() ==> (match r.unwrap() {
            Some(m) => m as nat == digits_value(s@.skip(start as int)),
            None => digits_value(s@.skip(start as int)) > u64::MAX,
        }),
{
    let n = s.unicode_len();
    let mut i: usize = start;
    let mut acc: u64 = 0;
    let mut over = false;
    while i < n
        invariant
            start <= i <= n,
            n == s@.len(),
            all_digits(s@.subrange(start as int, i as int)),
            !over ==> acc as nat == digits_value(s@.subrange(start as int, i as int)),
            over ==> digits_value(s@.subrange(start as int, i as int)) > u64::MAX,
        decreases n - i,
    {
        let c = s.get_char(i);
        if !('0' <= c && c <= '9') {
            assert(s@.skip(start as int)[i - start] == c);
            return None;
        }
        proof {
            lemma_digits_push(s@, start as int, i as int);
            assert forall|k: int| 0 <= k < i + 1 - start implies is_digit(
                #[trigger] s@.subrange(start as int, i + 1)[k],
            ) by {
                if k < i - start {
                    assert(s@.subrange(start as int, i + 1)[k] == s@.subrange(
                        start as int,
                        i as int,
                    )[k]);
                }
            }
        }
        let d = (c as u32 - '0' as u32) as u64;
        if !over {
            if acc > (u64::MAX - d) / 10 {
                over = true;
                assert(acc * 10 + d > u64::MAX) by (nonlinear_arith)
                    requires
                        acc > (u64::MAX - d) / 10,
                        d <= 9,
                ;
            } else {
                assert(acc * 10 + d <= u64::MAX) by (nonlinear_arith)
                    requires
                        acc <= (u64::MAX - d) / 10,
                        d <= 9,
                ;
                acc = acc * 10 + d;
            }
        } else {
            let ghost v = digits_value(s@.subrange(start as int, i as int));
            assert(v * 10 + digit_value(c) > u64::MAX) by (nonlinear_arith)
                requires
                    v > u64::MAX,
            ;
        }
        i = i + 1;
    }
    assert(s@.subrange(start as int, n as int) =~= s@.skip(start as int));
    if over {
        Some(None)
    } else {
        Some(Some(acc))
    }
}

/// Reads an integer literal: its sign and its magnitude (`None` inside where
/// the magnitude is above `u64::MAX`).
fn scan_integer(s: &str) -> (r: Option<(bool, Option<u64>)>)
    ensures
        r.is_some() == integer_literal(s@).is_some(),
        r.is_some() ==> {
            let (neg, m) = r.unwrap();
            let v = integer_literal(s@).unwrap();
            &&& neg ==> v <= 0
            &&& !neg ==> v >= 0
            &&& match m {
                Some(m) => (neg ==> v == -(m as int)) && (!neg ==> v == m as int),
                None => v > u64::MAX || -v > u64::MAX,
            }
        },
{
    let n = s.unicode_len();
    if n == 0 {
        return None;
    }
    let c = s.get_char(0);
    if n > 1 && (c == '-' || c == '+') {
        match scan_digits(s, 1) {
            Some(m) => Some((c == '-', m)),
            None => {
                assert(!all_digits(s@));
                None
            },
        }
    } else {
        match scan_digits(s, 0) {
            Some(m) => {
                assert(s@.skip(0) =~= s@);
                Some((false, m))
            },
            None => {
                assert(s@.skip(0) =~= s@);
                None
            },
        }
    }
}

/// Whether every character of `s` from `lo` up to `hi` is a digit.
fn digits_between(s: &str, lo: usize, hi: usize) -> (r: bool)
    requires
        lo <= hi <= s@.len(),
    ensures
        r == all_digits(s@.subrange(lo as int, hi as int)),
{
    let mut i = lo;
    while i < hi
        invariant
            lo <= i <= hi <= s@.len(),
            all_digits(s@.subrange(lo as int, i as int)),
        decreases hi - i,
    {
        let c = s.get_char(i);
        if !('0' <= c && c <= '9') {
            assert(s@.subrange(lo as int, hi as int)[i - lo] == c);
            return false;
        }
        assert forall|k: int| 0 <= k < i + 1 - lo implies is_digit(
            #[trigger] s@.subrange(lo as int, i + 1)[k],
        ) by {
            if k < i - lo {
                assert(s@.subrange(lo as int, i + 1)[k] == s@.subrange(lo as int, i as int)[k]);
            }
        }
        i = i + 1;
    }
    true
}

/// The first position from `start` on that does not hold a digit, or the
/// length of `s`.
fn first_non_digit(s: &str, start: usize) -> (p: usize)
    requires
        start <= s@.len(),
    ensures
        start <= p <= s@.len(),
        all_digits(s@.subrange(start as int, p as int)),
        p < s@.len() ==> !is_digit(s@[p as int]),
{
    let n = s.unicode_len();
    let mut p = start;
    while p < n
        invariant
            start <= p <= n,
            n == s@.len(),
            all_digits(s@.subrange(start as int, p as int)),
        decreases n - p,
    {
        let c = s.get_char(p);
        if !('0' <= c && c <= '9') {
            return p;
        }
        assert forall|k: int| 0 <= k < p + 1 - start implies is_digit(
            #[trigger] s@.subrange(start as int, p + 1)[k],
        ) by {
            if k < p - start {
                assert(s@.subrange(start as int, p + 1)[k] == s@.subrange(
                    start as int,
                    p as int,
                )[k]);
            }
        }
        p = p + 1;
    }
    p
}

/// The characters of a mantissa are digits and `.`.
proof fn lemma_mantissa_chars(m: Seq<char>, i: int)
    requires
        decimal_mantissa(m),
        0 <= i < m.len(),
    ensures
        is_digit(m[i]) || m[i] == '.',
{
    if !(m.len() > 0 && all_digits(m)) {
        let p = choose|p: int| #[trigger] dot_at(m, p);
        if i < p {
            assert(m.take(p)[i] == m[i]);
        } else if i > p {
            assert(m.skip(p + 1)[i - p - 1] == m[i]);
        }
    }
}

/// Whether `m` is a mantissa in the sense of [`decimal_mantissa`].
fn is_mantissa(m: &str) -> (r: bool)
    ensures
        r == decimal_mantissa(m@),
{
    let n = m.unicode_len();
    let p = first_non_digit(m, 0);
    assert(m@.subrange(0, p as int) =~= m@.take(p as int));
    if p == n {
        assert(m@.take(n as int) =~= m@);
        assert forall|q: int| !dot_at(m@, q) by {
            if dot_at(m@, q) {
                assert(is_digit(m@[q]));
            }
        }
        return n > 0;
    }
    let c = m.get_char(p);
    if c != '.' {
        assert(!all_digits(m@));
        assert forall|q: int| !dot_at(m@, q) by {
            if !dot_at(m@, q) {
            } else if q < p {
                assert(m@[q] == m@.take(p as int)[q]);
            } else {
                assert(m@.take(q)[p as int] == m@[p as int]);
            }
        }
        return false;
    }
    let rest = digits_between(m, p + 1, n);
    let r = rest && n > 1;
    proof {
        assert(m@.skip(p + 1) =~= m@.subrange(p + 1, n as int));
        assert(!is_digit(m@[p as int]));
        assert(!all_digits(m@));
        if r {
            assert(dot_at(m@, p as int));
        } else {
            assert forall|q: int| !dot_at(m@, q) by {
                if dot_at(m@, q) {
                    if q < p {
                        assert(m@[q] == m@.take(p as int)[q]);
                    } else if q > p {
                        assert(m@.take(q)[p as int] == m@[p as int]);
                    }
                }
            }
        }
    }
    r
}

/// Whether `b` spells `lower` letter by letter in either case.
fn spells(b: &str, lower: &str, upper: &str) -> (r: bool)
    ensures
        r == word_ci(b@, lower@, upper@),
{
    let n = b.unicode_len();
    if n != lower.unicode_len() || n != upper.unicode_len() {
        return false;
    }
    let mut i: usize = 0;
    while i < n
        invariant
            n == b@.len() == lower@.len() == upper@.len(),
            i <= n,
            forall|k: int| 0 <= k < i ==> #[trigger] b@[k] == lower@[k] || b@[k] == upper@[k],
        decreases n - i,
    {
        let c = b.get_char(i);
        if c != lower.get_char(i) && c != upper.get_char(i) {
            return false;
        }
        i = i + 1;
    }
    true
}

/// Whether `b` is one of the special float spellings.
fn is_special(b: &str) -> (r: bool)
    ensures
        r == special_float(b@),
{
    proof {
        reveal_strlit("inf");
        reveal_strlit("INF");
        reveal_strlit("infinity");
        reveal_strlit("INFINITY");
        reveal_strlit("nan");
        reveal_strlit("NAN");
    }
    assert("inf"@ =~= seq!['i', 'n', 'f']);
    assert("INF"@ =~= seq!['I', 'N', 'F']);
    assert("infinity"@ =~= seq!['i', 'n', 'f', 'i', 'n', 'i', 't', 'y']);
    assert("INFINITY"@ =~= seq!['I', 'N', 'F', 'I', 'N', 'I', 'T', 'Y']);
    assert("nan"@ =~= seq!['n', 'a', 'n']);
    assert("NAN"@ =~= seq!['N', 'A', 'N']);
    spells(b, "inf", "INF") || spells(b, "infinity", "INFINITY") || spells(b, "nan", "NAN")
}

/// The first `e` or `E` in `b`.
fn find_exp(b: &str) -> (r: Option<usize>)
    ensures
        match r {
            Some(e) => e < b@.len() && exp_mark(b@[e as int]) && forall|i: int|
                0 <= i < e ==> !exp_mark(#[trigger] b@[i]),
            None => forall|i: int| 0 <= i < b@.len() ==> !exp_mark(#[trigger] b@[i]),
        },
{
    let n = b.unicode_len();
    let mut i: usize = 0;
    while i < n
        invariant
            n == b@.len(),
            i <= n,
            forall|k: int| 0 <= k < i ==> !exp_mark(#[trigger] b@[k]),
        decreases n - i,
    {
        let c = b.get_char(i);
        if c == 'e' || c == 'E' {
            return Some(i);
        }
        i = i + 1;
    }
    None
}

/// Whether `s` is a float literal in the sense of [`float_literal`].
fn is_float(s: &str) -> (r: bool)
    ensures
        r == float_literal(s@),
{
    let n = s.unicode_len();
    let start: usize = if n > 0 && (s.get_char(0) == '-' || s.get_char(0) == '+') {
        1
    } else {
        0
    };
    let b = s.substring_char(start, n);
    assert(b@ =~= unsigned_part(s@));
    if is_special(b) {
        return true;
    }
    let len = b.unicode_len();
    match find_exp(b) {
        None => {
            assert forall|e: int| !exp_at(b@, e) by {
                if exp_at(b@, e) {
                    assert(exp_mark(b@[e]));
                }
            }
            is_mantissa(b)
        },
        Some(e) => {
            proof {
                lemma_mantissa_chars_all(b@, e as int);
            }
            let m = b.substring_char(0, e);
            let x = b.substring_char(e + 1, len);
            assert(m@ =~= b@.take(e as int));
            assert(x@ =~= b@.skip(e + 1));
            let r = is_mantissa(m) && scan_integer(x).is_some();
            proof {
                assert forall|e2: int| e2 != e implies !#[trigger] exp_at(b@, e2) by {
                    if exp_at(b@, e2) {
                        if e2 > e {
                            assert(b@.take(e2)[e as int] == b@[e as int]);
                            lemma_mantissa_chars(b@.take(e2), e as int);
                        }
                    }
                }
                if r {
                    assert(exp_at(b@, e as int));
                }
            }
            r
        },
    }
}

/// A string with an `e` or `E` at `e` is no mantissa.
proof fn lemma_mantissa_chars_all(b: Seq<char>, e: int)
    requires
        0 <= e < b.len(),
        exp_mark(b[e]),
    ensures
        !decimal_mantissa(b),
{
    if decimal_mantissa(b) {
        lemma_mantissa_chars(b, e);
    }
}

/// The value that a literal string denotes (see [`normalize_spec`]).
pub fn normalize(s: &str) -> (r: Value)
    ensures
        r@ == normalize_spec(s@),
{
    let n = s.unicode_len();
    if n == 4 && s.get_char(0) == 't' && s.get_char(1) == 'r' && s.get_char(2) == 'u'
        && s.get_char(3) == 'e' {
        assert(s@ =~= seq_true());
        return Value::Bool(true);
    }
    if n == 5 && s.get_char(0) == 'f' && s.get_char(1) == 'a' && s.get_char(2) == 'l'
        && s.get_char(3) == 's' && s.get_char(4) == 'e' {
        assert(s@ =~= seq_false());
        return Value::Bool(false);
    }
    assert(s@ != seq_true()) by {
        if s@ == seq_true() {
            assert(s@[0] == 't' && s@[1] == 'r' && s@[2] == 'u' && s@[3] == 'e');
        }
    }
    assert(s@ != seq_false()) by {
        if s@ == seq_false() {
            assert(s@[0] == 'f' && s@[1] == 'a' && s@[2] == 'l' && s@[3] == 's' && s@[4] == 'e');
        }
    }
    match scan_integer(s) {
        Some((neg, Some(m))) => {
            if !neg {
                if m <= i64::MAX as u64 {
                    Value::Int(m as i64)
                } else {
                    Value::UInt(m)
                }
            } else if m <= i64::MAX as u64 {
                Value::Int(-(m as i64))
            } else if m == i64::MAX as u64 + 1 {
                Value::Int(i64::MIN)
            } else {
                Value::Float(s.to_owned())
            }
        },
        Some((_, None)) => Value::Float(s.to_owned()),
        None => {
            if is_float(s) {
                Value::Float(s.to_owned())
            } else {
                Value::Str(s.to_owned())
            }
        },
    }
}

} // verus!
