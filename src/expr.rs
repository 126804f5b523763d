use vstd::prelude::*;
use crate::text::chars_of;
use crate::value::{get_key, text_form, Json, Value};

verus! {

/// An operator that joins two operands.
#[derive(PartialEq, Eq, Structural, Clone, Copy, Debug)]
pub enum BinOp {
    Mul,
    Div,
    /// Remainder of the division rounded toward zero; its sign is the left operand's.
    Rem,
    /// Bitwise exclusive or of the two 64-bit integers.
    Xor,
    Add,
    Sub,
    Le,
    Lt,
    Ge,
    Gt,
    Ne,
    Eq,
    And,
    Or,
}

/// An operator in front of one operand.
#[derive(PartialEq, Eq, Structural, Clone, Copy, Debug)]
pub enum UnOp {
    Neg,
    Not,
}

/// Why an expression could not be evaluated.
#[derive(PartialEq, Eq, Structural, Clone, Copy, Debug)]
pub enum EvalError {
    /// A path names nothing in the environment.
    MissingKey,
    /// An operand has the wrong kind for its operator.
    TypeMismatch,
    DivisionByZero,
    /// An integer result falls outside the 64-bit range.
    Overflow,
}

/// The mathematical model of an expression tree.
pub enum Expr {
    Lit(Json),
    Path(Seq<Seq<char>>),
    Un(UnOp, Box<Expr>),
    Bin(BinOp, Box<Expr>, Box<Expr>),
    Grp(Box<Expr>),
}

/// A parsed expression.
#[derive(Debug)]
pub enum Node {
    Literal(Value),
    /// Keys and indexes, applied one after the other to the environment.
    Path(Vec<String>),
    Unary(UnOp, Box<Node>),
    Binary(BinOp, Box<Node>, Box<Node>),
    Group(Box<Node>),
}

impl Node {
    pub open spec fn view_expr(&self) -> Expr
        decreases self,
    {
        match self {
            Node::Literal(v) => Expr::Lit(v.view_json()),
            Node::Path(segs) => Expr::Path(segs@.map_values(|s: String| s@)),
            Node::Unary(op, a) => Expr::Un(*op, Box::new(a.view_expr())),
            Node::Binary(op, a, b) => Expr::Bin(*op, Box::new(a.view_expr()), Box::new(b.view_expr())),
            Node::Group(a) => Expr::Grp(Box::new(a.view_expr())),
        }
    }
}

pub open spec fn is_digit(c: char) -> bool {
    '0' <= c && c <= '9'
}

pub open spec fn digit_value(c: char) -> int {
    (c as u32 - '0' as u32) as int
}

/// The number that a run of decimal digits writes.
pub open spec fn digits_value(s: Seq<char>) -> int
    decreases s.len(),
{
    if s.len() == 0 {
        0
    } else {
        digits_value(s.drop_last()) * 10 + digit_value(s.last())
    }
}

pub open spec fn all_digits(s: Seq<char>) -> bool {
    s.len() > 0 && forall|i: int| 0 <= i < s.len() ==> is_digit(#[trigger] s[i])
}

/// One step of a path: a key of an object, or a position in an array.
pub open spec fn step(v: Json, seg: Seq<char>) -> Option<Json> {
    match v {
        Json::Obj(_) => get_key(v, seg),
        Json::Arr(items) => if all_digits(seg) && digits_value(seg) < items.len() {
            Some(items[digits_value(seg)])
        } else {
            None
        },
        _ => None,
    }
}

/// What the path `segs` names in `v`.
pub open spec fn resolve(v: Json, segs: Seq<Seq<char>>) -> Result<Json, EvalError>
    decreases segs.len(),
{
    if segs.len() == 0 {
        Ok(v)
    } else {
        match step(v, segs[0]) {
            Some(x) => resolve(x, segs.drop_first()),
            None => Err(EvalError::MissingKey),
        }
    }
}

pub open spec fn in_i64(x: int) -> bool {
    i64::MIN <= x <= i64::MAX
}

pub open spec fn checked(x: int) -> Result<Json, EvalError> {
    if in_i64(x) {
        Ok(Json::Num(x))
    } else {
        Err(EvalError::Overflow)
    }
}

pub open spec fn abs(x: int) -> int {
    if x < 0 {
        -x
    } else {
        x
    }
}

/// Division rounded toward zero.
pub open spec fn trunc_div(x: int, y: int) -> int {
    if (x < 0) == (y < 0) {
        abs(x) / abs(y)
    } else {
        -(abs(x) / abs(y))
    }
}

/// Remainder of the division rounded toward zero.
pub open spec fn trunc_rem(x: int, y: int) -> int {
    if x < 0 {
        -(abs(x) % abs(y))
    } else {
        abs(x) % abs(y)
    }
}

/// Lexical order of two texts, character by character.
pub open spec fn text_lt(a: Seq<char>, b: Seq<char>) -> bool
    decreases a.len(),
{
    if a.len() == 0 {
        b.len() > 0
    } else if b.len() == 0 {
        false
    } else if a[0] != b[0] {
        (a[0] as u32) < (b[0] as u32)
    } else {
        text_lt(a.drop_first(), b.drop_first())
    }
}

pub open spec fn is_scalar(v: Json) -> bool {
    !(v is Arr) && !(v is Obj)
}

pub open spec fn apply_un(op: UnOp, x: Json) -> Result<Json, EvalError> {
    match (op, x) {
        (UnOp::Neg, Json::Num(n)) => checked(-n),
        (UnOp::Not, Json::Bool(b)) => Ok(Json::Bool(!b)),
        _ => Err(EvalError::TypeMismatch),
    }
}

/// The number that a value stands for: a number, or a text of decimal digits within the
/// 64-bit range.
pub open spec fn num_of(v: Json) -> Option<int> {
    match v {
        Json::Num(n) => Some(n),
        Json::Str(s) => if all_digits(s) && digits_value(s) <= i64::MAX {
            Some(digits_value(s))
        } else {
            None
        },
        _ => None,
    }
}

/// `x < y`: by number when both stand for numbers, else by the lexical order of their text
/// forms; `None` when either is an array or an object.
pub open spec fn less(x: Json, y: Json) -> Option<bool> {
    if !is_scalar(x) || !is_scalar(y) {
        None
    } else {
        match (num_of(x), num_of(y)) {
        (Some(a), Some(b)) => Some(a < b),
        _ => Some(text_lt(text_form(x), text_form(y))),
        }
    }
}

/// A binary operator other than `&&` and `||` applied to two values.
pub open spec fn apply_bin(op: BinOp, x: Json, y: Json) -> Result<Json, EvalError> {
    match op {
        BinOp::Mul | BinOp::Div | BinOp::Rem | BinOp::Xor | BinOp::Add | BinOp::Sub => match (x, y) {
            (Json::Num(a), Json::Num(b)) => match op {
                BinOp::Mul => checked(a * b),
                BinOp::Add => checked(a + b),
                BinOp::Sub => checked(a - b),
                BinOp::Xor => if in_i64(a) && in_i64(b) {
                    Ok(Json::Num(((a as i64) ^ (b as i64)) as int))
                } else {
                    Err(EvalError::Overflow)
                },
                BinOp::Rem => if b == 0 {
                    Err(EvalError::DivisionByZero)
                } else {
                    checked(trunc_rem(a, b))
                },
                _ => if b == 0 {
                    Err(EvalError::DivisionByZero)
                } else {
                    checked(trunc_div(a, b))
                },
            },
            _ => Err(EvalError::TypeMismatch),
        },
        BinOp::Lt | BinOp::Le | BinOp::Gt | BinOp::Ge => {
            let (l, r) = if op == BinOp::Lt || op == BinOp::Le {
                (x, y)
            } else {
                (y, x)
            };
            match (less(l, r), less(r, l)) {
                (Some(lt), Some(gt)) => Ok(
                    Json::Bool(
                        if op == BinOp::Lt || op == BinOp::Gt {
                            lt
                        } else {
                            !gt
                        },
                    ),
                ),
                _ => Err(EvalError::TypeMismatch),
            }
        },
        BinOp::Eq | BinOp::Ne => match (less(x, y), less(y, x)) {
            (Some(lt), Some(gt)) => Ok(
                Json::Bool(
                    if op == BinOp::Eq {
                        !lt && !gt
                    } else {
                        lt || gt
                    },
                ),
            ),
            _ => Err(EvalError::TypeMismatch),
        },
        _ => Err(EvalError::TypeMismatch),
    }
}

/// The value of `e` in the environment `env`. `&&` and `||` look at their right operand only
/// when the left one does not decide.
pub open spec fn eval_expr(e: Expr, env: Json) -> Result<Json, EvalError>
    decreases e,
{
    match e {
        Expr::Lit(v) => Ok(v),
        Expr::Path(segs) => resolve(env, segs),
        Expr::Un(op, a) => match eval_expr(*a, env) {
            Ok(x) => apply_un(op, x),
            Err(err) => Err(err),
        },
        Expr::Bin(op, a, b) => match eval_expr(*a, env) {
            Err(err) => Err(err),
            Ok(x) => if op == BinOp::And || op == BinOp::Or {
                match x {
                    Json::Bool(l) => if l == (op == BinOp::Or) {
                        Ok(Json::Bool(l))
                    } else {
                        match eval_expr(*b, env) {
                            Ok(Json::Bool(r)) => Ok(Json::Bool(r)),
                            Ok(_) => Err(EvalError::TypeMismatch),
                            Err(err) => Err(err),
                        }
                    },
                    _ => Err(EvalError::TypeMismatch),
                }
            } else {
                match eval_expr(*b, env) {
                    Ok(y) => apply_bin(op, x, y),
                    Err(err) => Err(err),
                }
            },
        },
        Expr::Grp(a) => eval_expr(*a, env),
    }
}

pub open spec fn result_view(r: Result<Value, EvalError>) -> Result<Json, EvalError> {
    match r {
        Ok(v) => Ok(v.view_json()),
        Err(e) => Err(e),
    }
}

fn text_less(a: &String, b: &String) -> (r: bool)
    ensures
        r == text_lt(a@, b@),
{
    let x = chars_of(a.as_str());
    let y = chars_of(b.as_str());
    let mut i: usize = 0;
    assert(a@.skip(0) =~= a@);
    assert(b@.skip(0) =~= b@);
    while i < x.len() && i < y.len() && x[i] == y[i]
        invariant
            x@ == a@,
            y@ == b@,
            i <= x@.len(),
            i <= y@.len(),
            text_lt(a@, b@) == text_lt(a@.skip(i as int), b@.skip(i as int)),
        decreases x.len() - i,
    {
        assert(a@.skip(i as int).drop_first() =~= a@.skip(i as int + 1));
        assert(b@.skip(i as int).drop_first() =~= b@.skip(i as int + 1));
        i = i + 1;
    }
    if i == x.len() {
        i < y.len()
    } else if i == y.len() {
        false
    } else {
        (x[i] as u32) < (y[i] as u32)
    }
}

pub proof fn lemma_digits_prefix(s: Seq<char>, k: int)
    requires
        0 <= k < s.len(),
    ensures
        digits_value(s.take(k + 1)) == digits_value(s.take(k)) * 10 + digit_value(s[k]),
{
    assert(s.take(k + 1).drop_last() =~= s.take(k));
}

pub proof fn lemma_digits_nonneg(s: Seq<char>)
    requires
        forall|i: int| 0 <= i < s.len() ==> is_digit(#[trigger] s[i]),
    ensures
        digits_value(s) >= 0,
    decreases s.len(),
{
    if s.len() > 0 {
        lemma_digits_nonneg(s.drop_last());
    }
}

/// The position that `seg` writes in decimal, when it writes one below `len`.
fn index_of(seg: &String, len: usize) -> (r: Option<usize>)
    ensures
        r == (if all_digits(seg@) && digits_value(seg@) < len {
            Some(digits_value(seg@) as usize)
        } else {
            None
        }),
        r is Some ==> r->Some_0 < len && r->Some_0 as int == digits_value(seg@),
{
    let cs = chars_of(seg.as_str());
    if cs.len() == 0 {
        return None;
    }
    let mut acc: u128 = 0;
    let mut i: usize = 0;
    while i < cs.len()
        invariant
            cs@ == seg@,
            i <= cs@.len(),
            forall|j: int| 0 <= j < i ==> is_digit(#[trigger] seg@[j]),
            acc as int == if digits_value(seg@.take(i as int)) < len {
                digits_value(seg@.take(i as int))
            } else {
                len as int
            },
            digits_value(seg@.take(i as int)) >= 0,
        decreases cs.len() - i,
    {
        let c = cs[i];
        if !('0' <= c && c <= '9') {
            return None;
        }
        proof {
            lemma_digits_prefix(seg@, i as int);
        }
        let next: u128 = acc * 10 + (c as u32 - '0' as u32) as u128;
        acc = if next < len as u128 { next } else { len as u128 };
        i = i + 1;
    }
    assert(seg@.take(i as int) =~= seg@);
    if acc < len as u128 {
        Some(acc as usize)
    } else {
        None
    }
}

/// One step of a path into `v`.
fn step_into<'a>(v: &'a Value, seg: &String) -> (r: Option<&'a Value>)
    ensures
        r is Some <==> step(v.view_json(), seg@) is Some,
        r is Some ==> step(v.view_json(), seg@) == Some(r->Some_0.view_json()),
{
    match v {
        Value::Object(_) => {
            let found = v.get(seg);
            assert(step(v.view_json(), seg@) == get_key(v.view_json(), seg@));
            found
        },
        Value::Array(items) => match index_of(seg, items.len()) {
            Some(k) => {
                assert(v.view_json() == Json::Arr(crate::value::values_view(items@)));
                assert(crate::value::values_view(items@)[k as int] == items@[k as int].view_json());
                Some(&items[k])
            },
            None => None,
        },
        _ => None,
    }
}

/// What the path `segs` names in `env`.
pub fn resolve_path(env: &Value, segs: &Vec<String>) -> (r: Result<Value, EvalError>)
    ensures
        result_view(r) == resolve(env.view_json(), segs@.map_values(|s: String| s@)),
{
    let ghost all = segs@.map_values(|s: String| s@);
    let mut cur: &Value = env;
    let mut k: usize = 0;
    assert(all.skip(0) =~= all);
    while k < segs.len()
        invariant
            k <= segs@.len(),
            all == segs@.map_values(|s: String| s@),
            resolve(env.view_json(), all) == resolve(cur.view_json(), all.skip(k as int)),
        decreases segs.len() - k,
    {
        assert(all.skip(k as int)[0] == segs@[k as int]@);
        assert(all.skip(k as int).drop_first() =~= all.skip(k as int + 1));
        match step_into(cur, &segs[k]) {
            Some(x) => {
                cur = x;
            },
            None => {
                return Err(EvalError::MissingKey);
            },
        }
        k = k + 1;
    }
    assert(all.skip(k as int).len() == 0);
    Ok(cur.deep_clone())
}

fn bool_value(b: bool) -> (r: Result<Value, EvalError>)
    ensures
        result_view(r) == Ok::<Json, EvalError>(Json::Bool(b)),
{
    Ok(Value::Bool(b))
}

fn num_value(n: Option<i64>) -> (r: Result<Value, EvalError>)
    ensures
        n matches Some(x) ==> result_view(r) == Ok::<Json, EvalError>(Json::Num(x as int)),
        n is None ==> r == Err::<Value, EvalError>(EvalError::Overflow),
{
    match n {
        Some(x) => Ok(Value::Number(x)),
        None => Err(EvalError::Overflow),
    }
}

/// The value of a run of digits, or `None` when it exceeds the largest `i64`.
pub(crate) fn digits_i64(cs: &Vec<char>) -> (r: Option<i64>)
    requires
        all_digits(cs@),
    ensures
        r == (if digits_value(cs@) <= i64::MAX {
            Some(digits_value(cs@) as i64)
        } else {
            None
        }),
{
    let cap: u128 = 9223372036854775808u128;
    let mut acc: u128 = 0;
    let mut i: usize = 0;
    while i < cs.len()
        invariant
            all_digits(cs@),
            cap == 9223372036854775808u128,
            i <= cs@.len(),
            acc as int == if digits_value(cs@.take(i as int)) < cap {
                digits_value(cs@.take(i as int))
            } else {
                cap as int
            },
            digits_value(cs@.take(i as int)) >= 0,
        decreases cs.len() - i,
    {
        proof {
            lemma_digits_prefix(cs@, i as int);
        }
        let c = cs[i];
        assert(is_digit(cs@[i as int]));
        let next: u128 = acc * 10 + (c as u32 - '0' as u32) as u128;
        acc = if next < cap { next } else { cap };
        i = i + 1;
    }
    assert(cs@.take(i as int) =~= cs@);
    if acc < cap {
        Some(acc as i64)
    } else {
        None
    }
}

fn num_of_exec(v: &Value) -> (r: Option<i64>)
    ensures
        r is Some <==> num_of(v.view_json()) is Some,
        r is Some ==> r->Some_0 as int == num_of(v.view_json())->Some_0,
{
    match v {
        Value::Number(n) => Some(*n),
        Value::Str(s) => {
            let cs = chars_of(s.as_str());
            if cs.len() == 0 {
                return None;
            }
            let mut i: usize = 0;
            while i < cs.len()
                invariant
                    i <= cs@.len(),
                    cs@ == s@,
                    v.view_json() == Json::Str(s@),
                    forall|j: int| 0 <= j < i ==> is_digit(#[trigger] s@[j]),
                decreases cs.len() - i,
            {
                if !('0' <= cs[i] && cs[i] <= '9') {
                    assert(!is_digit(s@[i as int]));
                    assert(!all_digits(s@));
                    return None;
                }
                i = i + 1;
            }
            proof {
                lemma_digits_nonneg(s@);
            }
            digits_i64(&cs)
        },
        _ => None,
    }
}

/// `x < y` as `less` says; `None` when either is an array or an object.
fn less_exec(x: &Value, y: &Value) -> (r: Option<bool>)
    ensures
        r == less(x.view_json(), y.view_json()),
{
    if !is_scalar_exec(x) || !is_scalar_exec(y) {
        return None;
    }
    match (num_of_exec(x), num_of_exec(y)) {
        (Some(a), Some(b)) => Some(a < b),
        _ => Some(text_less(&x.text_form(), &y.text_form())),
    }
}

fn is_scalar_exec(x: &Value) -> (r: bool)
    ensures
        r == is_scalar(x.view_json()),
{
    match x {
        Value::Array(_) | Value::Object(_) => false,
        _ => true,
    }
}

/// Applies an operator other than `&&` and `||` to two values.
pub fn apply_binary(op: BinOp, x: &Value, y: &Value) -> (r: Result<Value, EvalError>)
    ensures
        result_view(r) == apply_bin(op, x.view_json(), y.view_json()),
{
    match op {
        BinOp::Mul | BinOp::Div | BinOp::Rem | BinOp::Xor | BinOp::Add | BinOp::Sub => match (x, y) {
            (Value::Number(a), Value::Number(b)) => match op {
                BinOp::Mul => num_value(a.checked_mul(*b)),
                BinOp::Xor => Ok(Value::Number(*a ^ *b)),
                BinOp::Rem => if *b == 0 {
                    Err(EvalError::DivisionByZero)
                } else if *b == -1 {
                    Ok(Value::Number(0))
                } else {
                    num_value(a.checked_rem(*b))
                },
                BinOp::Add => num_value(a.checked_add(*b)),
                BinOp::Sub => num_value(a.checked_sub(*b)),
                _ => if *b == 0 {
                    Err(EvalError::DivisionByZero)
                } else {
                    num_value(a.checked_div(*b))
                },
            },
            _ => Err(EvalError::TypeMismatch),
        },
        BinOp::Lt | BinOp::Le | BinOp::Gt | BinOp::Ge => {
            let (l, r) = if op == BinOp::Lt || op == BinOp::Le {
                (x, y)
            } else {
                (y, x)
            };
            match (less_exec(l, r), less_exec(r, l)) {
                (Some(lt), Some(gt)) => bool_value(
                    if op == BinOp::Lt || op == BinOp::Gt {
                        lt
                    } else {
                        !gt
                    },
                ),
                _ => Err(EvalError::TypeMismatch),
            }
        },
        BinOp::Eq | BinOp::Ne => match (less_exec(x, y), less_exec(y, x)) {
            (Some(lt), Some(gt)) => bool_value(
                if op == BinOp::Eq {
                    !lt && !gt
                } else {
                    lt || gt
                },
            ),
            _ => Err(EvalError::TypeMismatch),
        },
        _ => Err(EvalError::TypeMismatch),
    }
}

/// Applies a unary operator to a value.
pub fn apply_unary(op: UnOp, x: &Value) -> (r: Result<Value, EvalError>)
    ensures
        result_view(r) == apply_un(op, x.view_json()),
{
    match (op, x) {
        (UnOp::Neg, Value::Number(n)) => num_value(0i64.checked_sub(*n)),
        (UnOp::Not, Value::Bool(b)) => bool_value(!*b),
        _ => Err(EvalError::TypeMismatch),
    }
}

impl Node {
    /// The value of this expression in the environment `env`.
    pub fn eval(&self, env: &Value) -> (r: Result<Value, EvalError>)
        ensures
            result_view(r) == eval_expr(self.view_expr(), env.view_json()),
        decreases self,
    {
        match self {
            Node::Literal(v) => Ok(v.deep_clone()),
            Node::Path(segs) => resolve_path(env, segs),
            Node::Unary(op, a) => match a.eval(env) {
                Ok(x) => apply_unary(*op, &x),
                Err(e) => Err(e),
            },
            Node::Binary(op, a, b) => match a.eval(env) {
                Err(e) => Err(e),
                Ok(x) => if *op == BinOp::And || *op == BinOp::Or {
                    match x {
                        Value::Bool(l) => if l == (*op == BinOp::Or) {
                            bool_value(l)
                        } else {
                            match b.eval(env) {
                                Ok(Value::Bool(r)) => bool_value(r),
                                Ok(_) => Err(EvalError::TypeMismatch),
                                Err(e) => Err(e),
                            }
                        },
                        _ => Err(EvalError::TypeMismatch),
                    }
                } else {
                    match b.eval(env) {
                        Ok(y) => apply_binary(*op, &x, &y),
                        Err(e) => Err(e),
                    }
                },
            },
            Node::Group(a) => a.eval(env),
        }
    }
}

} // verus!
