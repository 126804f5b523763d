use vstd::prelude::*;
use crate::expr::{
    all_digits, digits_i64, digits_value, is_digit, lemma_digits_nonneg, BinOp, Expr, Node, UnOp,
};
use crate::operators::{is_operator, strings_view, OptMap};
use crate::text::{chars_of, string_of};
use crate::tokenizer::{is_number_char, is_op_char, is_quote};
use crate::value::{Json, Value};

verus! {

/// Why a token sequence is not an expression.
#[derive(PartialEq, Eq, Structural, Clone, Copy, Debug)]
pub enum ParseError {
    /// There is nothing to parse.
    Empty,
    /// Parentheses do not pair up.
    Unbalanced,
    /// An operator lacks an operand.
    MissingOperand,
    /// A token stands where it cannot.
    UnexpectedToken,
    /// A number that is not an integer of 64 bits.
    BadNumber,
}

pub open spec fn paren_weight(t: Seq<char>) -> int {
    if t == seq![')'] {
        1
    } else if t == seq!['('] {
        -1
    } else {
        0
    }
}

/// Closing minus opening parentheses in `ts[i..hi]`.
pub open spec fn depth_after(ts: Seq<Seq<char>>, i: int, hi: int) -> int
    decreases hi - i,
{
    if i >= hi {
        0
    } else {
        depth_after(ts, i + 1, hi) + paren_weight(ts[i])
    }
}

/// Whether the parentheses of `ts[lo..hi]` pair up.
pub open spec fn balanced(ts: Seq<Seq<char>>, lo: int, hi: int) -> bool {
    depth_after(ts, lo, hi) == 0 && forall|k: int| lo <= k <= hi ==> depth_after(ts, k, hi) >= 0
}

pub open spec fn bin_op(t: Seq<char>) -> Option<BinOp> {
    if t == seq!['*'] {
        Some(BinOp::Mul)
    } else if t == seq!['/'] {
        Some(BinOp::Div)
    } else if t == seq!['%'] {
        Some(BinOp::Rem)
    } else if t == seq!['^'] {
        Some(BinOp::Xor)
    } else if t == seq!['+'] {
        Some(BinOp::Add)
    } else if t == seq!['-'] {
        Some(BinOp::Sub)
    } else if t == seq!['<', '='] {
        Some(BinOp::Le)
    } else if t == seq!['<'] {
        Some(BinOp::Lt)
    } else if t == seq!['>', '='] {
        Some(BinOp::Ge)
    } else if t == seq!['>'] {
        Some(BinOp::Gt)
    } else if t == seq!['!', '='] {
        Some(BinOp::Ne)
    } else if t == seq!['=', '='] {
        Some(BinOp::Eq)
    } else if t == seq!['&', '&'] {
        Some(BinOp::And)
    } else if t == seq!['|', '|'] {
        Some(BinOp::Or)
    } else {
        None
    }
}

/// Binding strength: `||` loosest, then `&&`, equality, order, `+ -`, and `* / % ^` tightest.
pub open spec fn level(op: BinOp) -> int {
    match op {
        BinOp::Or => 0,
        BinOp::And => 1,
        BinOp::Eq | BinOp::Ne => 2,
        BinOp::Lt | BinOp::Le | BinOp::Gt | BinOp::Ge => 3,
        BinOp::Add | BinOp::Sub => 4,
        BinOp::Mul | BinOp::Div | BinOp::Rem | BinOp::Xor => 5,
    }
}

/// Whether an operand can end with `t`.
pub open spec fn operand_end(t: Seq<char>) -> bool {
    !is_operator(t) || t == seq![')']
}

/// Whether `ts[i]` joins two operands at binding strength `lvl`, outside any parentheses.
pub open spec fn splits_at(ts: Seq<Seq<char>>, lo: int, hi: int, lvl: int, i: int) -> bool {
    &&& lo < i < hi
    &&& depth_after(ts, i + 1, hi) == 0
    &&& bin_op(ts[i]) is Some
    &&& level(bin_op(ts[i])->Some_0) == lvl
    &&& operand_end(ts[i - 1])
}

/// The last position at or before `i` where `ts[lo..hi]` splits at strength `lvl`.
pub open spec fn rightmost(ts: Seq<Seq<char>>, lo: int, hi: int, lvl: int, i: int) -> Option<int>
    decreases i - lo,
{
    if i <= lo {
        None
    } else if splits_at(ts, lo, hi, lvl, i) {
        Some(i)
    } else {
        rightmost(ts, lo, hi, lvl, i - 1)
    }
}

/// Where `ts[lo..hi]` splits: at the loosest operator outside parentheses, the last of them, so
/// that operators of equal strength group from the left.
pub open spec fn split(ts: Seq<Seq<char>>, lo: int, hi: int, lvl: int) -> Option<int>
    decreases 6 - lvl,
{
    if lvl >= 6 {
        None
    } else {
        match rightmost(ts, lo, hi, lvl, hi - 1) {
            Some(i) => Some(i),
            None => split(ts, lo, hi, lvl + 1),
        }
    }
}

/// Whether an operator character occurs in `t`.
pub open spec fn has_op_char(t: Seq<char>) -> bool {
    exists|i: int| 0 <= i < t.len() && is_op_char(#[trigger] t[i])
}

/// The steps of a path: split at `.` and `[`, with `]` left out (`a.b[0]` is `a`, `b`, `0`).
pub open spec fn path_segs(t: Seq<char>) -> Seq<Seq<char>>
    decreases t.len(),
{
    if t.len() == 0 {
        seq![Seq::empty()]
    } else {
        let p = path_segs(t.drop_last());
        let c = t.last();
        if c == '.' || c == '[' {
            p.push(Seq::empty())
        } else if c == ']' {
            p
        } else {
            p.drop_last().push(p.last().push(c))
        }
    }
}

/// What a single token stands for.
pub open spec fn atom(t: Seq<char>) -> Result<Expr, ParseError> {
    if t.len() > 0 && is_quote(t[0]) {
        if t.len() >= 2 && is_quote(t.last()) {
            Ok(Expr::Lit(Json::Str(t.subrange(1, t.len() - 1))))
        } else {
            Err(ParseError::UnexpectedToken)
        }
    } else if t == seq!['t', 'r', 'u', 'e'] {
        Ok(Expr::Lit(Json::Bool(true)))
    } else if t == seq!['f', 'a', 'l', 's', 'e'] {
        Ok(Expr::Lit(Json::Bool(false)))
    } else if t == seq!['n', 'u', 'l', 'l'] {
        Ok(Expr::Lit(Json::Null))
    } else if t.len() > 0 && forall|i: int| 0 <= i < t.len() ==> is_number_char(#[trigger] t[i]) {
        if all_digits(t) && digits_value(t) <= i64::MAX {
            Ok(Expr::Lit(Json::Num(digits_value(t))))
        } else {
            Err(ParseError::BadNumber)
        }
    } else if is_operator(t) {
        Err(ParseError::MissingOperand)
    } else if has_op_char(t) {
        Err(ParseError::UnexpectedToken)
    } else {
        Ok(Expr::Path(path_segs(t)))
    }
}

/// The expression that `ts[lo..hi]` writes.
pub open spec fn parse_range(ts: Seq<Seq<char>>, lo: int, hi: int) -> Result<Expr, ParseError>
    decreases hi - lo,
{
    if lo >= hi {
        Err(ParseError::Empty)
    } else if !balanced(ts, lo, hi) {
        Err(ParseError::Unbalanced)
    } else {
        match split(ts, lo, hi, 0) {
            Some(i) => if lo < i && i + 1 < hi {
                match parse_range(ts, lo, i) {
                    Err(e) => Err(e),
                    Ok(a) => match parse_range(ts, i + 1, hi) {
                        Err(e) => Err(e),
                        Ok(b) => Ok(Expr::Bin(bin_op(ts[i])->Some_0, Box::new(a), Box::new(b))),
                    },
                }
            } else {
                Err(ParseError::MissingOperand)
            },
            None => if ts[lo] == seq!['-'] || ts[lo] == seq!['!'] {
                if lo + 1 >= hi {
                    Err(ParseError::MissingOperand)
                } else {
                    match parse_range(ts, lo + 1, hi) {
                        Err(e) => Err(e),
                        Ok(a) => Ok(
                            Expr::Un(
                                if ts[lo] == seq!['-'] {
                                    UnOp::Neg
                                } else {
                                    UnOp::Not
                                },
                                Box::new(a),
                            ),
                        ),
                    }
                }
            } else if ts[lo] == seq!['('] && ts[hi - 1] == seq![')'] && hi - lo >= 2 {
                if hi - lo == 2 {
                    Err(ParseError::MissingOperand)
                } else {
                    match parse_range(ts, lo + 1, hi - 1) {
                        Err(e) => Err(e),
                        Ok(a) => Ok(Expr::Grp(Box::new(a))),
                    }
                }
            } else if hi - lo == 1 {
                atom(ts[lo])
            } else {
                Err(ParseError::UnexpectedToken)
            },
        }
    }
}

/// The expression that the tokens `ts` write.
pub open spec fn parse_spec(ts: Seq<Seq<char>>) -> Result<Expr, ParseError> {
    parse_range(ts, 0, ts.len() as int)
}

pub open spec fn parsed_view(r: Result<Node, ParseError>) -> Result<Expr, ParseError> {
    match r {
        Ok(n) => Ok(n.view_expr()),
        Err(e) => Err(e),
    }
}

proof fn lemma_rightmost_op(ts: Seq<Seq<char>>, lo: int, hi: int, lvl: int, i: int)
    ensures
        rightmost(ts, lo, hi, lvl, i) matches Some(k) ==> splits_at(ts, lo, hi, lvl, k),
    decreases i - lo,
{
    if i > lo && !splits_at(ts, lo, hi, lvl, i) {
        lemma_rightmost_op(ts, lo, hi, lvl, i - 1);
    }
}

proof fn lemma_split_op(ts: Seq<Seq<char>>, lo: int, hi: int, lvl: int)
    ensures
        split(ts, lo, hi, lvl) matches Some(k) ==> lo < k < hi && bin_op(ts[k]) is Some,
    decreases 6 - lvl,
{
    if lvl < 6 {
        lemma_rightmost_op(ts, lo, hi, lvl, hi - 1);
        lemma_split_op(ts, lo, hi, lvl + 1);
    }
}

/// Whether the token `t` is the one character `c`.
fn tok_is(t: &String, c: char) -> (r: bool)
    ensures
        r == (t@ == seq![c]),
{
    let cs = chars_of(t.as_str());
    if cs.len() == 1 {
        assert(cs@ =~= seq![cs@[0]]);
        assert(seq![cs@[0]][0] == cs@[0]);
        assert(seq![c][0] == c);
        cs[0] == c
    } else {
        assert(seq![c].len() == 1);
        false
    }
}

/// Whether the token `t` is the two characters `a`, `b`.
fn tok_is2(t: &String, a: char, b: char) -> (r: bool)
    ensures
        r == (t@ == seq![a, b]),
{
    let cs = chars_of(t.as_str());
    if cs.len() == 2 {
        assert(cs@ =~= seq![cs@[0], cs@[1]]);
        assert(seq![a, b][0] == a && seq![a, b][1] == b);
        assert(seq![cs@[0], cs@[1]][0] == cs@[0] && seq![cs@[0], cs@[1]][1] == cs@[1]);
        cs[0] == a && cs[1] == b
    } else {
        assert(seq![a, b].len() == 2);
        false
    }
}

fn weight(t: &String) -> (r: i8)
    ensures
        r as int == paren_weight(t@),
{
    if tok_is(t, ')') {
        1
    } else if tok_is(t, '(') {
        -1
    } else {
        0
    }
}

fn bin_op_of(t: &String) -> (r: Option<BinOp>)
    ensures
        r == bin_op(t@),
{
    if tok_is(t, '*') {
        Some(BinOp::Mul)
    } else if tok_is(t, '/') {
        Some(BinOp::Div)
    } else if tok_is(t, '%') {
        Some(BinOp::Rem)
    } else if tok_is(t, '^') {
        Some(BinOp::Xor)
    } else if tok_is(t, '+') {
        Some(BinOp::Add)
    } else if tok_is(t, '-') {
        Some(BinOp::Sub)
    } else if tok_is2(t, '<', '=') {
        Some(BinOp::Le)
    } else if tok_is(t, '<') {
        Some(BinOp::Lt)
    } else if tok_is2(t, '>', '=') {
        Some(BinOp::Ge)
    } else if tok_is(t, '>') {
        Some(BinOp::Gt)
    } else if tok_is2(t, '!', '=') {
        Some(BinOp::Ne)
    } else if tok_is2(t, '=', '=') {
        Some(BinOp::Eq)
    } else if tok_is2(t, '&', '&') {
        Some(BinOp::And)
    } else if tok_is2(t, '|', '|') {
        Some(BinOp::Or)
    } else {
        None
    }
}

fn level_of(op: BinOp) -> (r: usize)
    ensures
        r as int == level(op),
{
    match op {
        BinOp::Or => 0,
        BinOp::And => 1,
        BinOp::Eq | BinOp::Ne => 2,
        BinOp::Lt | BinOp::Le | BinOp::Gt | BinOp::Ge => 3,
        BinOp::Add | BinOp::Sub => 4,
        BinOp::Mul | BinOp::Div | BinOp::Rem | BinOp::Xor => 5,
    }
}

fn is_balanced(ts: &Vec<String>, lo: usize, hi: usize) -> (r: bool)
    requires
        lo <= hi <= ts@.len(),
    ensures
        r == balanced(strings_view(ts@), lo as int, hi as int),
{
    let ghost tv = strings_view(ts@);
    let mut k: usize = hi;
    let mut d: i128 = 0;
    while k > lo
        invariant
            lo <= k <= hi <= ts@.len(),
            tv == strings_view(ts@),
            d as int == depth_after(tv, k as int, hi as int),
            -(hi - k) <= d <= hi - k,
            forall|j: int| k <= j <= hi ==> depth_after(tv, j, hi as int) >= 0,
        decreases k,
    {
        k = k - 1;
        assert(tv[k as int] == ts@[k as int]@);
        d = d + weight(&ts[k]) as i128;
        assert(d as int == depth_after(tv, k as int, hi as int));
        if d < 0 {
            assert(!(depth_after(tv, k as int, hi as int) >= 0));
            return false;
        }
    }
    d == 0
}

fn operand_end_exec(t: &String, opt_map: &OptMap) -> (r: bool)
    requires
        opt_map.wf(),
    ensures
        r == operand_end(t@),
{
    !opt_map.is_opt(t.as_str()) || tok_is(t, ')')
}

fn rightmost_exec(ts: &Vec<String>, lo: usize, hi: usize, lvl: usize, opt_map: &OptMap) -> (r: Option<
    usize,
>)
    requires
        lo < hi <= ts@.len(),
        opt_map.wf(),
    ensures
        match r {
            Some(i) => rightmost(strings_view(ts@), lo as int, hi as int, lvl as int, hi - 1) == Some(
                i as int,
            ),
            None => rightmost(strings_view(ts@), lo as int, hi as int, lvl as int, hi - 1) is None,
        },
{
    let ghost tv = strings_view(ts@);
    let mut i: usize = hi - 1;
    let mut d: i128 = 0;
    while i > lo
        invariant
            lo <= i < hi <= ts@.len(),
            opt_map.wf(),
            tv == strings_view(ts@),
            d as int == depth_after(tv, i as int + 1, hi as int),
            -(hi - i) <= d <= hi - i,
            rightmost(tv, lo as int, hi as int, lvl as int, hi - 1) == rightmost(
                tv,
                lo as int,
                hi as int,
                lvl as int,
                i as int,
            ),
        decreases i,
    {
        assert(tv[i as int] == ts@[i as int]@);
        assert(tv[i - 1] == ts@[i - 1]@);
        if d == 0 {
            match bin_op_of(&ts[i]) {
                Some(op) => {
                    if level_of(op) == lvl && operand_end_exec(&ts[i - 1], opt_map) {
                        return Some(i);
                    }
                },
                None => {},
            }
        }
        d = d + weight(&ts[i]) as i128;
        i = i - 1;
    }
    None
}

fn find_split(ts: &Vec<String>, lo: usize, hi: usize, opt_map: &OptMap) -> (r: Option<usize>)
    requires
        lo < hi <= ts@.len(),
        opt_map.wf(),
    ensures
        match r {
            Some(i) => split(strings_view(ts@), lo as int, hi as int, 0) == Some(i as int),
            None => split(strings_view(ts@), lo as int, hi as int, 0) is None,
        },
{
    let ghost tv = strings_view(ts@);
    let mut lvl: usize = 0;
    while lvl < 6
        invariant
            lvl <= 6,
            lo < hi <= ts@.len(),
            opt_map.wf(),
            tv == strings_view(ts@),
            split(tv, lo as int, hi as int, 0) == split(tv, lo as int, hi as int, lvl as int),
        decreases 6 - lvl,
    {
        match rightmost_exec(ts, lo, hi, lvl, opt_map) {
            Some(i) => {
                return Some(i);
            },
            None => {},
        }
        lvl = lvl + 1;
    }
    None
}

fn chars_eq(a: &Vec<char>, b: &Vec<char>) -> (r: bool)
    ensures
        r == (a@ == b@),
{
    if a.len() != b.len() {
        return false;
    }
    let mut i: usize = 0;
    while i < a.len()
        invariant
            a@.len() == b@.len(),
            i <= a@.len(),
            forall|j: int| 0 <= j < i ==> a@[j] == b@[j],
        decreases a.len() - i,
    {
        if a[i] != b[i] {
            return false;
        }
        i = i + 1;
    }
    assert(a@ =~= b@);
    true
}

/// The steps of a path token.
fn path_segments(cs: &Vec<char>) -> (r: Vec<String>)
    ensures
        strings_view(r@) == path_segs(cs@),
{
    let mut segs: Vec<String> = Vec::new();
    let mut cur: Vec<char> = Vec::new();
    let mut i: usize = 0;
    assert(cs@.take(0) =~= Seq::<char>::empty());
    assert(strings_view(segs@).push(cur@) =~= path_segs(cs@.take(0)));
    while i < cs.len()
        invariant
            i <= cs@.len(),
            strings_view(segs@).push(cur@) == path_segs(cs@.take(i as int)),
        decreases cs.len() - i,
    {
        let c = cs[i];
        assert(cs@.take(i as int + 1).drop_last() =~= cs@.take(i as int));
        let ghost p = path_segs(cs@.take(i as int));
        let ghost old_segs = strings_view(segs@);
        if c == '.' || c == '[' {
            segs.push(string_of(&cur));
            cur = Vec::new();
            assert(strings_view(segs@) =~= old_segs.push(p.last()));
            assert(strings_view(segs@).push(cur@) =~= p.push(Seq::empty()));
        } else if c != ']' {
            cur.push(c);
            assert(p.drop_last() =~= old_segs);
            assert(strings_view(segs@).push(cur@) =~= p.drop_last().push(p.last().push(c)));
        }
        i = i + 1;
    }
    assert(cs@.take(i as int) =~= cs@);
    let ghost before = strings_view(segs@);
    segs.push(string_of(&cur));
    assert(strings_view(segs@) =~= before.push(cur@));
    segs
}

/// What the single token `t` stands for.
fn parse_atom(t: &String, opt_map: &OptMap) -> (r: Result<Node, ParseError>)
    requires
        opt_map.wf(),
    ensures
        parsed_view(r) == atom(t@),
{
    let cs = chars_of(t.as_str());
    let n = cs.len();
    if n > 0 && (cs[0] == '\'' || cs[0] == '`') {
        if n >= 2 && (cs[n - 1] == '\'' || cs[n - 1] == '`') {
            let mut inner: Vec<char> = Vec::new();
            let mut k: usize = 1;
            while k < n - 1
                invariant
                    1 <= k <= n - 1,
                    n == cs@.len(),
                    inner@ == cs@.subrange(1, k as int),
                decreases n - 1 - k,
            {
                inner.push(cs[k]);
                k = k + 1;
                assert(inner@ =~= cs@.subrange(1, k as int));
            }
            return Ok(Node::Literal(Value::Str(string_of(&inner))));
        } else {
            return Err(ParseError::UnexpectedToken);
        }
    }
    let t_true: Vec<char> = vec!['t', 'r', 'u', 'e'];
    let t_false: Vec<char> = vec!['f', 'a', 'l', 's', 'e'];
    let t_null: Vec<char> = vec!['n', 'u', 'l', 'l'];
    assert(t_true@ =~= seq!['t', 'r', 'u', 'e']);
    assert(t_false@ =~= seq!['f', 'a', 'l', 's', 'e']);
    assert(t_null@ =~= seq!['n', 'u', 'l', 'l']);
    if chars_eq(&cs, &t_true) {
        return Ok(Node::Literal(Value::Bool(true)));
    }
    if chars_eq(&cs, &t_false) {
        return Ok(Node::Literal(Value::Bool(false)));
    }
    if chars_eq(&cs, &t_null) {
        return Ok(Node::Literal(Value::Null));
    }
    let mut numeric = n > 0;
    let mut digits = true;
    let mut k: usize = 0;
    while k < n
        invariant
            n == cs@.len(),
            cs@ == t@,
            k <= n,
            numeric == (n > 0 && forall|j: int| 0 <= j < k ==> is_number_char(#[trigger] t@[j])),
            digits == (forall|j: int| 0 <= j < k ==> is_digit(#[trigger] t@[j])),
        decreases n - k,
    {
        let c = cs[k];
        if !(c == '.' || ('0' <= c && c <= '9')) {
            numeric = false;
        }
        if !('0' <= c && c <= '9') {
            digits = false;
        }
        k = k + 1;
    }
    if numeric {
        if !digits {
            return Err(ParseError::BadNumber);
        }
        assert(all_digits(t@));
        proof {
            lemma_digits_nonneg(t@);
        }
        return match digits_i64(&cs) {
            Some(v) => Ok(Node::Literal(Value::Number(v))),
            None => Err(ParseError::BadNumber),
        };
    }
    if opt_map.is_opt(t.as_str()) {
        return Err(ParseError::MissingOperand);
    }
    assert(atom(t@) == (if has_op_char(t@) {
        Err(ParseError::UnexpectedToken)
    } else {
        Ok(Expr::Path(path_segs(t@)))
    }));
    let mut k: usize = 0;
    while k < n
        invariant
            n == cs@.len(),
            cs@ == t@,
            k <= n,
            opt_map.wf(),
            atom(t@) == (if has_op_char(t@) {
                Err(ParseError::UnexpectedToken)
            } else {
                Ok(Expr::Path(path_segs(t@)))
            }),
            forall|j: int| 0 <= j < k ==> !is_op_char(#[trigger] t@[j]),
        decreases n - k,
    {
        let one: Vec<char> = vec![cs[k]];
        assert(one@ =~= seq![cs@[k as int]]);
        if opt_map.is_opt(string_of(&one).as_str()) {
            assert(is_op_char(t@[k as int]));
            assert(has_op_char(t@));
            return Err(ParseError::UnexpectedToken);
        }
        k = k + 1;
    }
    Ok(Node::Path(path_segments(&cs)))
}

/// The expression that `ts[lo..hi]` writes.
fn parse_tokens_range(ts: &Vec<String>, lo: usize, hi: usize, opt_map: &OptMap) -> (r: Result<
    Node,
    ParseError,
>)
    requires
        lo <= hi <= ts@.len(),
        opt_map.wf(),
    ensures
        parsed_view(r) == parse_range(strings_view(ts@), lo as int, hi as int),
    decreases hi - lo,
{
    let ghost tv = strings_view(ts@);
    if lo >= hi {
        return Err(ParseError::Empty);
    }
    if !is_balanced(ts, lo, hi) {
        return Err(ParseError::Unbalanced);
    }
    assert(tv[lo as int] == ts@[lo as int]@);
    assert(tv[hi - 1] == ts@[hi - 1]@);
    match find_split(ts, lo, hi, opt_map) {
        Some(i) => {
            if lo < i && i < hi - 1 {
                assert(tv[i as int] == ts@[i as int]@);
                proof {
                    lemma_split_op(tv, lo as int, hi as int, 0);
                }
                let op = bin_op_of(&ts[i]);
                let a = match parse_tokens_range(ts, lo, i, opt_map) {
                    Ok(a) => a,
                    Err(e) => {
                        return Err(e);
                    },
                };
                let b = match parse_tokens_range(ts, i + 1, hi, opt_map) {
                    Ok(b) => b,
                    Err(e) => {
                        return Err(e);
                    },
                };
                match op {
                    Some(o) => Ok(Node::Binary(o, Box::new(a), Box::new(b))),
                    None => Err(ParseError::UnexpectedToken),
                }
            } else {
                Err(ParseError::MissingOperand)
            }
        },
        None => {
            let neg = tok_is(&ts[lo], '-');
            if neg || tok_is(&ts[lo], '!') {
                if lo + 1 >= hi {
                    return Err(ParseError::MissingOperand);
                }
                let a = match parse_tokens_range(ts, lo + 1, hi, opt_map) {
                    Ok(a) => a,
                    Err(e) => {
                        return Err(e);
                    },
                };
                Ok(Node::Unary(if neg { UnOp::Neg } else { UnOp::Not }, Box::new(a)))
            } else if tok_is(&ts[lo], '(') && tok_is(&ts[hi - 1], ')') && hi - lo >= 2 {
                if hi - lo == 2 {
                    return Err(ParseError::MissingOperand);
                }
                let a = match parse_tokens_range(ts, lo + 1, hi - 1, opt_map) {
                    Ok(a) => a,
                    Err(e) => {
                        return Err(e);
                    },
                };
                Ok(Node::Group(Box::new(a)))
            } else if hi - lo == 1 {
                parse_atom(&ts[lo], opt_map)
            } else {
                Err(ParseError::UnexpectedToken)
            }
        },
    }
}

/// Builds the tree of the expression that the tokens `tokens` write.
pub fn parse(tokens: &Vec<String>, opt_map: &OptMap) -> (r: Result<Node, ParseError>)
    requires
        opt_map.wf(),
    ensures
        parsed_view(r) == parse_spec(strings_view(tokens@)),
{
    parse_tokens_range(tokens, 0, tokens.len(), opt_map)
}

} // verus!
