use vstd::prelude::*;
use crate::engine::{expr_result, lemma_filter_absent, other_than, RbatisEngine};
use crate::expr::{all_digits, apply_bin, checked, digit_value, digits_value, eval_expr, BinOp, EvalError, Expr};
use crate::operators::{is_operator, multi_list, operator_list, single_list};
use crate::parser::{
    atom, balanced, bin_op, depth_after, paren_weight, parse_range, parse_spec, rightmost, split,
    ParseError,
};
use crate::template::{pairs_view, render, replace_all, DriverType, StringNode};
use crate::value::text_form;
use crate::text::{end_non_ws, first_non_ws, int_text, is_ws, trim};
use crate::tokenizer::{is_quote, lemma_op_char_cases, lex, lex_step, push_trimmed, tokenize, LexState};
use crate::value::Json;

verus! {

/// The empty text has no tokens, and no tokens make no expression.
pub proof fn empty_input(s: Seq<char>)
    requires
        s.len() == 0,
    ensures
        tokenize(s) == Seq::<Seq<char>>::empty(),
        parse_spec(Seq::<Seq<char>>::empty()) == Err::<Expr, ParseError>(
            ParseError::Empty,
        ),
{
    assert(trim(Seq::<char>::empty()).len() == 0);
}

/// A kept tree evaluates, in every environment, to what its text evaluates to when parsed
/// afresh: a cached evaluation and an uncached one agree.
pub proof fn cache_transparent(e: RbatisEngine, i: int, env: Json)
    requires
        e.wf(),
        0 <= i < e.cache@.len(),
    ensures
        expr_result(e.cache@[i].0@, env) == (match eval_expr(e.cache@[i].1.view_expr(), env) {
            Ok(v) => Ok(v),
            Err(err) => Err(crate::engine::ExprError::Eval(err)),
        }),
{
}

/// Removing a text that is not kept leaves every kept text where it was.
pub proof fn remove_absent_is_no_op(e: RbatisEngine, k: Seq<char>)
    requires
        e.wf(),
        !e.keys().contains(k),
    ensures
        e.keys().filter(other_than(k)) == e.keys(),
{
    lemma_filter_absent(e.keys(), k);
}

/// An inline placeholder whose expression yields a number is replaced by the number's decimal
/// text, with no quotes around it, and adds no bind value.
pub proof fn inline_number_is_decimal(
    item: Seq<char>,
    marker: Seq<char>,
    rest: Seq<(Seq<char>, Seq<char>)>,
    text: Seq<char>,
    args: Seq<Json>,
    env: Json,
    d: DriverType,
    n: int,
)
    requires
        item.len() > 0,
        marker.len() > 0,
        marker[0] == '$',
        expr_result(item, env) == Ok::<Json, crate::engine::ExprError>(Json::Num(n)),
    ensures
        render(seq![(item, marker)] + rest, text, args, env, d) == render(
            rest,
            replace_all(text, marker, int_text(n)),
            args,
            env,
            d,
        ),
{
    let entries = seq![(item, marker)] + rest;
    assert(entries[0] == (item, marker));
    assert(entries.drop_first() =~= rest);
    assert(text_form(Json::Num(n)) == int_text(n));
}

pub open spec fn no_quote(x: Seq<char>) -> bool {
    forall|i: int| 0 <= i < x.len() ==> !is_quote(#[trigger] x[i])
}

proof fn lemma_operator_not_quoted(t: Seq<char>)
    requires
        is_operator(t),
    ensures
        t.len() > 0 && !is_quote(t[0]),
{
    let ops = operator_list();
    let k = choose|k: int| 0 <= k < ops.len() && ops[k] == t;
    if k < 17 {
        assert(ops[k] == single_list()[k]);
    } else {
        assert(ops[k] == multi_list()[k - 17]);
    }
}

proof fn lemma_lex_push(x: Seq<char>, c: char)
    ensures
        lex(x.push(c)) == lex_step(lex(x), c),
{
    assert(x.push(c).drop_last() =~= x);
}

proof fn lemma_lex_no_quote(p: Seq<char>)
    requires
        no_quote(p),
    ensures
        !lex(p).in_quote,
    decreases p.len(),
{
    if p.len() > 0 {
        assert(no_quote(p.drop_last()));
        lemma_lex_no_quote(p.drop_last());
        assert(!is_quote(p[p.len() - 1]));
    }
}

proof fn lemma_lex_inside(x: Seq<char>, q: char, body: Seq<char>)
    requires
        !lex(x).in_quote,
        is_quote(q),
        no_quote(body),
    ensures
        lex(x + seq![q] + body).in_quote,
        lex(x + seq![q] + body).quoted == seq![q] + body,
        lex(x + seq![q] + body).toks == push_trimmed(lex(x).toks, lex(x).bare),
    decreases body.len(),
{
    if body.len() == 0 {
        assert(x + seq![q] + body =~= x.push(q));
        lemma_lex_push(x, q);
        assert(seq![q] + body =~= seq![q]);
    } else {
        let b = body.drop_last();
        let c = body.last();
        assert(no_quote(b));
        lemma_lex_inside(x, q, b);
        assert(x + seq![q] + body =~= (x + seq![q] + b).push(c));
        lemma_lex_push(x + seq![q] + b, c);
        assert(!is_quote(body[body.len() - 1]));
        assert((seq![q] + b)[0] == q);
        assert((seq![q] + b).push(c) =~= seq![q] + body);
    }
}

proof fn lemma_lex_keeps(y: Seq<char>, r: Seq<char>, k: int, lit: Seq<char>)
    requires
        0 <= k < lex(y).toks.len(),
        lex(y).toks[k] == lit,
        !is_operator(lit),
    ensures
        0 <= k < lex(y + r).toks.len(),
        lex(y + r).toks[k] == lit,
    decreases r.len(),
{
    if r.len() > 0 {
        let r0 = r.drop_last();
        let c = r.last();
        lemma_lex_keeps(y, r0, k, lit);
        assert(y + r =~= (y + r0).push(c));
        lemma_lex_push(y + r0, c);
        let st = lex(y + r0);
        let t1 = push_trimmed(st.toks, st.bare);
        assert(t1.len() >= st.toks.len() && t1[k] == lit);
        if t1.len() > 0 && is_operator(t1.last()) {
            assert(k != t1.len() - 1);
        }
    }
}

/// A quoted literal whose inside holds no quote character, after text with no quote character,
/// comes out as one token: its quotes and its inside verbatim, operator characters and spaces
/// included.
pub proof fn quoted_literal_verbatim(p: Seq<char>, q: char, body: Seq<char>, r: Seq<char>)
    requires
        is_quote(q),
        no_quote(p),
        no_quote(body),
    ensures
        tokenize(p + seq![q] + body + seq![q] + r).contains(seq![q] + body + seq![q]),
{
    let lit = seq![q] + body + seq![q];
    lemma_lex_no_quote(p);
    lemma_lex_inside(p, q, body);
    let y0 = p + seq![q] + body;
    let y = y0.push(q);
    lemma_lex_push(y0, q);
    assert((seq![q] + body)[0] == q);
    assert((seq![q] + body).push(q) =~= lit);
    let k = lex(y0).toks.len() as int;
    assert(lex(y).toks[k] == lit);
    assert(!is_operator(lit)) by {
        if is_operator(lit) {
            lemma_operator_not_quoted(lit);
        }
    }
    lemma_lex_keeps(y, r, k, lit);
    assert(p + seq![q] + body + seq![q] + r =~= y + r);
    let st = lex(y + r);
    let fin = if st.in_quote {
        push_trimmed(st.toks, st.quoted)
    } else {
        push_trimmed(st.toks, st.bare)
    };
    assert(fin[k] == lit);
}

/// Two templates of the same text compile to the same placeholders.
pub proof fn compile_deterministic(a: StringNode, b: StringNode)
    requires
        a.wf(),
        b.wf(),
        a.value@ == b.value@,
    ensures
        pairs_view(a.express_map@) == pairs_view(b.express_map@),
{
}

/// `2 + 3 * 4` is 14 in every environment: `*` binds tighter than `+`.
proof fn lemma_example_tokens()
    ensures
        tokenize(seq!['2', ' ', '+', ' ', '3', ' ', '*', ' ', '4']) == seq![
            seq!['2'],
            seq!['+'],
            seq!['3'],
            seq!['*'],
            seq!['4'],
        ],
{
    let s = seq!['2', ' ', '+', ' ', '3', ' ', '*', ' ', '4'];
    lemma_op_char_cases('2');
    lemma_op_char_cases(' ');
    lemma_op_char_cases('+');
    lemma_op_char_cases('3');
    lemma_op_char_cases('*');
    lemma_op_char_cases('4');
    let e = Seq::<char>::empty();
    let none = Seq::<Seq<char>>::empty();
    assert(s.take(0) =~= e);
    assert(s.take(1).drop_last() =~= s.take(0));
    assert(s.take(2).drop_last() =~= s.take(1));
    assert(s.take(3).drop_last() =~= s.take(2));
    assert(s.take(4).drop_last() =~= s.take(3));
    assert(s.take(5).drop_last() =~= s.take(4));
    assert(s.take(6).drop_last() =~= s.take(5));
    assert(s.take(7).drop_last() =~= s.take(6));
    assert(s.take(8).drop_last() =~= s.take(7));
    assert(s.take(9) =~= s);
    assert(is_operator(seq!['+']) && is_operator(seq!['*']) && !is_operator(seq!['2'])
        && !is_operator(seq!['3']));
    let t2 = seq!['2'];
    let t3 = seq!['3'];
    let t4 = seq!['4'];
    let tp = seq!['+'];
    let tm = seq!['*'];
    lemma_trim_padded(seq!['2', ' '], 0, 1);
    lemma_trim_padded(seq![' ', '3', ' '], 1, 2);
    lemma_trim_padded(seq![' ', '4'], 1, 2);
    assert(seq!['2', ' '].subrange(0, 1) =~= t2);
    assert(seq![' ', '3', ' '].subrange(1, 2) =~= t3);
    assert(seq![' ', '4'].subrange(1, 2) =~= t4);
    assert(lex(s.take(0)) == LexState { toks: none, in_quote: false, quoted: e, bare: e });
    assert(e.push('2') =~= seq!['2']);
    assert(lex(s.take(1)) == LexState { toks: none, in_quote: false, quoted: e, bare: seq!['2'] });
    assert(seq!['2'].push(' ') =~= seq!['2', ' ']);
    assert(lex(s.take(2)) == LexState { toks: none, in_quote: false, quoted: e, bare: seq!['2', ' '] });
    assert(none.push(t2).push(tp) =~= seq![t2, tp]);
    assert(lex(s.take(3)) == LexState { toks: seq![t2, tp], in_quote: false, quoted: e, bare: e });
    assert(e.push(' ') =~= seq![' ']);
    assert(seq![' '].push('3') =~= seq![' ', '3']);
    assert(seq![' ', '3'].push(' ') =~= seq![' ', '3', ' ']);
    assert(lex(s.take(4)) == LexState { toks: seq![t2, tp], in_quote: false, quoted: e, bare: seq![' '] });
    assert(lex(s.take(5)) == LexState {
        toks: seq![t2, tp],
        in_quote: false,
        quoted: e,
        bare: seq![' ', '3'],
    });
    assert(lex(s.take(6)) == LexState {
        toks: seq![t2, tp],
        in_quote: false,
        quoted: e,
        bare: seq![' ', '3', ' '],
    });
    assert(seq![t2, tp].push(t3) =~= seq![t2, tp, t3]);
    assert(seq![t2, tp, t3].push(tm) =~= seq![t2, tp, t3, tm]);
    assert(lex(s.take(7)) == LexState { toks: seq![t2, tp, t3, tm], in_quote: false, quoted: e, bare: e });
    assert(seq![' '].push('4') =~= seq![' ', '4']);
    assert(lex(s.take(8)) == LexState {
        toks: seq![t2, tp, t3, tm],
        in_quote: false,
        quoted: e,
        bare: seq![' '],
    });
    assert(s.drop_last() =~= s.take(8));
    assert(lex(s) == LexState {
        toks: seq![t2, tp, t3, tm],
        in_quote: false,
        quoted: e,
        bare: seq![' ', '4'],
    });
    let ts = seq![t2, tp, t3, tm, t4];
    assert(seq![t2, tp, t3, tm].push(t4) =~= ts);
    assert(tokenize(s) == ts);
}

pub proof fn multiplication_binds_tighter(env: Json)
    ensures
        expr_result(seq!['2', ' ', '+', ' ', '3', ' ', '*', ' ', '4'], env) == Ok::<
            Json,
            crate::engine::ExprError,
        >(Json::Num(14)),
{
    let e = Seq::<char>::empty();
    let s = seq!['2', ' ', '+', ' ', '3', ' ', '*', ' ', '4'];
    let t2 = seq!['2'];
    let t3 = seq!['3'];
    let t4 = seq!['4'];
    let tp = seq!['+'];
    let tm = seq!['*'];
    let ts = seq![t2, tp, t3, tm, t4];
    lemma_example_tokens();
    assert(tokenize(s) == ts);
    assert(bin_op(t2) is None && bin_op(t3) is None && bin_op(t4) is None);
    assert(tp[0] == '+' && tm[0] == '*');
    assert(seq!['*'][0] == '*' && seq!['/'][0] == '/' && seq![')'][0] == ')' && seq!['('][0] == '(');
    assert(seq!['%'][0] == '%' && seq!['^'][0] == '^');
    assert(tp != seq!['*'] && tp != seq!['/'] && tp != seq!['%'] && tp != seq!['^']);
    assert(tp != seq![')'] && tp != seq!['('] && tm != seq![')'] && tm != seq!['(']);
    assert(bin_op(tp) == Some(BinOp::Add));
    assert(bin_op(tm) == Some(BinOp::Mul));
    assert(paren_weight(t2) == 0 && paren_weight(t3) == 0 && paren_weight(t4) == 0);
    assert(paren_weight(tp) == 0 && paren_weight(tm) == 0);
    assert(depth_after(ts, 5, 5) == 0);
    assert(depth_after(ts, 4, 5) == 0);
    assert(depth_after(ts, 3, 5) == 0);
    assert(depth_after(ts, 2, 5) == 0);
    assert(depth_after(ts, 1, 5) == 0);
    assert(depth_after(ts, 0, 5) == 0);
    assert(balanced(ts, 0, 5));
    assert(balanced(ts, 2, 5));
    assert(depth_after(ts, 1, 1) == 0);
    assert(depth_after(ts, 0, 1) == 0);
    assert(balanced(ts, 0, 1));
    assert(depth_after(ts, 3, 3) == 0);
    assert(depth_after(ts, 2, 3) == 0);
    assert(balanced(ts, 2, 3));
    assert(balanced(ts, 4, 5));
    assert(ts[0] == t2 && ts[1] == tp && ts[2] == t3 && ts[3] == tm && ts[4] == t4);
    assert(rightmost(ts, 0, 5, 0, 0) is None);
    assert(rightmost(ts, 0, 5, 0, 1) is None);
    assert(rightmost(ts, 0, 5, 0, 2) is None);
    assert(rightmost(ts, 0, 5, 0, 3) is None);
    assert(rightmost(ts, 0, 5, 0, 4) is None);
    assert(rightmost(ts, 0, 5, 1, 0) is None);
    assert(rightmost(ts, 0, 5, 1, 1) is None);
    assert(rightmost(ts, 0, 5, 1, 2) is None);
    assert(rightmost(ts, 0, 5, 1, 3) is None);
    assert(rightmost(ts, 0, 5, 1, 4) is None);
    assert(rightmost(ts, 0, 5, 2, 0) is None);
    assert(rightmost(ts, 0, 5, 2, 1) is None);
    assert(rightmost(ts, 0, 5, 2, 2) is None);
    assert(rightmost(ts, 0, 5, 2, 3) is None);
    assert(rightmost(ts, 0, 5, 2, 4) is None);
    assert(rightmost(ts, 0, 5, 3, 0) is None);
    assert(rightmost(ts, 0, 5, 3, 1) is None);
    assert(rightmost(ts, 0, 5, 3, 2) is None);
    assert(rightmost(ts, 0, 5, 3, 3) is None);
    assert(rightmost(ts, 0, 5, 3, 4) is None);
    assert(rightmost(ts, 0, 5, 4, 1) == Some(1int));
    assert(rightmost(ts, 0, 5, 4, 2) == Some(1int));
    assert(rightmost(ts, 0, 5, 4, 3) == Some(1int));
    assert(rightmost(ts, 0, 5, 4, 4) == Some(1int));
    assert(split(ts, 0, 5, 4) == Some(1int));
    assert(split(ts, 0, 5, 3) == Some(1int));
    assert(split(ts, 0, 5, 2) == Some(1int));
    assert(split(ts, 0, 5, 1) == Some(1int));
    assert(split(ts, 0, 5, 0) == Some(1int));
    assert(rightmost(ts, 2, 5, 0, 2) is None);
    assert(rightmost(ts, 2, 5, 0, 3) is None);
    assert(rightmost(ts, 2, 5, 0, 4) is None);
    assert(rightmost(ts, 2, 5, 1, 2) is None);
    assert(rightmost(ts, 2, 5, 1, 3) is None);
    assert(rightmost(ts, 2, 5, 1, 4) is None);
    assert(rightmost(ts, 2, 5, 2, 2) is None);
    assert(rightmost(ts, 2, 5, 2, 3) is None);
    assert(rightmost(ts, 2, 5, 2, 4) is None);
    assert(rightmost(ts, 2, 5, 3, 2) is None);
    assert(rightmost(ts, 2, 5, 3, 3) is None);
    assert(rightmost(ts, 2, 5, 3, 4) is None);
    assert(rightmost(ts, 2, 5, 4, 2) is None);
    assert(rightmost(ts, 2, 5, 4, 3) is None);
    assert(rightmost(ts, 2, 5, 4, 4) is None);
    assert(rightmost(ts, 2, 5, 5, 3) == Some(3int));
    assert(rightmost(ts, 2, 5, 5, 4) == Some(3int));
    assert(split(ts, 2, 5, 5) == Some(3int));
    assert(split(ts, 2, 5, 4) == Some(3int));
    assert(split(ts, 2, 5, 3) == Some(3int));
    assert(split(ts, 2, 5, 2) == Some(3int));
    assert(split(ts, 2, 5, 1) == Some(3int));
    assert(split(ts, 2, 5, 0) == Some(3int));
    assert(split(ts, 0, 1, 6) is None);
    assert(split(ts, 0, 1, 5) is None);
    assert(split(ts, 0, 1, 4) is None);
    assert(split(ts, 0, 1, 3) is None);
    assert(split(ts, 0, 1, 2) is None);
    assert(split(ts, 0, 1, 1) is None);
    assert(split(ts, 0, 1, 0) is None);
    assert(split(ts, 2, 3, 6) is None);
    assert(split(ts, 2, 3, 5) is None);
    assert(split(ts, 2, 3, 4) is None);
    assert(split(ts, 2, 3, 3) is None);
    assert(split(ts, 2, 3, 2) is None);
    assert(split(ts, 2, 3, 1) is None);
    assert(split(ts, 2, 3, 0) is None);
    assert(split(ts, 4, 5, 6) is None);
    assert(split(ts, 4, 5, 5) is None);
    assert(split(ts, 4, 5, 4) is None);
    assert(split(ts, 4, 5, 3) is None);
    assert(split(ts, 4, 5, 2) is None);
    assert(split(ts, 4, 5, 1) is None);
    assert(split(ts, 4, 5, 0) is None);
    assert(seq!['2'].drop_last() =~= e);
    assert(seq!['3'].drop_last() =~= e);
    assert(seq!['4'].drop_last() =~= e);
    assert(digits_value(e) == 0);
    assert(t2.last() == '2' && t3.last() == '3' && t4.last() == '4');
    assert(('2' as u32) == 50 && ('0' as u32) == 48 && ('3' as u32) == 51 && ('4' as u32) == 52);
    assert(digit_value('2') == 2 && digit_value('3') == 3 && digit_value('4') == 4);
    assert(digits_value(t2) == 2 && digits_value(t3) == 3 && digits_value(t4) == 4);
    assert(all_digits(t2) && all_digits(t3) && all_digits(t4));
    assert(!is_quote(t2[0]) && !is_quote(t3[0]) && !is_quote(t4[0]));
    assert(atom(t2) == Ok::<Expr, ParseError>(Expr::Lit(Json::Num(2))));
    assert(atom(t3) == Ok::<Expr, ParseError>(Expr::Lit(Json::Num(3))));
    assert(atom(t4) == Ok::<Expr, ParseError>(Expr::Lit(Json::Num(4))));
    assert(parse_range(ts, 0, 1) == Ok::<Expr, ParseError>(Expr::Lit(Json::Num(2))));
    assert(parse_range(ts, 2, 3) == Ok::<Expr, ParseError>(Expr::Lit(Json::Num(3))));
    assert(parse_range(ts, 4, 5) == Ok::<Expr, ParseError>(Expr::Lit(Json::Num(4))));
    let mul = Expr::Bin(
        BinOp::Mul,
        Box::new(Expr::Lit(Json::Num(3))),
        Box::new(Expr::Lit(Json::Num(4))),
    );
    assert(parse_range(ts, 2, 5) == Ok::<Expr, ParseError>(mul));
    let sum = Expr::Bin(BinOp::Add, Box::new(Expr::Lit(Json::Num(2))), Box::new(mul));
    assert(parse_spec(ts) == Ok::<Expr, ParseError>(sum));
    assert(3int * 4int == 12int);
    assert(checked(12) == Ok::<Json, EvalError>(Json::Num(12)));
    assert(apply_bin(BinOp::Mul, Json::Num(3), Json::Num(4)) == Ok::<Json, EvalError>(
        Json::Num(12),
    ));
    assert(apply_bin(BinOp::Add, Json::Num(2), Json::Num(12)) == Ok::<Json, EvalError>(
        Json::Num(14),
    ));
    assert(eval_expr(Expr::Lit(Json::Num(3)), env) == Ok::<Json, EvalError>(Json::Num(3)));
    assert(eval_expr(Expr::Lit(Json::Num(4)), env) == Ok::<Json, EvalError>(Json::Num(4)));
    assert(eval_expr(Expr::Lit(Json::Num(2)), env) == Ok::<Json, EvalError>(Json::Num(2)));
    assert(eval_expr(mul, env) == Ok::<Json, EvalError>(Json::Num(12)));
    assert(eval_expr(sum, env) == Ok::<Json, EvalError>(Json::Num(14)));
}

proof fn lemma_trim_padded(t: Seq<char>, a: int, b: int)
    requires
        0 <= a < b <= t.len(),
        forall|i: int| 0 <= i < a ==> is_ws(#[trigger] t[i]),
        forall|i: int| b <= i < t.len() ==> is_ws(#[trigger] t[i]),
        !is_ws(t[a]),
        !is_ws(t[b - 1]),
    ensures
        trim(t) == t.subrange(a, b),
{
    lemma_first(t, 0, a);
    lemma_end(t, t.len() as int, b);
}

proof fn lemma_first(t: Seq<char>, i: int, a: int)
    requires
        0 <= i <= a < t.len(),
        forall|j: int| i <= j < a ==> is_ws(#[trigger] t[j]),
        !is_ws(t[a]),
    ensures
        first_non_ws(t, i) == a,
    decreases a - i,
{
    if i < a {
        lemma_first(t, i + 1, a);
    }
}

proof fn lemma_end(t: Seq<char>, j: int, b: int)
    requires
        0 < b <= j <= t.len(),
        forall|i: int| b <= i < j ==> is_ws(#[trigger] t[i]),
        !is_ws(t[b - 1]),
    ensures
        end_non_ws(t, j) == b,
    decreases j - b,
{
    if j > b {
        lemma_end(t, j - 1, b);
    }
}

} // verus!
