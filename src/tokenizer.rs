use vstd::prelude::*;
use crate::operators::{is_operator, multi_list, operator_list, single_list, strings_view, OptMap};
use crate::text::{chars_of, is_ws, string_of, trim, trim_chars};

verus! {

pub open spec fn is_quote(c: char) -> bool {
    c == '\'' || c == '`'
}

/// Whether the one-character token `c` is an operator.
pub open spec fn is_op_char(c: char) -> bool {
    is_operator(seq![c])
}

/// `toks` with `trim(s)` appended, unless that is empty.
pub open spec fn push_trimmed(toks: Seq<Seq<char>>, s: Seq<char>) -> Seq<Seq<char>> {
    if trim(s).len() == 0 {
        toks
    } else {
        toks.push(trim(s))
    }
}

/// `toks` after the operator character `c`: joined to the last token when that is an operator
/// and the two together form a registered operator (`&&`, `>=`, ...), a token of its own
/// otherwise.
pub open spec fn push_op(toks: Seq<Seq<char>>, c: char) -> Seq<Seq<char>> {
    if toks.len() > 0 && is_operator(toks.last()) && is_operator(toks.last().push(c)) {
        toks.drop_last().push(toks.last().push(c))
    } else {
        toks.push(seq![c])
    }
}

/// Where the tokenizer stands after a prefix of its input.
pub struct LexState {
    pub toks: Seq<Seq<char>>,
    pub in_quote: bool,
    pub quoted: Seq<char>,
    pub bare: Seq<char>,
}

pub open spec fn lex_step(st: LexState, c: char) -> LexState {
    if st.in_quote {
        if st.quoted.len() > 0 && c == st.quoted[0] {
            LexState { toks: st.toks.push(st.quoted.push(c)), in_quote: false, quoted: Seq::empty(), ..st }
        } else {
            LexState { quoted: st.quoted.push(c), ..st }
        }
    } else if is_quote(c) {
        LexState {
            toks: push_trimmed(st.toks, st.bare),
            in_quote: true,
            quoted: seq![c],
            bare: Seq::empty(),
        }
    } else if is_op_char(c) {
        LexState { toks: push_op(push_trimmed(st.toks, st.bare), c), bare: Seq::empty(), ..st }
    } else {
        LexState { bare: st.bare.push(c), ..st }
    }
}

pub open spec fn lex(s: Seq<char>) -> LexState
    decreases s.len(),
{
    if s.len() == 0 {
        LexState { toks: Seq::empty(), in_quote: false, quoted: Seq::empty(), bare: Seq::empty() }
    } else {
        lex_step(lex(s.drop_last()), s.last())
    }
}

/// The tokens of `s`: quoted literals whole, with their quotes, each closed only by the quote
/// character that opened it; runs of other characters, trimmed; operator characters, joined to
/// an operator token just before them where the two form a registered operator. What is left
/// open at the end of the input is emitted trimmed.
pub open spec fn tokenize(s: Seq<char>) -> Seq<Seq<char>> {
    let st = lex(s);
    if st.in_quote {
        push_trimmed(st.toks, st.quoted)
    } else {
        push_trimmed(st.toks, st.bare)
    }
}

pub open spec fn is_number_char(c: char) -> bool {
    c == '.' || ('0' <= c && c <= '9')
}

pub open spec fn clean_token(t: Seq<char>) -> bool {
    t.len() > 0 && !is_ws(t[0]) && !is_ws(t.last())
}

proof fn lemma_op_char_not_ws(c: char)
    requires
        is_op_char(c),
    ensures
        !is_ws(c),
{
    let ops = operator_list();
    let k = choose|k: int| 0 <= k < ops.len() && ops[k] == seq![c];
    assert(seq![c][0] == c);
    assert(ops[k][0] == c);
    assert(0 <= k < 23);
    if k < 17 {
        assert(ops[k] == single_list()[k]);
    } else {
        assert(ops[k] == multi_list()[k - 17]);
    }
}

/// The operator characters are exactly the one-character operators.
pub proof fn lemma_op_char_cases(c: char)
    ensures
        is_op_char(c) <==> (c == '*' || c == '/' || c == '%' || c == '^' || c == '+' || c == '-'
            || c == '(' || c == ')' || c == '@' || c == '#' || c == '$' || c == '&' || c == '|' || c
            == '=' || c == '!' || c == '>' || c == '<'),
{
    let ops = operator_list();
    if is_op_char(c) {
        let k = choose|k: int| 0 <= k < ops.len() && ops[k] == seq![c];
        assert(seq![c][0] == c);
        assert(ops[k][0] == c);
        if k < 17 {
            assert(ops[k] == single_list()[k]);
        } else {
            assert(ops[k] == multi_list()[k - 17]);
        }
    }
    if c == '*' || c == '/' || c == '%' || c == '^' || c == '+' || c == '-' || c == '(' || c == ')'
        || c == '@' || c == '#' || c == '$' || c == '&' || c == '|' || c == '=' || c == '!' || c
        == '>' || c == '<' {
        let k: int = if c == '*' { 0 } else if c == '/' { 1 } else if c == '%' { 2 } else if c == '^' {
            3
        } else if c == '+' { 4 } else if c == '-' { 5 } else if c == '(' { 6 } else if c == ')' {
            7
        } else if c == '@' { 8 } else if c == '#' { 9 } else if c == '$' { 10 } else if c == '&' {
            11
        } else if c == '|' { 12 } else if c == '=' { 13 } else if c == '!' { 14 } else if c == '>' {
            15
        } else { 16 };
        assert(ops[k] == single_list()[k]);
        assert(single_list()[k] =~= seq![c]);
    }
}

/// Whether every character of `arg` is a decimal digit or a `.`.
pub fn is_number(arg: &String) -> (r: bool)
    ensures
        r == forall|i: int| 0 <= i < arg@.len() ==> is_number_char(#[trigger] arg@[i]),
{
    let cs = chars_of(arg.as_str());
    let mut i: usize = 0;
    while i < cs.len()
        invariant
            i <= cs@.len(),
            cs@ == arg@,
            forall|j: int| 0 <= j < i ==> is_number_char(#[trigger] arg@[j]),
        decreases cs.len() - i,
    {
        let c = cs[i];
        if !(c == '.' || ('0' <= c && c <= '9')) {
            return false;
        }
        i = i + 1;
    }
    true
}

/// Appends `arg` trimmed to `list`, unless that leaves nothing.
pub fn trim_push_back(arg: &String, list: &mut Vec<String>)
    ensures
        strings_view(final(list)@) == push_trimmed(strings_view(old(list)@), arg@),
        old(list)@.len() <= final(list)@.len() <= old(list)@.len() + 1,
        forall|k: int| 0 <= k < old(list)@.len() ==> final(list)@[k] == old(list)@[k],
        final(list)@.len() > old(list)@.len() ==> clean_token(final(list)@.last()@),
{
    let t = trim_chars(&chars_of(arg.as_str()));
    if t.len() == 0 {
        return;
    }
    list.push(string_of(&t));
    assert(strings_view(final(list)@) =~= strings_view(old(list)@).push(trim(arg@)));
}

/// Splits `s` into tokens: see `tokenize`.
pub fn parser_tokens(s: &String, opt_map: &OptMap) -> (r: Vec<String>)
    requires
        opt_map.wf(),
    ensures
        strings_view(r@) == tokenize(s@),
        forall|i: int| 0 <= i < r@.len() ==> clean_token(#[trigger] r@[i]@),
{
    let cs = chars_of(s.as_str());
    let mut result: Vec<String> = Vec::new();
    let mut in_quote = false;
    let mut quoted: Vec<char> = Vec::new();
    let mut bare: Vec<char> = Vec::new();
    let mut i: usize = 0;
    assert(s@.take(0) =~= Seq::<char>::empty());
    assert(strings_view(result@) =~= Seq::<Seq<char>>::empty());
    while i < cs.len()
        invariant
            opt_map.wf(),
            forall|k: int| 0 <= k < result@.len() ==> clean_token(#[trigger] result@[k]@),
            in_quote ==> quoted@.len() > 0 && is_quote(quoted@[0]),
            i <= cs@.len(),
            cs@ == s@,
            lex(s@.take(i as int)) == (LexState {
                toks: strings_view(result@),
                in_quote,
                quoted: quoted@,
                bare: bare@,
            }),
        decreases cs.len() - i,
    {
        let c = cs[i];
        let one: Vec<char> = vec![c];
        assert(one@ =~= seq![c]);
        let ghost old_toks = strings_view(result@);
        let ghost old_result = result@;
        assert(s@.take(i as int + 1).drop_last() =~= s@.take(i as int));
        assert(s@.take(i as int + 1).last() == c);
        let ghost st = lex(s@.take(i as int));
        assert(lex(s@.take(i as int + 1)) == lex_step(st, c));
        if in_quote {
            let open = quoted[0];
            quoted.push(c);
            if c == open {
                result.push(string_of(&quoted));
                assert(strings_view(result@) =~= old_toks.push(quoted@));
                quoted = Vec::new();
                in_quote = false;
            }
        } else if c == '\'' || c == '`' {
            trim_push_back(&string_of(&bare), &mut result);
            bare = Vec::new();
            quoted = Vec::new();
            quoted.push(c);
            assert(quoted@ =~= seq![c]);
            in_quote = true;
        } else if opt_map.is_opt(string_of(&one).as_str()) {
            proof {
                lemma_op_char_not_ws(c);
            }
            trim_push_back(&string_of(&bare), &mut result);
            bare = Vec::new();
            let n = result.len();
            let ghost pre = strings_view(result@);
            let mut joined_op = false;
            if n > 0 && opt_map.is_opt(result[n - 1].as_str()) {
                let mut joined = chars_of(result[n - 1].as_str());
                joined.push(c);
                let joined_text = string_of(&joined);
                assert(pre.last() == result@[n - 1]@);
                assert(joined_text@ == pre.last().push(c));
                if opt_map.is_opt(joined_text.as_str()) {
                    result.pop();
                    result.push(joined_text);
                    assert(strings_view(result@) =~= pre.drop_last().push(pre.last().push(c)));
                    joined_op = true;
                }
            }
            if !joined_op {
                result.push(string_of(&one));
                assert(strings_view(result@) =~= pre.push(seq![c]));
                assert(push_op(pre, c) == pre.push(seq![c]));
            }
        } else {
            bare.push(c);
        }
        assert(lex_step(st, c).toks == strings_view(result@));
        assert(lex_step(st, c).in_quote == in_quote);
        assert(lex_step(st, c).quoted == quoted@);
        assert(lex_step(st, c).bare == bare@);
        i = i + 1;
    }
    assert(s@.take(i as int) =~= s@);
    if in_quote {
        trim_push_back(&string_of(&quoted), &mut result);
    } else {
        trim_push_back(&string_of(&bare), &mut result);
    }
    result
}

} // verus!
