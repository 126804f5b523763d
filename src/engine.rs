use vstd::prelude::*;
use crate::expr::{eval_expr, result_view, EvalError, Node};
use crate::operators::{strings_view, OptMap};
use crate::parser::{parse, parse_spec, ParseError};
use crate::text::owned;
use crate::tokenizer::{parser_tokens, tokenize};
use crate::value::{Json, Value};

verus! {

/// Why an expression text could not be evaluated.
#[derive(PartialEq, Eq, Structural, Clone, Copy, Debug)]
pub enum ExprError {
    Parse(ParseError),
    Eval(EvalError),
}

/// The value of the expression text `text` in the environment `env`.
pub open spec fn expr_result(text: Seq<char>, env: Json) -> Result<Json, ExprError> {
    match parse_spec(tokenize(text)) {
        Err(e) => Err(ExprError::Parse(e)),
        Ok(x) => match eval_expr(x, env) {
            Ok(v) => Ok(v),
            Err(e) => Err(ExprError::Eval(e)),
        },
    }
}

pub open spec fn expr_view(r: Result<Value, ExprError>) -> Result<Json, ExprError> {
    match r {
        Ok(v) => Ok(v.view_json()),
        Err(e) => Err(e),
    }
}

/// Evaluates expression texts, keeping the tree of each text that parsed.
#[derive(Debug)]
pub struct RbatisEngine {
    /// Each text that was parsed, with its tree; no text twice.
    pub cache: Vec<(String, Node)>,
    pub opt_map: OptMap,
}

impl RbatisEngine {
    /// The texts whose trees are kept, in the order they were first parsed.
    pub open spec fn keys(&self) -> Seq<Seq<char>> {
        self.cache@.map_values(|e: (String, Node)| e.0@)
    }

    pub open spec fn wf(&self) -> bool {
        &&& self.opt_map.wf()
        &&& forall|i: int|
            0 <= i < self.cache@.len() ==> parse_spec(tokenize(#[trigger] self.cache@[i].0@)) == Ok::<
                crate::expr::Expr,
                ParseError,
            >(self.cache@[i].1.view_expr())
        &&& forall|i: int, j: int|
            0 <= i < j < self.cache@.len() ==> #[trigger] self.cache@[i].0@ != #[trigger] self.cache@[j].0@
    }

    pub fn new() -> (r: Self)
        ensures
            r.wf(),
            r.keys().len() == 0,
    {
        RbatisEngine { cache: Vec::new(), opt_map: OptMap::new() }
    }

    /// The position of `text` among the kept texts.
    fn find(&self, text: &String) -> (r: Option<usize>)
        requires
            self.wf(),
        ensures
            r matches Some(i) ==> i < self.cache@.len() && self.cache@[i as int].0@ == text@,
            r is None ==> !self.keys().contains(text@),
    {
        let mut i: usize = 0;
        while i < self.cache.len()
            invariant
                i <= self.cache@.len(),
                forall|j: int| 0 <= j < i ==> self.cache@[j].0@ != text@,
            decreases self.cache.len() - i,
        {
            if self.cache[i].0.eq(text) {
                return Some(i);
            }
            i = i + 1;
        }
        assert forall|j: int| 0 <= j < self.keys().len() implies self.keys()[j] != text@ by {
            assert(self.cache@[j].0@ != text@);
        }
        None
    }

    /// The value of the expression `lexer_arg` in `arg`. A text that parses is kept with its
    /// tree, and a text kept before is not parsed again.
    pub fn eval(&mut self, lexer_arg: &str, arg: &Value) -> (r: Result<Value, ExprError>)
        requires
            old(self).wf(),
        ensures
            final(self).wf(),
            expr_view(r) == expr_result(lexer_arg@, arg.view_json()),
            final(self).keys() == (if old(self).keys().contains(lexer_arg@) || parse_spec(
                tokenize(lexer_arg@),
            ) is Err {
                old(self).keys()
            } else {
                old(self).keys().push(lexer_arg@)
            }),
    {
        let text = owned(lexer_arg);
        match self.find(&text) {
            Some(i) => {
                assert(self.keys()[i as int] == lexer_arg@);
                let r = self.cache[i].1.eval(arg);
                lift(r)
            },
            None => {
                let tokens = parser_tokens(&text, &self.opt_map);
                match parse(&tokens, &self.opt_map) {
                    Err(e) => Err(ExprError::Parse(e)),
                    Ok(node) => {
                        let r = node.eval(arg);
                        let ghost before = *self;
                        self.cache.push((text, node));
                        assert(self.keys() =~= before.keys().push(lexer_arg@));
                        assert forall|i: int, j: int|
                            0 <= i < j < self.cache@.len() implies #[trigger] self.cache@[i].0@
                            != #[trigger] self.cache@[j].0@ by {
                            if j == self.cache@.len() - 1 {
                                assert(before.keys()[i] == self.cache@[i].0@);
                            }
                        }
                        lift(r)
                    },
                }
            },
        }
    }

    /// The value of the expression `lexer_arg` in `arg`, parsed afresh; nothing is kept.
    pub fn eval_no_cache(&self, lexer_arg: &str, arg: &Value) -> (r: Result<Value, ExprError>)
        requires
            self.wf(),
        ensures
            expr_view(r) == expr_result(lexer_arg@, arg.view_json()),
    {
        let text = owned(lexer_arg);
        let tokens = parser_tokens(&text, &self.opt_map);
        match parse(&tokens, &self.opt_map) {
            Err(e) => Err(ExprError::Parse(e)),
            Ok(node) => lift(node.eval(arg)),
        }
    }

    /// Forgets every kept tree.
    pub fn clear_cache(&mut self)
        requires
            old(self).wf(),
        ensures
            final(self).wf(),
            final(self).keys().len() == 0,
    {
        self.cache.clear();
        assert(self.keys() =~= Seq::<Seq<char>>::empty());
    }

    /// Forgets the tree of `lexer_arg`, if one is kept; the others stay, in their order.
    pub fn remove_cache(&mut self, lexer_arg: &str)
        requires
            old(self).wf(),
        ensures
            final(self).wf(),
            final(self).keys() == old(self).keys().filter(other_than(lexer_arg@)),
    {
        let text = owned(lexer_arg);
        let ghost before = *self;
        match self.find(&text) {
            Some(i) => {
                self.cache.remove(i);
                proof {
                    lemma_filter_remove(before.keys(), i as int, lexer_arg@);
                }
                assert(self.keys() =~= before.keys().remove(i as int));
            },
            None => {
                proof {
                    lemma_filter_absent(before.keys(), lexer_arg@);
                }
            },
        }
    }
}

/// The texts other than `k`.
pub open spec fn other_than(k: Seq<char>) -> spec_fn(Seq<char>) -> bool {
    |x: Seq<char>| x != k
}

fn lift(r: Result<Value, EvalError>) -> (out: Result<Value, ExprError>)
    ensures
        expr_view(out) == (match result_view(r) {
            Ok(v) => Ok(v),
            Err(e) => Err(ExprError::Eval(e)),
        }),
{
    match r {
        Ok(v) => Ok(v),
        Err(e) => Err(ExprError::Eval(e)),
    }
}

pub(crate) proof fn lemma_filter_absent(keys: Seq<Seq<char>>, k: Seq<char>)
    requires
        !keys.contains(k),
    ensures
        keys.filter(other_than(k)) == keys,
    decreases keys.len(),
{
    reveal(Seq::filter);
    if keys.len() > 0 {
        assert(!keys.drop_last().contains(k)) by {
            if keys.drop_last().contains(k) {
                let j = choose|j: int| 0 <= j < keys.drop_last().len() && keys.drop_last()[j] == k;
                assert(keys[j] == k);
            }
        }
        lemma_filter_absent(keys.drop_last(), k);
        assert(keys.last() != k) by {
            assert(keys[keys.len() - 1] == keys.last());
        }
        assert(keys.drop_last().push(keys.last()) =~= keys);
    }
}

proof fn lemma_filter_remove(keys: Seq<Seq<char>>, i: int, k: Seq<char>)
    requires
        0 <= i < keys.len(),
        keys[i] == k,
        forall|a: int, b: int| 0 <= a < b < keys.len() ==> keys[a] != keys[b],
    ensures
        keys.filter(other_than(k)) == keys.remove(i),
    decreases keys.len(),
{
    reveal(Seq::filter);
    let d = keys.drop_last();
    if i == keys.len() - 1 {
        assert(!d.contains(k)) by {
            if d.contains(k) {
                let j = choose|j: int| 0 <= j < d.len() && d[j] == k;
                assert(keys[j] == keys[i]);
            }
        }
        lemma_filter_absent(d, k);
        assert(keys.remove(i) =~= d);
    } else {
        lemma_filter_remove(d, i, k);
        assert(keys.last() != k) by {
            assert(keys[keys.len() - 1] != keys[i]);
        }
        assert(keys.remove(i) =~= d.remove(i).push(keys.last()));
    }
}

} // verus!
