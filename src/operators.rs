use vstd::prelude::*;
use crate::text::{owned, string_of};

verus! {

/// Every operator token, in registration order.
pub open spec fn operator_list() -> Seq<Seq<char>> {
    single_list() + multi_list()
}

/// The operators of one character.
pub open spec fn single_list() -> Seq<Seq<char>> {
    seq![
        seq!['*'], seq!['/'], seq!['%'], seq!['^'], seq!['+'], seq!['-'],
        seq!['('], seq![')'], seq!['@'], seq!['#'], seq!['$'], seq!['&'], seq!['|'], seq!['='],
        seq!['!'], seq!['>'], seq!['<'],
    ]
}

/// The operators of two characters.
pub open spec fn multi_list() -> Seq<Seq<char>> {
    seq![
        seq!['&', '&'], seq!['|', '|'], seq!['=', '='], seq!['!', '='], seq!['>', '='],
        seq!['<', '='],
    ]
}

/// The operators that may join two operands, from the tightest binding to the loosest.
pub open spec fn priority_list() -> Seq<Seq<char>> {
    seq![
        seq!['*'], seq!['/'], seq!['%'], seq!['^'], seq!['+'], seq!['-'], seq!['<', '='], seq!['<'],
        seq!['>', '='],
        seq!['>'], seq!['!', '='], seq!['=', '='], seq!['&', '&'], seq!['|', '|'],
    ]
}

pub open spec fn is_operator(t: Seq<char>) -> bool {
    operator_list().contains(t)
}

pub open spec fn is_priority_operator(t: Seq<char>) -> bool {
    priority_list().contains(t)
}

pub open spec fn strings_view(v: Seq<String>) -> Seq<Seq<char>> {
    v.map_values(|s: String| s@)
}

/// The operator registry: which tokens are operators, and which of them join two operands.
#[derive(Debug, Clone)]
pub struct OptMap {
    /// Every operator.
    pub list: Vec<String>,
    /// The operators of more than one character.
    pub mul_ops: Vec<String>,
    /// The operators of one character.
    pub single_ops: Vec<String>,
    /// The operators that join two operands, tightest first.
    pub allow_priority_array: Vec<String>,
}

impl OptMap {
    pub open spec fn wf(&self) -> bool {
        &&& strings_view(self.list@) == operator_list()
        &&& strings_view(self.single_ops@) == single_list()
        &&& strings_view(self.mul_ops@) == multi_list()
        &&& strings_view(self.allow_priority_array@) == priority_list()
    }

    pub fn new() -> (r: OptMap)
        ensures
            r.wf(),
    {
        let mut single_ops: Vec<String> = Vec::new();
        push_token(&mut single_ops, vec!['*']);
        push_token(&mut single_ops, vec!['/']);
        push_token(&mut single_ops, vec!['%']);
        push_token(&mut single_ops, vec!['^']);
        push_token(&mut single_ops, vec!['+']);
        push_token(&mut single_ops, vec!['-']);
        push_token(&mut single_ops, vec!['(']);
        push_token(&mut single_ops, vec![')']);
        push_token(&mut single_ops, vec!['@']);
        push_token(&mut single_ops, vec!['#']);
        push_token(&mut single_ops, vec!['$']);
        push_token(&mut single_ops, vec!['&']);
        push_token(&mut single_ops, vec!['|']);
        push_token(&mut single_ops, vec!['=']);
        push_token(&mut single_ops, vec!['!']);
        push_token(&mut single_ops, vec!['>']);
        push_token(&mut single_ops, vec!['<']);
        let mut mul_ops: Vec<String> = Vec::new();
        push_token(&mut mul_ops, vec!['&', '&']);
        push_token(&mut mul_ops, vec!['|', '|']);
        push_token(&mut mul_ops, vec!['=', '=']);
        push_token(&mut mul_ops, vec!['!', '=']);
        push_token(&mut mul_ops, vec!['>', '=']);
        push_token(&mut mul_ops, vec!['<', '=']);
        let mut list: Vec<String> = Vec::new();
        push_token(&mut list, vec!['*']);
        push_token(&mut list, vec!['/']);
        push_token(&mut list, vec!['%']);
        push_token(&mut list, vec!['^']);
        push_token(&mut list, vec!['+']);
        push_token(&mut list, vec!['-']);
        push_token(&mut list, vec!['(']);
        push_token(&mut list, vec![')']);
        push_token(&mut list, vec!['@']);
        push_token(&mut list, vec!['#']);
        push_token(&mut list, vec!['$']);
        push_token(&mut list, vec!['&']);
        push_token(&mut list, vec!['|']);
        push_token(&mut list, vec!['=']);
        push_token(&mut list, vec!['!']);
        push_token(&mut list, vec!['>']);
        push_token(&mut list, vec!['<']);
        push_token(&mut list, vec!['&', '&']);
        push_token(&mut list, vec!['|', '|']);
        push_token(&mut list, vec!['=', '=']);
        push_token(&mut list, vec!['!', '=']);
        push_token(&mut list, vec!['>', '=']);
        push_token(&mut list, vec!['<', '=']);
        let mut allow_priority_array: Vec<String> = Vec::new();
        push_token(&mut allow_priority_array, vec!['*']);
        push_token(&mut allow_priority_array, vec!['/']);
        push_token(&mut allow_priority_array, vec!['%']);
        push_token(&mut allow_priority_array, vec!['^']);
        push_token(&mut allow_priority_array, vec!['+']);
        push_token(&mut allow_priority_array, vec!['-']);
        push_token(&mut allow_priority_array, vec!['<', '=']);
        push_token(&mut allow_priority_array, vec!['<']);
        push_token(&mut allow_priority_array, vec!['>', '=']);
        push_token(&mut allow_priority_array, vec!['>']);
        push_token(&mut allow_priority_array, vec!['!', '=']);
        push_token(&mut allow_priority_array, vec!['=', '=']);
        push_token(&mut allow_priority_array, vec!['&', '&']);
        push_token(&mut allow_priority_array, vec!['|', '|']);
        assert(strings_view(list@) =~~= operator_list());
        assert(strings_view(mul_ops@) =~~= multi_list());
        assert(strings_view(single_ops@) =~~= single_list());
        assert(strings_view(allow_priority_array@) =~~= priority_list());
        OptMap { list, mul_ops, single_ops, allow_priority_array }
    }

    /// The operators that join two operands, tightest binding first.
    pub fn priority_array(&self) -> (r: Vec<String>)
        requires
            self.wf(),
        ensures
            strings_view(r@) == priority_list(),
    {
        self.allow_priority_array.clone()
    }

    /// Whether `arg` is an operator.
    pub fn is_opt(&self, arg: &str) -> (r: bool)
        requires
            self.wf(),
        ensures
            r == is_operator(arg@),
    {
        find_in(&self.list, arg)
    }

    /// Whether `arg` is an operator that joins two operands.
    pub fn is_allow_opt(&self, arg: &str) -> (r: bool)
        requires
            self.wf(),
        ensures
            r == is_priority_operator(arg@),
    {
        find_in(&self.allow_priority_array, arg)
    }
}

fn push_token(v: &mut Vec<String>, t: Vec<char>)
    ensures
        strings_view(final(v)@) == strings_view(old(v)@).push(t@),
{
    v.push(string_of(&t));
    assert(strings_view(final(v)@) =~~= strings_view(old(v)@).push(t@));
}

fn find_in(v: &Vec<String>, arg: &str) -> (r: bool)
    ensures
        r == strings_view(v@).contains(arg@),
{
    let a = owned(arg);
    let mut i: usize = 0;
    while i < v.len()
        invariant
            i <= v@.len(),
            a@ == arg@,
            forall|j: int| 0 <= j < i ==> v@[j]@ != arg@,
        decreases v.len() - i,
    {
        if v[i].eq(&a) {
            assert(strings_view(v@)[i as int] == arg@);
            return true;
        }
        i = i + 1;
    }
    assert forall|j: int| 0 <= j < strings_view(v@).len() implies strings_view(v@)[j] != arg@ by {
        assert(v@[j]@ != arg@);
    }
    false
}

} // verus!
