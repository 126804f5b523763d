use vstd::prelude::*;
use crate::text::{digit_char, int_text, nat_text};
use crate::value::{entries_view, values_view, Json, Value};

verus! {

/// A hexadecimal digit, in lower case.
pub open spec fn hex_char(d: nat) -> char {
    if d < 10 {
        digit_char(d)
    } else if d == 10 {
        'a'
    } else if d == 11 {
        'b'
    } else if d == 12 {
        'c'
    } else if d == 13 {
        'd'
    } else if d == 14 {
        'e'
    } else {
        'f'
    }
}

/// How the character `c` is written inside a JSON string literal.
pub open spec fn escape_char(c: char) -> Seq<char> {
    if c == '"' {
        seq!['\\', '"']
    } else if c == '\\' {
        seq!['\\', '\\']
    } else if c == '\n' {
        seq!['\\', 'n']
    } else if c == '\r' {
        seq!['\\', 'r']
    } else if c == '\t' {
        seq!['\\', 't']
    } else if c == '\u{8}' {
        seq!['\\', 'b']
    } else if c == '\u{c}' {
        seq!['\\', 'f']
    } else if (c as u32) < 0x20 {
        seq!['\\', 'u', '0', '0', hex_char((c as u32 / 16) as nat), hex_char((c as u32 % 16) as nat)]
    } else {
        seq![c]
    }
}

/// `s` with each character escaped for a JSON string literal.
pub open spec fn escaped(s: Seq<char>) -> Seq<char>
    decreases s.len(),
{
    if s.len() == 0 {
        Seq::empty()
    } else {
        escaped(s.drop_last()) + escape_char(s.last())
    }
}

/// `s` as a JSON string literal.
pub open spec fn quoted(s: Seq<char>) -> Seq<char> {
    seq!['"'] + escaped(s) + seq!['"']
}

/// The compact JSON text of `v`: no white space, object entries in their order.
pub open spec fn json_text(v: Json) -> Seq<char>
    decreases v,
{
    match v {
        Json::Null => seq!['n', 'u', 'l', 'l'],
        Json::Bool(b) => if b {
            seq!['t', 'r', 'u', 'e']
        } else {
            seq!['f', 'a', 'l', 's', 'e']
        },
        Json::Num(n) => int_text(n),
        Json::Str(s) => quoted(s),
        Json::Arr(items) => seq!['['] + items_text(items) + seq![']'],
        Json::Obj(entries) => seq!['{'] + entries_text(entries) + seq!['}'],
    }
}

/// The JSON texts of `items`, separated by commas.
pub open spec fn items_text(items: Seq<Json>) -> Seq<char>
    decreases items,
{
    if items.len() == 0 {
        Seq::empty()
    } else {
        let n = items.len() - 1;
        let last = json_text(items[n]);
        if n == 0 {
            last
        } else {
            items_text(items.subrange(0, n)) + seq![','] + last
        }
    }
}

/// The JSON texts of `entries` as `"key":value`, separated by commas.
pub open spec fn entries_text(entries: Seq<(Seq<char>, Json)>) -> Seq<char>
    decreases entries,
{
    if entries.len() == 0 {
        Seq::empty()
    } else {
        let n = entries.len() - 1;
        let last = quoted(entries[n].0) + seq![':'] + json_text(entries[n].1);
        if n == 0 {
            last
        } else {
            entries_text(entries.subrange(0, n)) + seq![','] + last
        }
    }
}

fn hex(d: u32) -> (c: char)
    requires
        d < 16,
    ensures
        c == hex_char(d as nat),
{
    if d == 0 { '0' } else if d == 1 { '1' } else if d == 2 { '2' } else if d == 3 { '3' }
    else if d == 4 { '4' } else if d == 5 { '5' } else if d == 6 { '6' } else if d == 7 { '7' }
    else if d == 8 { '8' } else if d == 9 { '9' } else if d == 10 { 'a' } else if d == 11 { 'b' }
    else if d == 12 { 'c' } else if d == 13 { 'd' } else if d == 14 { 'e' } else { 'f' }
}

fn push_all(out: &mut Vec<char>, cs: Vec<char>)
    ensures
        final(out)@ == old(out)@ + cs@,
{
    let mut i: usize = 0;
    while i < cs.len()
        invariant
            i <= cs@.len(),
            out@ == old(out)@ + cs@.take(i as int),
        decreases cs.len() - i,
    {
        out.push(cs[i]);
        i = i + 1;
        assert(out@ =~= old(out)@ + cs@.take(i as int));
    }
    assert(cs@.take(i as int) =~= cs@);
}

fn push_escape_char(out: &mut Vec<char>, c: char)
    ensures
        final(out)@ == old(out)@ + escape_char(c),
{
    let cs: Vec<char> = if c == '"' {
        vec!['\\', '"']
    } else if c == '\\' {
        vec!['\\', '\\']
    } else if c == '\n' {
        vec!['\\', 'n']
    } else if c == '\r' {
        vec!['\\', 'r']
    } else if c == '\t' {
        vec!['\\', 't']
    } else if c == '\u{8}' {
        vec!['\\', 'b']
    } else if c == '\u{c}' {
        vec!['\\', 'f']
    } else if (c as u32) < 0x20 {
        vec!['\\', 'u', '0', '0', hex(c as u32 / 16), hex(c as u32 % 16)]
    } else {
        vec![c]
    };
    assert(cs@ =~= escape_char(c));
    push_all(out, cs);
}

/// Appends `s` as a JSON string literal to `out`.
fn push_quoted(out: &mut Vec<char>, s: &Vec<char>)
    ensures
        final(out)@ == old(out)@ + quoted(s@),
{
    out.push('"');
    let ghost start = out@;
    let mut i: usize = 0;
    assert(s@.take(0) =~= Seq::<char>::empty());
    assert(out@ =~= start + escaped(s@.take(0)));
    while i < s.len()
        invariant
            i <= s@.len(),
            start == old(out)@.push('"'),
            out@ == start + escaped(s@.take(i as int)),
        decreases s.len() - i,
    {
        assert(s@.take(i as int + 1).drop_last() =~= s@.take(i as int));
        push_escape_char(out, s[i]);
        i = i + 1;
        assert(out@ =~= start + escaped(s@.take(i as int)));
    }
    assert(s@.take(i as int) =~= s@);
    out.push('"');
    assert(out@ =~= old(out)@ + quoted(s@));
}

/// Appends the compact JSON text of `v` to `out`.
pub fn push_json(out: &mut Vec<char>, v: &Value)
    ensures
        final(out)@ == old(out)@ + json_text(v.view_json()),
    decreases v,
{
    match v {
        Value::Null => {
            push_all(out, vec!['n', 'u', 'l', 'l']);
            assert(json_text(v.view_json()) =~= seq!['n', 'u', 'l', 'l']);
        },
        Value::Bool(b) => {
            if *b {
                push_all(out, vec!['t', 'r', 'u', 'e']);
            } else {
                push_all(out, vec!['f', 'a', 'l', 's', 'e']);
            }
            assert(final(out)@ =~= old(out)@ + json_text(v.view_json()));
        },
        Value::Number(n) => {
            let t = crate::text::i64_text(*n);
            push_all(out, crate::text::chars_of(t.as_str()));
        },
        Value::Str(s) => {
            push_quoted(out, &crate::text::chars_of(s.as_str()));
        },
        Value::Array(items) => {
            out.push('[');
            let ghost start = out@;
            let ghost all = values_view(items@);
            let mut i: usize = 0;
            assert(all.subrange(0, 0) =~= Seq::<Json>::empty());
            assert(out@ =~= start + items_text(all.subrange(0, 0)));
            while i < items.len()
                invariant
                    i <= items@.len(),
                    *v == Value::Array(*items),
                    all == values_view(items@),
                    start == old(out)@.push('['),
                    out@ == start + items_text(all.subrange(0, i as int)),
                decreases items.len() - i,
            {
                proof {
                    broadcast use vstd::std_specs::vec::axiom_vec_index_decreases;
                    assert(decreases_to!(*v => (*v)->Array_0));
                    assert(decreases_to!(*items => items[i as int]));
                }
                let ghost pre = all.subrange(0, i as int + 1);
                assert(pre.subrange(0, i as int) =~= all.subrange(0, i as int));
                assert(pre[i as int] == items@[i as int].view_json());
                if i > 0 {
                    out.push(',');
                }
                push_json(out, &items[i]);
                i = i + 1;
                assert(out@ =~= start + items_text(all.subrange(0, i as int)));
            }
            assert(all.subrange(0, i as int) =~= all);
            out.push(']');
            assert(final(out)@ =~= old(out)@ + json_text(v.view_json()));
        },
        Value::Object(entries) => {
            out.push('{');
            let ghost start = out@;
            let ghost all = entries_view(entries@);
            let mut i: usize = 0;
            assert(all.subrange(0, 0) =~= Seq::<(Seq<char>, Json)>::empty());
            assert(out@ =~= start + entries_text(all.subrange(0, 0)));
            while i < entries.len()
                invariant
                    i <= entries@.len(),
                    *v == Value::Object(*entries),
                    all == entries_view(entries@),
                    start == old(out)@.push('{'),
                    out@ == start + entries_text(all.subrange(0, i as int)),
                decreases entries.len() - i,
            {
                proof {
                    broadcast use vstd::std_specs::vec::axiom_vec_index_decreases;
                    assert(decreases_to!(*v => (*v)->Object_0));
                    assert(decreases_to!(*entries => entries[i as int]));
                    assert(decreases_to!(entries[i as int] => entries[i as int].1));
                }
                let ghost pre = all.subrange(0, i as int + 1);
                assert(pre.subrange(0, i as int) =~= all.subrange(0, i as int));
                assert(pre[i as int] == (entries@[i as int].0@, entries@[i as int].1.view_json()));
                if i > 0 {
                    out.push(',');
                }
                push_quoted(out, &crate::text::chars_of(entries[i].0.as_str()));
                out.push(':');
                push_json(out, &entries[i].1);
                i = i + 1;
                assert(out@ =~= start + entries_text(all.subrange(0, i as int)));
            }
            assert(all.subrange(0, i as int) =~= all);
            out.push('}');
            assert(final(out)@ =~= old(out)@ + json_text(v.view_json()));
        },
    }
}

} // verus!
