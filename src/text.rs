use vstd::prelude::*;

verus! {

/// Relies on `str::chars` collected into a `Vec`: the characters of `s`, in order.
#[verifier::external_body]
pub(crate) fn chars_of(s: &str) -> (r: Vec<char>)
    ensures
        r@ == s@,
{
    s.chars().collect()
}

/// Relies on collecting an iterator of `char` into a `String`: the same characters, in order.
#[verifier::external_body]
pub(crate) fn string_of(v: &Vec<char>) -> (r: String)
    ensures
        r@ == v@,
{
    v.iter().collect()
}

/// An owned copy of `s`.
pub(crate) fn owned(s: &str) -> (r: String)
    ensures
        r@ == s@,
{
    <String as vstd::string::StringExecFns>::from_str(s)
}

/// The characters with the Unicode `White_Space` property.
pub open spec fn is_ws(c: char) -> bool {
    ('\u{9}' <= c && c <= '\u{d}') || c == ' ' || c == '\u{85}' || c == '\u{a0}' || c == '\u{1680}'
        || ('\u{2000}' <= c && c <= '\u{200a}') || c == '\u{2028}' || c == '\u{2029}' || c
        == '\u{202f}' || c == '\u{205f}' || c == '\u{3000}'
}

/// Whether `c` is white space in Unicode's sense.
pub fn is_whitespace(c: char) -> (r: bool)
    ensures
        r == is_ws(c),
{
    ('\u{9}' <= c && c <= '\u{d}') || c == ' ' || c == '\u{85}' || c == '\u{a0}' || c == '\u{1680}'
        || ('\u{2000}' <= c && c <= '\u{200a}') || c == '\u{2028}' || c == '\u{2029}' || c
        == '\u{202f}' || c == '\u{205f}' || c == '\u{3000}'
}

/// The index of the first non-space character of `s` at or after `i` (`s.len()` if none).
pub open spec fn first_non_ws(s: Seq<char>, i: int) -> int
    decreases s.len() - i,
{
    if i >= s.len() {
        s.len() as int
    } else if !is_ws(s[i]) {
        i
    } else {
        first_non_ws(s, i + 1)
    }
}

/// One past the last non-space character of `s` before `j` (0 if none).
pub open spec fn end_non_ws(s: Seq<char>, j: int) -> int
    decreases j,
{
    if j <= 0 {
        0
    } else if !is_ws(s[j - 1]) {
        j
    } else {
        end_non_ws(s, j - 1)
    }
}

/// `s` without its leading and trailing white space.
pub open spec fn trim(s: Seq<char>) -> Seq<char> {
    let a = first_non_ws(s, 0);
    if a >= s.len() {
        Seq::empty()
    } else {
        s.subrange(a, end_non_ws(s, s.len() as int))
    }
}

proof fn lemma_first_non_ws(s: Seq<char>, i: int)
    requires
        0 <= i <= s.len(),
    ensures
        i <= first_non_ws(s, i) <= s.len(),
        first_non_ws(s, i) < s.len() ==> !is_ws(s[first_non_ws(s, i)]),
    decreases s.len() - i,
{
    if i < s.len() && is_ws(s[i]) {
        lemma_first_non_ws(s, i + 1);
    }
}

/// `s` without its leading and trailing white space.
pub fn trim_chars(s: &Vec<char>) -> (r: Vec<char>)
    ensures
        r@ == trim(s@),
        r@.len() > 0 ==> !is_ws(r@[0]) && !is_ws(r@.last()),
{
    let mut a: usize = 0;
    while a < s.len() && is_whitespace(s[a])
        invariant
            a <= s.len(),
            first_non_ws(s@, 0) == first_non_ws(s@, a as int),
        decreases s.len() - a,
    {
        a = a + 1;
    }
    proof {
        lemma_first_non_ws(s@, 0);
    }
    if a >= s.len() {
        return Vec::new();
    }
    let mut b: usize = s.len();
    while is_whitespace(s[b - 1])
        invariant
            a < b <= s.len(),
            !is_ws(s@[a as int]),
            end_non_ws(s@, s@.len() as int) == end_non_ws(s@, b as int),
        decreases b,
    {
        b = b - 1;
    }
    let mut r: Vec<char> = Vec::new();
    let mut k: usize = a;
    while k < b
        invariant
            a <= k <= b <= s.len(),
            r@ == s@.subrange(a as int, k as int),
        decreases b - k,
    {
        r.push(s[k]);
        k = k + 1;
        assert(r@ =~= s@.subrange(a as int, k as int));
    }
    r
}

/// The decimal digit character of `d`.
pub open spec fn digit_char(d: nat) -> char {
    if d == 0 { '0' } else if d == 1 { '1' } else if d == 2 { '2' } else if d == 3 { '3' }
    else if d == 4 { '4' } else if d == 5 { '5' } else if d == 6 { '6' } else if d == 7 { '7' }
    else if d == 8 { '8' } else { '9' }
}

/// The decimal text of `n`, without leading zeros.
pub open spec fn nat_text(n: nat) -> Seq<char>
    decreases n,
{
    if n < 10 {
        seq![digit_char(n)]
    } else {
        nat_text(n / 10).push(digit_char(n % 10))
    }
}

/// The decimal text of `n`, with a leading `-` when negative.
pub open spec fn int_text(n: int) -> Seq<char> {
    if n < 0 {
        seq!['-'] + nat_text((-n) as nat)
    } else {
        nat_text(n as nat)
    }
}

fn digit(d: u64) -> (c: char)
    requires
        d < 10,
    ensures
        c == digit_char(d as nat),
{
    if d == 0 { '0' } else if d == 1 { '1' } else if d == 2 { '2' } else if d == 3 { '3' }
    else if d == 4 { '4' } else if d == 5 { '5' } else if d == 6 { '6' } else if d == 7 { '7' }
    else if d == 8 { '8' } else { '9' }
}

/// Appends the decimal text of `n` to `out`.
fn push_nat_text(out: &mut Vec<char>, n: u64)
    ensures
        final(out)@ == old(out)@ + nat_text(n as nat),
    decreases n,
{
    if n < 10 {
        out.push(digit(n));
    } else {
        push_nat_text(out, n / 10);
        out.push(digit(n % 10));
    }
    assert(final(out)@ =~= old(out)@ + nat_text(n as nat));
}

/// The decimal text of `n`.
pub fn usize_text(n: usize) -> (r: String)
    ensures
        r@ == nat_text(n as nat),
{
    let mut out: Vec<char> = Vec::new();
    push_nat_text(&mut out, n as u64);
    assert(out@ =~= nat_text(n as nat));
    string_of(&out)
}

/// The decimal text of `n`, with a leading `-` when negative.
pub fn i64_text(n: i64) -> (r: String)
    ensures
        r@ == int_text(n as int),
{
    let mut out: Vec<char> = Vec::new();
    if n < 0 {
        out.push('-');
        let m: u64 = if n == i64::MIN { 9223372036854775808u64 } else { (-n) as u64 };
        push_nat_text(&mut out, m);
    } else {
        push_nat_text(&mut out, n as u64);
    }
    assert(out@ =~= int_text(n as int));
    string_of(&out)
}

} // verus!
