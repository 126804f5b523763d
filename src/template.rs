use vstd::prelude::*;
use crate::engine::{expr_result, ExprError, RbatisEngine};
use crate::text::{chars_of, nat_text, string_of, usize_text};
use crate::value::{get_key, text_form, values_view, Json, Value};

verus! {

/// The SQL dialects whose bind placeholders the library writes.
#[derive(PartialEq, Eq, Structural, Clone, Copy, Debug)]
pub enum DriverType {
    Mysql,
    Postgres,
    Sqlite,
    Mssql,
}

/// The placeholder text of the bind parameter at position `index` (counted from 0).
pub open spec fn placeholder_text(d: DriverType, index: nat) -> Seq<char> {
    match d {
        DriverType::Postgres => seq!['$'] + nat_text(index + 1),
        DriverType::Mssql => seq!['@', 'p'] + nat_text(index + 1),
        _ => seq!['?'],
    }
}

impl DriverType {
    /// The placeholder text of the bind parameter at position `index` (counted from 0):
    /// `?`, or `$1`, `$2`, ... for Postgres, or `@p1`, `@p2`, ... for SQL Server.
    pub fn stmt_convert(&self, index: usize) -> (r: String)
        requires
            index < usize::MAX,
        ensures
            r@ == placeholder_text(*self, index as nat),
    {
        match self {
            DriverType::Postgres => {
                let mut out = crate::text::owned("$");
                proof {
                    reveal_strlit("$");
                }
                let n = usize_text(index + 1);
                out.append(n.as_str());
                out
            },
            DriverType::Mssql => {
                let mut out = crate::text::owned("@p");
                proof {
                    reveal_strlit("@p");
                }
                let n = usize_text(index + 1);
                out.append(n.as_str());
                out
            },
            _ => {
                let out = crate::text::owned("?");
                proof {
                    reveal_strlit("?");
                }
                out
            },
        }
    }
}

/// The first position at or after `j` that holds `}`.
pub open spec fn close_at(s: Seq<char>, j: int) -> Option<int>
    decreases s.len() - j,
{
    if j >= s.len() {
        None
    } else if s[j] == '}' {
        Some(j)
    } else {
        close_at(s, j + 1)
    }
}

/// The placeholders of `s` from position `i` on, in order, each as (expression, marker): a
/// marker is `#{...}` or `${...}` up to the first `}`, and its expression is what stands between
/// the braces.
pub open spec fn scan(s: Seq<char>, i: int) -> Seq<(Seq<char>, Seq<char>)>
    decreases s.len() - i,
{
    if i < 0 || i + 1 >= s.len() {
        Seq::empty()
    } else if (s[i] == '#' || s[i] == '$') && s[i + 1] == '{' {
        match close_at(s, i + 2) {
            Some(j) => if i + 2 <= j < s.len() {
                seq![(s.subrange(i + 2, j), s.subrange(i, j + 1))] + scan(s, j + 1)
            } else {
                Seq::empty()
            },
            None => Seq::empty(),
        }
    } else {
        scan(s, i + 1)
    }
}

/// Whether `s`, scanned from position `i` as `scan` does, opens a marker that no `}` closes.
pub open spec fn open_marker(s: Seq<char>, i: int) -> bool
    decreases s.len() - i,
{
    if i < 0 || i + 1 >= s.len() {
        false
    } else if (s[i] == '#' || s[i] == '$') && s[i + 1] == '{' {
        match close_at(s, i + 2) {
            Some(j) => if i + 2 <= j < s.len() {
                open_marker(s, j + 1)
            } else {
                false
            },
            None => true,
        }
    } else {
        open_marker(s, i + 1)
    }
}

/// Whether the template `s` opens a marker that no `}` closes.
pub fn has_open_marker(s: &String) -> (r: bool)
    ensures
        r == open_marker(s@, 0),
{
    let cs = chars_of(s.as_str());
    let n = cs.len();
    let mut i: usize = 0;
    while n > 0 && i < n - 1
        invariant
            i <= n,
            n == cs@.len(),
            cs@ == s@,
            open_marker(s@, 0) == open_marker(s@, i as int),
        decreases n - i,
    {
        if (cs[i] == '#' || cs[i] == '$') && cs[i + 1] == '{' {
            let mut j: usize = i + 2;
            while j < n && cs[j] != '}'
                invariant
                    i + 2 <= j <= n,
                    n == cs@.len(),
                    cs@ == s@,
                    close_at(s@, i + 2) == close_at(s@, j as int),
                decreases n - j,
            {
                j = j + 1;
            }
            if j >= n {
                return true;
            }
            i = j + 1;
        } else {
            i = i + 1;
        }
    }
    false
}

/// `s` without repeats, each item where it first occurs.
pub open spec fn dedup(s: Seq<(Seq<char>, Seq<char>)>) -> Seq<(Seq<char>, Seq<char>)>
    decreases s.len(),
{
    if s.len() == 0 {
        Seq::empty()
    } else {
        let d = dedup(s.drop_last());
        if d.contains(s.last()) {
            d
        } else {
            d.push(s.last())
        }
    }
}

/// The distinct placeholders of the template `s`, in the order of their first occurrence.
pub open spec fn placeholders(s: Seq<char>) -> Seq<(Seq<char>, Seq<char>)> {
    dedup(scan(s, 0))
}

pub open spec fn pairs_view(v: Seq<(String, String)>) -> Seq<(Seq<char>, Seq<char>)> {
    v.map_values(|p: (String, String)| (p.0@, p.1@))
}

/// Whether `m` has the shape of a marker.
pub open spec fn marker_shape(p: (Seq<char>, Seq<char>)) -> bool {
    &&& p.1.len() >= 3
    &&& p.1[0] == '#' || p.1[0] == '$'
    &&& p.0 == p.1.subrange(2, p.1.len() - 1)
}

proof fn lemma_close_at(s: Seq<char>, j: int)
    requires
        0 <= j,
    ensures
        close_at(s, j) matches Some(k) ==> j <= k < s.len() && s[k] == '}',
    decreases s.len() - j,
{
    if j < s.len() && s[j] != '}' {
        lemma_close_at(s, j + 1);
    }
}

proof fn lemma_scan_shape(s: Seq<char>, i: int)
    ensures
        forall|k: int| 0 <= k < scan(s, i).len() ==> marker_shape(#[trigger] scan(s, i)[k]),
    decreases s.len() - i,
{
    if i < 0 || i + 1 >= s.len() {
    } else if (s[i] == '#' || s[i] == '$') && s[i + 1] == '{' {
        lemma_close_at(s, i + 2);
        match close_at(s, i + 2) {
            Some(j) => if i + 2 <= j < s.len() {
                lemma_scan_shape(s, j + 1);
                let head = (s.subrange(i + 2, j), s.subrange(i, j + 1));
                assert(scan(s, i) == seq![head] + scan(s, j + 1));
                assert(head.1.subrange(2, head.1.len() - 1) =~= head.0);
                assert forall|k: int| 0 <= k < scan(s, i).len() implies marker_shape(
                    #[trigger] scan(s, i)[k],
                ) by {
                    if k > 0 {
                        assert(scan(s, i)[k] == scan(s, j + 1)[k - 1]);
                    } else {
                        assert(scan(s, i)[0] == head);
                        assert(head.1[0] == s[i]);
                        assert(head.1.len() == j + 1 - i);
                    }
                }
            },
            None => {},
        }
    } else {
        lemma_scan_shape(s, i + 1);
        assert(scan(s, i) == scan(s, i + 1));
    }
}

proof fn lemma_dedup_subset(s: Seq<(Seq<char>, Seq<char>)>)
    ensures
        forall|k: int| 0 <= k < dedup(s).len() ==> s.contains(#[trigger] dedup(s)[k]),
    decreases s.len(),
{
    if s.len() > 0 {
        let d = dedup(s.drop_last());
        lemma_dedup_subset(s.drop_last());
        assert forall|k: int| 0 <= k < dedup(s).len() implies s.contains(#[trigger] dedup(s)[k]) by {
            if k < d.len() {
                let x = d[k];
                assert(s.drop_last().contains(x));
                let m = choose|m: int| 0 <= m < s.drop_last().len() && s.drop_last()[m] == x;
                assert(s[m] == x);
            } else {
                assert(s[s.len() - 1] == s.last());
            }
        }
    }
}

/// Every placeholder of a template has the shape of a marker.
pub proof fn lemma_placeholders_shape(s: Seq<char>)
    ensures
        forall|k: int| 0 <= k < placeholders(s).len() ==> marker_shape(#[trigger] placeholders(s)[k]),
{
    lemma_scan_shape(s, 0);
    lemma_dedup_subset(scan(s, 0));
    assert forall|k: int| 0 <= k < placeholders(s).len() implies marker_shape(
        #[trigger] placeholders(s)[k],
    ) by {
        let x = placeholders(s)[k];
        assert(scan(s, 0).contains(x));
        let m = choose|m: int| 0 <= m < scan(s, 0).len() && scan(s, 0)[m] == x;
        assert(marker_shape(scan(s, 0)[m]));
    }
}

fn copy_range(cs: &Vec<char>, a: usize, b: usize) -> (r: Vec<char>)
    requires
        a <= b <= cs@.len(),
    ensures
        r@ == cs@.subrange(a as int, b as int),
{
    let mut r: Vec<char> = Vec::new();
    let mut k: usize = a;
    while k < b
        invariant
            a <= k <= b <= cs@.len(),
            r@ == cs@.subrange(a as int, k as int),
        decreases b - k,
    {
        r.push(cs[k]);
        k = k + 1;
        assert(r@ =~= cs@.subrange(a as int, k as int));
    }
    r
}

fn contains_pair(v: &Vec<(String, String)>, p: &(String, String)) -> (r: bool)
    ensures
        r == pairs_view(v@).contains((p.0@, p.1@)),
{
    let mut i: usize = 0;
    while i < v.len()
        invariant
            i <= v@.len(),
            forall|j: int| 0 <= j < i ==> pairs_view(v@)[j] != (p.0@, p.1@),
        decreases v.len() - i,
    {
        if v[i].0.eq(&p.0) && v[i].1.eq(&p.1) {
            assert(pairs_view(v@)[i as int] == (p.0@, p.1@));
            return true;
        }
        i = i + 1;
    }
    false
}

/// The distinct placeholders of the template `s`, each as (expression, marker), in the order of
/// their first occurrence.
pub fn find_convert_string(s: &str) -> (r: Vec<(String, String)>)
    ensures
        pairs_view(r@) == placeholders(s@),
{
    let cs = chars_of(s);
    let n = cs.len();
    let mut found: Vec<(String, String)> = Vec::new();
    let mut i: usize = 0;
    assert(pairs_view(found@) + scan(s@, 0) =~= scan(s@, 0));
    while n > 0 && i < n - 1
        invariant
            i <= n,
            n == cs@.len(),
            cs@ == s@,
            pairs_view(found@) + scan(s@, i as int) == scan(s@, 0),
        decreases n - i,
    {
        if (cs[i] == '#' || cs[i] == '$') && cs[i + 1] == '{' {
            let mut j: usize = i + 2;
            while j < n && cs[j] != '}'
                invariant
                    i + 2 <= j <= n,
                    n == cs@.len(),
                    cs@ == s@,
                    close_at(s@, i + 2) == close_at(s@, j as int),
                decreases n - j,
            {
                j = j + 1;
            }
            if j >= n {
                assert(scan(s@, i as int) == Seq::<(Seq<char>, Seq<char>)>::empty());
                i = n;
                assert(scan(s@, i as int) == Seq::<(Seq<char>, Seq<char>)>::empty());
                assert(pairs_view(found@) + scan(s@, i as int) =~= scan(s@, 0));
            } else {
                let item = string_of(&copy_range(&cs, i + 2, j));
                let marker = string_of(&copy_range(&cs, i, j + 1));
                let ghost before = pairs_view(found@);
                found.push((item, marker));
                assert(pairs_view(found@) =~= before.push((s@.subrange(i + 2, j as int), s@.subrange(i as int, j + 1))));
                assert(pairs_view(found@) + scan(s@, j + 1) =~= before + scan(s@, i as int));
                i = j + 1;
            }
        } else {
            i = i + 1;
        }
    }
    assert(scan(s@, i as int) == Seq::<(Seq<char>, Seq<char>)>::empty());
    assert(pairs_view(found@) =~= scan(s@, 0));
    let mut out: Vec<(String, String)> = Vec::new();
    let ghost all = pairs_view(found@);
    let mut k: usize = 0;
    assert(all.take(0) =~= Seq::<(Seq<char>, Seq<char>)>::empty());
    assert(pairs_view(out@) =~= dedup(all.take(0)));
    while k < found.len()
        invariant
            k <= found@.len(),
            all == pairs_view(found@),
            pairs_view(out@) == dedup(all.take(k as int)),
        decreases found.len() - k,
    {
        assert(all.take(k as int + 1).drop_last() =~= all.take(k as int));
        assert(all.take(k as int + 1).last() == (found@[k as int].0@, found@[k as int].1@));
        if !contains_pair(&out, &found[k]) {
            let ghost before = pairs_view(out@);
            let p = (found[k].0.clone(), found[k].1.clone());
            out.push(p);
            assert(pairs_view(out@) =~= before.push((found@[k as int].0@, found@[k as int].1@)));
        }
        k = k + 1;
    }
    assert(all.take(k as int) =~= all);
    out
}

/// `s` with every occurrence of `from`, taken from the left without overlap, replaced by `to`.
pub open spec fn replace_all(s: Seq<char>, from: Seq<char>, to: Seq<char>) -> Seq<char>
    decreases s.len(),
{
    if s.len() == 0 || from.len() == 0 {
        s
    } else if from.len() <= s.len() && s.subrange(0, from.len() as int) == from {
        to + replace_all(s.subrange(from.len() as int, s.len() as int), from, to)
    } else {
        seq![s[0]] + replace_all(s.drop_first(), from, to)
    }
}

/// Relies on `str::replace`: every match of `from`, found from the left and without overlap,
/// replaced by `to`.
#[verifier::external_body]
fn replace_text(s: &String, from: &String, to: &String) -> (r: String)
    requires
        from@.len() > 0,
    ensures
        r@ == replace_all(s@, from@, to@),
{
    s.replace(from.as_str(), to.as_str())
}

/// Why a template could not be filled in.
#[derive(PartialEq, Eq, Structural, Clone, Copy, Debug)]
pub enum TemplateError {
    /// The expression of a placeholder failed.
    Expr(ExprError),
    /// A marker is opened and never closed.
    Unterminated,
}

/// The value of a bind placeholder: the environment's entry named by the expression text
/// itself, else the value of the expression.
pub open spec fn bind_value(item: Seq<char>, env: Json) -> Result<Json, ExprError> {
    match get_key(env, item) {
        Some(v) => Ok(v),
        None => expr_result(item, env),
    }
}

/// The SQL text and the bind values after the placeholders `entries`, one after the other, have
/// been applied to `text`, with `args` the bind values so far.
pub open spec fn render(
    entries: Seq<(Seq<char>, Seq<char>)>,
    text: Seq<char>,
    args: Seq<Json>,
    env: Json,
    d: DriverType,
) -> Result<(Seq<char>, Seq<Json>), TemplateError>
    decreases entries.len(),
{
    if entries.len() == 0 {
        Ok((text, args))
    } else {
        let item = entries[0].0;
        let marker = entries[0].1;
        let rest = entries.drop_first();
        if item.len() == 0 {
            render(rest, replace_all(text, marker, Seq::empty()), args, env, d)
        } else if marker[0] == '#' {
            match bind_value(item, env) {
                Err(e) => Err(TemplateError::Expr(e)),
                Ok(v) => render(
                    rest,
                    replace_all(text, marker, placeholder_text(d, args.len())),
                    args.push(v),
                    env,
                    d,
                ),
            }
        } else {
            match expr_result(item, env) {
                Err(e) => Err(TemplateError::Expr(e)),
                Ok(v) => render(rest, replace_all(text, marker, text_form(v)), args, env, d),
            }
        }
    }
}

/// A piece of SQL text with placeholders: `#{expr}` becomes a bind parameter, `${expr}` is
/// replaced by the text of its value.
#[derive(Debug, Clone)]
pub struct StringNode {
    pub value: String,
    /// The distinct placeholders, each as (expression, marker), in order of first occurrence.
    pub express_map: Vec<(String, String)>,
}

impl StringNode {
    pub open spec fn wf(&self) -> bool {
        pairs_view(self.express_map@) == placeholders(self.value@)
    }

    pub fn new(v: &str) -> (r: Self)
        ensures
            r.value@ == v@,
            r.wf(),
    {
        StringNode { value: crate::text::owned(v), express_map: find_convert_string(v) }
    }

    /// The template text.
    pub fn print(&self) -> (r: String)
        ensures
            r@ == self.value@,
    {
        self.value.clone()
    }

    /// Fills in the template against `env`: each bind placeholder becomes the dialect's
    /// placeholder text and adds its value to `arg_array`; each inline placeholder becomes the
    /// text of its value. A template that opens a marker and never closes it is refused. On an
    /// error nothing is added to `arg_array`.
    pub fn eval(
        &self,
        convert: &DriverType,
        env: &Value,
        engine: &mut RbatisEngine,
        arg_array: &mut Vec<Value>,
    ) -> (r: Result<String, TemplateError>)
        requires
            self.wf(),
            old(engine).wf(),
            old(arg_array)@.len() + self.express_map@.len() < usize::MAX,
        ensures
            final(engine).wf(),
            open_marker(self.value@, 0) ==> r == Err::<String, TemplateError>(
                TemplateError::Unterminated,
            ) && final(arg_array)@ == old(arg_array)@,
            !open_marker(self.value@, 0) ==> match render(
                placeholders(self.value@),
                self.value@,
                values_view(old(arg_array)@),
                env.view_json(),
                *convert,
            ) {
                Ok((t, args)) => r is Ok && r->Ok_0@ == t && values_view(final(arg_array)@) == args,
                Err(e) => r == Err::<String, TemplateError>(e) && final(arg_array)@ == old(arg_array)@,
            },
    {
        if has_open_marker(&self.value) {
            return Err(TemplateError::Unterminated);
        }
        let ghost entries = placeholders(self.value@);
        let ghost envj = env.view_json();
        let ghost args0 = values_view(arg_array@);
        proof {
            lemma_placeholders_shape(self.value@);
        }
        let mut result = self.value.clone();
        let mut binds: Vec<Value> = Vec::new();
        let mut k: usize = 0;
        assert(entries.skip(0) =~= entries);
        assert(args0 + values_view(binds@) =~= args0);
        while k < self.express_map.len()
            invariant
                self.wf(),
                !open_marker(self.value@, 0),
                entries == placeholders(self.value@),
                pairs_view(self.express_map@) == entries,
                forall|j: int| 0 <= j < entries.len() ==> marker_shape(#[trigger] entries[j]),
                k <= self.express_map@.len(),
                binds@.len() <= k,
                arg_array@.len() + self.express_map@.len() < usize::MAX,
                args0 == values_view(arg_array@),
                envj == env.view_json(),
                engine.wf(),
                render(entries, self.value@, args0, envj, *convert) == render(
                    entries.skip(k as int),
                    result@,
                    args0 + values_view(binds@),
                    envj,
                    *convert,
                ),
            decreases self.express_map.len() - k,
        {
            let ghost e = entries.skip(k as int);
            assert(e[0] == entries[k as int]);
            assert(e.drop_first() =~= entries.skip(k as int + 1));
            assert(entries[k as int] == (self.express_map@[k as int].0@, self.express_map@[k as int].1@));
            let item = &self.express_map[k].0;
            let marker = &self.express_map[k].1;
            assert(marker_shape(entries[k as int]));
            if item.as_str().unicode_len() == 0 {
                let empty = String::new();
                result = replace_text(&result, marker, &empty);
            } else if chars_of(marker.as_str())[0] == '#' {
                let index = arg_array.len() + binds.len();
                let ghost all = args0 + values_view(binds@);
                assert(all.len() == index);
                let ph = convert.stmt_convert(index);
                let v = match env.get(item) {
                    Some(found) => found.deep_clone(),
                    None => match engine.eval(item.as_str(), env) {
                        Ok(x) => x,
                        Err(err) => {
                            return Err(TemplateError::Expr(err));
                        },
                    },
                };
                result = replace_text(&result, marker, &ph);
                let ghost vj = v.view_json();
                binds.push(v);
                assert(args0 + values_view(binds@) =~= all.push(vj));
            } else {
                let v = match engine.eval(item.as_str(), env) {
                    Ok(x) => x,
                    Err(err) => {
                        return Err(TemplateError::Expr(err));
                    },
                };
                let t = v.text_form();
                result = replace_text(&result, marker, &t);
            }
            k = k + 1;
        }
        assert(entries.skip(k as int).len() == 0);
        let mut j: usize = 0;
        while j < binds.len()
            invariant
                j <= binds@.len(),
                values_view(arg_array@) == args0 + values_view(binds@).take(j as int),
            decreases binds.len() - j,
        {
            let ghost before = values_view(arg_array@);
            arg_array.push(binds[j].deep_clone());
            assert(values_view(binds@).take(j as int + 1) =~= values_view(binds@).take(j as int).push(binds@[j as int].view_json()));
            assert(values_view(arg_array@) =~= before.push(binds@[j as int].view_json()));
            j = j + 1;
        }
        assert(values_view(binds@).take(j as int) =~= values_view(binds@));
        Ok(result)
    }
}

} // verus!
