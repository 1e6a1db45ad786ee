//! The System One request shape: questions, their rendered options, and the token
//! sequence each question is scored from.
use crate::text::str_eq;
use crate::tokenizer::unicode::{push_char, to_chars};
use crate::tokenizer::{encode_spec, Tokenizer};
use vstd::prelude::*;

verus! {

/// A JSON value as the request logic reads it; a number is held by its text, objects keep
/// their entries in order.
pub enum Json {
    Null,
    Bool(bool),
    Number(String),
    Str(String),
    Array(Vec<Json>),
    Object(Vec<(String, Json)>),
}

/// How a value prints in Python: strings bare, `None`, `True`/`False`, lists in brackets and
/// dicts in braces with quoted keys, items separated by ", ".
pub open spec fn py_repr(v: Json) -> Seq<char>
    decreases v, 0nat,
{
    match v {
        Json::Null => "None"@,
        Json::Bool(b) => if b {
            "True"@
        } else {
            "False"@
        },
        Json::Number(n) => n@,
        Json::Str(s) => s@,
        Json::Array(a) => "["@ + py_list(a@) + "]"@,
        Json::Object(m) => "{"@ + py_entries(m@) + "}"@,
    }
}

/// The items of a list, each as Python prints it, separated by ", ".
pub open spec fn py_list(a: Seq<Json>) -> Seq<char>
    decreases a, 1nat,
{
    if a.len() == 0 {
        Seq::empty()
    } else if a.len() == 1 {
        py_repr(a[0])
    } else {
        py_list(a.subrange(0, a.len() - 1)) + ", "@ + py_repr(a[a.len() - 1])
    }
}

/// The entries of a dict as Python prints them: `'key': value`, separated by ", ".
pub open spec fn py_entries(m: Seq<(String, Json)>) -> Seq<char>
    decreases m, 1nat,
{
    if m.len() == 0 {
        Seq::empty()
    } else if m.len() == 1 {
        "'"@ + m[0].0@ + "': "@ + py_repr(m[0].1)
    } else {
        py_entries(m.subrange(0, m.len() - 1)) + ", "@ + "'"@ + m[m.len() - 1].0@ + "': "@ + py_repr(m[m.len() - 1].1)
    }
}

/// Renders a value as Python prints it.
pub fn py_str(v: &Json) -> (r: String)
    ensures
        r@ == py_repr(*v),
    decreases *v, 0nat,
{
    match v {
        Json::Null => "None".to_owned(),
        Json::Bool(b) => if *b {
            "True".to_owned()
        } else {
            "False".to_owned()
        },
        Json::Number(n) => n.clone(),
        Json::Str(s) => s.clone(),
        Json::Array(a) => {
            let mut r = "[".to_owned();
            let body = py_list_str(a, a.len());
            assert(a@.subrange(0, a@.len() as int) == a@);
            r.append(body.as_str());
            r.append("]");
            r
        },
        Json::Object(m) => {
            let mut r = "{".to_owned();
            let body = py_entries_str(m, m.len());
            assert(m@.subrange(0, m@.len() as int) == m@);
            r.append(body.as_str());
            r.append("}");
            r
        },
    }
}

/// The first `n` items of a list, rendered and separated by ", ".
fn py_list_str(a: &Vec<Json>, n: usize) -> (r: String)
    requires
        n <= a@.len(),
    ensures
        r@ == py_list(a@.subrange(0, n as int)),
    decreases a@, 1nat, n,
{
    let ghost s = a@.subrange(0, n as int);
    if n == 0 {
        String::new()
    } else if n == 1 {
        assert(s[0] == a@[0]);
        py_str(&a[0])
    } else {
        assert(s.subrange(0, n - 1) == a@.subrange(0, n - 1));
        assert(s[n - 1] == a@[n - 1]);
        let mut r = py_list_str(a, n - 1);
        r.append(", ");
        let last = py_str(&a[n - 1]);
        r.append(last.as_str());
        r
    }
}

/// The first `n` entries of a dict, rendered and separated by ", ".
fn py_entries_str(m: &Vec<(String, Json)>, n: usize) -> (r: String)
    requires
        n <= m@.len(),
    ensures
        r@ == py_entries(m@.subrange(0, n as int)),
    decreases m@, 1nat, n,
{
    let ghost s = m@.subrange(0, n as int);
    if n == 0 {
        String::new()
    } else {
        assert(s.subrange(0, n - 1) == m@.subrange(0, n - 1));
        assert(s[n - 1] == m@[n - 1]);
        let mut r = if n == 1 {
            String::new()
        } else {
            let mut p = py_entries_str(m, n - 1);
            p.append(", ");
            p
        };
        r.append("'");
        r.append(m[n - 1].0.as_str());
        r.append("': ");
        let v = py_str(&m[n - 1].1);
        r.append(v.as_str());
        r
    }
}

/// The question type number of a type name: choice 0, score 1, anything else 2.
pub open spec fn qtype_spec(t: Seq<char>) -> i64 {
    if t == "choice"@ {
        0
    } else if t == "score"@ {
        1
    } else {
        2
    }
}

pub fn qtype_of(t: &str) -> (r: i64)
    ensures
        r == qtype_spec(t@),
{
    if str_eq(t, "choice") {
        0
    } else if str_eq(t, "score") {
        1
    } else {
        2
    }
}

/// The type name of a question type number: 0 choice, 1 score, anything else noul.
pub open spec fn qname_spec(q: i64) -> Seq<char> {
    if q == 0 {
        "choice"@
    } else if q == 1 {
        "score"@
    } else {
        "noul"@
    }
}

pub fn qname(q: i64) -> (r: &'static str)
    ensures
        r@ == qname_spec(q),
{
    if q == 0 {
        "choice"
    } else if q == 1 {
        "score"
    } else {
        "noul"
    }
}

/// The decimal digits of `n`.
pub open spec fn decimal(n: nat) -> Seq<char>
    decreases n,
{
    if n < 10 {
        seq![(48 + n) as char]
    } else {
        decimal(n / 10).push((48 + n % 10) as char)
    }
}

fn digit(d: u64) -> (c: char)
    requires
        d < 10,
    ensures
        c == (48 + d) as char,
{
    match d {
        0 => '0',
        1 => '1',
        2 => '2',
        3 => '3',
        4 => '4',
        5 => '5',
        6 => '6',
        7 => '7',
        8 => '8',
        _ => '9',
    }
}

/// `n` written in decimal.
pub fn decimal_str(n: u64) -> (r: String)
    ensures
        r@ == decimal(n as nat),
    decreases n,
{
    if n < 10 {
        let mut r = String::new();
        push_char(&mut r, digit(n));
        r
    } else {
        let mut r = decimal_str(n / 10);
        push_char(&mut r, digit(n % 10));
        r
    }
}

/// `s` with each occurrence of `pat` replaced by `rep`, matching from the left without
/// overlaps.
pub open spec fn replaced(s: Seq<char>, pat: Seq<char>, rep: Seq<char>) -> Seq<char>
    decreases s.len(),
{
    if s.len() == 0 || pat.len() == 0 {
        s
    } else if pat.len() <= s.len() && s.subrange(0, pat.len() as int) == pat {
        rep + replaced(s.subrange(pat.len() as int, s.len() as int), pat, rep)
    } else {
        seq![s[0]] + replaced(s.subrange(1, s.len() as int), pat, rep)
    }
}

/// Replaces every occurrence of a non-empty pattern, as `str::replace` does.
pub fn replace(s: &str, pat: &str, rep: &str) -> (r: String)
    requires
        pat@.len() > 0,
    ensures
        r@ == replaced(s@, pat@, rep@),
{
    let ch = to_chars(s);
    let p = to_chars(pat);
    let n = ch.len();
    let m = p.len();
    let mut out = String::new();
    let mut i: usize = 0;
    assert(ch@.subrange(0, n as int) == ch@);
    while i < n
        invariant
            i <= n == ch@.len(),
            m == p@.len() > 0,
            ch@ == s@,
            p@ == pat@,
            out@ + replaced(ch@.subrange(i as int, n as int), p@, rep@) == replaced(s@, pat@, rep@),
        decreases n - i,
    {
        let ghost rest = ch@.subrange(i as int, n as int);
        let mut hit = m <= n - i;
        let mut x: usize = 0;
        while hit && x < m
            invariant
                x <= m == p@.len(),
                i < n == ch@.len(),
                hit ==> i + m <= n,
                hit ==> forall|y: int| 0 <= y < x ==> ch@[i + y] == p@[y],
                !hit ==> !(m <= rest.len() && rest.subrange(0, m as int) == p@),
                rest == ch@.subrange(i as int, n as int),
            decreases m - x + if hit {
                1int
            } else {
                0int
            },
        {
            if ch[i + x] != p[x] {
                assert(rest.subrange(0, m as int)[x as int] == ch@[i + x]);
                hit = false;
            } else {
                x = x + 1;
            }
        }
        if hit {
            assert(rest.subrange(0, m as int) =~= p@);
            assert(rest.subrange(m as int, rest.len() as int) == ch@.subrange(i + m, n as int));
            out.append(rep);
            i = i + m;
        } else {
            assert(rest.subrange(1, rest.len() as int) == ch@.subrange(i + 1, n as int));
            push_char(&mut out, ch[i]);
            i = i + 1;
        }
    }
    out
}

/// One question of a request.
pub struct Question {
    pub id: String,
    pub ty: String,
    pub qtype: i64,
    pub instructions: String,
    pub crit: Json,
}

/// The value of the first entry with key `k`.
pub open spec fn obj_get(m: Seq<(String, Json)>, k: Seq<char>) -> Option<Json>
    decreases m.len(),
{
    if m.len() == 0 {
        None
    } else if m[0].0@ == k {
        Some(m[0].1)
    } else {
        obj_get(m.subrange(1, m.len() as int), k)
    }
}

/// What a noul question says for `k`: the criterion's text when it gives a non-null one,
/// else the default `d`.
pub open spec fn noul_text(crit: Json, k: Seq<char>, d: Seq<char>) -> Seq<char> {
    match crit {
        Json::Object(m) => match obj_get(m@, k) {
            Some(v) => if v is Null {
                d
            } else {
                py_repr(v)
            },
            None => d,
        },
        _ => d,
    }
}

/// One choice option: its name, and its description after ": " when it has one.
pub open spec fn choice_option(e: (String, Json)) -> Seq<char> {
    if e.1 is Null {
        e.0@
    } else {
        e.0@ + ": "@ + py_repr(e.1)
    }
}

/// The options a question is scored over, as text: a choice's criteria entries, a score's
/// levels numbered from 0, and a noul's false and true readings.
pub open spec fn options_spec(ty: Seq<char>, crit: Json) -> Seq<Seq<char>> {
    if ty == "choice"@ {
        match crit {
            Json::Object(m) => m@.map_values(|e: (String, Json)| choice_option(e)),
            _ => Seq::empty(),
        }
    } else if ty == "score"@ {
        match crit {
            Json::Array(a) => Seq::new(a@.len(), |i: int| "level "@ + decimal(i as nat) + ": "@ + py_repr(a@[i])),
            _ => Seq::empty(),
        }
    } else {
        seq![
            "false: "@ + noul_text(crit, "false"@, "no, the statement does not hold"@),
            "true: "@ + noul_text(crit, "true"@, "yes, the statement holds"@),
        ]
    }
}

pub open spec fn string_views(v: Seq<String>) -> Seq<Seq<char>> {
    v.map_values(|s: String| s@)
}

proof fn lemma_string_views_push(v: Seq<String>, s: String)
    ensures
        string_views(v.push(s)) == string_views(v).push(s@),
{
    assert(string_views(v.push(s)) =~= string_views(v).push(s@));
}

/// The text for key `k` of a noul question's criteria, or the default.
fn noul_str(crit: &Json, k: &str, d: &str) -> (r: String)
    ensures
        r@ == noul_text(*crit, k@, d@),
{
    match crit {
        Json::Object(m) => {
            let mut i: usize = 0;
            assert(m@.subrange(0, m@.len() as int) == m@);
            while i < m.len()
                invariant
                    i <= m@.len(),
                    *crit == Json::Object(*m),
                    obj_get(m@, k@) == obj_get(m@.subrange(i as int, m@.len() as int), k@),
                decreases m.len() - i,
            {
                let ghost rest = m@.subrange(i as int, m@.len() as int);
                assert(rest[0] == m@[i as int]);
                assert(rest.subrange(1, rest.len() as int) == m@.subrange(i + 1, m@.len() as int));
                if str_eq(m[i].0.as_str(), k) {
                    assert(obj_get(m@, k@) == Some(m@[i as int].1));
                    let val = &m[i].1;
                    let r = match val {
                        Json::Null => d.to_owned(),
                        _ => py_str(val),
                    };
                    assert(r@ == noul_text(*crit, k@, d@));
                    return r;
                }
                i = i + 1;
            }
            d.to_owned()
        },
        _ => d.to_owned(),
    }
}

/// The option names of a choice question's criteria, in order; none for other criteria.
pub fn option_keys(crit: &Json) -> (r: Vec<String>)
    ensures
        string_views(r@) == (match crit {
            Json::Object(m) => m@.map_values(|e: (String, Json)| e.0@),
            _ => Seq::empty(),
        }),
{
    let mut out: Vec<String> = Vec::new();
    match crit {
        Json::Object(m) => {
            let mut i: usize = 0;
            while i < m.len()
                invariant
                    i <= m@.len(),
                    string_views(out@) == m@.take(i as int).map_values(|e: (String, Json)| e.0@),
                decreases m.len() - i,
            {
                let k = m[i].0.clone();
                proof {
                    lemma_string_views_push(out@, k);
                    assert(m@.take(i + 1).map_values(|e: (String, Json)| e.0@) =~= m@.take(i as int).map_values(
                        |e: (String, Json)| e.0@,
                    ).push(m@[i as int].0@));
                }
                out.push(k);
                i = i + 1;
            }
            assert(m@.take(m@.len() as int) == m@);
        },
        _ => {},
    }
    out
}

/// The texts of a score question's levels, in order; none for other criteria.
pub fn level_texts(crit: &Json) -> (r: Vec<String>)
    ensures
        string_views(r@) == (match crit {
            Json::Array(a) => a@.map_values(|c: Json| py_repr(c)),
            _ => Seq::empty(),
        }),
{
    let mut out: Vec<String> = Vec::new();
    match crit {
        Json::Array(a) => {
            let mut i: usize = 0;
            while i < a.len()
                invariant
                    i <= a@.len(),
                    string_views(out@) == a@.take(i as int).map_values(|c: Json| py_repr(c)),
                decreases a.len() - i,
            {
                let t = py_str(&a[i]);
                proof {
                    lemma_string_views_push(out@, t);
                    assert(a@.take(i + 1).map_values(|c: Json| py_repr(c)) =~= a@.take(i as int).map_values(
                        |c: Json| py_repr(c),
                    ).push(py_repr(a@[i as int])));
                }
                out.push(t);
                i = i + 1;
            }
            assert(a@.take(a@.len() as int) == a@);
        },
        _ => {},
    }
    out
}

/// The options of a question as text.
pub fn render_options(q: &Question) -> (r: Vec<String>)
    ensures
        string_views(r@) == options_spec(q.ty@, q.crit),
{
    let mut out: Vec<String> = Vec::new();
    if str_eq(q.ty.as_str(), "choice") {
        match &q.crit {
            Json::Object(m) => {
                let mut i: usize = 0;
                while i < m.len()
                    invariant
                        i <= m@.len(),
                        string_views(out@) == m@.take(i as int).map_values(|e: (String, Json)| choice_option(e)),
                    decreases m.len() - i,
                {
                    let o = match &m[i].1 {
                        Json::Null => m[i].0.clone(),
                        v => {
                            let mut o = m[i].0.clone();
                            o.append(": ");
                            let t = py_str(v);
                            o.append(t.as_str());
                            o
                        },
                    };
                    assert(o@ == choice_option(m@[i as int]));
                    proof {
                        lemma_string_views_push(out@, o);
                        assert(m@.take(i + 1).map_values(|e: (String, Json)| choice_option(e)) =~= m@.take(
                            i as int,
                        ).map_values(|e: (String, Json)| choice_option(e)).push(o@));
                    }
                    out.push(o);
                    i = i + 1;
                }
                assert(m@.take(m@.len() as int) == m@);
            },
            _ => {},
        }
    } else if str_eq(q.ty.as_str(), "score") {
        match &q.crit {
            Json::Array(a) => {
                let mut i: usize = 0;
                while i < a.len()
                    invariant
                        i <= a@.len(),
                        string_views(out@) == Seq::new(i as nat, |j: int| "level "@ + decimal(j as nat) + ": "@ + py_repr(a@[j])),
                    decreases a.len() - i,
                {
                    let mut o = "level ".to_owned();
                    let d = decimal_str(i as u64);
                    o.append(d.as_str());
                    o.append(": ");
                    let t = py_str(&a[i]);
                    o.append(t.as_str());
                    proof {
                        lemma_string_views_push(out@, o);
                        assert(Seq::new((i + 1) as nat, |j: int| "level "@ + decimal(j as nat) + ": "@ + py_repr(a@[j])) =~= Seq::new(
                            i as nat,
                            |j: int| "level "@ + decimal(j as nat) + ": "@ + py_repr(a@[j]),
                        ).push(o@));
                    }
                    out.push(o);
                    i = i + 1;
                }
            },
            _ => {},
        }
    } else {
        let mut f = "false: ".to_owned();
        let ft = noul_str(&q.crit, "false", "no, the statement does not hold");
        f.append(ft.as_str());
        let mut t = "true: ".to_owned();
        let tt = noul_str(&q.crit, "true", "yes, the statement holds");
        t.append(tt.as_str());
        out.push(f);
        out.push(t);
        assert(string_views(out@) =~= options_spec(q.ty@, q.crit));
    }
    out
}

/// The longest sequence a question is scored over.
pub const MAX_LEN: usize = 512;

/// The token budget of a question's instructions and options together.
pub const HEAD_MAX_LEN: usize = 192;

/// The first `n` items of `s`, or all of it when it is shorter.
pub open spec fn prefix<A>(s: Seq<A>, n: int) -> Seq<A> {
    if 0 <= n < s.len() {
        s.take(n)
    } else {
        s
    }
}

/// The ids `tok` gives `text`, with no [CLS] or [SEP] around them.
pub open spec fn encoded(tok: Tokenizer, text: Seq<char>) -> Seq<i64> {
    encode_spec(tok@, tok.unk, text)
}

/// Text with every "[MASK]" turned into a space.
pub open spec fn unmask(s: Seq<char>) -> Seq<char> {
    replaced(s, "[MASK]"@, " "@)
}

/// An option's ids: the [MASK] marker, then at most 48 ids of the option's text after a
/// space.
pub open spec fn option_ids(tok: Tokenizer, o: Seq<char>) -> Seq<i64> {
    seq![tok.mask] + prefix(encoded(tok, " "@ + unmask(o)), 48)
}

pub open spec fn total_len(os: Seq<Seq<i64>>) -> int
    decreases os.len(),
{
    if os.len() == 0 {
        0
    } else {
        total_len(os.drop_last()) + os.last().len()
    }
}

pub open spec fn concat_ids(os: Seq<Seq<i64>>) -> Seq<i64>
    decreases os.len(),
{
    if os.len() == 0 {
        Seq::empty()
    } else {
        concat_ids(os.drop_last()) + os.last()
    }
}

/// The ids each option keeps when the options crowd the instructions out of the 192 head
/// ids, for `n` options: an equal share of 176 ids; at least 4 where four per option fit in
/// the 192, else an equal share of the 192; past 192 options, one (the marker).
pub open spec fn option_share(n: int) -> int {
    let m: int = if n > 1 {
        n
    } else {
        1
    };
    if 176int / m > 4 {
        176int / m
    } else if m <= 48 {
        4
    } else if m <= HEAD_MAX_LEN {
        (HEAD_MAX_LEN as int) / m
    } else {
        1
    }
}

/// The options as the head holds them: unchanged while they leave at least 16 of the 192
/// head ids; otherwise each cut to its share, and no more than 192 of them kept, so that
/// together they never take more than the 192.
pub open spec fn fitted(os: Seq<Seq<i64>>) -> Seq<Seq<i64>> {
    if HEAD_MAX_LEN - total_len(os) < 16 {
        let per = option_share(os.len() as int);
        prefix(os, HEAD_MAX_LEN as int).map_values(|o: Seq<i64>| prefix(o, per))
    } else {
        os
    }
}

proof fn lemma_option_share(n: int)
    requires
        n >= 0,
    ensures
        option_share(n) >= 1,
        option_share(n) * (if n < 192 { n } else { 192 }) <= 192,
{
    let m: int = if n > 1 { n } else { 1 };
    vstd::arithmetic::div_mod::lemma_fundamental_div_mod(176, m);
    vstd::arithmetic::div_mod::lemma_fundamental_div_mod(192, m);
    assert(m * (176int / m) == (176int / m) * m && m * (192int / m) == (192int / m) * m) by (nonlinear_arith);
    if 176int / m > 4 {
        assert(m <= 44) by (nonlinear_arith)
            requires
                176int / m > 4,
                m * (176int / m) <= 176,
                m > 0,
        ;
    } else if m <= 48 {
    } else if m <= 192 {
        assert(192int / m >= 1) by (nonlinear_arith)
            requires
                m <= 192,
                m > 0,
                192 == m * (192int / m) + 192int % m,
                0 <= 192int % m < m,
        ;
    }
}

/// Fitting keeps each option's marker first, cuts, never lengthens, and leaves the options
/// no more than the 192 head ids.
proof fn lemma_fitted(os: Seq<Seq<i64>>)
    requires
        forall|i: int| 0 <= i < os.len() ==> 1 <= #[trigger] os[i].len() <= 49,
    ensures
        fitted(os).len() <= os.len(),
        forall|j: int| 0 <= j < fitted(os).len() ==> 1 <= (#[trigger] fitted(os)[j]).len() <= os[j].len() && fitted(os)[j][0] == os[j][0],
        total_len(fitted(os)) <= HEAD_MAX_LEN,
{
    let f = fitted(os);
    if HEAD_MAX_LEN - total_len(os) < 16 {
        let per = option_share(os.len() as int);
        lemma_option_share(os.len() as int);
        let k = prefix(os, 192);
        assert forall|j: int| 0 <= j < f.len() implies 1 <= (#[trigger] f[j]).len() <= os[j].len() && f[j][0] == os[j][0] && f[j].len() <= per by {
            assert(k[j] == os[j]);
            assert(f[j] == prefix(os[j], per));
        }
        lemma_total_bound(f, per);
    }
}

/// A question's options, each as its marker and ids, fitted to the head.
pub open spec fn question_options(tok: Tokenizer, ty: Seq<char>, crit: Json) -> Seq<Seq<i64>> {
    fitted(options_spec(ty, crit).map_values(|o: Seq<char>| option_ids(tok, o)))
}

/// The ids of a question's instructions (after its type), cut to what the options `os`
/// leave of the 192 head ids.
pub open spec fn question_head(tok: Tokenizer, ty: Seq<char>, instructions: Seq<char>, os: Seq<Seq<i64>>) -> Seq<i64> {
    let budget = HEAD_MAX_LEN - total_len(os);
    prefix(encoded(tok, ty + " question: "@ + unmask(instructions)), if budget > 0 { budget } else { 0 })
}

/// The items of `s` below `lim`, in order.
pub open spec fn below(s: Seq<i64>, lim: i64) -> Seq<i64>
    decreases s.len(),
{
    if s.len() == 0 {
        s
    } else if s.last() < lim {
        below(s.drop_last(), lim).push(s.last())
    } else {
        below(s.drop_last(), lim)
    }
}

/// The sequence a question is scored from, and where its option markers stand:
/// `[CLS] instructions [SEP] options [SEP] state [SEP]`, with the options and instructions
/// fitted to the 192 head ids, the state cut to what is left of 512, and the whole cut to
/// 512.
pub open spec fn sequence_spec(tok: Tokenizer, state: Seq<char>, ty: Seq<char>, instructions: Seq<char>, crit: Json) -> (Seq<i64>, Seq<i64>) {
    let os = question_options(tok, ty, crit);
    let head = question_head(tok, ty, instructions, os);
    let pre = seq![tok.cls] + head + seq![tok.sep];
    let body = pre + concat_ids(os) + seq![tok.sep];
    let room = if body.len() + 1 <= MAX_LEN {
        MAX_LEN - (body.len() + 1)
    } else {
        0
    };
    let ids = prefix(body + prefix(encoded(tok, unmask(state)), room) + seq![tok.sep], MAX_LEN as int);
    let marks = Seq::new(os.len(), |j: int| (pre.len() + total_len(os.take(j))) as i64);
    (ids, below(marks, MAX_LEN as i64))
}

pub open spec fn id_lists(v: Seq<Vec<i64>>) -> Seq<Seq<i64>> {
    v.map_values(|x: Vec<i64>| x@)
}

proof fn lemma_concat_len(os: Seq<Seq<i64>>)
    ensures
        concat_ids(os).len() == total_len(os),
    decreases os.len(),
{
    if os.len() > 0 {
        lemma_concat_len(os.drop_last());
    }
}

proof fn lemma_total_bound(os: Seq<Seq<i64>>, b: int)
    requires
        b >= 0,
        forall|i: int| 0 <= i < os.len() ==> #[trigger] os[i].len() <= b,
    ensures
        0 <= total_len(os) <= b * os.len(),
    decreases os.len(),
{
    if os.len() > 0 {
        let d = os.drop_last();
        assert forall|i: int| 0 <= i < d.len() implies #[trigger] d[i].len() <= b by {
            assert(d[i] == os[i]);
        }
        lemma_total_bound(d, b);
        assert(b * os.len() == b * d.len() + b) by (nonlinear_arith)
            requires
                os.len() == d.len() + 1,
        ;
    }
}

/// Appends the first `n` items of `src` (all of them when it is shorter) to `dst`.
fn extend_prefix(dst: &mut Vec<i64>, src: &Vec<i64>, n: usize)
    ensures
        final(dst)@ == old(dst)@ + prefix(src@, n as int),
{
    let mut k: usize = 0;
    while k < src.len() && k < n
        invariant
            k <= src@.len(),
            k <= n,
            dst@ == old(dst)@ + src@.take(k as int),
        decreases src.len() - k,
    {
        dst.push(src[k]);
        k = k + 1;
        assert(dst@ =~= old(dst)@ + src@.take(k as int));
    }
    assert(src@.take(src@.len() as int) == src@);
}

/// The summed lengths of id lists of at most 49 ids each.
fn sum_lens(os: &Vec<Vec<i64>>) -> (t: u128)
    requires
        forall|i: int| 0 <= i < os@.len() ==> #[trigger] os@[i]@.len() <= 49,
    ensures
        t == total_len(id_lists(os@)),
        t <= 49 * os.len(),
{
    let mut t: u128 = 0;
    let mut j: usize = 0;
    while j < os.len()
        invariant
            j <= os@.len(),
            forall|i: int| 0 <= i < os@.len() ==> #[trigger] os@[i]@.len() <= 49,
            t == total_len(id_lists(os@).take(j as int)),
            t <= 49 * j,
        decreases os.len() - j,
    {
        assert(id_lists(os@).take(j + 1).drop_last() == id_lists(os@).take(j as int));
        t = t + os[j].len() as u128;
        j = j + 1;
    }
    assert(id_lists(os@).take(os@.len() as int) == id_lists(os@));
    t
}

/// The option id lists of a question, before fitting.
fn option_lists(tok: &Tokenizer, opts: &Vec<String>) -> (r: Vec<Vec<i64>>)
    ensures
        id_lists(r@) == string_views(opts@).map_values(|o: Seq<char>| option_ids(*tok, o)),
        forall|i: int| 0 <= i < r@.len() ==> #[trigger] r@[i]@.len() <= 49,
{
    let mut os: Vec<Vec<i64>> = Vec::new();
    let mut j: usize = 0;
    while j < opts.len()
        invariant
            j <= opts@.len(),
                id_lists(os@) == string_views(opts@).take(j as int).map_values(|o: Seq<char>| option_ids(*tok, o)),
            forall|i: int| 0 <= i < os@.len() ==> #[trigger] os@[i]@.len() <= 49,
        decreases opts.len() - j,
    {
        let mut text = " ".to_owned();
        proof {
            reveal_strlit("[MASK]");
        }
        let u = replace(opts[j].as_str(), "[MASK]", " ");
        text.append(u.as_str());
        let ids = tok.encode(text.as_str(), false);
        let mut v: Vec<i64> = Vec::new();
        v.push(tok.mask);
        extend_prefix(&mut v, &ids, 48);
        assert(v@ == option_ids(*tok, string_views(opts@)[j as int]));
        let ghost before = os@;
        os.push(v);
        j = j + 1;
        proof {
            assert(id_lists(os@) =~= id_lists(before).push(v@));
            assert(string_views(opts@).take(j as int).map_values(|o: Seq<char>| option_ids(*tok, o)) =~= string_views(opts@).take(
                j - 1,
            ).map_values(|o: Seq<char>| option_ids(*tok, o)).push(v@));
        }
    }
    assert(string_views(opts@).take(opts@.len() as int) == string_views(opts@));
    os
}

/// Cuts the option lists to their share when they crowd out the instructions.
fn fit_options(os: Vec<Vec<i64>>) -> (r: Vec<Vec<i64>>)
    requires
        forall|i: int| 0 <= i < os@.len() ==> #[trigger] os@[i]@.len() <= 49,
    ensures
        id_lists(r@) == fitted(id_lists(os@)),
        forall|i: int| 0 <= i < r@.len() ==> #[trigger] r@[i]@.len() <= 49,
{
    let total = sum_lens(&os);
    if total + 16 <= 192 {
        return os;
    }
    let n: usize = if os.len() > 1 {
        os.len()
    } else {
        1
    };
    let per: usize = if 176 / n > 4 {
        176 / n
    } else if n <= 48 {
        4
    } else if n <= 192 {
        192 / n
    } else {
        1
    };
    let kept: usize = if os.len() < 192 {
        os.len()
    } else {
        192
    };
    let ghost ov = id_lists(os@);
    let mut r: Vec<Vec<i64>> = Vec::new();
    let mut j: usize = 0;
    while j < kept
        invariant
            j <= kept <= os@.len(),
            kept as int == prefix(ov, 192).len(),
            ov == id_lists(os@),
            forall|i: int| 0 <= i < os@.len() ==> #[trigger] os@[i]@.len() <= 49,
            forall|i: int| 0 <= i < r@.len() ==> #[trigger] r@[i]@.len() <= 49,
            id_lists(r@) == ov.take(j as int).map_values(|o: Seq<i64>| prefix(o, per as int)),
        decreases os.len() - j,
    {
        let mut v: Vec<i64> = Vec::new();
        extend_prefix(&mut v, &os[j], per);
        let ghost before = r@;
        r.push(v);
        j = j + 1;
        proof {
            assert(id_lists(r@) =~= id_lists(before).push(v@));
            assert(ov.take(j as int).map_values(|o: Seq<i64>| prefix(o, per as int)) =~= ov.take(j - 1).map_values(
                |o: Seq<i64>| prefix(o, per as int),
            ).push(v@));
        }
    }
    assert(ov.take(kept as int) == prefix(ov, 192));
    r
}

/// The token ids a question is scored from and the positions of its option markers;
/// `state` is the request's state as text.
pub fn build_sequence(tok: &Tokenizer, state: &str, q: &Question) -> (r: (Vec<i64>, Vec<i64>))
    ensures
        (r.0@, r.1@) == sequence_spec(*tok, state@, q.ty@, q.instructions@, q.crit),
{
    proof {
        reveal_strlit("[MASK]");
    }
    let opts = render_options(q);
    let ins = replace(q.instructions.as_str(), "[MASK]", " ");
    let mut head_text = q.ty.clone();
    head_text.append(" question: ");
    head_text.append(ins.as_str());
    let head_ids = tok.encode(head_text.as_str(), false);
    let os = fit_options(option_lists(tok, &opts));
    let ghost ov = id_lists(os@);
    let total = sum_lens(&os);
    let keep: usize = if total < 192 {
        (192 - total) as usize
    } else {
        0
    };
    let mut ids: Vec<i64> = Vec::new();
    ids.push(tok.cls);
    extend_prefix(&mut ids, &head_ids, keep);
    ids.push(tok.sep);
    let ghost pre = ids@;
    let mut marks: Vec<i64> = Vec::new();
    let mut j: usize = 0;
    while j < os.len()
        invariant
            j <= os@.len(),
            ov == id_lists(os@),
            ids@ == pre + concat_ids(ov.take(j as int)),
            marks@ == Seq::new(j as nat, |l: int| (pre.len() + total_len(ov.take(l))) as i64),
        decreases os.len() - j,
    {
        proof {
            lemma_concat_len(ov.take(j as int));
            assert(ov.take(j + 1).drop_last() == ov.take(j as int));
        }
        let ghost mb = marks@;
        marks.push(ids.len() as i64);
        assert(marks@ =~= Seq::new((j + 1) as nat, |l: int| (pre.len() + total_len(ov.take(l))) as i64));
        extend_prefix(&mut ids, &os[j], os[j].len());
        j = j + 1;
        assert(ids@ =~= pre + concat_ids(ov.take(j as int)));
    }
    assert(ov.take(os@.len() as int) == ov);
    ids.push(tok.sep);
    let room: usize = if ids.len() < 511 {
        511 - ids.len()
    } else {
        0
    };
    let st_text = replace(state, "[MASK]", " ");
    let st = tok.encode(st_text.as_str(), false);
    extend_prefix(&mut ids, &st, room);
    ids.push(tok.sep);
    ids.truncate(512);
    let ghost ms = marks@;
    let mut kept: Vec<i64> = Vec::new();
    let mut k: usize = 0;
    while k < marks.len()
        invariant
            k <= marks@.len(),
            ms == marks@,
            kept@ == below(ms.take(k as int), 512),
        decreases marks.len() - k,
    {
        assert(ms.take(k + 1).drop_last() == ms.take(k as int));
        if marks[k] < 512 {
            kept.push(marks[k]);
        }
        k = k + 1;
    }
    assert(ms.take(ms.len() as int) == ms);
    (ids, kept)
}

/// A [MASK] in the state or the instructions reads as a space: the sequence a question is
/// scored from is the same with each one replaced by a space beforehand. (A string state
/// reaches `build_sequence` as it is; see `request::serialize_state`.)
pub proof fn law_mask_reads_as_space(tok: Tokenizer, state: Seq<char>, ty: Seq<char>, instructions: Seq<char>, crit: Json)
    ensures
        sequence_spec(tok, state, ty, instructions, crit) == sequence_spec(tok, unmask(state), ty, unmask(instructions), crit),
{
    lemma_unmask_twice(state);
    lemma_unmask_twice(instructions);
}

/// Strings in the order `String` compares them: by characters, a proper prefix first.
pub open spec fn lex_lt(a: Seq<char>, b: Seq<char>) -> bool
    decreases a.len(),
{
    if b.len() == 0 {
        false
    } else if a.len() == 0 {
        true
    } else if a[0] != b[0] {
        a[0] < b[0]
    } else {
        lex_lt(a.drop_first(), b.drop_first())
    }
}

pub(crate) proof fn lemma_lex_irrefl(a: Seq<char>)
    ensures
        !lex_lt(a, a),
    decreases a.len(),
{
    if a.len() > 0 {
        lemma_lex_irrefl(a.drop_first());
    }
}

pub(crate) proof fn lemma_lex_trans(a: Seq<char>, b: Seq<char>, c: Seq<char>)
    requires
        lex_lt(a, b),
        lex_lt(b, c),
    ensures
        lex_lt(a, c),
    decreases a.len(),
{
    if a.len() > 0 && a[0] == b[0] && b[0] == c[0] {
        lemma_lex_trans(a.drop_first(), b.drop_first(), c.drop_first());
    }
}

pub(crate) proof fn lemma_lex_total(a: Seq<char>, b: Seq<char>)
    requires
        a != b,
    ensures
        lex_lt(a, b) || lex_lt(b, a),
    decreases a.len(),
{
    if a.len() == 0 && b.len() == 0 {
        assert(a =~= b);
    } else if a.len() > 0 && b.len() > 0 && a[0] == b[0] {
        if a.drop_first() == b.drop_first() {
            assert(a =~= seq![a[0]] + a.drop_first());
            assert(b =~= seq![b[0]] + b.drop_first());
        }
        lemma_lex_total(a.drop_first(), b.drop_first());
    }
}

/// Whether `a` sorts before `b`.
pub(crate) fn lex_less(a: &str, b: &str) -> (r: bool)
    ensures
        r == lex_lt(a@, b@),
{
    let x = to_chars(a);
    let y = to_chars(b);
    let mut i: usize = 0;
    assert(x@.skip(0) == x@ && y@.skip(0) == y@);
    while i < x.len() && i < y.len() && x[i] == y[i]
        invariant
            i <= x@.len(),
            i <= y@.len(),
            lex_lt(x@, y@) == lex_lt(x@.skip(i as int), y@.skip(i as int)),
        decreases x.len() - i,
    {
        assert(x@.skip(i as int).drop_first() == x@.skip(i + 1));
        assert(y@.skip(i as int).drop_first() == y@.skip(i + 1));
        i = i + 1;
    }
    if i == y.len() {
        false
    } else if i == x.len() {
        true
    } else {
        assert(x@.skip(i as int)[0] == x@[i as int] && y@.skip(i as int)[0] == y@[i as int]);
        x[i] < y[i]
    }
}

/// A keyed map of null values in increasing key order.
pub open spec fn null_map(m: Seq<(String, Json)>) -> bool {
    &&& forall|i: int, j: int| 0 <= i < j < m.len() ==> lex_lt(#[trigger] m[i].0@, #[trigger] m[j].0@)
    &&& forall|i: int| 0 <= i < m.len() ==> (#[trigger] m[i]).1 is Null
}

pub open spec fn has_key(m: Seq<(String, Json)>, k: Seq<char>) -> bool {
    exists|i: int| 0 <= i < m.len() && (#[trigger] m[i]).0@ == k
}

/// Whether `s` is the text of one of the items of `a`.
pub open spec fn item_text(a: Seq<Json>, s: Seq<char>) -> bool {
    exists|l: int| 0 <= l < a.len() && s == py_repr(#[trigger] a[l])
}

/// Whether `m` holds, in increasing order and once each, exactly the texts of the items of
/// `a`, each with a null value: a list of choice options made into a map.
pub open spec fn choice_map(m: Seq<(String, Json)>, a: Seq<Json>) -> bool {
    &&& null_map(m)
    &&& forall|s: Seq<char>| has_key(m, s) <==> item_text(a, s)
}

proof fn lemma_insert_keys(old_m: Seq<(String, Json)>, m: Seq<(String, Json)>, p: int, k: Seq<char>)
    requires
        0 <= p <= old_m.len(),
        m.len() == old_m.len() + 1,
        m[p].0@ == k,
        forall|i: int| 0 <= i < p ==> m[i] == old_m[i],
        forall|i: int| p < i < m.len() ==> m[i] == old_m[i - 1],
    ensures
        forall|s: Seq<char>| has_key(m, s) <==> (has_key(old_m, s) || s == k),
{
    assert forall|s: Seq<char>| has_key(m, s) <==> (has_key(old_m, s) || s == k) by {
        if has_key(m, s) {
            let i = choose|i: int| 0 <= i < m.len() && (#[trigger] m[i]).0@ == s;
            if i < p {
                assert(m[i] == old_m[i]);
                assert(has_key(old_m, s));
            } else if i > p {
                assert(m[i] == old_m[i - 1]);
                assert(has_key(old_m, s));
            }
        }
        if has_key(old_m, s) {
            let i = choose|i: int| 0 <= i < old_m.len() && (#[trigger] old_m[i]).0@ == s;
            if i < p {
                assert(m[i] == old_m[i]);
                assert(has_key(m, s));
            } else {
                assert(m[i + 1] == old_m[i]);
                assert(has_key(m, s));
            }
        }
        if s == k {
            assert(m[p].0@ == s);
            assert(has_key(m, s));
        }
    }
}

/// Adds key `k` with a null value unless it is there, keeping the keys in order.
fn insert_key(m: &mut Vec<(String, Json)>, k: String)
    requires
        null_map(old(m)@),
    ensures
        null_map(final(m)@),
        forall|s: Seq<char>| has_key(final(m)@, s) <==> (has_key(old(m)@, s) || s == k@),
{
    let mut p: usize = 0;
    while p < m.len() && lex_less(m[p].0.as_str(), k.as_str())
        invariant
            p <= m@.len(),
            forall|i: int| 0 <= i < p ==> lex_lt(#[trigger] m@[i].0@, k@),
        decreases m.len() - p,
    {
        p = p + 1;
    }
    if p < m.len() && str_eq(m[p].0.as_str(), k.as_str()) {
        assert(has_key(m@, k@)) by {
            assert(m@[p as int].0@ == k@);
        }
        return;
    }
    let ghost old_m = m@;
    proof {
        if p < old_m.len() {
            lemma_lex_total(old_m[p as int].0@, k@);
            assert(lex_lt(k@, old_m[p as int].0@));
            assert forall|i: int| p <= i < old_m.len() implies lex_lt(k@, #[trigger] old_m[i].0@) by {
                if i > p {
                    lemma_lex_trans(k@, old_m[p as int].0@, old_m[i].0@);
                }
            }
        }
    }
    m.insert(p, (k, Json::Null));
    proof {
        assert forall|i: int, j: int| 0 <= i < j < m@.len() implies lex_lt(#[trigger] m@[i].0@, #[trigger] m@[j].0@) by {
            if j < p {
                assert(m@[i] == old_m[i] && m@[j] == old_m[j]);
            } else if j == p {
                assert(m@[i] == old_m[i]);
            } else if i == p {
                assert(m@[j] == old_m[j - 1]);
            } else if i < p {
                assert(m@[i] == old_m[i] && m@[j] == old_m[j - 1]);
                lemma_lex_trans(m@[i].0@, k@, m@[j].0@);
            } else {
                assert(m@[i] == old_m[i - 1] && m@[j] == old_m[j - 1]);
            }
        }
        assert forall|i: int| 0 <= i < m@.len() implies (#[trigger] m@[i]).1 is Null by {
            if i < p {
                assert(m@[i] == old_m[i]);
            } else if i > p {
                assert(m@[i] == old_m[i - 1]);
            }
        }
        lemma_insert_keys(old_m, m@, p as int, k@);
    }
}

/// A list of choice options made into a map from each option's text to null, in key order.
fn choice_map_of(a: &Vec<Json>) -> (r: Vec<(String, Json)>)
    ensures
        choice_map(r@, a@),
{
    let mut m: Vec<(String, Json)> = Vec::new();
    let mut j: usize = 0;
    while j < a.len()
        invariant
            j <= a@.len(),
            null_map(m@),
            forall|s: Seq<char>| has_key(m@, s) <==> exists|l: int| 0 <= l < j && s == py_repr(#[trigger] a@[l]),
        decreases a.len() - j,
    {
        let k = py_str(&a[j]);
        let ghost before = m@;
        insert_key(&mut m, k);
        proof {
            assert forall|s: Seq<char>| has_key(m@, s) <==> exists|l: int| 0 <= l < j + 1 && s == py_repr(#[trigger] a@[l]) by {
                if has_key(before, s) {
                    let l = choose|l: int| 0 <= l < j && s == py_repr(#[trigger] a@[l]);
                    assert(0 <= l < j + 1 && s == py_repr(a@[l]));
                }
                if exists|l: int| 0 <= l < j + 1 && s == py_repr(#[trigger] a@[l]) {
                    let l = choose|l: int| 0 <= l < j + 1 && s == py_repr(#[trigger] a@[l]);
                    if l < j {
                        assert(exists|l2: int| 0 <= l2 < j && s == py_repr(#[trigger] a@[l2]));
                    }
                }
            }
        }
        j = j + 1;
    }
    proof {
        assert(null_map(m@));
    }
    m
}

/// A question as the request gives it: its id, its type name and instructions text where
/// present (the instructions as JSON text when they are not a string), and its criteria.
pub struct RawQuestion {
    pub id: String,
    pub ty: Option<String>,
    pub instructions: Option<String>,
    pub criteria: Json,
}

/// What is wrong with a question, if anything: no type, a type other than choice, score
/// and noul, or no instructions, in that order.
pub open spec fn raw_error(r: RawQuestion) -> Option<Seq<char>> {
    match r.ty {
        None => Some("question "@ + r.id@ + ": missing \"type\""@),
        Some(t) => if !(t@ == "choice"@ || t@ == "score"@ || t@ == "noul"@) {
            Some("question "@ + r.id@ + ": bad type "@ + t@)
        } else if r.instructions is None {
            Some("question "@ + r.id@ + ": missing \"instructions\""@)
        } else {
            None
        },
    }
}

/// The first error among the questions.
pub open spec fn first_error(rs: Seq<RawQuestion>) -> Option<Seq<char>>
    decreases rs.len(),
{
    if rs.len() == 0 {
        None
    } else {
        match raw_error(rs[0]) {
            Some(e) => Some(e),
            None => first_error(rs.subrange(1, rs.len() as int)),
        }
    }
}

/// The question made of a well-formed raw question: a choice question's list of options
/// becomes a map from each option's text to null.
pub open spec fn made_from(q: Question, r: RawQuestion) -> bool {
    &&& q.id@ == r.id@
    &&& r.ty matches Some(t) && q.ty@ == t@
    &&& q.qtype == qtype_spec(q.ty@)
    &&& r.instructions matches Some(i) && q.instructions@ == i@
    &&& if q.ty@ == "choice"@ && r.criteria is Array {
        match (q.crit, r.criteria) {
            (Json::Object(m), Json::Array(a)) => choice_map(m@, a@),
            _ => false,
        }
    } else {
        q.crit == r.criteria
    }
}

/// Checks the questions of a request in order and builds them; the first error found is
/// the answer when there is one.
pub fn parse_questions(raw: Vec<RawQuestion>) -> (r: Result<Vec<Question>, String>)
    ensures
        match r {
            Ok(qs) => first_error(raw@) is None && qs@.len() == raw@.len() && forall|i: int|
                0 <= i < raw@.len() ==> made_from(#[trigger] qs@[i], raw@[i]),
            Err(e) => first_error(raw@) == Some(e@),
        },
{
    let ghost rs = raw@;
    let mut out: Vec<Question> = Vec::new();
    assert(rs.subrange(0, rs.len() as int) == rs);
    for q in it: raw.into_iter()
        invariant
            rs == raw@,
            it.seq() == rs,
            out@.len() == it.index(),
            first_error(rs) == first_error(rs.subrange(it.index() as int, rs.len() as int)),
            forall|i: int| 0 <= i < it.index() ==> made_from(#[trigger] out@[i], rs[i]),
    {
        let ghost k = it.index() as int;
        let ghost rest = rs.subrange(k, rs.len() as int);
        assert(rest[0] == rs[k]);
        assert(rest.subrange(1, rest.len() as int) == rs.subrange(k + 1, rs.len() as int));
        let RawQuestion { id, ty, instructions, criteria } = q;
        let ty = match ty {
            Some(t) => t,
            None => {
                let mut e = "question ".to_owned();
                e.append(id.as_str());
                e.append(": missing \"type\"");
                return Err(e);
            },
        };
        if !(str_eq(ty.as_str(), "choice") || str_eq(ty.as_str(), "score") || str_eq(ty.as_str(), "noul")) {
            let mut e = "question ".to_owned();
            e.append(id.as_str());
            e.append(": bad type ");
            e.append(ty.as_str());
            return Err(e);
        }
        let instructions = match instructions {
            Some(i) => i,
            None => {
                let mut e = "question ".to_owned();
                e.append(id.as_str());
                e.append(": missing \"instructions\"");
                return Err(e);
            },
        };
        let is_choice = str_eq(ty.as_str(), "choice");
        let crit = match criteria {
            Json::Array(a) if is_choice => Json::Object(choice_map_of(&a)),
            c => c,
        };
        let qtype = qtype_of(ty.as_str());
        out.push(Question { id, ty, qtype, instructions, crit });
    }
    proof {
        assert(rs.subrange(rs.len() as int, rs.len() as int).len() == 0);
    }
    Ok(out)
}

/// The option-count bucket a calibration key names: "2", "3-5", "6-10" or "11+".
pub open spec fn size_bucket(k: int) -> Seq<char> {
    if k <= 2 {
        "2"@
    } else if k <= 5 {
        "3-5"@
    } else if k <= 10 {
        "6-10"@
    } else {
        "11+"@
    }
}

/// The calibration key of a question type with `k` options, such as "choice:3-5".
pub open spec fn temperature_key(qtype: i64, k: int) -> Seq<char> {
    qname_spec(qtype) + ":"@ + size_bucket(k)
}

/// The index of the first key equal to `key`.
pub open spec fn first_index(keys: Seq<Seq<char>>, key: Seq<char>) -> Option<int>
    decreases keys.len(),
{
    if keys.len() == 0 {
        None
    } else if keys.last() == key {
        match first_index(keys.drop_last(), key) {
            Some(i) => Some(i),
            None => Some(keys.len() - 1),
        }
    } else {
        first_index(keys.drop_last(), key)
    }
}

/// Which per-size temperature applies to a question type with `k` options: the index of
/// the first calibration entry keyed by type and size bucket, or `None` when the type's
/// overall temperature applies.
pub fn temperature_slot(keys: &Vec<String>, qtype: i64, k: usize) -> (r: Option<usize>)
    ensures
        match r {
            Some(i) => first_index(string_views(keys@), temperature_key(qtype, k as int)) == Some(i as int),
            None => first_index(string_views(keys@), temperature_key(qtype, k as int)) is None,
        },
        match r {
            Some(i) => i < keys@.len() && keys@[i as int]@ == temperature_key(qtype, k as int) && forall|j: int|
                0 <= j < i ==> keys@[j]@ != temperature_key(qtype, k as int),
            None => forall|j: int| 0 <= j < keys@.len() ==> keys@[j]@ != temperature_key(qtype, k as int),
        },
{
    let size = if k <= 2 {
        "2"
    } else if k <= 5 {
        "3-5"
    } else if k <= 10 {
        "6-10"
    } else {
        "11+"
    };
    let mut key = qname(qtype).to_owned();
    key.append(":");
    key.append(size);
    let ghost kv = string_views(keys@);
    let mut i: usize = 0;
    while i < keys.len()
        invariant
            i <= keys@.len(),
            kv == string_views(keys@),
            key@ == temperature_key(qtype, k as int),
            first_index(kv.take(i as int), key@) is None,
        decreases keys.len() - i,
    {
        proof {
            assert(kv.take(i + 1).drop_last() == kv.take(i as int));
            assert(kv.take(i + 1).last() == keys@[i as int]@);
        }
        if str_eq(keys[i].as_str(), key.as_str()) {
            proof {
                lemma_first_index_prefix(kv, key@, i as int);
                law_first_index(kv, key@);
                assert(kv[i as int] == keys@[i as int]@);
                assert forall|j: int| 0 <= j < i implies (#[trigger] keys@[j])@ != key@ by {
                    assert(kv[j] == keys@[j]@);
                }
            }
            return Some(i);
        }
        i = i + 1;
    }
    assert(kv.take(keys@.len() as int) == kv);
    proof {
        law_first_index(kv, key@);
        assert forall|j: int| 0 <= j < keys@.len() implies (#[trigger] keys@[j])@ != key@ by {
            assert(kv[j] == keys@[j]@);
        }
    }
    None
}

/// The first index of a key is where it first occurs, and there is none when it does not
/// occur.
pub proof fn law_first_index(keys: Seq<Seq<char>>, key: Seq<char>)
    ensures
        match first_index(keys, key) {
            Some(i) => 0 <= i < keys.len() && keys[i] == key && forall|j: int| 0 <= j < i ==> keys[j] != key,
            None => forall|j: int| 0 <= j < keys.len() ==> keys[j] != key,
        },
    decreases keys.len(),
{
    if keys.len() > 0 {
        let d = keys.drop_last();
        law_first_index(d, key);
        assert forall|j: int| 0 <= j < d.len() implies d[j] == keys[j] by {}
    }
}

/// The calibration key of a question is its type name, a colon, and its size range: "2" for
/// up to two options, "3-5" for three to five, "6-10" for six to ten, "11+" for more.
pub proof fn law_temperature_key_ranges(qtype: i64, k: int)
    ensures
        k <= 2 ==> temperature_key(qtype, k) == qname_spec(qtype) + ":"@ + "2"@,
        3 <= k <= 5 ==> temperature_key(qtype, k) == qname_spec(qtype) + ":"@ + "3-5"@,
        6 <= k <= 10 ==> temperature_key(qtype, k) == qname_spec(qtype) + ":"@ + "6-10"@,
        11 <= k ==> temperature_key(qtype, k) == qname_spec(qtype) + ":"@ + "11+"@,
{
}

proof fn lemma_first_index_prefix(keys: Seq<Seq<char>>, key: Seq<char>, i: int)
    requires
        0 <= i < keys.len(),
        keys[i] == key,
        first_index(keys.take(i), key) is None,
    ensures
        first_index(keys, key) == Some(i),
    decreases keys.len(),
{
    if i < keys.len() - 1 {
        assert(keys.drop_last().take(i) == keys.take(i));
        lemma_first_index_prefix(keys.drop_last(), key, i);
    } else {
        assert(keys.drop_last() == keys.take(i));
    }
}

/// The type number and the type name map onto each other: each of the three names
/// comes back from its number, and each of the three numbers from its name.
pub proof fn law_qtype_names(t: Seq<char>, q: i64)
    ensures
        (t == "choice"@ || t == "score"@ || t == "noul"@) ==> qname_spec(qtype_spec(t)) == t,
        0 <= q <= 2 ==> qtype_spec(qname_spec(q)) == q,
{
    reveal_strlit("choice");
    reveal_strlit("score");
    reveal_strlit("noul");
    assert("choice"@.len() == 6 && "score"@.len() == 5 && "noul"@.len() == 4);
    assert("score"@ != "choice"@ && "noul"@ != "choice"@ && "noul"@ != "score"@);
}

proof fn lemma_below(s: Seq<i64>, lim: i64)
    ensures
        forall|x: int|
            0 <= x < below(s, lim).len() ==> #[trigger] below(s, lim)[x] < lim && exists|j: int|
                0 <= j < s.len() && s[j] == below(s, lim)[x],
    decreases s.len(),
{
    if s.len() > 0 {
        let d = s.drop_last();
        lemma_below(d, lim);
        assert forall|x: int| 0 <= x < below(s, lim).len() implies #[trigger] below(s, lim)[x] < lim && exists|j: int|
            0 <= j < s.len() && s[j] == below(s, lim)[x] by {
            if s.last() < lim && x == below(s, lim).len() - 1 {
                assert(s[s.len() - 1] == below(s, lim)[x]);
            } else {
                assert(below(s, lim)[x] == below(d, lim)[x]);
                let j = choose|j: int| 0 <= j < d.len() && d[j] == below(d, lim)[x];
                assert(s[j] == below(s, lim)[x]);
            }
        }
    }
}

proof fn lemma_concat_at(os: Seq<Seq<i64>>, j: int, t: int)
    requires
        0 <= j < os.len(),
        0 <= t < os[j].len(),
    ensures
        total_len(os.take(j)) + t < concat_ids(os).len(),
        concat_ids(os)[total_len(os.take(j)) + t] == os[j][t],
    decreases os.len(),
{
    lemma_concat_len(os);
    lemma_concat_len(os.take(j));
    if j == os.len() - 1 {
        assert(os.drop_last() == os.take(j));
    } else {
        let d = os.drop_last();
        assert(d.take(j) == os.take(j));
        assert(d[j] == os[j]);
        lemma_concat_at(d, j, t);
        lemma_concat_len(d);
    }
}

/// Every option marker of a question's sequence stands inside the sequence, on a [MASK] id;
/// and the sequence holds at most 512 ids.
pub proof fn law_markers_on_mask(tok: Tokenizer, state: Seq<char>, ty: Seq<char>, instructions: Seq<char>, crit: Json)
    requires
        options_spec(ty, crit).len() <= 1_000_000_000_000,
    ensures
        ({
            let (ids, marks) = sequence_spec(tok, state, ty, instructions, crit);
            &&& ids.len() <= MAX_LEN
            &&& forall|j: int| 0 <= j < marks.len() ==> 0 <= #[trigger] marks[j] < ids.len() && ids[marks[j] as int] == tok.mask
        }),
{
    let os0 = options_spec(ty, crit).map_values(|o: Seq<char>| option_ids(tok, o));
    let os = fitted(os0);
    let head = question_head(tok, ty, instructions, os);
    let pre = seq![tok.cls] + head + seq![tok.sep];
    let body = pre + concat_ids(os) + seq![tok.sep];
    let room = if body.len() + 1 <= MAX_LEN {
        MAX_LEN - (body.len() + 1)
    } else {
        0
    };
    let full = body + prefix(encoded(tok, unmask(state)), room) + seq![tok.sep];
    let ids = prefix(full, MAX_LEN as int);
    let marks = Seq::new(os.len(), |j: int| (pre.len() + total_len(os.take(j))) as i64);
    assert(sequence_spec(tok, state, ty, instructions, crit) == (ids, below(marks, MAX_LEN as i64)));
    assert forall|i: int| 0 <= i < os0.len() implies 1 <= (#[trigger] os0[i]).len() <= 49 && os0[i][0] == tok.mask by {}
    lemma_fitted(os0);
    assert forall|j: int| 0 <= j < os.len() implies (#[trigger] os[j]).len() >= 1 && os[j][0] == tok.mask && os[j].len() <= 49 by {
        assert(os0[j][0] == tok.mask);
    }
    lemma_total_bound(os, 49);
    lemma_below(marks, MAX_LEN as i64);
    let b = below(marks, MAX_LEN as i64);
    assert forall|x: int| 0 <= x < b.len() implies 0 <= #[trigger] b[x] < ids.len() && ids[b[x] as int] == tok.mask by {
        let j = choose|j: int| 0 <= j < marks.len() && marks[j] == b[x];
        lemma_total_bound(os.take(j), 49);
        lemma_concat_at(os, j, 0);
        assert(pre.len() + total_len(os.take(j)) < i64::MAX);
        assert(marks[j] == pre.len() + total_len(os.take(j)));
        assert(full[marks[j] as int] == concat_ids(os)[total_len(os.take(j))]);
    }
}

/// Where the text after a replacement begins with characters that are not spaces, so did the
/// text before it.
proof fn lemma_unmask_prefix(t: Seq<char>, w: Seq<char>)
    requires
        forall|i: int| 0 <= i < w.len() ==> w[i] != ' ',
        w.len() <= unmask(t).len(),
        unmask(t).take(w.len() as int) == w,
    ensures
        w.len() <= t.len(),
        t.take(w.len() as int) == w,
    decreases w.len(),
{
    reveal_strlit("[MASK]");
    reveal_strlit(" ");
    if w.len() > 0 {
        let u = unmask(t);
        assert(u[0] == w[0]);
        assert(t.len() > 0);
        let p = "[MASK]"@;
        if p.len() <= t.len() && t.subrange(0, p.len() as int) == p {
            assert(u == " "@ + unmask(t.subrange(p.len() as int, t.len() as int)));
            assert(u[0] == ' ');
        } else {
            let rest = t.subrange(1, t.len() as int);
            assert(u == seq![t[0]] + unmask(rest));
            let w1 = w.drop_first();
            assert(unmask(rest).take(w1.len() as int) =~= u.take(w.len() as int).drop_first());
            lemma_unmask_prefix(rest, w1);
            assert(t.take(w.len() as int) =~= seq![t[0]] + rest.take(w1.len() as int));
            assert(w =~= seq![w[0]] + w1);
        }
    }
}

/// Replacing [MASK] by a space a second time changes nothing.
pub proof fn lemma_unmask_twice(s: Seq<char>)
    ensures
        unmask(unmask(s)) == unmask(s),
    decreases s.len(),
{
    reveal_strlit("[MASK]");
    reveal_strlit(" ");
    let p = "[MASK]"@;
    let r = " "@;
    if s.len() > 0 {
        if p.len() <= s.len() && s.subrange(0, p.len() as int) == p {
            let s2 = s.subrange(p.len() as int, s.len() as int);
            lemma_unmask_twice(s2);
            let x = unmask(s2);
            let u = r + x;
            assert(unmask(s) == u);
            assert(u.subrange(1, u.len() as int) =~= x);
            assert(u[0] == ' ' && p[0] == '[');
            if p.len() <= u.len() && u.subrange(0, p.len() as int) == p {
                assert(u.subrange(0, p.len() as int)[0] == u[0]);
            }
            assert(unmask(u) == seq![u[0]] + unmask(u.subrange(1, u.len() as int)));
            assert(unmask(u) =~= u);
        } else {
            let s1 = s.subrange(1, s.len() as int);
            lemma_unmask_twice(s1);
            let x = unmask(s1);
            let u = seq![s[0]] + x;
            assert(unmask(s) == u);
            if p.len() <= u.len() && u.subrange(0, p.len() as int) == p {
                let w = p.drop_first();
                assert(forall|i: int| 0 <= i < w.len() ==> w[i] != ' ');
                assert(x.take(w.len() as int) =~= u.subrange(0, p.len() as int).drop_first());
                lemma_unmask_prefix(s1, w);
                assert(s.subrange(0, p.len() as int) =~= seq![s[0]] + s1.take(w.len() as int));
                assert(p =~= seq![p[0]] + w);
                assert(false);
            }
            assert(u.subrange(1, u.len() as int) =~= x);
            assert(unmask(u) =~= u);
        }
    }
}

/// The instructions and the options of a question take at most the 192 head ids together:
/// in the sequence, what stands between the [CLS] id and the [SEP] id after the options.
pub proof fn law_head_within_budget(tok: Tokenizer, ty: Seq<char>, instructions: Seq<char>, crit: Json)
    ensures
        question_head(tok, ty, instructions, question_options(tok, ty, crit)).len() + total_len(
            question_options(tok, ty, crit),
        ) <= HEAD_MAX_LEN,
{
    let os0 = options_spec(ty, crit).map_values(|o: Seq<char>| option_ids(tok, o));
    assert forall|i: int| 0 <= i < os0.len() implies 1 <= #[trigger] os0[i].len() <= 49 by {}
    lemma_fitted(os0);
}


} // verus!
