//! JSON values written out as compact JSON text, as serde_json writes them: no spaces,
//! items separated by ",", keys and values by ":", strings quoted by serde_json itself.
use crate::systemone::Json;
use vstd::prelude::*;

verus! {

/// What `serde_json::to_string` gives for a string: the string in double quotes, with the
/// characters JSON requires escaped.
pub uninterp spec fn json_quoted(s: Seq<char>) -> Seq<char>;

/// `serde_json::to_string` on a string. serde_json refuses to serialise only where a
/// value's own serialisation fails or a map has keys that are not strings; a string does
/// neither, so the error arm is never taken.
#[verifier::external_body]
fn quote_json(s: &str) -> (r: String)
    ensures
        r@ == json_quoted(s@),
{
    match serde_json::to_string(s) {
        Ok(t) => t,
        Err(_) => String::new(),
    }
}

/// A value as compact JSON text: `null`, `true`/`false`, a number by its text (for a value
/// read by serde_json, the text serde_json writes for it), a string quoted, lists in
/// brackets and objects in braces with quoted keys, in the order the value holds them.
pub open spec fn json_repr(v: Json) -> Seq<char>
    decreases v, 0nat,
{
    match v {
        Json::Null => "null"@,
        Json::Bool(b) => if b {
            "true"@
        } else {
            "false"@
        },
        Json::Number(n) => n@,
        Json::Str(s) => json_quoted(s@),
        Json::Array(a) => "["@ + json_list(a@) + "]"@,
        Json::Object(m) => "{"@ + json_entries(m@) + "}"@,
    }
}

/// The items of a list as compact JSON, separated by ",".
pub open spec fn json_list(a: Seq<Json>) -> Seq<char>
    decreases a, 1nat,
{
    if a.len() == 0 {
        Seq::empty()
    } else if a.len() == 1 {
        json_repr(a[0])
    } else {
        json_list(a.subrange(0, a.len() - 1)) + ","@ + json_repr(a[a.len() - 1])
    }
}

/// The entries of an object as compact JSON: `"key":value`, separated by ",".
pub open spec fn json_entries(m: Seq<(String, Json)>) -> Seq<char>
    decreases m, 1nat,
{
    if m.len() == 0 {
        Seq::empty()
    } else if m.len() == 1 {
        json_quoted(m[0].0@) + ":"@ + json_repr(m[0].1)
    } else {
        json_entries(m.subrange(0, m.len() - 1)) + ","@ + json_quoted(m[m.len() - 1].0@) + ":"@ + json_repr(
            m[m.len() - 1].1,
        )
    }
}

/// Writes a value as compact JSON text.
pub fn json_text(v: &Json) -> (r: String)
    ensures
        r@ == json_repr(*v),
    decreases *v, 0nat,
{
    match v {
        Json::Null => "null".to_owned(),
        Json::Bool(b) => if *b {
            "true".to_owned()
        } else {
            "false".to_owned()
        },
        Json::Number(n) => n.clone(),
        Json::Str(s) => quote_json(s.as_str()),
        Json::Array(a) => {
            let mut r = "[".to_owned();
            let body = json_list_text(a, a.len());
            assert(a@.subrange(0, a@.len() as int) == a@);
            r.append(body.as_str());
            r.append("]");
            r
        },
        Json::Object(m) => {
            let mut r = "{".to_owned();
            let body = json_entries_text(m, m.len());
            assert(m@.subrange(0, m@.len() as int) == m@);
            r.append(body.as_str());
            r.append("}");
            r
        },
    }
}

/// The first `n` items of a list as compact JSON, separated by ",".
fn json_list_text(a: &Vec<Json>, n: usize) -> (r: String)
    requires
        n <= a@.len(),
    ensures
        r@ == json_list(a@.subrange(0, n as int)),
    decreases a@, 1nat, n,
{
    let ghost s = a@.subrange(0, n as int);
    if n == 0 {
        String::new()
    } else if n == 1 {
        assert(s[0] == a@[0]);
        json_text(&a[0])
    } else {
        assert(s.subrange(0, n - 1) == a@.subrange(0, n - 1));
        assert(s[n - 1] == a@[n - 1]);
        let mut r = json_list_text(a, n - 1);
        r.append(",");
        let last = json_text(&a[n - 1]);
        r.append(last.as_str());
        r
    }
}

/// The first `n` entries of an object as compact JSON, separated by ",".
fn json_entries_text(m: &Vec<(String, Json)>, n: usize) -> (r: String)
    requires
        n <= m@.len(),
    ensures
        r@ == json_entries(m@.subrange(0, n as int)),
    decreases m@, 1nat, n,
{
    let ghost s = m@.subrange(0, n as int);
    if n == 0 {
        String::new()
    } else {
        assert(s.subrange(0, n - 1) == m@.subrange(0, n - 1));
        assert(s[n - 1] == m@[n - 1]);
        let mut r = if n == 1 {
            String::new()
        } else {
            let mut p = json_entries_text(m, n - 1);
            p.append(",");
            p
        };
        let k = quote_json(m[n - 1].0.as_str());
        r.append(k.as_str());
        r.append(":");
        let v = json_text(&m[n - 1].1);
        r.append(v.as_str());
        r
    }
}

} // verus!
