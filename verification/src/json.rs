//! JSON documents: the tree the control protocol is read from and written to,
//! its lookups, and its compact text.

use vstd::prelude::*;

use crate::text::{push_dec, same_text};

verus! {

/// A JSON value. Object entries are in key order.
pub enum Json {
    Null,
    Bool(bool),
    /// A non-negative integer.
    Uint(u64),
    /// A negative integer.
    Int(i64),
    /// Any other number, as its text.
    Float(String),
    Str(String),
    Arr(Vec<Json>),
    Obj(Vec<(String, Json)>),
}

/// The value a [`Json`] stands for.
#[verifier::ext_equal]
pub enum JsonV {
    Null,
    Bool(bool),
    Uint(u64),
    Int(i64),
    Float(Seq<char>),
    Str(Seq<char>),
    Arr(Seq<JsonV>),
    Obj(Seq<(Seq<char>, JsonV)>),
}

/// The value of `j`.
pub open spec fn tree(j: Json) -> JsonV
    decreases j,
{
    match j {
        Json::Null => JsonV::Null,
        Json::Bool(b) => JsonV::Bool(b),
        Json::Uint(n) => JsonV::Uint(n),
        Json::Int(n) => JsonV::Int(n),
        Json::Float(s) => JsonV::Float(s@),
        Json::Str(s) => JsonV::Str(s@),
        Json::Arr(v) => JsonV::Arr(
            Seq::new(
                v@.len(),
                |i: int|
                    if 0 <= i < v@.len() {
                        tree(v@[i])
                    } else {
                        JsonV::Null
                    },
            ),
        ),
        Json::Obj(v) => JsonV::Obj(
            Seq::new(
                v@.len(),
                |i: int|
                    if 0 <= i < v@.len() {
                        (v@[i].0@, tree(v@[i].1))
                    } else {
                        (seq![], JsonV::Null)
                    },
            ),
        ),
    }
}

impl View for Json {
    type V = JsonV;

    open spec fn view(&self) -> JsonV {
        tree(*self)
    }
}

/// A value read by serde_json.
#[verifier::external_type_specification]
#[verifier::external_body]
pub struct ExValue(serde_json::Value);

/// The tree a `serde_json::Value` holds: its scalars, array items in order and
/// object entries in the map's order.
pub uninterp spec fn value_tree(v: serde_json::Value) -> JsonV;

/// What `serde_json::from_str` reads from a text; `None` where the text is not
/// one JSON document.
pub uninterp spec fn json_of(text: Seq<char>) -> Option<JsonV>;

/// The message of the error `serde_json::from_str` reports for a text.
pub uninterp spec fn json_error(text: Seq<char>) -> Seq<char>;

/// One level of a value: its scalar, or its children still to be read.
pub enum Level {
    Null,
    Bool(bool),
    Uint(u64),
    Int(i64),
    Float(String),
    Str(String),
    Arr(Vec<serde_json::Value>),
    Obj(Vec<(String, serde_json::Value)>),
}

/// The tree of a level, over the trees of its children.
pub open spec fn level_tree(l: Level) -> JsonV {
    match l {
        Level::Null => JsonV::Null,
        Level::Bool(b) => JsonV::Bool(b),
        Level::Uint(n) => JsonV::Uint(n),
        Level::Int(n) => JsonV::Int(n),
        Level::Float(s) => JsonV::Float(s@),
        Level::Str(s) => JsonV::Str(s@),
        Level::Arr(v) => JsonV::Arr(Seq::new(v@.len(), |i: int| value_tree(v@[i]))),
        Level::Obj(v) => JsonV::Obj(
            Seq::new(v@.len(), |i: int| (v@[i].0@, value_tree(v@[i].1))),
        ),
    }
}

/// `serde_json::from_str`: a value whose tree is what the text says, or the
/// message of the error.
#[verifier::external_body]
fn value_from_str(text: &str) -> (r: Result<serde_json::Value, String>)
    ensures
        match r {
            Ok(v) => json_of(text@) == Some(value_tree(v)),
            Err(m) => json_of(text@) is None && m@ == json_error(text@),
        },
{
    match serde_json::from_str::<serde_json::Value>(text) {
        Ok(v) => Ok(v),
        Err(e) => Err(e.to_string()),
    }
}

/// Takes a `serde_json::Value` apart by one level: the variant it is, its
/// scalar or its children. A number is the unsigned or signed integer it
/// holds, or else its text.
#[verifier::external_body]
fn value_level(v: serde_json::Value) -> (l: Level)
    ensures
        level_tree(l) == value_tree(v),
{
    match v {
        serde_json::Value::Null => Level::Null,
        serde_json::Value::Bool(b) => Level::Bool(b),
        serde_json::Value::Number(n) => match (n.as_u64(), n.as_i64()) {
            (Some(u), _) => Level::Uint(u),
            (None, Some(i)) => Level::Int(i),
            (None, None) => Level::Float(n.to_string()),
        },
        serde_json::Value::String(s) => Level::Str(s),
        serde_json::Value::Array(a) => Level::Arr(a),
        serde_json::Value::Object(m) => Level::Obj(m.into_iter().collect()),
    }
}

/// A hexadecimal digit, in lower case.
pub open spec fn hex_char(n: int) -> char {
    if n < 10 {
        ('0' as int + n) as char
    } else {
        ('a' as int + n - 10) as char
    }
}

/// A character as it stands in a JSON string literal.
pub open spec fn escaped(c: char) -> Seq<char> {
    if c == '"' || c == '\\' {
        seq!['\\', c]
    } else if c as int == 0x08 {
        seq!['\\', 'b']
    } else if c as int == 0x09 {
        seq!['\\', 't']
    } else if c as int == 0x0A {
        seq!['\\', 'n']
    } else if c as int == 0x0C {
        seq!['\\', 'f']
    } else if c as int == 0x0D {
        seq!['\\', 'r']
    } else if (c as int) < 0x20 {
        seq!['\\', 'u', '0', '0', hex_char(c as int / 16), hex_char(c as int % 16)]
    } else {
        seq![c]
    }
}

/// The characters of a text as they stand in a JSON string literal.
pub open spec fn all_escaped(text: Seq<char>) -> Seq<char>
    decreases text.len(),
{
    if text.len() == 0 {
        seq![]
    } else {
        all_escaped(text.drop_last()) + escaped(text.last())
    }
}

/// The JSON string literal for a text.
pub open spec fn json_quoted(text: Seq<char>) -> Seq<char> {
    seq!['"'] + all_escaped(text) + seq!['"']
}

/// The text of `serde_json::Value::String`: the text between quotes, with
/// quotes, backslashes and the characters below the space escaped.
#[verifier::external_body]
fn quote(text: &str) -> (r: String)
    ensures
        r@ == json_quoted(text@),
{
    serde_json::Value::String(text.to_owned()).to_string()
}

/// The tree of a read value.
#[verifier::loop_isolation(false)]
fn from_value(v: serde_json::Value) -> (j: Json)
    ensures
        j@ == value_tree(v),
    decreases value_tree(v),
{
    let ghost whole = value_tree(v);
    match value_level(v) {
        Level::Null => Json::Null,
        Level::Bool(b) => Json::Bool(b),
        Level::Uint(n) => Json::Uint(n),
        Level::Int(n) => Json::Int(n),
        Level::Float(s) => Json::Float(s),
        Level::Str(s) => Json::Str(s),
        Level::Arr(items) => {
            let ghost all = items@;
            let mut rest = items;
            let mut back: Vec<Json> = Vec::new();
            while rest.len() > 0
                invariant
                    rest@.len() + back@.len() == all.len(),
                    rest@ == all.subrange(0, rest@.len() as int),
                    whole == JsonV::Arr(Seq::new(all.len(), |i: int| value_tree(all[i]))),
                    forall|k: int|
                        0 <= k < back@.len() ==> (#[trigger] back@[k])@ == value_tree(
                            all[all.len() - 1 - k],
                        ),
                decreases rest@.len(),
            {
                let ghost n = rest@.len() as int;
                match rest.pop() {
                    Some(item) => {
                        proof {
                            assert(item == all[n - 1]);
                            assert(whole->Arr_0[n - 1] == value_tree(item));
                            assert(decreases_to!(whole => whole->Arr_0));
                            assert(decreases_to!(whole->Arr_0 => whole->Arr_0[n - 1]));
                        }
                        back.push(from_value(item));
                        assert(rest@ =~= all.subrange(0, rest@.len() as int));
                    },
                    None => {},
                }
            }
            let ghost backs = back@;
            let out = reversed(back);
            assert forall|i: int| 0 <= i < all.len() implies tree(#[trigger] out@[i])
                == value_tree(all[i]) by {
                assert(out@[i] == backs[all.len() - 1 - i]);
                assert(backs[all.len() - 1 - i]@ == value_tree(all[i]));
            }
            assert(Json::Arr(out)@->Arr_0 =~= whole->Arr_0);
            Json::Arr(out)
        },
        Level::Obj(items) => {
            let ghost all = items@;
            let mut rest = items;
            let mut back: Vec<(String, Json)> = Vec::new();
            while rest.len() > 0
                invariant
                    rest@.len() + back@.len() == all.len(),
                    rest@ == all.subrange(0, rest@.len() as int),
                    whole == JsonV::Obj(
                        Seq::new(all.len(), |i: int| (all[i].0@, value_tree(all[i].1))),
                    ),
                    forall|k: int|
                        0 <= k < back@.len() ==> (#[trigger] back@[k]).1@ == value_tree(
                            all[all.len() - 1 - k].1,
                        ) && back@[k].0@ == all[all.len() - 1 - k].0@,
                decreases rest@.len(),
            {
                let ghost n = rest@.len() as int;
                match rest.pop() {
                    Some((key, item)) => {
                        proof {
                            assert((key, item) == all[n - 1]);
                            assert(whole->Obj_0[n - 1] == (key@, value_tree(item)));
                            assert(decreases_to!(whole => whole->Obj_0));
                            assert(decreases_to!(whole->Obj_0 => whole->Obj_0[n - 1]));
                            assert(decreases_to!(whole->Obj_0[n - 1] => whole->Obj_0[n - 1].1));
                        }
                        back.push((key, from_value(item)));
                        assert(rest@ =~= all.subrange(0, rest@.len() as int));
                    },
                    None => {},
                }
            }
            let ghost backs = back@;
            let out = reversed(back);
            assert forall|i: int| 0 <= i < all.len() implies tree((#[trigger] out@[i]).1)
                == value_tree(all[i].1) && out@[i].0@ == all[i].0@ by {
                assert(out@[i] == backs[all.len() - 1 - i]);
                assert(backs[all.len() - 1 - i].1@ == value_tree(all[i].1));
            }
            assert(Json::Obj(out)@->Obj_0 =~= whole->Obj_0);
            Json::Obj(out)
        },
    }
}

/// The items in the other order.
pub fn reversed<T>(v: Vec<T>) -> (out: Vec<T>)
    ensures
        out@ == v@.reverse(),
{
    let ghost all = v@;
    let mut rest = v;
    let mut out: Vec<T> = Vec::new();
    while rest.len() > 0
        invariant
            rest@.len() + out@.len() == all.len(),
            rest@ == all.subrange(0, rest@.len() as int),
            forall|k: int| 0 <= k < out@.len() ==> out@[k] == all[all.len() - 1 - k],
        decreases rest@.len(),
    {
        match rest.pop() {
            Some(item) => {
                out.push(item);
                assert(rest@ =~= all.subrange(0, rest@.len() as int));
            },
            None => {},
        }
    }
    assert(out@ =~= all.reverse());
    out
}

/// Read a JSON document.
pub fn parse_json(text: &str) -> (r: Result<Json, String>)
    ensures
        match r {
            Ok(j) => json_of(text@) == Some(j@),
            Err(m) => json_of(text@) is None && m@ == json_error(text@),
        },
{
    match value_from_str(text) {
        Ok(v) => Ok(from_value(v)),
        Err(m) => Err(m),
    }
}

/// The first entry under `key` from entry `i` on.
pub open spec fn entry_from(s: Seq<(Seq<char>, JsonV)>, key: Seq<char>, i: int) -> Option<JsonV>
    decreases s.len() - i,
{
    if i < 0 || i >= s.len() {
        None
    } else if s[i].0 == key {
        Some(s[i].1)
    } else {
        entry_from(s, key, i + 1)
    }
}

/// The entry of an object under `key`.
pub open spec fn field(v: JsonV, key: Seq<char>) -> Option<JsonV> {
    match v {
        JsonV::Obj(s) => entry_from(s, key, 0),
        _ => None,
    }
}

/// The entry of an object under `key`; null where there is none.
pub open spec fn at(v: JsonV, key: Seq<char>) -> JsonV {
    match field(v, key) {
        Some(x) => x,
        None => JsonV::Null,
    }
}

/// The items of an array; none where `v` is no array.
pub open spec fn items(v: JsonV) -> Seq<JsonV> {
    match v {
        JsonV::Arr(s) => s,
        _ => seq![],
    }
}

/// The unsigned number under `key`; 0 where there is none.
pub open spec fn num(v: JsonV, key: Seq<char>) -> u64 {
    match at(v, key) {
        JsonV::Uint(n) => n,
        _ => 0,
    }
}

/// The string `v` is, or `other`.
pub open spec fn text_or(v: JsonV, other: Seq<char>) -> Seq<char> {
    match v {
        JsonV::Str(s) => s,
        _ => other,
    }
}

/// What an optional reference stands for: null where there is nothing.
pub open spec fn opt(o: Option<&Json>) -> JsonV {
    match o {
        Some(j) => j@,
        None => JsonV::Null,
    }
}

impl Json {
    /// The entry of an object under `key`.
    pub fn get(&self, key: &str) -> (r: Option<&Json>)
        ensures
            match r {
                Some(j) => field(self@, key@) == Some(j@),
                None => field(self@, key@) is None,
            },
    {
        match self {
            Json::Obj(v) => {
                let mut i: usize = 0;
                while i < v.len()
                    invariant
                        i <= v@.len(),
                        *self == Json::Obj(*v),
                        field(self@, key@) == entry_from(self@->Obj_0, key@, i as int),
                    decreases v@.len() - i,
                {
                    assert(self@->Obj_0[i as int] == (v@[i as int].0@, v@[i as int].1@));
                    if same_text(v[i].0.as_str(), key) {
                        return Some(&v[i].1);
                    }
                    i += 1;
                }
                None
            },
            _ => None,
        }
    }

    /// Whether the value is an object.
    pub fn is_object(&self) -> (b: bool)
        ensures
            b == (self@ is Obj),
    {
        matches!(self, Json::Obj(_))
    }
}

/// The entry under `key` of what `o` refers to.
pub fn child<'a>(o: Option<&'a Json>, key: &str) -> (r: Option<&'a Json>)
    ensures
        opt(r) == at(opt(o), key@),
{
    match o {
        Some(j) => j.get(key),
        None => None,
    }
}

/// The number under `key` of what `o` refers to, 0 where there is none.
pub fn number(o: Option<&Json>, key: &str) -> (n: u64)
    ensures
        n == num(opt(o), key@),
{
    match child(o, key) {
        Some(Json::Uint(n)) => *n,
        _ => 0,
    }
}

/// The string `o` refers to, or `other`.
pub fn string_or<'a>(o: Option<&'a Json>, other: &'a str) -> (s: &'a str)
    ensures
        s@ == text_or(opt(o), other@),
{
    match o {
        Some(Json::Str(s)) => s.as_str(),
        _ => other,
    }
}

/// How many items the array that `o` refers to has.
pub fn count(o: Option<&Json>) -> (n: usize)
    ensures
        n == items(opt(o)).len(),
{
    match o {
        Some(Json::Arr(v)) => v.len(),
        _ => 0,
    }
}

/// Item `i` of the array that `o` refers to.
pub fn item<'a>(o: Option<&'a Json>, i: usize) -> (r: Option<&'a Json>)
    requires
        i < items(opt(o)).len(),
    ensures
        r is Some,
        opt(r) == items(opt(o))[i as int],
{
    match o {
        Some(Json::Arr(v)) => Some(&v[i]),
        _ => None,
    }
}

/// The text of a number that is zero and no integer.
pub open spec fn zero_text(t: Seq<char>) -> bool {
    t == "0.0"@ || t == "-0.0"@
}

/// The two values are equal; the two zeros that are no integers are one number.
pub open spec fn alike(a: JsonV, b: JsonV) -> bool
    decreases a,
{
    match (a, b) {
        (JsonV::Float(x), JsonV::Float(y)) => x == y || (zero_text(x) && zero_text(y)),
        (JsonV::Arr(x), JsonV::Arr(y)) => x.len() == y.len() && forall|i: int|
            0 <= i < x.len() ==> alike(#[trigger] x[i], y[i]),
        (JsonV::Obj(x), JsonV::Obj(y)) => x.len() == y.len() && forall|i: int|
            0 <= i < x.len() ==> (#[trigger] x[i]).0 == y[i].0 && alike(x[i].1, y[i].1),
        _ => a == b,
    }
}

fn is_zero_text(t: &str) -> (b: bool)
    ensures
        b == zero_text(t@),
{
    same_text(t, "0.0") || same_text(t, "-0.0")
}

/// Whether two values are equal.
pub fn same(a: &Json, b: &Json) -> (r: bool)
    ensures
        r == alike(a@, b@),
    decreases *a,
{
    match (a, b) {
        (Json::Null, Json::Null) => true,
        (Json::Bool(x), Json::Bool(y)) => *x == *y,
        (Json::Uint(x), Json::Uint(y)) => *x == *y,
        (Json::Int(x), Json::Int(y)) => *x == *y,
        (Json::Float(x), Json::Float(y)) => same_text(x.as_str(), y.as_str()) || (is_zero_text(
            x.as_str(),
        ) && is_zero_text(y.as_str())),
        (Json::Str(x), Json::Str(y)) => same_text(x.as_str(), y.as_str()),
        (Json::Arr(x), Json::Arr(y)) => {
            if x.len() != y.len() {
                assert(a@->Arr_0.len() != b@->Arr_0.len());
                return false;
            }
            let mut i: usize = 0;
            while i < x.len()
                invariant
                    i <= x@.len(),
                    x@.len() == y@.len(),
                    *a == Json::Arr(*x),
                    *b == Json::Arr(*y),
                    forall|k: int| 0 <= k < i ==> alike(#[trigger] a@->Arr_0[k], b@->Arr_0[k]),
                decreases x@.len() - i,
            {
                assert(a@->Arr_0[i as int] == x@[i as int]@);
                assert(b@->Arr_0[i as int] == y@[i as int]@);
                if !same(&x[i], &y[i]) {
                    return false;
                }
                i += 1;
            }
            true
        },
        (Json::Obj(x), Json::Obj(y)) => {
            if x.len() != y.len() {
                assert(a@->Obj_0.len() != b@->Obj_0.len());
                return false;
            }
            let mut i: usize = 0;
            while i < x.len()
                invariant
                    i <= x@.len(),
                    x@.len() == y@.len(),
                    *a == Json::Obj(*x),
                    *b == Json::Obj(*y),
                    forall|k: int| 0 <= k < i ==> (#[trigger] a@->Obj_0[k]).0 == b@->Obj_0[k].0 && alike(
                            a@->Obj_0[k].1,
                            b@->Obj_0[k].1,
                        ),
                decreases x@.len() - i,
            {
                assert(a@->Obj_0[i as int] == (x@[i as int].0@, x@[i as int].1@));
                assert(b@->Obj_0[i as int] == (y@[i as int].0@, y@[i as int].1@));
                if !same_text(x[i].0.as_str(), y[i].0.as_str()) || !same(&x[i].1, &y[i].1) {
                    return false;
                }
                i += 1;
            }
            true
        },
        _ => false,
    }
}

/// Whether two optional references stand for equal values.
pub fn same_opt(a: Option<&Json>, b: Option<&Json>) -> (r: bool)
    ensures
        r == alike(opt(a), opt(b)),
{
    match (a, b) {
        (Some(x), Some(y)) => same(x, y),
        (Some(x), None) => matches!(x, Json::Null),
        (None, Some(y)) => matches!(y, Json::Null),
        (None, None) => true,
    }
}

/// The decimal text of a signed number.
pub open spec fn signed(n: int) -> Seq<char> {
    if n < 0 {
        "-"@ + crate::text::dec((-n) as nat)
    } else {
        crate::text::dec(n as nat)
    }
}

/// The compact text of a value: no spaces, object entries in order.
pub open spec fn compact(v: JsonV) -> Seq<char>
    decreases v, 0int,
{
    match v {
        JsonV::Null => "null"@,
        JsonV::Bool(b) => if b {
            "true"@
        } else {
            "false"@
        },
        JsonV::Uint(n) => crate::text::dec(n as nat),
        JsonV::Int(n) => signed(n as int),
        JsonV::Float(t) => t,
        JsonV::Str(t) => json_quoted(t),
        JsonV::Arr(s) => "["@ + items_text(s, 0) + "]"@,
        JsonV::Obj(s) => "{"@ + entries_text(s, 0) + "}"@,
    }
}

/// The comma-separated texts of the items from `i` on.
pub open spec fn items_text(s: Seq<JsonV>, i: int) -> Seq<char>
    decreases s, s.len() - i,
{
    if i < 0 || i >= s.len() {
        seq![]
    } else {
        (if i > 0 {
            ","@
        } else {
            seq![]
        }) + compact(s[i]) + items_text(s, i + 1)
    }
}

/// The comma-separated texts of the entries from `i` on.
pub open spec fn entries_text(s: Seq<(Seq<char>, JsonV)>, i: int) -> Seq<char>
    decreases s, s.len() - i,
{
    if i < 0 || i >= s.len() {
        seq![]
    } else {
        (if i > 0 {
            ","@
        } else {
            seq![]
        }) + json_quoted(s[i].0) + ":"@ + compact(s[i].1) + entries_text(s, i + 1)
    }
}

/// Append the decimal text of a signed number.
fn push_signed(out: &mut String, n: i64)
    ensures
        final(out)@ == old(out)@ + signed(n as int),
{
    let ghost pre = out@;
    if n < 0 {
        out.append("-");
        let m: u64 = if n == i64::MIN {
            0x8000_0000_0000_0000
        } else {
            (-n) as u64
        };
        push_dec(out, m);
        assert(out@ =~= pre + signed(n as int));
    } else {
        push_dec(out, n as u64);
    }
}

/// Append the compact text of a value.
pub fn push_json(out: &mut String, j: &Json)
    ensures
        final(out)@ == old(out)@ + compact(j@),
    decreases *j,
{
    let ghost pre = out@;
    match j {
        Json::Null => out.append("null"),
        Json::Bool(b) => {
            if *b {
                out.append("true")
            } else {
                out.append("false")
            }
        },
        Json::Uint(n) => push_dec(out, *n),
        Json::Int(n) => push_signed(out, *n),
        Json::Float(t) => out.append(t.as_str()),
        Json::Str(t) => {
            let q = quote(t.as_str());
            out.append(q.as_str())
        },
        Json::Arr(v) => {
            let ghost s = j@->Arr_0;
            out.append("[");
            let mut i: usize = 0;
            assert(pre + "["@ + items_text(s, 0) =~= out@ + items_text(s, 0));
            while i < v.len()
                invariant
                    i <= v@.len(),
                    *j == Json::Arr(*v),
                    s == j@->Arr_0,
                    pre + "["@ + items_text(s, 0) == out@ + items_text(s, i as int),
                decreases v@.len() - i,
            {
                let ghost before = out@;
                assert(s[i as int] == v@[i as int]@);
                if i > 0 {
                    out.append(",");
                }
                push_json(out, &v[i]);
                i += 1;
                assert(before + items_text(s, i - 1) =~= out@ + items_text(s, i as int));
            }
            assert(items_text(s, i as int) =~= seq![]);
            out.append("]");
            assert(out@ =~= pre + compact(j@));
        },
        Json::Obj(v) => {
            let ghost s = j@->Obj_0;
            out.append("{");
            let mut i: usize = 0;
            assert(pre + "{"@ + entries_text(s, 0) =~= out@ + entries_text(s, 0));
            while i < v.len()
                invariant
                    i <= v@.len(),
                    *j == Json::Obj(*v),
                    s == j@->Obj_0,
                    pre + "{"@ + entries_text(s, 0) == out@ + entries_text(s, i as int),
                decreases v@.len() - i,
            {
                let ghost before = out@;
                assert(s[i as int] == (v@[i as int].0@, v@[i as int].1@));
                if i > 0 {
                    out.append(",");
                }
                let q = quote(v[i].0.as_str());
                out.append(q.as_str());
                out.append(":");
                push_json(out, &v[i].1);
                i += 1;
                assert(before + entries_text(s, i - 1) =~= out@ + entries_text(s, i as int));
            }
            assert(entries_text(s, i as int) =~= seq![]);
            out.append("}");
            assert(out@ =~= pre + compact(j@));
        },
    }
}

/// Append the compact text of what `o` refers to.
pub fn push_opt(out: &mut String, o: Option<&Json>)
    ensures
        final(out)@ == old(out)@ + compact(opt(o)),
{
    match o {
        Some(j) => push_json(out, j),
        None => out.append("null"),
    }
}

/// The compact text of a value.
pub fn json_text(j: &Json) -> (s: String)
    ensures
        s@ == compact(j@),
{
    let mut s = String::new();
    push_json(&mut s, j);
    assert(s@ =~= compact(j@));
    s
}

} // verus!
