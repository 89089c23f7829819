//! Decoded JSON values, their mathematical model, and the narrowing accessors.

use vstd::prelude::*;
use vstd::string::StrSliceExecFns;
use vstd::std_specs::iter::IteratorSpec;
use crate::args::join;
use crate::render::{decimal, decimal_chars};
use crate::text::string_of;
use crate::parser::{JsonErrorKind, Machine, entries_wf, init_state, lemma_run_done, parse_result, run, wf};

verus! {

/// The mathematical model of a decoded JSON value.
///
/// A float is kept as the text of its literal (always digits, a dot, digits),
/// an object as its entries in order of first appearance.
pub enum JValue {
    Str(Seq<char>),
    Int(int),
    Float(Seq<char>),
    Bool(bool),
    Null,
    Array(Seq<JValue>),
    Object(Seq<(Seq<char>, JValue)>),
}

/// A decoded JSON value.
#[derive(Debug, PartialEq)]
pub enum JsonValue {
    Str(String),
    Int(i128),
    /// The literal text of a number that held a decimal point, e.g. `42.0`.
    Float(String),
    Bool(bool),
    Null,
    Array(Vec<JsonValue>),
    Object(JsonObject),
}

/// A JSON object: entries in order of first appearance, each key at most once.
#[derive(Debug, PartialEq)]
pub struct JsonObject {
    pub entries: Vec<(String, JsonValue)>,
}

/// Returned by an accessor asked for a kind of value that is not there.
#[derive(Clone, Copy, Debug, PartialEq, Eq)]
pub struct TypeMismatch;

/// Index of the last entry among the first `n` whose key is `k`, or -1.
pub open spec fn key_pos_in(es: Seq<(Seq<char>, JValue)>, k: Seq<char>, n: int) -> int
    decreases n,
{
    if n <= 0 {
        -1
    } else if es[n - 1].0 == k {
        n - 1
    } else {
        key_pos_in(es, k, n - 1)
    }
}

pub open spec fn key_pos(es: Seq<(Seq<char>, JValue)>, k: Seq<char>) -> int {
    key_pos_in(es, k, es.len() as int)
}

/// Setting a key: an existing entry with that key takes the new value in
/// place, otherwise the entry is appended (the last write wins).
pub open spec fn obj_insert(es: Seq<(Seq<char>, JValue)>, k: Seq<char>, v: JValue) -> Seq<(Seq<char>, JValue)> {
    let p = key_pos(es, k);
    if p >= 0 {
        es.update(p, (k, v))
    } else {
        es.push((k, v))
    }
}

/// The value stored under `k`, if any.
pub open spec fn obj_get(es: Seq<(Seq<char>, JValue)>, k: Seq<char>) -> Option<JValue> {
    let p = key_pos(es, k);
    if p >= 0 {
        Some(es[p].1)
    } else {
        None
    }
}

/// No key occurs twice.
pub open spec fn keys_unique(es: Seq<(Seq<char>, JValue)>) -> bool {
    forall|i: int, j: int| 0 <= i < j < es.len() ==> es[i].0 != es[j].0
}

/// The tag that names the kind of a value.
pub open spec fn type_tag(v: JValue) -> Seq<char> {
    match v {
        JValue::Str(_) => "string"@,
        JValue::Int(_) => "int"@,
        JValue::Float(_) => "float"@,
        JValue::Bool(_) => "bool"@,
        JValue::Null => "null"@,
        JValue::Array(_) => "array"@,
        JValue::Object(_) => "object"@,
    }
}

pub open spec fn values_view(s: Seq<JsonValue>) -> Seq<JValue> {
    Seq::new(s.len(), |i: int| s[i]@)
}

pub open spec fn entries_view(s: Seq<(String, JsonValue)>) -> Seq<(Seq<char>, JValue)> {
    Seq::new(s.len(), |i: int| (s[i].0@, s[i].1@))
}

impl JsonValue {
    pub open spec fn view(self) -> JValue
        decreases self,
    {
        match self {
            JsonValue::Str(s) => JValue::Str(s@),
            JsonValue::Int(i) => JValue::Int(i as int),
            JsonValue::Float(s) => JValue::Float(s@),
            JsonValue::Bool(b) => JValue::Bool(b),
            JsonValue::Null => JValue::Null,
            JsonValue::Array(v) => JValue::Array(
                Seq::new(
                    v@.len(),
                    |i: int|
                        if 0 <= i < v@.len() {
                            v@[i].view()
                        } else {
                            JValue::Null
                        },
                ),
            ),
            JsonValue::Object(o) => JValue::Object(o.view()),
        }
    }

    /// The tag that names this value's kind: `"string"`, `"int"`, `"float"`,
    /// `"bool"`, `"null"`, `"array"` or `"object"`.
    pub fn type_of(&self) -> (r: &'static str)
        ensures
            r@ == type_tag(self@),
    {
        match self {
            JsonValue::Str(_) => "string",
            JsonValue::Int(_) => "int",
            JsonValue::Float(_) => "float",
            JsonValue::Bool(_) => "bool",
            JsonValue::Null => "null",
            JsonValue::Array(_) => "array",
            JsonValue::Object(_) => "object",
        }
    }

    /// A copy of this value, equal to it in every part.
    pub fn deep_copy(&self) -> (r: JsonValue)
        ensures
            r@ == self@,
        decreases self,
    {
        match self {
            JsonValue::Str(s) => JsonValue::Str(s.clone()),
            JsonValue::Int(i) => JsonValue::Int(*i),
            JsonValue::Float(s) => JsonValue::Float(s.clone()),
            JsonValue::Bool(b) => JsonValue::Bool(*b),
            JsonValue::Null => JsonValue::Null,
            JsonValue::Array(v) => {
                let out = copy_values(v);
                let r = JsonValue::Array(out);
                proof {
                    assert(r@->Array_0 =~= self@->Array_0);
                }
                r
            },
            JsonValue::Object(o) => JsonValue::Object(o.deep_copy()),
        }
    }

    pub fn get_str(&self) -> (r: Result<String, TypeMismatch>)
        ensures
            r is Ok <==> self@ is Str,
            r is Ok ==> r->Ok_0@ == self@->Str_0,
    {
        match self {
            JsonValue::Str(s) => Ok(s.clone()),
            _ => Err(TypeMismatch),
        }
    }

    pub fn get_int(&self) -> (r: Result<i128, TypeMismatch>)
        ensures
            r is Ok <==> self@ is Int,
            r is Ok ==> r->Ok_0 as int == self@->Int_0,
    {
        match self {
            JsonValue::Int(i) => Ok(*i),
            _ => Err(TypeMismatch),
        }
    }

    /// The literal text of a float, e.g. `"6752.88"`.
    pub fn get_float(&self) -> (r: Result<String, TypeMismatch>)
        ensures
            r is Ok <==> self@ is Float,
            r is Ok ==> r->Ok_0@ == self@->Float_0,
    {
        match self {
            JsonValue::Float(s) => Ok(s.clone()),
            _ => Err(TypeMismatch),
        }
    }

    pub fn get_bool(&self) -> (r: Result<bool, TypeMismatch>)
        ensures
            r is Ok <==> self@ is Bool,
            r is Ok ==> r->Ok_0 == self@->Bool_0,
    {
        match self {
            JsonValue::Bool(b) => Ok(*b),
            _ => Err(TypeMismatch),
        }
    }

    pub fn get_null(&self) -> (r: Result<(), TypeMismatch>)
        ensures
            r is Ok <==> self@ is Null,
    {
        match self {
            JsonValue::Null => Ok(()),
            _ => Err(TypeMismatch),
        }
    }

    pub fn get_array(&self) -> (r: Result<Vec<JsonValue>, TypeMismatch>)
        ensures
            r is Ok <==> self@ is Array,
            r is Ok ==> values_view(r->Ok_0@) == self@->Array_0,
    {
        match self {
            JsonValue::Array(v) => {
                let out = copy_values(v);
                proof {
                    assert(values_view(out@) =~= self@->Array_0);
                }
                Ok(out)
            },
            _ => Err(TypeMismatch),
        }
    }

    pub fn get_object(&self) -> (r: Result<JsonObject, TypeMismatch>)
        ensures
            r is Ok <==> self@ is Object,
            r is Ok ==> r->Ok_0@ == self@->Object_0,
    {
        match self {
            JsonValue::Object(o) => Ok(o.deep_copy()),
            _ => Err(TypeMismatch),
        }
    }
}

fn copy_values(v: &Vec<JsonValue>) -> (r: Vec<JsonValue>)
    ensures
        r@.len() == v@.len(),
        forall|j: int| 0 <= j < v@.len() ==> r@[j]@ == v@[j]@,
    decreases v,
{
    let mut out: Vec<JsonValue> = Vec::new();
    let mut i: usize = 0;
    while i < v.len()
        invariant
            i <= v@.len(),
            out@.len() == i,
            forall|j: int| 0 <= j < i ==> out@[j]@ == v@[j]@,
        decreases v@.len() - i,
    {
        proof {
            assert(decreases_to!(v => v@[i as int]));
        }
        let x = v[i].deep_copy();
        out.push(x);
        i = i + 1;
    }
    out
}

impl JsonObject {
    pub open spec fn view(self) -> Seq<(Seq<char>, JValue)>
        decreases self,
    {
        Seq::new(
            self.entries@.len(),
            |i: int|
                if 0 <= i < self.entries@.len() {
                    (self.entries@[i].0@, self.entries@[i].1.view())
                } else {
                    (Seq::empty(), JValue::Null)
                },
        )
    }

    pub fn new() -> (r: JsonObject)
        ensures
            r@ == Seq::<(Seq<char>, JValue)>::empty(),
    {
        let r = JsonObject { entries: Vec::new() };
        proof {
            assert(r@ =~= Seq::<(Seq<char>, JValue)>::empty());
        }
        r
    }

    pub fn len(&self) -> (r: usize)
        ensures
            r == self@.len(),
    {
        self.entries.len()
    }

    /// Sets `key` to `value`; a key that is already there keeps its place and
    /// takes the new value.
    pub fn insert(&mut self, key: String, value: JsonValue)
        ensures
            final(self)@ == obj_insert(old(self)@, key@, value@),
    {
        let ghost es = self@;
        let mut i = self.entries.len();
        while i > 0
            invariant
                i <= self.entries@.len(),
                self@ == es,
                old(self)@ == es,
                key_pos(es, key@) == key_pos_in(es, key@, i as int),
            decreases i,
        {
            proof {
                assert(es[i - 1].0 == self.entries@[i - 1].0@);
            }
            if self.entries[i - 1].0 == key {
                let ghost kv = key@;
                let ghost vv = value@;
                proof {
                    assert(key_pos(es, kv) == i - 1);
                }
                self.entries.set(i - 1, (key, value));
                proof {
                    assert(self@ =~= es.update(i - 1, (kv, vv)));
                }
                return;
            }
            i = i - 1;
        }
        let ghost kv = key@;
        let ghost vv = value@;
        self.entries.push((key, value));
        proof {
            assert(self@ =~= es.push((kv, vv)));
        }
    }

    /// The value stored under `key`, if any.
    pub fn get(&self, key: &str) -> (r: Option<&JsonValue>)
        ensures
            match obj_get(self@, key@) {
                Some(v) => r is Some && r->Some_0@ == v,
                None => r is None,
            },
    {
        let wanted = key.to_owned();
        let mut i = self.entries.len();
        while i > 0
            invariant
                i <= self.entries@.len(),
                wanted@ == key@,
                key_pos(self@, key@) == key_pos_in(self@, key@, i as int),
            decreases i,
        {
            proof {
                assert(self@[i - 1].0 == self.entries@[i - 1].0@);
            }
            if self.entries[i - 1].0 == wanted {
                return Some(&self.entries[i - 1].1);
            }
            i = i - 1;
        }
        None
    }

    pub fn deep_copy(&self) -> (r: JsonObject)
        ensures
            r@ == self@,
        decreases self,
    {
        let mut out: Vec<(String, JsonValue)> = Vec::new();
        let mut i: usize = 0;
        while i < self.entries.len()
            invariant
                i <= self.entries@.len(),
                out@.len() == i,
                forall|j: int| 0 <= j < i ==> out@[j].0@ == self.entries@[j].0@ && out@[j].1@ == self.entries@[j].1@,
            decreases self.entries@.len() - i,
        {
            proof {
                assert(decreases_to!(self => self.entries@[i as int].1));
            }
            let k = self.entries[i].0.clone();
            let v = self.entries[i].1.deep_copy();
            out.push((k, v));
            i = i + 1;
        }
        let r = JsonObject { entries: out };
        proof {
            assert(r@ =~= self@);
        }
        r
    }
}

/// Why a text was not accepted: the kind of fault, the index (in characters)
/// where it was found, and the character there (none when the text ended too
/// early).
#[derive(Clone, Copy, Debug, PartialEq, Eq)]
pub struct JsonError {
    pub kind: JsonErrorKind,
    pub offset: usize,
    pub found: Option<char>,
}

pub open spec fn kind_text(k: JsonErrorKind) -> Seq<char> {
    match k {
        JsonErrorKind::InvalidCharacter => "invalid character"@,
        JsonErrorKind::Incomplete => "text ended before the object was closed"@,
        JsonErrorKind::StructuralMismatch => "misplaced or mismatched structural character"@,
        JsonErrorKind::NumberFormat => "malformed number"@,
        JsonErrorKind::BoolOrNullFormat => "malformed true, false or null"@,
    }
}

impl JsonError {
    /// A description of the fault and the index where it was found.
    pub fn message(&self) -> (r: String)
        ensures
            r@ == kind_text(self.kind) + " at char "@ + decimal(self.offset as nat),
    {
        let k = match self.kind {
            JsonErrorKind::InvalidCharacter => "invalid character",
            JsonErrorKind::Incomplete => "text ended before the object was closed",
            JsonErrorKind::StructuralMismatch => "misplaced or mismatched structural character",
            JsonErrorKind::NumberFormat => "malformed number",
            JsonErrorKind::BoolOrNullFormat => "malformed true, false or null",
        };
        let s = join(k, " at char ");
        let digits = string_of(&decimal_chars(self.offset as u64));
        join(s.as_str(), digits.as_str())
    }
}

pub open spec fn one_if(b: bool) -> int {
    if b {
        1
    } else {
        0
    }
}

/// Every value is of exactly one kind, so exactly one of the accessors
/// (`get_str`, `get_int`, `get_float`, `get_bool`, `get_null`, `get_array`,
/// `get_object`) succeeds on it and the others report a mismatch.
pub proof fn lemma_exactly_one_kind(v: JValue)
    ensures
        one_if(v is Str) + one_if(v is Int) + one_if(v is Float) + one_if(v is Bool) + one_if(v is Null)
            + one_if(v is Array) + one_if(v is Object) == 1,
{
}

/// Parses a text whose first significant character opens an object, and
/// returns that object's entries. Characters after the object's closing brace
/// are ignored.
pub fn parse(text: &str) -> (r: Result<JsonObject, JsonError>)
    ensures
        match parse_result(text@) {
            Ok(es) => r is Ok && r->Ok_0@ == es && entries_wf(es),
            Err((k, i)) => r is Err && r->Err_0.kind == k && r->Err_0.offset == i && r->Err_0.found == (if i
                < text@.len() {
                Some(text@[i])
            } else {
                None::<char>
            }),
        },
{
    broadcast use vstd::string::group_string_axioms;

    let n = text.unicode_len();
    let mut m = Machine::new();
    let mut it = text.chars();
    let mut i: usize = 0;
    proof {
        assert(text@.subrange(0, n as int) =~= text@);
    }
    while i < n && !m.is_done()
        invariant
            n == text@.len(),
            i <= n,
            it.remaining() == text@.subrange(i as int, n as int),
            wf(m@),
            run(init_state(), text@, 0) == run(m@, text@, i as int),
        decreases n - i,
    {
        let ghost before = it.remaining();
        let next = it.next();
        proof {
            assert(before[0] == text@[i as int]);
        }
        let c = next.unwrap();
        match m.step(c) {
            Ok(()) => {},
            Err(k) => {
                return Err(JsonError { kind: k, offset: i, found: Some(c) });
            },
        }
        i = i + 1;
        proof {
            assert(it.remaining() =~= text@.subrange(i as int, n as int));
        }
    }
    proof {
        if m@.mode == crate::parser::Mode::Done {
            lemma_run_done(m@, text@, i as int);
        }
    }
    if m.is_done() {
        Ok(m.into_root())
    } else {
        Err(JsonError { kind: JsonErrorKind::Incomplete, offset: n, found: None })
    }
}

} // verus!
