//! The JSON parser as a state machine over characters.
//!
//! `step` states what one character does to the parser's state; `run` folds
//! it over the input, and `parse_result` is what `json::parse` returns. The
//! executable `Machine` follows `step` exactly, one character at a time, with
//! an explicit stack of open containers (so nesting depth costs heap, never
//! call stack).

use vstd::prelude::*;
use crate::json::{JValue, JsonObject, JsonValue, key_pos, key_pos_in, keys_unique, obj_insert, values_view};
use crate::text::string_of;

verus! {

/// What went wrong, for a text that is not accepted.
#[derive(Clone, Copy, Debug, PartialEq, Eq, Structural)]
pub enum JsonErrorKind {
    /// A character that cannot start a value.
    InvalidCharacter,
    /// The text ended before the outermost object was closed.
    Incomplete,
    /// Brackets that do not match, a missing colon or comma, a misplaced
    /// comma or closer, or a text that does not start with `{`.
    StructuralMismatch,
    /// A second decimal point, a trailing decimal point, a stray character in
    /// a number, or an integer beyond the 128-bit range.
    NumberFormat,
    /// A literal that is not spelled `true`, `false` or `null`.
    BoolOrNullFormat,
}

/// The parser's position in the grammar.
#[derive(Clone, Copy, Debug, PartialEq, Eq, Structural)]
pub enum Mode {
    /// Before the opening brace of the outermost object.
    Start,
    /// Expecting the opening quote of a key (or, if `first`, a `}`).
    KeyStart { first: bool },
    /// Inside a key opened by `quote`.
    InKey { quote: char, escaped: bool },
    /// Expecting the colon after a key.
    Colon,
    /// Expecting a value (or, if `first`, a `]`).
    ValueStart { first: bool },
    /// Inside a string opened by `quote`.
    InStr { quote: char, escaped: bool },
    /// Inside a number; `dot` once a decimal point was read.
    InNum { dot: bool },
    /// Inside `true`, `false` or `null`.
    InLit,
    /// After a complete value: expecting a comma or a closer.
    AfterValue,
    /// The outermost object is closed; the rest of the text is ignored.
    Done,
}

/// An open container: an object with the key now being filled, or an array.
pub enum Frame {
    Obj { entries: Seq<(Seq<char>, JValue)>, key: Seq<char> },
    Arr { items: Seq<JValue> },
}

/// The parser's whole state: mode, open containers (outermost first), the
/// characters of the token being read, and the result once done.
pub struct PState {
    pub mode: Mode,
    pub frames: Seq<Frame>,
    pub buf: Seq<char>,
    pub root: Seq<(Seq<char>, JValue)>,
}

/// Insignificant between tokens: a space or a control character (general
/// category Cc).
pub open spec fn is_space(c: char) -> bool {
    c == ' ' || (c as u32) < 0x20 || (0x7f <= (c as u32) && (c as u32) < 0xa0)
}

pub open spec fn is_quote(c: char) -> bool {
    c == '"' || c == '\''
}

pub open spec fn is_digit(c: char) -> bool {
    '0' <= c && c <= '9'
}

/// Characters that end a number or a literal.
pub open spec fn ends_token(c: char) -> bool {
    is_space(c) || c == ',' || c == '}' || c == ']'
}

/// The number that a string of decimal digits denotes.
pub open spec fn digits_value(s: Seq<char>) -> int
    decreases s.len(),
{
    if s.len() == 0 {
        0
    } else {
        digits_value(s.drop_last()) * 10 + (s.last() as int - '0' as int)
    }
}

/// The literal that starts with `first`.
pub open spec fn lit_text(first: char) -> Seq<char> {
    if first == 't' {
        seq!['t', 'r', 'u', 'e']
    } else if first == 'f' {
        seq!['f', 'a', 'l', 's', 'e']
    } else {
        seq!['n', 'u', 'l', 'l']
    }
}

pub open spec fn lit_value(first: char) -> JValue {
    if first == 't' {
        JValue::Bool(true)
    } else if first == 'f' {
        JValue::Bool(false)
    } else {
        JValue::Null
    }
}

/// A finished number: a float if it held a dot, else an integer.
pub open spec fn number_value(buf: Seq<char>, dot: bool) -> Result<JValue, JsonErrorKind> {
    if buf.last() == '.' {
        Err(JsonErrorKind::NumberFormat)
    } else if dot {
        Ok(JValue::Float(buf))
    } else if digits_value(buf) <= i128::MAX {
        Ok(JValue::Int(digits_value(buf)))
    } else {
        Err(JsonErrorKind::NumberFormat)
    }
}

/// A complete value goes into the innermost open container.
pub open spec fn emit(st: PState, v: JValue) -> PState {
    let top = match st.frames.last() {
        Frame::Obj { entries, key } => Frame::Obj { entries: obj_insert(entries, key, v), key },
        Frame::Arr { items } => Frame::Arr { items: items.push(v) },
    };
    PState { mode: Mode::AfterValue, frames: st.frames.update(st.frames.len() - 1, top), buf: Seq::empty(), root: st.root }
}

/// The innermost container closes: it becomes a value of its parent, or, for
/// the outermost object, the result.
pub open spec fn close(st: PState) -> PState {
    let rest = st.frames.drop_last();
    match st.frames.last() {
        Frame::Obj { entries, key: _ } => if rest.len() == 0 {
            PState { mode: Mode::Done, frames: rest, buf: Seq::empty(), root: entries }
        } else {
            emit(PState { frames: rest, ..st }, JValue::Object(entries))
        },
        Frame::Arr { items } => if rest.len() == 0 {
            PState { mode: Mode::Done, frames: rest, buf: Seq::empty(), root: Seq::empty() }
        } else {
            emit(PState { frames: rest, ..st }, JValue::Array(items))
        },
    }
}

/// A key is complete; the object now waits for its colon.
pub open spec fn set_key(st: PState) -> PState {
    let top = match st.frames.last() {
        Frame::Obj { entries, key: _ } => Frame::Obj { entries, key: st.buf },
        Frame::Arr { items } => Frame::Arr { items },
    };
    PState { mode: Mode::Colon, frames: st.frames.update(st.frames.len() - 1, top), buf: Seq::empty(), root: st.root }
}

/// After a complete value: a comma or the closer of the innermost container.
pub open spec fn after_value(st: PState, c: char) -> Result<PState, JsonErrorKind> {
    let in_array = st.frames.last() is Arr;
    if is_space(c) {
        Ok(st)
    } else if c == ',' {
        if in_array {
            Ok(PState { mode: Mode::ValueStart { first: false }, ..st })
        } else {
            Ok(PState { mode: Mode::KeyStart { first: false }, ..st })
        }
    } else if (c == '}' && !in_array) || (c == ']' && in_array) {
        Ok(close(st))
    } else {
        Err(JsonErrorKind::StructuralMismatch)
    }
}

/// Where a value is expected.
pub open spec fn value_start(st: PState, c: char, first: bool) -> Result<PState, JsonErrorKind> {
    if is_space(c) {
        Ok(st)
    } else if c == '{' {
        Ok(PState {
            mode: Mode::KeyStart { first: true },
            frames: st.frames.push(Frame::Obj { entries: Seq::empty(), key: Seq::empty() }),
            ..st
        })
    } else if c == '[' {
        Ok(PState {
            mode: Mode::ValueStart { first: true },
            frames: st.frames.push(Frame::Arr { items: Seq::empty() }),
            ..st
        })
    } else if is_quote(c) {
        Ok(PState { mode: Mode::InStr { quote: c, escaped: false }, buf: Seq::empty(), ..st })
    } else if is_digit(c) {
        Ok(PState { mode: Mode::InNum { dot: false }, buf: seq![c], ..st })
    } else if c == '.' {
        Ok(PState { mode: Mode::InNum { dot: true }, buf: seq!['0', '.'], ..st })
    } else if c == 't' || c == 'f' || c == 'n' {
        Ok(PState { mode: Mode::InLit, buf: seq![c], ..st })
    } else if c == ']' && first {
        Ok(close(st))
    } else if c == ',' || c == ']' || c == '}' {
        Err(JsonErrorKind::StructuralMismatch)
    } else {
        Err(JsonErrorKind::InvalidCharacter)
    }
}

/// What one character does to the state.
pub open spec fn step(st: PState, c: char) -> Result<PState, JsonErrorKind> {
    match st.mode {
        Mode::Done => Ok(st),
        Mode::Start => if is_space(c) {
            Ok(st)
        } else if c == '{' {
            Ok(PState {
                mode: Mode::KeyStart { first: true },
                frames: seq![Frame::Obj { entries: Seq::empty(), key: Seq::empty() }],
                buf: Seq::empty(),
                root: st.root,
            })
        } else {
            Err(JsonErrorKind::StructuralMismatch)
        },
        Mode::KeyStart { first } => if is_space(c) {
            Ok(st)
        } else if is_quote(c) {
            Ok(PState { mode: Mode::InKey { quote: c, escaped: false }, buf: Seq::empty(), ..st })
        } else if c == '}' && first {
            Ok(close(st))
        } else {
            Err(JsonErrorKind::StructuralMismatch)
        },
        Mode::InKey { quote, escaped } => if escaped {
            Ok(PState { mode: Mode::InKey { quote, escaped: false }, buf: st.buf.push(c), ..st })
        } else if c == '\\' {
            Ok(PState { mode: Mode::InKey { quote, escaped: true }, ..st })
        } else if c == quote {
            Ok(set_key(st))
        } else {
            Ok(PState { buf: st.buf.push(c), ..st })
        },
        Mode::Colon => if is_space(c) {
            Ok(st)
        } else if c == ':' {
            Ok(PState { mode: Mode::ValueStart { first: false }, ..st })
        } else {
            Err(JsonErrorKind::StructuralMismatch)
        },
        Mode::ValueStart { first } => value_start(st, c, first),
        Mode::InStr { quote, escaped } => if escaped {
            Ok(PState { mode: Mode::InStr { quote, escaped: false }, buf: st.buf.push(c), ..st })
        } else if c == '\\' {
            Ok(PState { mode: Mode::InStr { quote, escaped: true }, ..st })
        } else if c == quote {
            Ok(emit(st, JValue::Str(st.buf)))
        } else {
            Ok(PState { buf: st.buf.push(c), ..st })
        },
        Mode::InNum { dot } => if is_digit(c) {
            Ok(PState { buf: st.buf.push(c), ..st })
        } else if c == '.' {
            if dot {
                Err(JsonErrorKind::NumberFormat)
            } else {
                Ok(PState { mode: Mode::InNum { dot: true }, buf: st.buf.push(c), ..st })
            }
        } else if ends_token(c) {
            match number_value(st.buf, dot) {
                Ok(v) => after_value(emit(st, v), c),
                Err(k) => Err(k),
            }
        } else {
            Err(JsonErrorKind::NumberFormat)
        },
        Mode::InLit => {
            let t = lit_text(st.buf[0]);
            if st.buf.len() < t.len() {
                if c == t[st.buf.len() as int] {
                    Ok(PState { buf: st.buf.push(c), ..st })
                } else {
                    Err(JsonErrorKind::BoolOrNullFormat)
                }
            } else if ends_token(c) {
                after_value(emit(st, lit_value(st.buf[0])), c)
            } else {
                Err(JsonErrorKind::BoolOrNullFormat)
            }
        },
        Mode::AfterValue => after_value(st, c),
    }
}

pub open spec fn init_state() -> PState {
    PState { mode: Mode::Start, frames: Seq::empty(), buf: Seq::empty(), root: Seq::empty() }
}

/// The state after the characters of `s` from index `i` on, or the first
/// error with its index.
pub open spec fn run(st: PState, s: Seq<char>, i: int) -> Result<PState, (JsonErrorKind, int)>
    decreases s.len() - i,
{
    if i < 0 || i >= s.len() {
        Ok(st)
    } else {
        match step(st, s[i]) {
            Ok(next) => run(next, s, i + 1),
            Err(k) => Err((k, i)),
        }
    }
}

/// What parsing `s` gives: the outermost object's entries, or an error kind
/// with the index of the character where it was found (the length of `s`
/// when the text ended too early).
pub open spec fn parse_result(s: Seq<char>) -> Result<Seq<(Seq<char>, JValue)>, (JsonErrorKind, int)> {
    match run(init_state(), s, 0) {
        Ok(st) => if st.mode == Mode::Done {
            Ok(st.root)
        } else {
            Err((JsonErrorKind::Incomplete, s.len() as int))
        },
        Err(e) => Err(e),
    }
}

/// No object in `v` holds a key twice, at any depth.
pub open spec fn value_wf(v: JValue) -> bool
    decreases v,
{
    match v {
        JValue::Array(items) => forall|i: int| 0 <= i < items.len() ==> value_wf(#[trigger] items[i]),
        JValue::Object(es) => keys_unique(es) && forall|i: int| 0 <= i < es.len() ==> value_wf(#[trigger] es[i].1),
        _ => true,
    }
}

/// Entries with distinct keys, whose values are well formed.
pub open spec fn entries_wf(es: Seq<(Seq<char>, JValue)>) -> bool {
    keys_unique(es) && forall|i: int| 0 <= i < es.len() ==> value_wf(#[trigger] es[i].1)
}

pub open spec fn frame_wf(f: Frame) -> bool {
    match f {
        Frame::Obj { entries, key: _ } => entries_wf(entries),
        Frame::Arr { items } => forall|i: int| 0 <= i < items.len() ==> value_wf(#[trigger] items[i]),
    }
}

/// Facts about a reachable state that the machine relies on.
pub open spec fn wf(st: PState) -> bool {
    &&& (st.mode == Mode::Start || st.mode == Mode::Done) <==> st.frames.len() == 0
    &&& st.mode is InLit ==> st.buf.len() >= 1
    &&& st.mode is InNum ==> {
        &&& st.buf.len() >= 1
        &&& forall|j: int| 0 <= j < st.buf.len() ==> is_digit(#[trigger] st.buf[j]) || st.buf[j] == '.'
        &&& !st.mode->InNum_dot ==> forall|j: int| 0 <= j < st.buf.len() ==> is_digit(#[trigger] st.buf[j])
    }
    &&& forall|i: int| 0 <= i < st.frames.len() ==> frame_wf(#[trigger] st.frames[i])
    &&& entries_wf(st.root)
}

proof fn lemma_key_pos_in(es: Seq<(Seq<char>, JValue)>, k: Seq<char>, n: int)
    requires
        0 <= n <= es.len(),
    ensures
        key_pos_in(es, k, n) >= 0 ==> key_pos_in(es, k, n) < n && es[key_pos_in(es, k, n)].0 == k,
        key_pos_in(es, k, n) < 0 ==> key_pos_in(es, k, n) == -1 && forall|j: int| 0 <= j < n ==> es[j].0 != k,
    decreases n,
{
    if n > 0 {
        lemma_key_pos_in(es, k, n - 1);
    }
}

/// Setting a key keeps the entries well formed.
pub proof fn lemma_insert_wf(es: Seq<(Seq<char>, JValue)>, k: Seq<char>, v: JValue)
    requires
        entries_wf(es),
        value_wf(v),
    ensures
        entries_wf(obj_insert(es, k, v)),
{
    lemma_key_pos_in(es, k, es.len() as int);
    let r = obj_insert(es, k, v);
    if key_pos(es, k) >= 0 {
        let p = key_pos(es, k);
        assert forall|i: int, j: int| 0 <= i < j < r.len() implies r[i].0 != r[j].0 by {
            assert(r[i].0 == es[i].0 && r[j].0 == es[j].0);
        }
    } else {
        assert forall|i: int, j: int| 0 <= i < j < r.len() implies r[i].0 != r[j].0 by {
            if j < es.len() {
                assert(r[i] == es[i] && r[j] == es[j]);
            }
        }
    }
    assert forall|i: int| 0 <= i < r.len() implies value_wf(#[trigger] r[i].1) by {
        if i < es.len() && r[i] == es[i] {
        }
    }
}

proof fn lemma_emit_wf(st: PState, v: JValue)
    requires
        wf(st),
        st.frames.len() >= 1,
        value_wf(v),
    ensures
        forall|i: int| 0 <= i < emit(st, v).frames.len() ==> frame_wf(#[trigger] emit(st, v).frames[i]),
{
    let n = emit(st, v);
    let last = st.frames.len() - 1;
    match st.frames.last() {
        Frame::Obj { entries, key } => {
            assert(frame_wf(st.frames[last]));
            lemma_insert_wf(entries, key, v);
        },
        Frame::Arr { items } => {
            assert(frame_wf(st.frames[last]));
            assert forall|i: int| 0 <= i < items.push(v).len() implies value_wf(#[trigger] items.push(v)[i]) by {
                if i < items.len() {
                    assert(items.push(v)[i] == items[i]);
                }
            }
        },
    }
    assert forall|i: int| 0 <= i < n.frames.len() implies frame_wf(#[trigger] n.frames[i]) by {
        if i < last {
            assert(n.frames[i] == st.frames[i]);
        }
    }
}

proof fn lemma_close_wf(st: PState)
    requires
        wf(st),
        st.frames.len() >= 1,
    ensures
        forall|i: int| 0 <= i < close(st).frames.len() ==> frame_wf(#[trigger] close(st).frames[i]),
        entries_wf(close(st).root),
{
    let last = st.frames.len() - 1;
    let rest = st.frames.drop_last();
    assert(frame_wf(st.frames[last]));
    let inner = PState { frames: rest, ..st };
    assert forall|i: int| 0 <= i < rest.len() implies frame_wf(#[trigger] rest[i]) by {
        assert(rest[i] == st.frames[i]);
    }
    assert(entries_wf(Seq::<(Seq<char>, JValue)>::empty()));
    if rest.len() > 0 {
        match st.frames.last() {
            Frame::Obj { entries, key: _ } => {
                assert(value_wf(JValue::Object(entries)));
                lemma_emit_wf(inner, JValue::Object(entries));
            },
            Frame::Arr { items } => {
                assert(value_wf(JValue::Array(items)));
                lemma_emit_wf(inner, JValue::Array(items));
            },
        }
    }
}

proof fn lemma_step_wf(st: PState, c: char)
    requires
        wf(st),
        step(st, c) is Ok,
    ensures
        wf(step(st, c)->Ok_0),
{
    let n = step(st, c)->Ok_0;
    if st.mode is InNum {
        if is_digit(c) || c == '.' {
            assert forall|j: int| 0 <= j < n.buf.len() implies is_digit(#[trigger] n.buf[j]) || n.buf[j] == '.' by {
                if j < st.buf.len() {
                    assert(n.buf[j] == st.buf[j]);
                }
            }
        } else {
            let v = number_value(st.buf, st.mode->InNum_dot)->Ok_0;
            lemma_emit_wf(st, v);
            lemma_after_value_wf(emit(st, v), c);
        }
    } else if st.mode is InLit {
        if st.buf.len() >= lit_text(st.buf[0]).len() {
            lemma_emit_wf(st, lit_value(st.buf[0]));
            lemma_after_value_wf(emit(st, lit_value(st.buf[0])), c);
        }
    } else if st.mode is InStr {
        if !st.mode->InStr_escaped && c != '\\' && c == st.mode->InStr_quote {
            lemma_emit_wf(st, JValue::Str(st.buf));
        }
    } else if st.mode is AfterValue {
        lemma_after_value_wf(st, c);
    } else if st.mode is KeyStart {
        if !is_space(c) && !is_quote(c) {
            lemma_close_wf(st);
        }
    } else if st.mode is ValueStart {
        if c == ']' && st.mode->ValueStart_first {
            lemma_close_wf(st);
        }
        if c == '{' || c == '[' {
            assert forall|i: int| 0 <= i < n.frames.len() implies frame_wf(#[trigger] n.frames[i]) by {
                if i < st.frames.len() {
                    assert(n.frames[i] == st.frames[i]);
                }
            }
        }
    } else if st.mode is InKey {
        if !st.mode->InKey_escaped && c != '\\' && c == st.mode->InKey_quote {
            let last = st.frames.len() - 1;
            assert(frame_wf(st.frames[last]));
            assert forall|i: int| 0 <= i < n.frames.len() implies frame_wf(#[trigger] n.frames[i]) by {
                if i < last {
                    assert(n.frames[i] == st.frames[i]);
                }
            }
        }
    } else if st.mode is Start {
        if c == '{' {
            assert(frame_wf(n.frames[0]));
        }
    }
}

proof fn lemma_after_value_wf(st: PState, c: char)
    requires
        wf(st),
        st.frames.len() >= 1,
        st.mode == Mode::AfterValue,
        after_value(st, c) is Ok,
    ensures
        wf(after_value(st, c)->Ok_0),
{
    if !is_space(c) && c != ',' {
        lemma_close_wf(st);
    }
}

pub proof fn lemma_run_done(st: PState, s: Seq<char>, i: int)
    requires
        st.mode == Mode::Done,
    ensures
        run(st, s, i) == Ok::<PState, (JsonErrorKind, int)>(st),
    decreases s.len() - i,
{
    if 0 <= i < s.len() {
        lemma_run_done(st, s, i + 1);
    }
}

/// An open container, held by the machine.
struct ExecFrame {
    is_array: bool,
    object: JsonObject,
    key: String,
    items: Vec<JsonValue>,
}

impl ExecFrame {
    spec fn view(self) -> Frame {
        if self.is_array {
            Frame::Arr { items: values_view(self.items@) }
        } else {
            Frame::Obj { entries: self.object@, key: self.key@ }
        }
    }
}

/// The executable parser state.
pub struct Machine {
    mode: Mode,
    frames: Vec<ExecFrame>,
    buf: Vec<char>,
    root: JsonObject,
}

fn is_space_char(c: char) -> (r: bool)
    ensures
        r == is_space(c),
{
    c == ' ' || (c as u32) < 0x20 || (0x7f <= (c as u32) && (c as u32) < 0xa0)
}

pub(crate) fn is_digit_char(c: char) -> (r: bool)
    ensures
        r == is_digit(c),
{
    '0' <= c && c <= '9'
}

fn ends_token_char(c: char) -> (r: bool)
    ensures
        r == ends_token(c),
{
    is_space_char(c) || c == ',' || c == '}' || c == ']'
}

/// The character at `pos` of the literal that starts with `first`.
fn lit_char(first: char, pos: usize) -> (r: Option<char>)
    ensures
        pos < lit_text(first).len() ==> r == Some(lit_text(first)[pos as int]),
        pos >= lit_text(first).len() ==> r is None,
{
    let word: [char; 5] = if first == 't' {
        ['t', 'r', 'u', 'e', ' ']
    } else if first == 'f' {
        ['f', 'a', 'l', 's', 'e']
    } else {
        ['n', 'u', 'l', 'l', ' ']
    };
    let len: usize = if first == 'f' { 5 } else { 4 };
    if pos < len {
        Some(word[pos])
    } else {
        None
    }
}

pub(crate) proof fn lemma_digits_value_nonneg(s: Seq<char>)
    requires
        forall|j: int| 0 <= j < s.len() ==> is_digit(#[trigger] s[j]),
    ensures
        digits_value(s) >= 0,
    decreases s.len(),
{
    if s.len() > 0 {
        lemma_digits_value_nonneg(s.drop_last());
    }
}

/// A longer string of digits denotes at least as much.
pub(crate) proof fn lemma_digits_value_mono(s: Seq<char>, n: int)
    requires
        0 <= n <= s.len(),
        forall|j: int| 0 <= j < s.len() ==> is_digit(#[trigger] s[j]),
    ensures
        digits_value(s.take(n)) <= digits_value(s),
    decreases s.len() - n,
{
    if n < s.len() {
        lemma_digits_value_mono(s, n + 1);
        let t = s.take(n + 1);
        assert(t.drop_last() =~= s.take(n));
        assert(t.last() == s[n]);
        assert(is_digit(s[n]));
        lemma_digits_value_nonneg(s.take(n));
    } else {
        assert(s.take(n) =~= s);
    }
}

/// The integer that a string of digits denotes, if it fits in an `i128`.
fn digits_to_int(buf: &Vec<char>) -> (r: Option<i128>)
    requires
        forall|j: int| 0 <= j < buf@.len() ==> is_digit(#[trigger] buf@[j]),
    ensures
        digits_value(buf@) <= i128::MAX ==> r == Some(digits_value(buf@) as i128),
        digits_value(buf@) > i128::MAX ==> r is None,
{
    let mut acc: i128 = 0;
    let mut i: usize = 0;
    while i < buf.len()
        invariant
            i <= buf@.len(),
            forall|j: int| 0 <= j < buf@.len() ==> is_digit(#[trigger] buf@[j]),
            acc as int == digits_value(buf@.take(i as int)),
            acc >= 0,
        decreases buf@.len() - i,
    {
        let c = buf[i];
        let d = (c as u32 - '0' as u32) as i128;
        proof {
            assert(buf@.take(i as int + 1).drop_last() =~= buf@.take(i as int));
        }
        if acc > 17014118346046923173168730371588410572 || (acc == 17014118346046923173168730371588410572 && d > 7) {
            proof {
                assert(digits_value(buf@.take(i as int + 1)) > i128::MAX) by (nonlinear_arith)
                    requires
                        digits_value(buf@.take(i as int + 1)) == acc * 10 + d,
                        acc > 17014118346046923173168730371588410572 || (acc == 17014118346046923173168730371588410572 && d > 7),
                        0 <= d <= 9,
                ;
                lemma_digits_value_mono(buf@, i as int + 1);
            }
            return None;
        }
        proof {
            assert(acc * 10 + d <= i128::MAX) by (nonlinear_arith)
                requires
                    acc <= 17014118346046923173168730371588410572,
                    acc < 17014118346046923173168730371588410572 || d <= 7,
                    0 <= d <= 9,
                    acc >= 0,
            ;
        }
        acc = acc * 10 + d;
        i = i + 1;
    }
    proof {
        assert(buf@.take(i as int) =~= buf@);
    }
    Some(acc)
}

impl Machine {
    pub closed spec fn view(self) -> PState {
        PState {
            mode: self.mode,
            frames: Seq::new(self.frames@.len(), |i: int| self.frames@[i].view()),
            buf: self.buf@,
            root: self.root@,
        }
    }

    pub fn new() -> (r: Machine)
        ensures
            r@ == init_state(),
    {
        let r = Machine { mode: Mode::Start, frames: Vec::new(), buf: Vec::new(), root: JsonObject::new() };
        proof {
            assert(r@.frames =~= Seq::<Frame>::empty());
            assert(r@.buf =~= Seq::<char>::empty());
        }
        r
    }

    pub fn is_done(&self) -> (r: bool)
        ensures
            r == (self@.mode == Mode::Done),
    {
        self.mode == Mode::Done
    }

    /// Hands over the result of a finished parse.
    pub fn into_root(self) -> (r: JsonObject)
        ensures
            r@ == self@.root,
    {
        self.root
    }

    fn emit(&mut self, v: JsonValue)
        requires
            old(self)@.frames.len() >= 1,
        ensures
            final(self)@ == emit(old(self)@, v@),
    {
        let ghost vv = v@;
        let ghost st = self@;
        let mut top = self.frames.pop().unwrap();
        if top.is_array {
            top.items.push(v);
            proof {
                assert(values_view(top.items@) =~= values_view(old(self).frames@.last().items@).push(vv));
            }
        } else {
            let k = top.key.clone();
            top.object.insert(k, v);
        }
        self.frames.push(top);
        self.mode = Mode::AfterValue;
        self.buf.clear();
        proof {
            assert(self@.frames =~= emit(st, vv).frames);
            assert(self@.buf =~= Seq::<char>::empty());
        }
    }

    fn close(&mut self)
        requires
            old(self)@.frames.len() >= 1,
        ensures
            final(self)@ == close(old(self)@),
    {
        let ghost st = self@;
        let top = self.frames.pop().unwrap();
        proof {
            assert(self@.frames =~= st.frames.drop_last());
        }
        if self.frames.len() == 0 {
            self.mode = Mode::Done;
            self.buf.clear();
            if top.is_array {
                self.root = JsonObject::new();
            } else {
                self.root = top.object;
            }
            proof {
                assert(self@.buf =~= Seq::<char>::empty());
            }
        } else {
            let v = if top.is_array {
                let a = JsonValue::Array(top.items);
                proof {
                    assert(a@->Array_0 =~= values_view(top.items@));
                }
                a
            } else {
                JsonValue::Object(top.object)
            };
            self.emit(v);
        }
    }

    fn after_value(&mut self, c: char) -> (r: Result<(), JsonErrorKind>)
        requires
            old(self)@.frames.len() >= 1,
        ensures
            match after_value(old(self)@, c) {
                Ok(n) => r is Ok && final(self)@ == n,
                Err(k) => r == Err::<(), JsonErrorKind>(k),
            },
    {
        let in_array = self.frames[self.frames.len() - 1].is_array;
        if is_space_char(c) {
            Ok(())
        } else if c == ',' {
            if in_array {
                self.mode = Mode::ValueStart { first: false };
            } else {
                self.mode = Mode::KeyStart { first: false };
            }
            Ok(())
        } else if (c == '}' && !in_array) || (c == ']' && in_array) {
            self.close();
            Ok(())
        } else {
            Err(JsonErrorKind::StructuralMismatch)
        }
    }

    fn set_key(&mut self)
        requires
            old(self)@.frames.len() >= 1,
        ensures
            final(self)@ == set_key(old(self)@),
    {
        let ghost st = self@;
        let mut top = self.frames.pop().unwrap();
        if !top.is_array {
            top.key = string_of(&self.buf);
        }
        self.frames.push(top);
        self.mode = Mode::Colon;
        self.buf.clear();
        proof {
            assert(self@.frames =~= set_key(st).frames);
            assert(self@.buf =~= Seq::<char>::empty());
        }
    }

    fn start_token(&mut self, mode: Mode, first: char)
        ensures
            final(self)@ == (PState { mode, buf: seq![first], ..old(self)@ }),
    {
        self.mode = mode;
        self.buf.clear();
        self.buf.push(first);
        proof {
            assert(self@.buf =~= seq![first]);
        }
    }

    fn value_start(&mut self, c: char, first: bool) -> (r: Result<(), JsonErrorKind>)
        requires
            old(self)@.frames.len() >= 1,
        ensures
            match value_start(old(self)@, c, first) {
                Ok(n) => r is Ok && final(self)@ == n,
                Err(k) => r == Err::<(), JsonErrorKind>(k),
            },
    {
        let ghost st = self@;
        if is_space_char(c) {
            Ok(())
        } else if c == '{' {
            let f = ExecFrame { is_array: false, object: JsonObject::new(), key: String::new(), items: Vec::new() };
            self.frames.push(f);
            self.mode = Mode::KeyStart { first: true };
            proof {
                assert(self@.frames =~= st.frames.push(Frame::Obj { entries: Seq::empty(), key: Seq::empty() }));
            }
            Ok(())
        } else if c == '[' {
            let f = ExecFrame { is_array: true, object: JsonObject::new(), key: String::new(), items: Vec::new() };
            self.frames.push(f);
            self.mode = Mode::ValueStart { first: true };
            proof {
                assert(values_view(f.items@) =~= Seq::<JValue>::empty());
                assert(self@.frames =~= st.frames.push(Frame::Arr { items: Seq::empty() }));
            }
            Ok(())
        } else if c == '"' || c == '\'' {
            self.mode = Mode::InStr { quote: c, escaped: false };
            self.buf.clear();
            proof {
                assert(self@.buf =~= Seq::<char>::empty());
            }
            Ok(())
        } else if is_digit_char(c) {
            self.start_token(Mode::InNum { dot: false }, c);
            Ok(())
        } else if c == '.' {
            self.start_token(Mode::InNum { dot: true }, '0');
            self.buf.push('.');
            proof {
                assert(self@.buf =~= seq!['0', '.']);
            }
            Ok(())
        } else if c == 't' || c == 'f' || c == 'n' {
            self.start_token(Mode::InLit, c);
            Ok(())
        } else if c == ']' && first {
            self.close();
            Ok(())
        } else if c == ',' || c == ']' || c == '}' {
            Err(JsonErrorKind::StructuralMismatch)
        } else {
            Err(JsonErrorKind::InvalidCharacter)
        }
    }

    fn push_char(&mut self, c: char)
        ensures
            final(self)@ == (PState { buf: old(self)@.buf.push(c), ..old(self)@ }),
    {
        self.buf.push(c);
    }

    /// The value of the number in the buffer, once it has ended.
    fn number_value(&self, dot: bool) -> (r: Result<JsonValue, JsonErrorKind>)
        requires
            wf(self@),
            self@.mode == (Mode::InNum { dot }),
        ensures
            match number_value(self@.buf, dot) {
                Ok(v) => r is Ok && r->Ok_0@ == v,
                Err(k) => r == Err::<JsonValue, JsonErrorKind>(k),
            },
    {
        if self.buf[self.buf.len() - 1] == '.' {
            Err(JsonErrorKind::NumberFormat)
        } else if dot {
            Ok(JsonValue::Float(string_of(&self.buf)))
        } else {
            assert(forall|j: int| 0 <= j < self.buf@.len() ==> is_digit(#[trigger] self.buf@[j]));
            proof {
                lemma_digits_value_nonneg(self.buf@);
            }
            match digits_to_int(&self.buf) {
                Some(n) => Ok(JsonValue::Int(n)),
                None => Err(JsonErrorKind::NumberFormat),
            }
        }
    }

    /// Reads one character.
    pub fn step(&mut self, c: char) -> (r: Result<(), JsonErrorKind>)
        requires
            wf(old(self)@),
        ensures
            match step(old(self)@, c) {
                Ok(n) => r is Ok && final(self)@ == n,
                Err(k) => r == Err::<(), JsonErrorKind>(k),
            },
            r is Ok ==> wf(final(self)@),
    {
        proof {
            if step(self@, c) is Ok {
                lemma_step_wf(self@, c);
            }
        }
        let ghost st = self@;
        match self.mode {
            Mode::Done => Ok(()),
            Mode::Start => {
                if is_space_char(c) {
                    Ok(())
                } else if c == '{' {
                    let f = ExecFrame { is_array: false, object: JsonObject::new(), key: String::new(), items: Vec::new() };
                    self.frames.push(f);
                    self.mode = Mode::KeyStart { first: true };
                    self.buf.clear();
                    proof {
                        assert(self@.frames =~= seq![Frame::Obj { entries: Seq::empty(), key: Seq::empty() }]);
                        assert(self@.buf =~= Seq::<char>::empty());
                    }
                    Ok(())
                } else {
                    Err(JsonErrorKind::StructuralMismatch)
                }
            },
            Mode::KeyStart { first } => {
                if is_space_char(c) {
                    Ok(())
                } else if c == '"' || c == '\'' {
                    self.mode = Mode::InKey { quote: c, escaped: false };
                    self.buf.clear();
                    proof {
                        assert(self@.buf =~= Seq::<char>::empty());
                    }
                    Ok(())
                } else if c == '}' && first {
                    self.close();
                    Ok(())
                } else {
                    Err(JsonErrorKind::StructuralMismatch)
                }
            },
            Mode::InKey { quote, escaped } => {
                if escaped {
                    self.mode = Mode::InKey { quote, escaped: false };
                    self.push_char(c);
                } else if c == '\\' {
                    self.mode = Mode::InKey { quote, escaped: true };
                } else if c == quote {
                    self.set_key();
                } else {
                    self.push_char(c);
                }
                Ok(())
            },
            Mode::Colon => {
                if is_space_char(c) {
                    Ok(())
                } else if c == ':' {
                    self.mode = Mode::ValueStart { first: false };
                    Ok(())
                } else {
                    Err(JsonErrorKind::StructuralMismatch)
                }
            },
            Mode::ValueStart { first } => self.value_start(c, first),
            Mode::InStr { quote, escaped } => {
                if escaped {
                    self.mode = Mode::InStr { quote, escaped: false };
                    self.push_char(c);
                } else if c == '\\' {
                    self.mode = Mode::InStr { quote, escaped: true };
                } else if c == quote {
                    let s = string_of(&self.buf);
                    self.emit(JsonValue::Str(s));
                } else {
                    self.push_char(c);
                }
                Ok(())
            },
            Mode::InNum { dot } => {
                if is_digit_char(c) {
                    self.push_char(c);
                    Ok(())
                } else if c == '.' {
                    if dot {
                        Err(JsonErrorKind::NumberFormat)
                    } else {
                        self.mode = Mode::InNum { dot: true };
                        self.push_char(c);
                        Ok(())
                    }
                } else if ends_token_char(c) {
                    match self.number_value(dot) {
                        Ok(v) => {
                            self.emit(v);
                            self.after_value(c)
                        },
                        Err(k) => Err(k),
                    }
                } else {
                    Err(JsonErrorKind::NumberFormat)
                }
            },
            Mode::InLit => {
                let first = self.buf[0];
                match lit_char(first, self.buf.len()) {
                    Some(expected) => {
                        if c == expected {
                            self.push_char(c);
                            Ok(())
                        } else {
                            Err(JsonErrorKind::BoolOrNullFormat)
                        }
                    },
                    None => {
                        if ends_token_char(c) {
                            let v = if first == 't' {
                                JsonValue::Bool(true)
                            } else if first == 'f' {
                                JsonValue::Bool(false)
                            } else {
                                JsonValue::Null
                            };
                            self.emit(v);
                            self.after_value(c)
                        } else {
                            Err(JsonErrorKind::BoolOrNullFormat)
                        }
                    },
                }
            },
            Mode::AfterValue => self.after_value(c),
        }
    }
}

} // verus!
