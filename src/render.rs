//! The text of a value, and the law that parsing reads every such text back
//! exactly.

use vstd::prelude::*;
use crate::json::{JValue, key_pos, key_pos_in, keys_unique, obj_insert};
use crate::parser::{
    Frame, JsonErrorKind, Mode, PState, after_value, close, digits_value, emit, ends_token, init_state,
    is_digit, is_quote, lit_text, lit_value, number_value, parse_result, run, set_key, step,
};

verus! {

/// `s` with a backslash before each quote `q` and each backslash.
pub open spec fn escaped(s: Seq<char>, q: char) -> Seq<char>
    decreases s.len(),
{
    if s.len() == 0 {
        Seq::empty()
    } else {
        escaped(s.drop_last(), q) + escape_char(s.last(), q)
    }
}

pub open spec fn escape_char(c: char, q: char) -> Seq<char> {
    if c == q || c == '\\' {
        seq!['\\', c]
    } else {
        seq![c]
    }
}

pub open spec fn quoted(s: Seq<char>, q: char) -> Seq<char> {
    seq![q] + escaped(s, q) + seq![q]
}

pub open spec fn digit_char(d: int) -> char {
    if d == 0 {
        '0'
    } else if d == 1 {
        '1'
    } else if d == 2 {
        '2'
    } else if d == 3 {
        '3'
    } else if d == 4 {
        '4'
    } else if d == 5 {
        '5'
    } else if d == 6 {
        '6'
    } else if d == 7 {
        '7'
    } else if d == 8 {
        '8'
    } else {
        '9'
    }
}

/// The decimal digits of a natural number.
pub open spec fn decimal(n: nat) -> Seq<char>
    decreases n,
{
    if n < 10 {
        seq![digit_char(n as int)]
    } else {
        decimal(n / 10) + seq![digit_char((n % 10) as int)]
    }
}

/// Digits, one decimal point, digits.
pub open spec fn float_literal(t: Seq<char>) -> bool {
    exists|p: int|
        0 < p < t.len() - 1 && t[p] == '.' && forall|j: int|
            0 <= j < t.len() && j != p ==> is_digit(#[trigger] t[j])
}

/// The text of a value, strings and keys delimited by `q`.
pub open spec fn render(v: JValue, q: char) -> Seq<char>
    decreases v,
{
    match v {
        JValue::Str(s) => quoted(s, q),
        JValue::Int(n) => decimal(n as nat),
        JValue::Float(t) => t,
        JValue::Bool(b) => if b {
            lit_text('t')
        } else {
            lit_text('f')
        },
        JValue::Null => lit_text('n'),
        JValue::Array(items) => seq!['['] + render_items(items, q) + seq![']'],
        JValue::Object(es) => seq!['{'] + render_entries(es, q) + seq!['}'],
    }
}

/// The items of an array, separated by commas.
pub open spec fn render_items(items: Seq<JValue>, q: char) -> Seq<char>
    decreases items,
{
    if items.len() == 0 {
        Seq::empty()
    } else if items.len() == 1 {
        render(items[0], q)
    } else {
        render_items(items.subrange(0, items.len() - 1), q) + seq![','] + render(items[items.len() - 1], q)
    }
}

/// The entries of an object, `key:value`, separated by commas.
pub open spec fn render_entries(es: Seq<(Seq<char>, JValue)>, q: char) -> Seq<char>
    decreases es,
{
    if es.len() == 0 {
        Seq::empty()
    } else if es.len() == 1 {
        quoted(es[0].0, q) + seq![':'] + render(es[0].1, q)
    } else {
        render_entries(es.subrange(0, es.len() - 1), q) + seq![','] + quoted(es[es.len() - 1].0, q) + seq![':']
            + render(es[es.len() - 1].1, q)
    }
}

/// Values that the grammar can express: integers from 0 to `i128::MAX`,
/// floats written as digits, a point and digits, objects without repeated
/// keys.
pub open spec fn renderable(v: JValue) -> bool
    decreases v,
{
    match v {
        JValue::Int(n) => 0 <= n <= i128::MAX,
        JValue::Float(t) => float_literal(t),
        JValue::Array(items) => all_renderable(items),
        JValue::Object(es) => keys_unique(es) && entries_renderable(es),
        _ => true,
    }
}

pub open spec fn all_renderable(items: Seq<JValue>) -> bool
    decreases items,
{
    if items.len() == 0 {
        true
    } else {
        all_renderable(items.subrange(0, items.len() - 1)) && renderable(items[items.len() - 1])
    }
}

pub open spec fn entries_renderable(es: Seq<(Seq<char>, JValue)>) -> bool
    decreases es,
{
    if es.len() == 0 {
        true
    } else {
        entries_renderable(es.subrange(0, es.len() - 1)) && renderable(es[es.len() - 1].1)
    }
}

fn digit_of(d: u64) -> (r: char)
    requires
        d < 10,
    ensures
        r == digit_char(d as int),
{
    if d == 0 {
        '0'
    } else if d == 1 {
        '1'
    } else if d == 2 {
        '2'
    } else if d == 3 {
        '3'
    } else if d == 4 {
        '4'
    } else if d == 5 {
        '5'
    } else if d == 6 {
        '6'
    } else if d == 7 {
        '7'
    } else if d == 8 {
        '8'
    } else {
        '9'
    }
}

/// The decimal digits of `n`.
pub fn decimal_chars(n: u64) -> (r: Vec<char>)
    ensures
        r@ == decimal(n as nat),
    decreases n,
{
    if n < 10 {
        let mut v: Vec<char> = Vec::new();
        v.push(digit_of(n));
        proof {
            assert(v@ =~= decimal(n as nat));
        }
        v
    } else {
        let mut v = decimal_chars(n / 10);
        v.push(digit_of(n % 10));
        proof {
            assert(v@ =~= decimal(n as nat));
        }
        v
    }
}

/// `t` stands in `s` from index `i` on.
pub open spec fn at(s: Seq<char>, i: int, t: Seq<char>) -> bool {
    0 <= i && i + t.len() <= s.len() && s.subrange(i, i + t.len()) == t
}

proof fn lemma_at_split(s: Seq<char>, i: int, a: Seq<char>, b: Seq<char>)
    requires
        at(s, i, a + b),
    ensures
        at(s, i, a),
        at(s, i + a.len(), b),
{
    let whole = s.subrange(i, i + a.len() + b.len());
    assert(whole == a + b);
    assert forall|k: int| 0 <= k < a.len() implies s.subrange(i, i + a.len())[k] == a[k] by {
        assert(whole[k] == (a + b)[k]);
    }
    assert(s.subrange(i, i + a.len()) =~= a);
    assert forall|k: int| 0 <= k < b.len() implies s.subrange(i + a.len(), i + a.len() + b.len())[k] == b[k] by {
        assert(whole[a.len() + k] == (a + b)[a.len() + k]);
    }
    assert(s.subrange(i + a.len(), i + a.len() + b.len()) =~= b);
}

proof fn lemma_at_char(s: Seq<char>, i: int, c: char)
    requires
        at(s, i, seq![c]),
    ensures
        s[i] == c,
{
    assert(s.subrange(i, i + 1)[0] == s[i]);
}

/// Reading the escaped text of `t` inside a key or a string adds `t` to the
/// buffer.
proof fn lemma_escaped(st: PState, t: Seq<char>, q: char, key: bool, s: Seq<char>, i: int)
    requires
        is_quote(q),
        st.mode == (if key {
            Mode::InKey { quote: q, escaped: false }
        } else {
            Mode::InStr { quote: q, escaped: false }
        }),
        at(s, i, escaped(t, q)),
    ensures
        run(st, s, i) == run(PState { buf: st.buf + t, ..st }, s, i + escaped(t, q).len()),
    decreases t.len(),
{
    if t.len() == 0 {
        assert(st.buf + t =~= st.buf);
    } else {
        let p = t.drop_last();
        let c = t.last();
        lemma_at_split(s, i, escaped(p, q), escape_char(c, q));
        lemma_escaped(st, p, q, key, s, i);
        let mid = PState { buf: st.buf + p, ..st };
        let j = i + escaped(p, q).len();
        let fin = PState { buf: st.buf + t, ..st };
        assert((st.buf + p).push(c) =~= st.buf + t);
        if c == q || c == '\\' {
            assert(seq!['\\', c] =~= seq!['\\'] + seq![c]);
            lemma_at_split(s, j, seq!['\\'], seq![c]);
            lemma_at_char(s, j, '\\');
            lemma_at_char(s, j + 1, c);
            let mid1 = PState {
                mode: if key {
                    Mode::InKey { quote: q, escaped: true }
                } else {
                    Mode::InStr { quote: q, escaped: true }
                },
                ..mid
            };
            assert(step(mid, s[j]) == Ok::<PState, JsonErrorKind>(mid1));
            assert(step(mid1, s[j + 1]) == Ok::<PState, JsonErrorKind>(fin));
            assert(run(mid, s, j) == run(mid1, s, j + 1));
            assert(run(mid1, s, j + 1) == run(fin, s, j + 2));
        } else {
            lemma_at_char(s, j, c);
            assert(step(mid, s[j]) == Ok::<PState, JsonErrorKind>(fin));
            assert(run(mid, s, j) == run(fin, s, j + 1));
        }
    }
}

/// Reading digits inside a number adds them to the buffer.
proof fn lemma_digits(st: PState, d: Seq<char>, s: Seq<char>, i: int)
    requires
        st.mode is InNum,
        at(s, i, d),
        forall|k: int| 0 <= k < d.len() ==> is_digit(#[trigger] d[k]),
    ensures
        run(st, s, i) == run(PState { buf: st.buf + d, ..st }, s, i + d.len()),
    decreases d.len(),
{
    if d.len() == 0 {
        assert(st.buf + d =~= st.buf);
    } else {
        let p = d.drop_last();
        let c = d.last();
        assert(d =~= p + seq![c]);
        lemma_at_split(s, i, p, seq![c]);
        assert forall|k: int| 0 <= k < p.len() implies is_digit(#[trigger] p[k]) by {
            assert(p[k] == d[k]);
        }
        lemma_digits(st, p, s, i);
        lemma_at_char(s, i + p.len(), c);
        assert(is_digit(d[d.len() - 1]));
        let mid = PState { buf: st.buf + p, ..st };
        let fin = PState { buf: st.buf + d, ..st };
        assert((st.buf + p).push(c) =~= st.buf + d);
        assert(step(mid, s[i + p.len()]) == Ok::<PState, JsonErrorKind>(fin));
        assert(run(mid, s, i + p.len()) == run(fin, s, i + p.len() + 1));
    }
}

proof fn lemma_digit_char(d: int)
    requires
        0 <= d < 10,
    ensures
        is_digit(digit_char(d)),
        digit_char(d) as int - '0' as int == d,
{
}

proof fn lemma_decimal(n: nat)
    ensures
        decimal(n).len() >= 1,
        forall|k: int| 0 <= k < decimal(n).len() ==> is_digit(#[trigger] decimal(n)[k]),
        digits_value(decimal(n)) == n,
    decreases n,
{
    if n >= 10 {
        lemma_decimal(n / 10);
        let a = decimal(n / 10);
        let c = digit_char((n % 10) as int);
        lemma_digit_char((n % 10) as int);
        assert((a + seq![c]).drop_last() =~= a);
        assert(forall|k: int| 0 <= k < a.len() ==> (a + seq![c])[k] == a[k]);
        assert(digits_value(a + seq![c]) == digits_value(a) * 10 + (c as int - '0' as int));
        assert((n / 10) * 10 + n % 10 == n);
    } else {
        let c = digit_char(n as int);
        lemma_digit_char(n as int);
        assert(seq![c].drop_last() =~= Seq::<char>::empty());
        assert(digits_value(seq![c]) == digits_value(Seq::<char>::empty()) * 10 + (c as int - '0' as int));
    }
}

/// Reading the rest of a literal once its first `k` characters are read.
proof fn lemma_lit(st: PState, s: Seq<char>, i: int, k: int)
    requires
        st.mode == Mode::InLit,
        1 <= k <= lit_text(st.buf[0]).len(),
        st.buf == lit_text(st.buf[0]).take(k),
        at(s, i, lit_text(st.buf[0]).subrange(k, lit_text(st.buf[0]).len() as int)),
    ensures
        run(st, s, i) == run(PState { buf: lit_text(st.buf[0]), ..st }, s, i + lit_text(st.buf[0]).len() - k),
    decreases lit_text(st.buf[0]).len() - k,
{
    let t = lit_text(st.buf[0]);
    if k == t.len() {
        assert(t.take(k) =~= t);
    } else {
        let rest = t.subrange(k, t.len() as int);
        assert(rest =~= seq![t[k]] + t.subrange(k + 1, t.len() as int));
        lemma_at_split(s, i, seq![t[k]], t.subrange(k + 1, t.len() as int));
        lemma_at_char(s, i, t[k]);
        let next = PState { buf: st.buf.push(t[k]), ..st };
        assert(next.buf =~= t.take(k + 1));
        assert(next.buf[0] == st.buf[0]);
        lemma_lit(next, s, i + 1, k + 1);
    }
}

/// A state whose next character ends a token: a number or literal state
/// that finishes with `v` behaves as the state after `v`.
proof fn lemma_finish(tok: PState, st: PState, v: JValue, s: Seq<char>, j: int)
    requires
        0 <= j < s.len(),
        ends_token(s[j]),
        tok.frames == st.frames,
        tok.root == st.root,
        step(tok, s[j]) == after_value(emit(tok, v), s[j]),
    ensures
        run(tok, s, j) == run(emit(st, v), s, j),
{
    assert(emit(tok, v) == emit(st, v));
}

/// The conditions under which the text of `v` is read where a value is
/// expected, followed by a character that ends a token.
pub open spec fn value_ahead(st: PState, v: JValue, q: char, s: Seq<char>, i: int) -> bool {
    &&& is_quote(q)
    &&& st.mode is ValueStart
    &&& st.frames.len() >= 1
    &&& renderable(v)
    &&& at(s, i, render(v, q))
    &&& i + render(v, q).len() < s.len()
    &&& ends_token(s[i + render(v, q).len()])
}

/// Reading the text of a value where one is expected puts that value into
/// the innermost container.
proof fn lemma_value(st: PState, v: JValue, q: char, s: Seq<char>, i: int)
    requires
        value_ahead(st, v, q, s, i),
    ensures
        run(st, s, i) == run(emit(st, v), s, i + render(v, q).len()),
    decreases v, 3nat,
{
    match v {
        JValue::Str(_) => lemma_value_str(st, v, q, s, i),
        JValue::Int(_) => lemma_value_int(st, v, q, s, i),
        JValue::Float(_) => lemma_value_float(st, v, q, s, i),
        JValue::Bool(_) | JValue::Null => lemma_value_lit(st, v, q, s, i),
        JValue::Array(_) => lemma_value_array(st, v, q, s, i),
        JValue::Object(_) => lemma_value_object(st, v, q, s, i),
    }
}

proof fn lemma_value_str(st: PState, v: JValue, q: char, s: Seq<char>, i: int)
    requires
        value_ahead(st, v, q, s, i),
        v is Str,
    ensures
        run(st, s, i) == run(emit(st, v), s, i + render(v, q).len()),
{
    let t = v->Str_0;
    let end = i + render(v, q).len();
    lemma_at_split(s, i, seq![q] + escaped(t, q), seq![q]);
    lemma_at_split(s, i, seq![q], escaped(t, q));
    lemma_at_char(s, i, q);
    let st1 = PState { mode: Mode::InStr { quote: q, escaped: false }, buf: Seq::empty(), ..st };
    assert(step(st, s[i]) == Ok::<PState, JsonErrorKind>(st1));
    assert(run(st, s, i) == run(st1, s, i + 1));
    lemma_escaped(st1, t, q, false, s, i + 1);
    let st2 = PState { buf: st1.buf + t, ..st1 };
    assert(st2.buf =~= t);
    lemma_at_char(s, end - 1, q);
    assert(step(st2, s[end - 1]) == Ok::<PState, JsonErrorKind>(emit(st2, v)));
    assert(run(st2, s, end - 1) == run(emit(st2, v), s, end));
    assert(emit(st2, v) == emit(st, v));
}

proof fn lemma_value_int(st: PState, v: JValue, q: char, s: Seq<char>, i: int)
    requires
        value_ahead(st, v, q, s, i),
        v is Int,
    ensures
        run(st, s, i) == run(emit(st, v), s, i + render(v, q).len()),
{
    let n = v->Int_0;
    let end = i + render(v, q).len();
    lemma_decimal(n as nat);
    let d = decimal(n as nat);
    assert(d =~= seq![d[0]] + d.drop_first());
    lemma_at_split(s, i, seq![d[0]], d.drop_first());
    lemma_at_char(s, i, d[0]);
    assert(is_digit(d[0]));
    let st1 = PState { mode: Mode::InNum { dot: false }, buf: seq![d[0]], ..st };
    assert(step(st, s[i]) == Ok::<PState, JsonErrorKind>(st1));
    assert(run(st, s, i) == run(st1, s, i + 1));
    assert forall|k: int| 0 <= k < d.drop_first().len() implies is_digit(#[trigger] d.drop_first()[k]) by {
        assert(d.drop_first()[k] == d[k + 1]);
    }
    lemma_digits(st1, d.drop_first(), s, i + 1);
    let st2 = PState { buf: st1.buf + d.drop_first(), ..st1 };
    assert(st2.buf =~= d);
    assert(is_digit(d[d.len() - 1]));
    assert(number_value(d, false) == Ok::<JValue, JsonErrorKind>(JValue::Int(n)));
    lemma_finish(st2, st, v, s, end);
}

proof fn lemma_value_float(st: PState, v: JValue, q: char, s: Seq<char>, i: int)
    requires
        value_ahead(st, v, q, s, i),
        v is Float,
    ensures
        run(st, s, i) == run(emit(st, v), s, i + render(v, q).len()),
{
    let t = v->Float_0;
    let end = i + render(v, q).len();
    let p = choose|p: int|
        0 < p < t.len() - 1 && t[p] == '.' && forall|j: int|
            0 <= j < t.len() && j != p ==> is_digit(#[trigger] t[j]);
    let a = t.subrange(1, p);
    let b = t.subrange(p + 1, t.len() as int);
    assert(t =~= seq![t[0]] + a + seq!['.'] + b);
    lemma_at_split(s, i, seq![t[0]] + a + seq!['.'], b);
    lemma_at_split(s, i, seq![t[0]] + a, seq!['.']);
    lemma_at_split(s, i, seq![t[0]], a);
    lemma_at_char(s, i, t[0]);
    assert(is_digit(t[0]));
    let st1 = PState { mode: Mode::InNum { dot: false }, buf: seq![t[0]], ..st };
    assert(step(st, s[i]) == Ok::<PState, JsonErrorKind>(st1));
    assert(run(st, s, i) == run(st1, s, i + 1));
    assert forall|k: int| 0 <= k < a.len() implies is_digit(#[trigger] a[k]) by {
        assert(a[k] == t[k + 1]);
    }
    lemma_digits(st1, a, s, i + 1);
    let st2 = PState { buf: st1.buf + a, ..st1 };
    lemma_at_char(s, i + p, '.');
    let st3 = PState { mode: Mode::InNum { dot: true }, buf: st2.buf.push('.'), ..st2 };
    assert(step(st2, s[i + p]) == Ok::<PState, JsonErrorKind>(st3));
    assert(run(st2, s, i + p) == run(st3, s, i + p + 1));
    assert forall|k: int| 0 <= k < b.len() implies is_digit(#[trigger] b[k]) by {
        assert(b[k] == t[p + 1 + k]);
    }
    lemma_digits(st3, b, s, i + p + 1);
    let st4 = PState { buf: st3.buf + b, ..st3 };
    assert(st4.buf =~= t);
    assert(is_digit(t[t.len() - 1]));
    assert(number_value(t, true) == Ok::<JValue, JsonErrorKind>(JValue::Float(t)));
    lemma_finish(st4, st, v, s, end);
}

proof fn lemma_value_lit(st: PState, v: JValue, q: char, s: Seq<char>, i: int)
    requires
        value_ahead(st, v, q, s, i),
        v is Bool || v is Null,
    ensures
        run(st, s, i) == run(emit(st, v), s, i + render(v, q).len()),
{
    let end = i + render(v, q).len();
    let f = if v == JValue::Bool(true) {
        't'
    } else if v == JValue::Bool(false) {
        'f'
    } else {
        'n'
    };
    let t = lit_text(f);
    assert(render(v, q) == t);
    assert(t =~= seq![f] + t.subrange(1, t.len() as int));
    lemma_at_split(s, i, seq![f], t.subrange(1, t.len() as int));
    lemma_at_char(s, i, f);
    let st1 = PState { mode: Mode::InLit, buf: seq![f], ..st };
    assert(step(st, s[i]) == Ok::<PState, JsonErrorKind>(st1));
    assert(run(st, s, i) == run(st1, s, i + 1));
    assert(st1.buf =~= t.take(1));
    lemma_lit(st1, s, i + 1, 1);
    let st2 = PState { buf: t, ..st1 };
    assert(lit_value(f) == v);
    lemma_finish(st2, st, v, s, end);
}

proof fn lemma_value_array(st: PState, v: JValue, q: char, s: Seq<char>, i: int)
    requires
        value_ahead(st, v, q, s, i),
        v is Array,
    ensures
        run(st, s, i) == run(emit(st, v), s, i + render(v, q).len()),
    decreases v, 2nat,
{
    let items = v->Array_0;
    let end = i + render(v, q).len();
    lemma_at_split(s, i, seq!['['] + render_items(items, q), seq![']']);
    lemma_at_split(s, i, seq!['['], render_items(items, q));
    lemma_at_char(s, i, '[');
    lemma_at_char(s, end - 1, ']');
    let st1 = PState {
        mode: Mode::ValueStart { first: true },
        frames: st.frames.push(Frame::Arr { items: Seq::empty() }),
        ..st
    };
    assert(step(st, s[i]) == Ok::<PState, JsonErrorKind>(st1));
    assert(run(st, s, i) == run(st1, s, i + 1));
    assert(st1.frames.drop_last() =~= st.frames);
    if items.len() == 0 {
        assert(items =~= Seq::<JValue>::empty());
        assert(close(st1) == emit(st, v));
        assert(step(st1, s[end - 1]) == Ok::<PState, JsonErrorKind>(close(st1)));
        assert(run(st1, s, end - 1) == run(close(st1), s, end));
    } else {
        lemma_items(st1, items, q, s, i + 1);
        let st2 = PState {
            mode: Mode::AfterValue,
            frames: st.frames.push(Frame::Arr { items }),
            buf: Seq::empty(),
            root: st.root,
        };
        assert(st2.frames.drop_last() =~= st.frames);
        assert(close(st2) == emit(st, v));
        assert(step(st2, s[end - 1]) == Ok::<PState, JsonErrorKind>(close(st2)));
        assert(run(st2, s, end - 1) == run(close(st2), s, end));
    }
}

proof fn lemma_value_object(st: PState, v: JValue, q: char, s: Seq<char>, i: int)
    requires
        value_ahead(st, v, q, s, i),
        v is Object,
    ensures
        run(st, s, i) == run(emit(st, v), s, i + render(v, q).len()),
    decreases v, 2nat,
{
    let es = v->Object_0;
    let end = i + render(v, q).len();
    lemma_at_split(s, i, seq!['{'] + render_entries(es, q), seq!['}']);
    lemma_at_split(s, i, seq!['{'], render_entries(es, q));
    lemma_at_char(s, i, '{');
    lemma_at_char(s, end - 1, '}');
    let st1 = PState {
        mode: Mode::KeyStart { first: true },
        frames: st.frames.push(Frame::Obj { entries: Seq::empty(), key: Seq::empty() }),
        ..st
    };
    assert(step(st, s[i]) == Ok::<PState, JsonErrorKind>(st1));
    assert(run(st, s, i) == run(st1, s, i + 1));
    assert(st1.frames.drop_last() =~= st.frames);
    if es.len() == 0 {
        assert(es =~= Seq::<(Seq<char>, JValue)>::empty());
        assert(close(st1) == emit(st, v));
        assert(step(st1, s[end - 1]) == Ok::<PState, JsonErrorKind>(close(st1)));
        assert(run(st1, s, end - 1) == run(close(st1), s, end));
    } else {
        lemma_entries(st1, es, q, s, i + 1);
        let st2 = PState {
            mode: Mode::AfterValue,
            frames: st.frames.push(Frame::Obj { entries: es, key: es[es.len() - 1].0 }),
            buf: Seq::empty(),
            root: st.root,
        };
        assert(st2.frames.drop_last() =~= st.frames);
        assert(close(st2) == emit(st, v));
        assert(step(st2, s[end - 1]) == Ok::<PState, JsonErrorKind>(close(st2)));
        assert(run(st2, s, end - 1) == run(close(st2), s, end));
    }
}

/// Reading the items of a non-empty array, from just after its `[`.
proof fn lemma_items(st: PState, items: Seq<JValue>, q: char, s: Seq<char>, i: int)
    requires
        is_quote(q),
        st.mode == (Mode::ValueStart { first: true }),
        st.frames.len() >= 1,
        st.frames.last() == (Frame::Arr { items: Seq::empty() }),
        items.len() >= 1,
        all_renderable(items),
        at(s, i, render_items(items, q)),
        i + render_items(items, q).len() < s.len(),
        ends_token(s[i + render_items(items, q).len()]),
    ensures
        run(st, s, i) == run(
            PState {
                mode: Mode::AfterValue,
                frames: st.frames.drop_last().push(Frame::Arr { items }),
                buf: Seq::empty(),
                root: st.root,
            },
            s,
            i + render_items(items, q).len(),
        ),
    decreases items, 0nat,
{
    let n = items.len();
    let last = items[n - 1];
    if n == 1 {
        lemma_value(st, items[0], q, s, i);
        assert(Seq::<JValue>::empty().push(items[0]) =~= items);
        assert(st.frames.update(st.frames.len() - 1, Frame::Arr { items }) =~= st.frames.drop_last().push(
            Frame::Arr { items },
        ));
    } else {
        let p = items.subrange(0, n - 1);
        let rp = render_items(p, q);
        lemma_at_split(s, i, rp + seq![','], render(last, q));
        lemma_at_split(s, i, rp, seq![',']);
        lemma_at_char(s, i + rp.len(), ',');
        lemma_items(st, p, q, s, i);
        let mid = PState {
            mode: Mode::AfterValue,
            frames: st.frames.drop_last().push(Frame::Arr { items: p }),
            buf: Seq::empty(),
            root: st.root,
        };
        let st2 = PState { mode: Mode::ValueStart { first: false }, ..mid };
        assert(step(mid, s[i + rp.len()]) == Ok::<PState, JsonErrorKind>(st2));
        assert(run(mid, s, i + rp.len()) == run(st2, s, i + rp.len() + 1));
        lemma_value(st2, last, q, s, i + rp.len() + 1);
        assert(p.push(last) =~= items);
        assert(emit(st2, last).frames =~= st.frames.drop_last().push(Frame::Arr { items }));
    }
}

/// The first `k` entries hold no key equal to `key`.
proof fn lemma_key_absent(es: Seq<(Seq<char>, JValue)>, key: Seq<char>, k: int)
    requires
        0 <= k <= es.len(),
        forall|j: int| 0 <= j < k ==> es[j].0 != key,
    ensures
        key_pos_in(es, key, k) == -1,
    decreases k,
{
    if k > 0 {
        lemma_key_absent(es, key, k - 1);
    }
}

/// Reading one `key:value` entry where a key is expected.
proof fn lemma_entry(st: PState, entries: Seq<(Seq<char>, JValue)>, e: (Seq<char>, JValue), q: char, s: Seq<char>, i: int)
    requires
        is_quote(q),
        st.mode is KeyStart,
        st.frames.len() >= 1,
        st.frames.last() is Obj,
        st.frames.last()->Obj_entries == entries,
        key_pos(entries, e.0) == -1,
        renderable(e.1),
        at(s, i, quoted(e.0, q) + seq![':'] + render(e.1, q)),
        i + quoted(e.0, q).len() + 1 + render(e.1, q).len() < s.len(),
        ends_token(s[i + quoted(e.0, q).len() + 1 + render(e.1, q).len()]),
    ensures
        run(st, s, i) == run(
            PState {
                mode: Mode::AfterValue,
                frames: st.frames.drop_last().push(Frame::Obj { entries: entries.push(e), key: e.0 }),
                buf: Seq::empty(),
                root: st.root,
            },
            s,
            i + quoted(e.0, q).len() + 1 + render(e.1, q).len(),
        ),
    decreases e.1, 4nat,
{
    let k = e.0;
    let qk = quoted(k, q);
    lemma_at_split(s, i, qk + seq![':'], render(e.1, q));
    lemma_at_split(s, i, qk, seq![':']);
    lemma_at_split(s, i, seq![q] + escaped(k, q), seq![q]);
    lemma_at_split(s, i, seq![q], escaped(k, q));
    lemma_at_char(s, i, q);
    let st1 = PState { mode: Mode::InKey { quote: q, escaped: false }, buf: Seq::empty(), ..st };
    assert(step(st, s[i]) == Ok::<PState, JsonErrorKind>(st1));
    assert(run(st, s, i) == run(st1, s, i + 1));
    lemma_escaped(st1, k, q, true, s, i + 1);
    let st2 = PState { buf: st1.buf + k, ..st1 };
    assert(st2.buf =~= k);
    let j = i + qk.len();
    lemma_at_char(s, j - 1, q);
    let st3 = set_key(st2);
    assert(step(st2, s[j - 1]) == Ok::<PState, JsonErrorKind>(st3));
    assert(run(st2, s, j - 1) == run(st3, s, j));
    lemma_at_char(s, j, ':');
    let st4 = PState { mode: Mode::ValueStart { first: false }, ..st3 };
    assert(step(st3, s[j]) == Ok::<PState, JsonErrorKind>(st4));
    assert(run(st3, s, j) == run(st4, s, j + 1));
    lemma_value(st4, e.1, q, s, j + 1);
    assert(obj_insert(entries, k, e.1) == entries.push((k, e.1)));
    assert(emit(st4, e.1).frames =~= st.frames.drop_last().push(Frame::Obj { entries: entries.push(e), key: e.0 }));
}

/// Reading the entries of a non-empty object, from just after its `{`.
proof fn lemma_entries(st: PState, es: Seq<(Seq<char>, JValue)>, q: char, s: Seq<char>, i: int)
    requires
        is_quote(q),
        st.mode == (Mode::KeyStart { first: true }),
        st.frames.len() >= 1,
        st.frames.last() == (Frame::Obj { entries: Seq::empty(), key: Seq::empty() }),
        es.len() >= 1,
        keys_unique(es),
        entries_renderable(es),
        at(s, i, render_entries(es, q)),
        i + render_entries(es, q).len() < s.len(),
        ends_token(s[i + render_entries(es, q).len()]),
    ensures
        run(st, s, i) == run(
            PState {
                mode: Mode::AfterValue,
                frames: st.frames.drop_last().push(Frame::Obj { entries: es, key: es[es.len() - 1].0 }),
                buf: Seq::empty(),
                root: st.root,
            },
            s,
            i + render_entries(es, q).len(),
        ),
    decreases es, 0nat,
{
    let n = es.len();
    let last = es[n - 1];
    if n == 1 {
        lemma_key_absent(Seq::empty(), last.0, 0);
        assert(entries_renderable(es.subrange(0, 0)) && renderable(es[0].1));
        lemma_entry(st, Seq::empty(), last, q, s, i);
        assert(Seq::<(Seq<char>, JValue)>::empty().push(last) =~= es);
    } else {
        let p = es.subrange(0, n - 1);
        let rp = render_entries(p, q);
        let re = quoted(last.0, q) + seq![':'] + render(last.1, q);
        assert(render_entries(es, q) =~= rp + seq![','] + re);
        lemma_at_split(s, i, rp + seq![','], re);
        lemma_at_split(s, i, rp, seq![',']);
        lemma_at_char(s, i + rp.len(), ',');
        assert(keys_unique(p));
        lemma_entries(st, p, q, s, i);
        let mid = PState {
            mode: Mode::AfterValue,
            frames: st.frames.drop_last().push(Frame::Obj { entries: p, key: p[p.len() - 1].0 }),
            buf: Seq::empty(),
            root: st.root,
        };
        let st2 = PState { mode: Mode::KeyStart { first: false }, ..mid };
        assert(step(mid, s[i + rp.len()]) == Ok::<PState, JsonErrorKind>(st2));
        assert(run(mid, s, i + rp.len()) == run(st2, s, i + rp.len() + 1));
        lemma_key_absent(p, last.0, p.len() as int);
        lemma_entry(st2, p, last, q, s, i + rp.len() + 1);
        assert(p.push(last) =~= es);
        assert(st2.frames.drop_last() =~= st.frames.drop_last());
    }
}

/// Every object that the grammar can express is read back exactly from its
/// text, whichever quote character delimits its strings and keys; a quote or
/// backslash inside a string or key comes back as itself.
pub proof fn lemma_parse_render(es: Seq<(Seq<char>, JValue)>, q: char)
    requires
        is_quote(q),
        renderable(JValue::Object(es)),
    ensures
        parse_result(render(JValue::Object(es), q)) == Ok::<Seq<(Seq<char>, JValue)>, (JsonErrorKind, int)>(es),
{
    let s = render(JValue::Object(es), q);
    let n = s.len();
    assert(s.subrange(0, n as int) =~= s);
    lemma_at_split(s, 0, seq!['{'] + render_entries(es, q), seq!['}']);
    lemma_at_split(s, 0, seq!['{'], render_entries(es, q));
    lemma_at_char(s, 0, '{');
    lemma_at_char(s, n - 1, '}');
    let st1 = PState {
        mode: Mode::KeyStart { first: true },
        frames: seq![Frame::Obj { entries: Seq::empty(), key: Seq::empty() }],
        buf: Seq::empty(),
        root: Seq::empty(),
    };
    assert(step(init_state(), s[0]) == Ok::<PState, JsonErrorKind>(st1));
    let done = PState { mode: Mode::Done, frames: Seq::empty(), buf: Seq::empty(), root: es };
    assert(run(init_state(), s, 0) == run(st1, s, 1));
    if es.len() == 0 {
        assert(es =~= Seq::<(Seq<char>, JValue)>::empty());
        assert(st1.frames.drop_last() =~= Seq::<Frame>::empty());
        assert(close(st1) == done);
        assert(run(done, s, n as int) == Ok::<PState, (JsonErrorKind, int)>(done));
        assert(run(st1, s, 1) == run(done, s, 2));
    } else {
        lemma_entries(st1, es, q, s, 1);
        let st2 = PState {
            mode: Mode::AfterValue,
            frames: seq![Frame::Obj { entries: es, key: es[es.len() - 1].0 }],
            buf: Seq::empty(),
            root: Seq::empty(),
        };
        assert(st1.frames.drop_last().push(Frame::Obj { entries: es, key: es[es.len() - 1].0 }) =~= st2.frames);
        assert(st2.frames.drop_last() =~= Seq::<Frame>::empty());
        assert(close(st2) == done);
        assert(step(st2, s[n - 1]) == Ok::<PState, JsonErrorKind>(done));
        assert(run(st2, s, n - 1) == run(done, s, n as int));
        assert(run(done, s, n as int) == Ok::<PState, (JsonErrorKind, int)>(done));
    }
}

} // verus!
