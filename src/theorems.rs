//! What parsing and serializing promise of each other.
use vstd::prelude::*;

use crate::error::ErrorView;
use crate::parser::{
    lemma_member_progress, lemma_value_progress, parse_array, parse_document, parse_elements,
    parse_member, parse_members, parse_object, parse_value,
};
use crate::serializer::{digit_of, nat_text, render, render_elements, render_members};
use crate::token::tokenizer::{
    bool_char, digit_char, digits_value, is_digit, lemma_lex_advances, lemma_run_end,
    lemma_run_end_at, lex, number_char, number_token, peek_is, run_end, skip_whitespace,
    string_char, whitespace_char, TokenView,
};
use crate::{has_key, is_first_key, JsonValue};

verus! {

/// Whether `s` holds no `"`.
pub open spec fn quote_free(s: Seq<char>) -> bool {
    forall|i: int| 0 <= i < s.len() ==> #[trigger] s[i] != '"'
}

/// Whether every character of `s` is a decimal digit.
pub open spec fn all_digits(s: Seq<char>) -> bool {
    forall|i: int| 0 <= i < s.len() ==> is_digit(#[trigger] s[i])
}

/// Whether the text of `v` reads back as `v`: its strings and keys hold no `"`,
/// its integers are not negative and fit in an `i64`, and its floats have
/// digits before the point and only digits after it.
pub open spec fn well_formed(v: JsonValue) -> bool
    decreases v,
{
    match v {
        JsonValue::Str(s) => quote_free(s),
        JsonValue::Int(n) => 0 <= n <= i64::MAX,
        JsonValue::Float(w, f) => w.len() > 0 && all_digits(w) && all_digits(f),
        JsonValue::Bool(_) => true,
        JsonValue::Object(m) => forall|i: int|
            0 <= i < m.len() ==> quote_free(#[trigger] m[i].0) && well_formed(m[i].1),
        JsonValue::Array(a) => forall|i: int| 0 <= i < a.len() ==> well_formed(#[trigger] a[i]),
    }
}

/// Whether the keys of `m` hold no `"` and its values are well formed.
pub open spec fn members_well_formed(m: Seq<(Seq<char>, JsonValue)>) -> bool {
    forall|i: int| 0 <= i < m.len() ==> quote_free(#[trigger] m[i].0) && well_formed(m[i].1)
}

/// Whether `t` stands in `s` from index `p` on.
pub open spec fn occurs_at(s: Seq<char>, p: int, t: Seq<char>) -> bool {
    &&& 0 <= p
    &&& p + t.len() <= s.len()
    &&& forall|i: int| 0 <= i < t.len() ==> s[p + i] == #[trigger] t[i]
}

/// Whether a value that ends before `e` is followed by the end of `s` or by a
/// separator or a closing bracket.
pub open spec fn ends_value(s: Seq<char>, e: int) -> bool {
    e == s.len() || (0 <= e < s.len() && (s[e] == ',' || s[e] == '}' || s[e] == ']'))
}

proof fn lemma_occurs_split(s: Seq<char>, p: int, a: Seq<char>, b: Seq<char>)
    requires
        occurs_at(s, p, a + b),
    ensures
        occurs_at(s, p, a),
        occurs_at(s, p + a.len(), b),
{
    assert forall|i: int| 0 <= i < a.len() implies s[p + i] == #[trigger] a[i] by {
        assert((a + b)[i] == a[i]);
    }
    assert forall|i: int| 0 <= i < b.len() implies s[p + a.len() + i] == #[trigger] b[i] by {
        assert((a + b)[a.len() + i] == b[i]);
    }
}

proof fn lemma_no_skip(s: Seq<char>, p: int)
    requires
        0 <= p < s.len(),
        !(whitespace_char())(s[p]),
    ensures
        skip_whitespace(s, p) == p,
{
}

proof fn lemma_digit_of(d: nat)
    requires
        d < 10,
    ensures
        is_digit(digit_of(d)),
        (digit_of(d) as u32 - '0' as u32) as nat == d,
{
}

proof fn lemma_nat_text(n: nat)
    ensures
        nat_text(n).len() > 0,
        all_digits(nat_text(n)),
        digits_value(nat_text(n)) == n,
    decreases n,
{
    let t = nat_text(n);
    if n >= 10 {
        lemma_nat_text(n / 10);
        lemma_digit_of(n % 10);
        assert(t.drop_last() =~= nat_text(n / 10));
        assert(t.last() == digit_of(n % 10));
        assert(digits_value(t) == digits_value(nat_text(n / 10)) * 10 + (n % 10));
        assert(n == (n / 10) * 10 + n % 10);
    } else {
        lemma_digit_of(n);
        assert(t.drop_last() =~= Seq::<char>::empty());
        assert(t.last() == digit_of(n));
        assert(digits_value(t) == digits_value(t.drop_last()) * 10 + n);
    }
}

proof fn lemma_lex_string(s: Seq<char>, p: int, x: Seq<char>)
    requires
        quote_free(x),
        occurs_at(s, p, seq!['"'] + x),
        p + 1 + x.len() < s.len(),
        s[p + 1 + x.len()] == '"',
    ensures
        lex(s, p) == Some((Ok::<TokenView, crate::error::ErrorView>(TokenView::Str(x)), p + x.len() + 2)),
{
    lemma_occurs_split(s, p, seq!['"'], x);
    let e = p + 1 + x.len();
    assert(s[p + 0] == seq!['"'][0]);
    lemma_no_skip(s, p);
    assert forall|j: int| p + 1 <= j < e implies (string_char())(#[trigger] s[j]) by {
        assert(s[p + 1 + (j - p - 1)] == x[j - p - 1]);
    }
    lemma_run_end_at(s, p + 1, e, string_char());
    assert(s.subrange(p + 1, e) =~= x);
}

proof fn lemma_lex_number(s: Seq<char>, p: int, t: Seq<char>)
    requires
        occurs_at(s, p, t),
        t.len() > 0,
        is_digit(t[0]),
        forall|i: int| 0 <= i < t.len() ==> (number_char())(#[trigger] t[i]),
        ends_value(s, p + t.len()),
    ensures
        lex(s, p) == Some((number_token(t), p + t.len())),
{
    assert(s[p + 0] == t[0]);
    lemma_no_skip(s, p);
    let e = p + t.len();
    assert forall|j: int| p <= j < e implies (number_char())(#[trigger] s[j]) by {
        assert(s[p + (j - p)] == t[j - p]);
    }
    lemma_run_end_at(s, p, e, number_char());
    assert(s.subrange(p, e) =~= t);
}

proof fn lemma_number_int(n: nat)
    requires
        n <= i64::MAX,
    ensures
        number_token(nat_text(n)) == Ok::<TokenView, crate::error::ErrorView>(TokenView::Int(n as int)),
{
    lemma_nat_text(n);
    let t = nat_text(n);
    lemma_run_end_at(t, 0, t.len() as int, digit_char());
}

proof fn lemma_number_float(w: Seq<char>, f: Seq<char>)
    requires
        w.len() > 0,
        all_digits(w),
        all_digits(f),
    ensures
        number_token(w + seq!['.'] + f) == Ok::<TokenView, crate::error::ErrorView>(
            TokenView::Float(w, f),
        ),
{
    let t = w + seq!['.'] + f;
    assert(t[w.len() as int] == '.');
    assert forall|j: int| 0 <= j < w.len() implies (digit_char())(#[trigger] t[j]) by {
        assert(t[j] == w[j]);
    }
    lemma_run_end_at(t, 0, w.len() as int, digit_char());
    let fr = t.subrange(w.len() as int + 1, t.len() as int);
    assert(fr =~= f);
    lemma_run_end_at(f, 0, f.len() as int, digit_char());
    assert(t.subrange(0, w.len() as int) =~= w);
}

proof fn lemma_render_start(v: JsonValue)
    requires
        well_formed(v),
    ensures
        render(v).len() > 0,
        render(v)[0] == '"' || is_digit(render(v)[0]) || render(v)[0] == 't' || render(v)[0] == 'f'
            || render(v)[0] == '{' || render(v)[0] == '[',
{
    match v {
        JsonValue::Int(n) => {
            lemma_nat_text(n as nat);
        },
        JsonValue::Float(w, f) => {
            assert((w + seq!['.'] + f)[0] == w[0]);
        },
        _ => {},
    }
}

proof fn lemma_char_at(s: Seq<char>, p: int, t: Seq<char>, i: int)
    requires
        occurs_at(s, p, t),
        0 <= i < t.len(),
    ensures
        s[p + i] == t[i],
{
}

proof fn lemma_lex_bool(s: Seq<char>, p: int, b: bool)
    requires
        occurs_at(s, p, render(JsonValue::Bool(b))),
        ends_value(s, p + render(JsonValue::Bool(b)).len()),
    ensures
        lex(s, p) == Some(
            (
                Ok::<TokenView, crate::error::ErrorView>(TokenView::Bool(b)),
                p + render(JsonValue::Bool(b)).len(),
            ),
        ),
{
    let t = render(JsonValue::Bool(b));
    let e = p + t.len();
    lemma_char_at(s, p, t, 0);
    lemma_no_skip(s, p);
    assert forall|j: int| p + 1 <= j < e implies (bool_char())(#[trigger] s[j]) by {
        lemma_char_at(s, p, t, j - p);
    }
    lemma_run_end_at(s, p + 1, e, bool_char());
    assert(s.subrange(p, e) =~= t);
}

/// The text of a well-formed value, followed by a separator, a closing
/// bracket or the end, parses back to the value.
proof fn lemma_parse_rendered(s: Seq<char>, p: int, v: JsonValue)
    requires
        well_formed(v),
        occurs_at(s, p, render(v)),
        ends_value(s, p + render(v).len()),
    ensures
        parse_value(s, p) == Ok::<(JsonValue, int), crate::error::ErrorView>(
            (v, p + render(v).len()),
        ),
    decreases v,
{
    let t = render(v);
    let e = p + t.len();
    match v {
        JsonValue::Str(x) => {
            lemma_occurs_split(s, p, seq!['"'] + x, seq!['"']);
            lemma_char_at(s, p + 1 + x.len(), seq!['"'], 0);
            lemma_lex_string(s, p, x);
        },
        JsonValue::Int(n) => {
            lemma_nat_text(n as nat);
            let d = nat_text(n as nat);
            assert(t == d);
            assert forall|i: int| 0 <= i < d.len() implies (number_char())(#[trigger] d[i]) by {}
            lemma_lex_number(s, p, d);
            lemma_number_int(n as nat);
        },
        JsonValue::Float(w, f) => {
            assert forall|i: int| 0 <= i < t.len() implies (number_char())(#[trigger] t[i]) by {
                if i < w.len() {
                    assert(t[i] == w[i]);
                } else if i > w.len() {
                    assert(t[i] == f[i - w.len() - 1]);
                }
            }
            assert(t[0] == w[0]);
            lemma_lex_number(s, p, t);
            lemma_number_float(w, f);
        },
        JsonValue::Bool(b) => {
            lemma_lex_bool(s, p, b);
        },
        JsonValue::Object(m) => {
            let rm = render_members(m);
            lemma_occurs_split(s, p, seq!['{'] + rm, seq!['}']);
            lemma_occurs_split(s, p, seq!['{'], rm);
            lemma_char_at(s, p, seq!['{'], 0);
            lemma_char_at(s, p + 1 + rm.len(), seq!['}'], 0);
            lemma_no_skip(s, p);
            if m.len() == 0 {
                assert(rm.len() == 0);
                lemma_no_skip(s, p + 1);
                assert(m =~= seq![]);
            } else {
                assert(rm[0] == '"');
                lemma_char_at(s, p + 1, rm, 0);
                lemma_no_skip(s, p + 1);
                lemma_parse_rendered_members(s, p + 1, seq![], m);
                assert(seq![] + m =~= m);
            }
        },
        JsonValue::Array(a) => {
            let ra = render_elements(a);
            lemma_occurs_split(s, p, seq!['['] + ra, seq![']']);
            lemma_occurs_split(s, p, seq!['['], ra);
            lemma_char_at(s, p, seq!['['], 0);
            lemma_char_at(s, p + 1 + ra.len(), seq![']'], 0);
            lemma_no_skip(s, p);
            if a.len() == 0 {
                assert(ra.len() == 0);
                lemma_no_skip(s, p + 1);
                assert(a =~= seq![]);
            } else {
                lemma_render_start(a[0]);
                if a.len() == 1 {
                    assert(ra == render(a[0]));
                } else {
                    assert(ra == render(a[0]) + seq![','] + render_elements(a.drop_first()));
                }
                assert(ra[0] == render(a[0])[0]);
                lemma_char_at(s, p + 1, ra, 0);
                lemma_no_skip(s, p + 1);
                lemma_parse_rendered_elements(s, p + 1, seq![], a);
                assert(seq![] + a =~= a);
            }
        },
    }
}

proof fn lemma_parse_rendered_members(
    s: Seq<char>,
    p: int,
    acc: Seq<(Seq<char>, JsonValue)>,
    m: Seq<(Seq<char>, JsonValue)>,
)
    requires
        m.len() > 0,
        forall|i: int| 0 <= i < m.len() ==> quote_free(#[trigger] m[i].0) && well_formed(m[i].1),
        occurs_at(s, p, render_members(m)),
        p + render_members(m).len() < s.len(),
        s[p + render_members(m).len()] == '}',
    ensures
        parse_members(s, p, acc) == Ok::<(JsonValue, int), crate::error::ErrorView>(
            (JsonValue::Object(acc + m), p + render_members(m).len() + 1),
        ),
    decreases m,
{
    let rm = render_members(m);
    let k = m[0].0;
    let v = m[0].1;
    assert(quote_free(m[0].0) && well_formed(m[0].1));
    let head = seq!['"'] + k + seq!['"', ':'] + render(v);
    let q1 = p + k.len() + 2;
    let q2 = q1 + 1;
    let q3 = q2 + render(v).len();
    if m.len() == 1 {
        assert(rm == head);
    } else {
        assert(rm == head + seq![','] + render_members(m.drop_first()));
        assert(rm =~= head + (seq![','] + render_members(m.drop_first())));
        lemma_occurs_split(s, p, head, seq![','] + render_members(m.drop_first()));
    }
    assert(occurs_at(s, p, head));
    lemma_occurs_split(s, p, seq!['"'] + k + seq!['"', ':'], render(v));
    lemma_occurs_split(s, p, seq!['"'] + k, seq!['"', ':']);
    lemma_char_at(s, p + 1 + k.len(), seq!['"', ':'], 0);
    lemma_char_at(s, p + 1 + k.len(), seq!['"', ':'], 1);
    lemma_lex_string(s, p, k);
    lemma_no_skip(s, q1);
    assert(lex(s, q1) == Some((Ok::<TokenView, crate::error::ErrorView>(TokenView::Colon), q2)));
    if m.len() == 1 {
        assert(q3 == p + rm.len());
        lemma_parse_rendered(s, q2, v);
        assert(parse_member(s, p) == Ok::<((Seq<char>, JsonValue), int), ErrorView>(((k, v), q3)));
        lemma_no_skip(s, q3);
        assert(acc.push((k, v)) =~= acc + m);
    } else {
        let rest = m.drop_first();
        let rr = render_members(rest);
        lemma_occurs_split(s, q3, seq![','], rr);
        lemma_char_at(s, q3, seq![','], 0);
        lemma_parse_rendered(s, q2, v);
        assert(parse_member(s, p) == Ok::<((Seq<char>, JsonValue), int), ErrorView>(((k, v), q3)));
        lemma_no_skip(s, q3);
        let q4 = q3 + 1;
        assert(rr[0] == '"');
        lemma_char_at(s, q4, rr, 0);
        lemma_no_skip(s, q4);
        assert(!peek_is(s, q4, '}'));
        assert forall|i: int| 0 <= i < rest.len() implies quote_free(#[trigger] rest[i].0)
            && well_formed(rest[i].1) by {
            assert(rest[i] == m[i + 1]);
        }
        lemma_parse_rendered_members(s, q4, acc.push((k, v)), rest);
        assert(acc.push((k, v)) + rest =~= acc + m);
    }
}

proof fn lemma_parse_rendered_elements(s: Seq<char>, p: int, acc: Seq<JsonValue>, a: Seq<JsonValue>)
    requires
        a.len() > 0,
        forall|i: int| 0 <= i < a.len() ==> well_formed(#[trigger] a[i]),
        occurs_at(s, p, render_elements(a)),
        p + render_elements(a).len() < s.len(),
        s[p + render_elements(a).len()] == ']',
    ensures
        parse_elements(s, p, acc) == Ok::<(JsonValue, int), crate::error::ErrorView>(
            (JsonValue::Array(acc + a), p + render_elements(a).len() + 1),
        ),
    decreases a,
{
    let ra = render_elements(a);
    let v = a[0];
    assert(well_formed(a[0]));
    let q = p + render(v).len();
    lemma_render_start(v);
    if a.len() == 1 {
        assert(ra == render(v));
        lemma_parse_rendered(s, p, v);
        lemma_no_skip(s, q);
        assert(acc.push(v) =~= acc + a);
    } else {
        let rest = a.drop_first();
        let rr = render_elements(rest);
        assert(ra == render(v) + seq![','] + rr);
        lemma_occurs_split(s, p, render(v) + seq![','], rr);
        lemma_occurs_split(s, p, render(v), seq![',']);
        lemma_char_at(s, q, seq![','], 0);
        lemma_parse_rendered(s, p, v);
        lemma_no_skip(s, q);
        let q2 = q + 1;
        assert(rest[0] == a[1]);
        assert(well_formed(a[1]));
        lemma_render_start(rest[0]);
        if rest.len() == 1 {
            assert(rr == render(rest[0]));
        } else {
            assert(rr == render(rest[0]) + seq![','] + render_elements(rest.drop_first()));
        }
        assert(rr[0] == render(rest[0])[0]);
        lemma_char_at(s, q2, rr, 0);
        lemma_no_skip(s, q2);
        assert(!peek_is(s, q2, ']'));
        assert forall|i: int| 0 <= i < rest.len() implies well_formed(#[trigger] rest[i]) by {
            assert(rest[i] == a[i + 1]);
        }
        lemma_parse_rendered_elements(s, q2, acc.push(v), rest);
        assert(acc.push(v) + rest =~= acc + a);
    }
}

/// Writing a well-formed object or array and parsing the text gives back the
/// same tree.
pub proof fn lemma_round_trip(v: JsonValue)
    requires
        well_formed(v),
        v is Object || v is Array,
    ensures
        parse_document(render(v), 0) == Ok::<JsonValue, crate::error::ErrorView>(v),
{
    let s = render(v);
    assert(occurs_at(s, 0, s));
    lemma_parse_rendered(s, 0, v);
}

/// Whether a scalar token gives a well-formed value.
pub open spec fn token_well_formed(t: TokenView) -> bool {
    match t {
        TokenView::Str(x) => quote_free(x),
        TokenView::Int(n) => 0 <= n <= i64::MAX,
        TokenView::Float(w, f) => w.len() > 0 && all_digits(w) && all_digits(f),
        _ => true,
    }
}

proof fn lemma_lex_well_formed(s: Seq<char>, p: int)
    ensures
        lex(s, p) matches Some((Ok(t), _)) ==> token_well_formed(t),
{
    lemma_lex_advances(s, p);
    if let Some((Ok(t), _)) = lex(s, p) {
        lemma_run_end(s, p, whitespace_char());
        let q = skip_whitespace(s, p);
        let c = s[q];
        if c == '"' {
            lemma_run_end(s, q + 1, string_char());
            let e = run_end(s, q + 1, string_char());
            let x = s.subrange(q + 1, e);
            assert forall|i: int| 0 <= i < x.len() implies #[trigger] x[i] != '"' by {
                assert(x[i] == s[q + 1 + i]);
            }
        } else if is_digit(c) {
            lemma_run_end(s, q, number_char());
            let e = run_end(s, q, number_char());
            let n = s.subrange(q, e);
            lemma_run_end(n, 0, digit_char());
            let d = run_end(n, 0, digit_char());
            assert(n[0] == s[q]);
            if d < n.len() {
                let w = n.subrange(0, d);
                let f = n.subrange(d + 1, n.len() as int);
                lemma_run_end(f, 0, digit_char());
                assert forall|i: int| 0 <= i < w.len() implies is_digit(#[trigger] w[i]) by {
                    assert(w[i] == n[i]);
                    assert((digit_char())(n[i]));
                }
                assert forall|i: int| 0 <= i < f.len() implies is_digit(#[trigger] f[i]) by {
                    assert((digit_char())(f[i]));
                }
            }
        } else if c == 't' || c == 'f' {
            lemma_run_end(s, q + 1, bool_char());
            let e = run_end(s, q + 1, bool_char());
            let x = s.subrange(q, e);
            assert forall|i: int| 0 <= i < x.len() implies #[trigger] x[i] != '"' by {
                assert(x[i] == s[q + i]);
                if i > 0 {
                    assert((bool_char())(s[q + i]));
                }
            }
        }
    }
}

proof fn lemma_value_well_formed(s: Seq<char>, p: int)
    ensures
        parse_value(s, p) matches Ok((v, _)) ==> well_formed(v),
    decreases s.len() - p, 0nat,
{
    lemma_lex_advances(s, p);
    lemma_lex_well_formed(s, p);
    if let Some((Ok(t), q)) = lex(s, p) {
        match t {
            TokenView::OpenCurlybracket => lemma_object_well_formed(s, q),
            TokenView::OpenBracket => lemma_array_well_formed(s, q),
            _ => {},
        }
    }
}

proof fn lemma_object_well_formed(s: Seq<char>, p: int)
    requires
        0 <= p <= s.len(),
    ensures
        parse_object(s, p) matches Ok((v, _)) ==> well_formed(v) && v is Object,
    decreases s.len() - p, 2nat,
{
    if !peek_is(s, p, '}') {
        lemma_members_well_formed(s, p, seq![]);
    }
}

proof fn lemma_member_well_formed(s: Seq<char>, p: int)
    ensures
        parse_member(s, p) matches Ok(((k, v), _)) ==> quote_free(k) && well_formed(v),
    decreases s.len() - p, 0nat,
{
    lemma_lex_advances(s, p);
    lemma_lex_well_formed(s, p);
    if let Some((Ok(TokenView::Str(k)), q1)) = lex(s, p) {
        lemma_lex_advances(s, q1);
        if let Some((Ok(TokenView::Colon), q2)) = lex(s, q1) {
            lemma_value_well_formed(s, q2);
        }
    }
}

proof fn lemma_members_well_formed(s: Seq<char>, p: int, acc: Seq<(Seq<char>, JsonValue)>)
    requires
        0 <= p <= s.len(),
        members_well_formed(acc),
    ensures
        parse_members(s, p, acc) matches Ok((v, _)) ==> well_formed(v) && v is Object,
    decreases s.len() - p, 1nat,
{
    lemma_member_progress(s, p);
    lemma_member_well_formed(s, p);
    if let Ok(((k, v), q)) = parse_member(s, p) {
        let acc2 = acc.push((k, v));
        assert forall|i: int| 0 <= i < acc2.len() implies quote_free(#[trigger] acc2[i].0)
            && well_formed(acc2[i].1) by {
            if i < acc.len() {
                assert(acc2[i] == acc[i]);
            }
        }
        assert(members_well_formed(acc2));
        if q > p {
            lemma_lex_advances(s, q);
            if let Some((Ok(TokenView::Comma), q2)) = lex(s, q) {
                if !peek_is(s, q2, '}') {
                    lemma_members_well_formed(s, q2, acc2);
                }
            }
        }
    }
}

proof fn lemma_array_well_formed(s: Seq<char>, p: int)
    requires
        0 <= p <= s.len(),
    ensures
        parse_array(s, p) matches Ok((v, _)) ==> well_formed(v) && v is Array,
    decreases s.len() - p, 2nat,
{
    if !peek_is(s, p, ']') {
        lemma_elements_well_formed(s, p, seq![]);
    }
}

proof fn lemma_elements_well_formed(s: Seq<char>, p: int, acc: Seq<JsonValue>)
    requires
        0 <= p <= s.len(),
        forall|i: int| 0 <= i < acc.len() ==> well_formed(#[trigger] acc[i]),
    ensures
        parse_elements(s, p, acc) matches Ok((v, _)) ==> well_formed(v) && v is Array,
    decreases s.len() - p, 1nat,
{
    lemma_value_progress(s, p);
    lemma_value_well_formed(s, p);
    if let Ok((v, q)) = parse_value(s, p) {
        let acc2 = acc.push(v);
        assert forall|i: int| 0 <= i < acc2.len() implies well_formed(#[trigger] acc2[i]) by {
            if i < acc.len() {
                assert(acc2[i] == acc[i]);
            }
        }
        if q > p {
            lemma_lex_advances(s, q);
            if let Some((Ok(TokenView::Comma), q2)) = lex(s, q) {
                if !peek_is(s, q2, ']') {
                    lemma_elements_well_formed(s, q2, acc2);
                }
            }
        }
    }
}

/// Every tree that parsing gives is an object or an array that is well formed.
pub proof fn lemma_parsed_well_formed(s: Seq<char>, p: int)
    ensures
        parse_document(s, p) matches Ok(v) ==> well_formed(v) && (v is Object || v is Array),
{
    lemma_lex_advances(s, p);
    if let Some((Ok(t), q)) = lex(s, p) {
        match t {
            TokenView::OpenCurlybracket => lemma_object_well_formed(s, q),
            TokenView::OpenBracket => lemma_array_well_formed(s, q),
            _ => {},
        }
    }
}

/// Parsing the text that a parsed tree is written as gives back that tree.
pub proof fn lemma_reparse(s: Seq<char>)
    ensures
        parse_document(s, 0) matches Ok(v) ==> parse_document(render(v), 0) == Ok::<
            JsonValue,
            crate::error::ErrorView,
        >(v),
{
    lemma_parsed_well_formed(s, 0);
    if let Ok(v) = parse_document(s, 0) {
        lemma_round_trip(v);
    }
}

/// Whether every member of `m` has a string, number or boolean value and the
/// object is well formed.
pub open spec fn flat_object(m: Seq<(Seq<char>, JsonValue)>) -> bool {
    &&& well_formed(JsonValue::Object(m))
    &&& forall|i: int| 0 <= i < m.len() ==> !(#[trigger] m[i].1 is Object) && !(m[i].1 is Array)
}

/// A flat object read back from its text finds, for every key, the value that
/// the first member with that key had.
pub proof fn lemma_flat_object_lookup(m: Seq<(Seq<char>, JsonValue)>, k: Seq<char>)
    requires
        flat_object(m),
        has_key(m, k),
    ensures
        parse_document(render(JsonValue::Object(m)), 0) matches Ok(JsonValue::Object(m2))
            && (forall|i: int| is_first_key(m2, k, i) <==> is_first_key(m, k, i))
            && (forall|i: int| is_first_key(m2, k, i) ==> m2[i].1 == m[i].1),
{
    lemma_round_trip(JsonValue::Object(m));
}

/// A numeric literal reads as an integer exactly when it holds no point and
/// its value fits in an `i64`; it reads as a float only when it holds a point.
pub proof fn lemma_number_kind(t: Seq<char>)
    requires
        t.len() > 0,
        forall|i: int| 0 <= i < t.len() ==> (number_char())(#[trigger] t[i]),
    ensures
        number_token(t) matches Ok(TokenView::Int(_)) <==> (forall|i: int|
            0 <= i < t.len() ==> #[trigger] t[i] != '.') && digits_value(t) <= i64::MAX,
        number_token(t) matches Ok(TokenView::Float(_, _)) ==> exists|i: int|
            0 <= i < t.len() && #[trigger] t[i] == '.',
{
    lemma_run_end(t, 0, digit_char());
    let d = run_end(t, 0, digit_char());
    if d == t.len() {
        assert forall|i: int| 0 <= i < t.len() implies #[trigger] t[i] != '.' by {
            assert((digit_char())(t[i]));
        }
    } else {
        assert((number_char())(t[d]));
        assert(t[d] == '.');
    }
}

proof fn lemma_trailing_comma_members(
    s: Seq<char>,
    p: int,
    acc: Seq<(Seq<char>, JsonValue)>,
    m: Seq<(Seq<char>, JsonValue)>,
)
    requires
        m.len() > 0,
        forall|i: int| 0 <= i < m.len() ==> quote_free(#[trigger] m[i].0) && well_formed(m[i].1),
        occurs_at(s, p, render_members(m)),
        p + render_members(m).len() < s.len(),
        s[p + render_members(m).len()] == ',',
        peek_is(s, p + render_members(m).len() + 1, '}'),
    ensures
        parse_members(s, p, acc) == Err::<(JsonValue, int), ErrorView>(
            ErrorView::InvalidComaEndObjectError,
        ),
    decreases m,
{
    let rm = render_members(m);
    let k = m[0].0;
    let v = m[0].1;
    assert(quote_free(m[0].0) && well_formed(m[0].1));
    let head = seq!['"'] + k + seq!['"', ':'] + render(v);
    let q1 = p + k.len() + 2;
    let q2 = q1 + 1;
    let q3 = q2 + render(v).len();
    if m.len() == 1 {
        assert(rm == head);
    } else {
        assert(rm == head + seq![','] + render_members(m.drop_first()));
        assert(rm =~= head + (seq![','] + render_members(m.drop_first())));
        lemma_occurs_split(s, p, head, seq![','] + render_members(m.drop_first()));
    }
    assert(occurs_at(s, p, head));
    lemma_occurs_split(s, p, seq!['"'] + k + seq!['"', ':'], render(v));
    lemma_occurs_split(s, p, seq!['"'] + k, seq!['"', ':']);
    lemma_char_at(s, p + 1 + k.len(), seq!['"', ':'], 0);
    lemma_char_at(s, p + 1 + k.len(), seq!['"', ':'], 1);
    lemma_lex_string(s, p, k);
    lemma_no_skip(s, q1);
    assert(lex(s, q1) == Some((Ok::<TokenView, crate::error::ErrorView>(TokenView::Colon), q2)));
    if m.len() == 1 {
        lemma_parse_rendered(s, q2, v);
        assert(parse_member(s, p) == Ok::<((Seq<char>, JsonValue), int), ErrorView>(((k, v), q3)));
        lemma_no_skip(s, q3);
    } else {
        let rest = m.drop_first();
        let rr = render_members(rest);
        lemma_occurs_split(s, q3, seq![','], rr);
        lemma_char_at(s, q3, seq![','], 0);
        lemma_parse_rendered(s, q2, v);
        assert(parse_member(s, p) == Ok::<((Seq<char>, JsonValue), int), ErrorView>(((k, v), q3)));
        lemma_no_skip(s, q3);
        let q4 = q3 + 1;
        assert(rr[0] == '"');
        lemma_char_at(s, q4, rr, 0);
        lemma_no_skip(s, q4);
        assert forall|i: int| 0 <= i < rest.len() implies quote_free(#[trigger] rest[i].0)
            && well_formed(rest[i].1) by {
            assert(rest[i] == m[i + 1]);
        }
        lemma_trailing_comma_members(s, q4, acc.push((k, v)), rest);
    }
}

proof fn lemma_trailing_comma_elements(s: Seq<char>, p: int, acc: Seq<JsonValue>, a: Seq<JsonValue>)
    requires
        a.len() > 0,
        forall|i: int| 0 <= i < a.len() ==> well_formed(#[trigger] a[i]),
        occurs_at(s, p, render_elements(a)),
        p + render_elements(a).len() < s.len(),
        s[p + render_elements(a).len()] == ',',
        peek_is(s, p + render_elements(a).len() + 1, ']'),
    ensures
        parse_elements(s, p, acc) == Err::<(JsonValue, int), ErrorView>(
            ErrorView::InvalidComaEndObjectError,
        ),
    decreases a,
{
    let ra = render_elements(a);
    let v = a[0];
    assert(well_formed(a[0]));
    let q = p + render(v).len();
    lemma_render_start(v);
    if a.len() == 1 {
        assert(ra == render(v));
        lemma_parse_rendered(s, p, v);
        lemma_no_skip(s, q);
    } else {
        let rest = a.drop_first();
        let rr = render_elements(rest);
        assert(ra == render(v) + seq![','] + rr);
        lemma_occurs_split(s, p, render(v) + seq![','], rr);
        lemma_occurs_split(s, p, render(v), seq![',']);
        lemma_char_at(s, q, seq![','], 0);
        lemma_parse_rendered(s, p, v);
        lemma_no_skip(s, q);
        let q2 = q + 1;
        assert(rest[0] == a[1]);
        assert(well_formed(a[1]));
        lemma_render_start(rest[0]);
        if rest.len() == 1 {
            assert(rr == render(rest[0]));
        } else {
            assert(rr == render(rest[0]) + seq![','] + render_elements(rest.drop_first()));
        }
        assert(rr[0] == render(rest[0])[0]);
        lemma_char_at(s, q2, rr, 0);
        lemma_no_skip(s, q2);
        assert forall|i: int| 0 <= i < rest.len() implies well_formed(#[trigger] rest[i]) by {
            assert(rest[i] == a[i + 1]);
        }
        lemma_trailing_comma_elements(s, q2, acc.push(v), rest);
    }
}

proof fn lemma_skip_blank(s: Seq<char>, p: int, ws: Seq<char>)
    requires
        occurs_at(s, p, ws),
        forall|i: int| 0 <= i < ws.len() ==> (whitespace_char())(#[trigger] ws[i]),
        p + ws.len() < s.len(),
        !(whitespace_char())(s[p + ws.len()]),
    ensures
        skip_whitespace(s, p) == p + ws.len(),
{
    assert forall|j: int| p <= j < p + ws.len() implies (whitespace_char())(#[trigger] s[j]) by {
        lemma_char_at(s, p, ws, j - p);
    }
    lemma_run_end_at(s, p, p + ws.len(), whitespace_char());
}

/// An object whose last member is followed by a comma, and then by whitespace
/// and its `}`, fails with `InvalidComaEndObjectError`.
pub proof fn lemma_trailing_comma_object(m: Seq<(Seq<char>, JsonValue)>, ws: Seq<char>)
    requires
        m.len() > 0,
        forall|i: int| 0 <= i < m.len() ==> quote_free(#[trigger] m[i].0) && well_formed(m[i].1),
        forall|i: int| 0 <= i < ws.len() ==> (whitespace_char())(#[trigger] ws[i]),
    ensures
        parse_document(seq!['{'] + render_members(m) + seq![','] + ws + seq!['}'], 0) == Err::<
            JsonValue,
            ErrorView,
        >(ErrorView::InvalidComaEndObjectError),
{
    let rm = render_members(m);
    let s = seq!['{'] + rm + seq![','] + ws + seq!['}'];
    let e = 1 + rm.len() as int;
    assert(occurs_at(s, 1, rm)) by {
        assert forall|i: int| 0 <= i < rm.len() implies s[1 + i] == #[trigger] rm[i] by {}
    }
    assert(s[0] == '{');
    assert(s[e] == ',');
    assert(occurs_at(s, e + 1, ws)) by {
        assert forall|i: int| 0 <= i < ws.len() implies s[e + 1 + i] == #[trigger] ws[i] by {}
    }
    assert(s[e + 1 + ws.len()] == '}');
    lemma_skip_blank(s, e + 1, ws);
    lemma_no_skip(s, 0);
    assert(rm[0] == '"');
    lemma_char_at(s, 1, rm, 0);
    lemma_no_skip(s, 1);
    lemma_trailing_comma_members(s, 1, seq![], m);
}

/// An array whose last element is followed by a comma, and then by whitespace
/// and its `]`, fails with `InvalidComaEndObjectError`.
pub proof fn lemma_trailing_comma_array(a: Seq<JsonValue>, ws: Seq<char>)
    requires
        a.len() > 0,
        forall|i: int| 0 <= i < a.len() ==> well_formed(#[trigger] a[i]),
        forall|i: int| 0 <= i < ws.len() ==> (whitespace_char())(#[trigger] ws[i]),
    ensures
        parse_document(seq!['['] + render_elements(a) + seq![','] + ws + seq![']'], 0) == Err::<
            JsonValue,
            ErrorView,
        >(ErrorView::InvalidComaEndObjectError),
{
    let ra = render_elements(a);
    let s = seq!['['] + ra + seq![','] + ws + seq![']'];
    let e = 1 + ra.len() as int;
    assert(occurs_at(s, 1, ra)) by {
        assert forall|i: int| 0 <= i < ra.len() implies s[1 + i] == #[trigger] ra[i] by {}
    }
    assert(s[0] == '[');
    assert(s[e] == ',');
    assert(occurs_at(s, e + 1, ws)) by {
        assert forall|i: int| 0 <= i < ws.len() implies s[e + 1 + i] == #[trigger] ws[i] by {}
    }
    assert(s[e + 1 + ws.len()] == ']');
    lemma_skip_blank(s, e + 1, ws);
    lemma_no_skip(s, 0);
    assert(well_formed(a[0]));
    lemma_render_start(a[0]);
    if a.len() == 1 {
        assert(ra == render(a[0]));
    } else {
        assert(ra == render(a[0]) + seq![','] + render_elements(a.drop_first()));
    }
    assert(ra[0] == render(a[0])[0]);
    lemma_char_at(s, 1, ra, 0);
    lemma_no_skip(s, 1);
    lemma_trailing_comma_elements(s, 1, seq![], a);
}

/// A text of whitespace alone, the empty text among them, fails with
/// `EmptyInput`.
pub proof fn lemma_blank_input(s: Seq<char>)
    requires
        forall|i: int| 0 <= i < s.len() ==> (whitespace_char())(#[trigger] s[i]),
    ensures
        parse_document(s, 0) == Err::<JsonValue, ErrorView>(ErrorView::EmptyInput),
{
    lemma_run_end_at(s, 0, s.len() as int, whitespace_char());
}

/// A text that starts with a string literal fails with `UnexpectedToken` of
/// that string.
pub proof fn lemma_string_root(s: Seq<char>, x: Seq<char>)
    requires
        quote_free(x),
        occurs_at(s, 0, seq!['"'] + x + seq!['"']),
    ensures
        parse_document(s, 0) == Err::<JsonValue, ErrorView>(
            ErrorView::UnexpectedToken(TokenView::Str(x)),
        ),
{
    lemma_occurs_split(s, 0, seq!['"'] + x, seq!['"']);
    lemma_char_at(s, 1 + x.len() as int, seq!['"'], 0);
    lemma_lex_string(s, 0, x);
}

} // verus!
