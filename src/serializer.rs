//! Writing a value tree as compact JSON text.
use vstd::prelude::*;

use crate::error::JsonError;
use crate::{elements_view, lemma_array_view, lemma_object_view, members_view, JsonType, JsonValue};

verus! {

broadcast use vstd::std_specs::vec::group_vec_axioms;

/// The character of a decimal digit.
pub open spec fn digit_of(d: nat) -> char {
    if d == 0 {
        '0'
    } else if d == 1 {
        '1'
    } else if d == 2 {
        '2'
    } else if d == 3 {
        '3'
    } else if d == 4 {
        '4'
    } else if d == 5 {
        '5'
    } else if d == 6 {
        '6'
    } else if d == 7 {
        '7'
    } else if d == 8 {
        '8'
    } else {
        '9'
    }
}

/// The decimal digits of `n`, without leading zeros.
pub open spec fn nat_text(n: nat) -> Seq<char>
    decreases n,
{
    if n < 10 {
        seq![digit_of(n)]
    } else {
        nat_text(n / 10).push(digit_of(n % 10))
    }
}

/// The decimal text of an integer, with a `-` before a negative one.
pub open spec fn int_text(n: int) -> Seq<char> {
    if n < 0 {
        seq!['-'] + nat_text((-n) as nat)
    } else {
        nat_text(n as nat)
    }
}

/// The compact JSON text of a value: no whitespace, members and elements in
/// order, strings written between quotes as they are.
pub open spec fn render(v: JsonValue) -> Seq<char>
    decreases v,
{
    match v {
        JsonValue::Str(s) => seq!['"'] + s + seq!['"'],
        JsonValue::Int(n) => int_text(n),
        JsonValue::Float(w, f) => w + seq!['.'] + f,
        JsonValue::Bool(b) => if b {
            seq!['t', 'r', 'u', 'e']
        } else {
            seq!['f', 'a', 'l', 's', 'e']
        },
        JsonValue::Object(m) => seq!['{'] + render_members(m) + seq!['}'],
        JsonValue::Array(a) => seq!['['] + render_elements(a) + seq![']'],
    }
}

/// The members of an object, separated by commas.
pub open spec fn render_members(m: Seq<(Seq<char>, JsonValue)>) -> Seq<char>
    decreases m,
{
    if m.len() == 0 {
        Seq::empty()
    } else if m.len() == 1 {
        seq!['"'] + m[0].0 + seq!['"', ':'] + render(m[0].1)
    } else {
        seq!['"'] + m[0].0 + seq!['"', ':'] + render(m[0].1) + seq![','] + render_members(m.drop_first())
    }
}

/// The elements of an array, separated by commas.
pub open spec fn render_elements(a: Seq<JsonValue>) -> Seq<char>
    decreases a,
{
    if a.len() == 0 {
        Seq::empty()
    } else if a.len() == 1 {
        render(a[0])
    } else {
        render(a[0]) + seq![','] + render_elements(a.drop_first())
    }
}

/// The text of one member: its key between quotes, a colon and its value.
pub open spec fn render_member(k: Seq<char>, v: JsonValue) -> Seq<char> {
    seq!['"'] + k + seq!['"', ':'] + render(v)
}

pub proof fn lemma_render_members_push(m: Seq<(Seq<char>, JsonValue)>, k: Seq<char>, v: JsonValue)
    requires
        m.len() > 0,
    ensures
        render_members(m.push((k, v))) == render_members(m) + seq![','] + render_member(k, v),
    decreases m.len(),
{
    let m2 = m.push((k, v));
    assert(m2.drop_first() =~= m.drop_first().push((k, v)));
    assert(m2[0] == m[0]);
    let head = seq!['"'] + m[0].0 + seq!['"', ':'] + render(m[0].1);
    if m.len() > 1 {
        lemma_render_members_push(m.drop_first(), k, v);
        assert(render_members(m2) == head + seq![','] + render_members(m2.drop_first()));
        assert(render_members(m) == head + seq![','] + render_members(m.drop_first()));
        assert(render_members(m2) =~= render_members(m) + seq![','] + render_member(k, v));
    } else {
        let rest = m2.drop_first();
        assert(rest.len() == 1 && rest[0] == (k, v));
        assert(render_members(rest) == render_member(k, v));
        assert(render_members(m2) == head + seq![','] + render_members(rest));
        assert(render_members(m) == head);
    }
}

pub proof fn lemma_render_elements_push(a: Seq<JsonValue>, v: JsonValue)
    requires
        a.len() > 0,
    ensures
        render_elements(a.push(v)) == render_elements(a) + seq![','] + render(v),
    decreases a.len(),
{
    let a2 = a.push(v);
    assert(a2.drop_first() =~= a.drop_first().push(v));
    assert(a2[0] == a[0]);
    if a.len() > 1 {
        lemma_render_elements_push(a.drop_first(), v);
        assert(render_elements(a2) == render(a[0]) + seq![','] + render_elements(a2.drop_first()));
        assert(render_elements(a) == render(a[0]) + seq![','] + render_elements(a.drop_first()));
        assert(render_elements(a2) =~= render_elements(a) + seq![','] + render(v));
    } else {
        let rest = a2.drop_first();
        assert(rest.len() == 1 && rest[0] == v);
        assert(render_elements(rest) == render(v));
        assert(render_elements(a2) == render(a[0]) + seq![','] + render_elements(rest));
    }
}

fn digit_to_char(d: u64) -> (c: char)
    requires
        d < 10,
    ensures
        c == digit_of(d as nat),
{
    if d == 0 {
        '0'
    } else if d == 1 {
        '1'
    } else if d == 2 {
        '2'
    } else if d == 3 {
        '3'
    } else if d == 4 {
        '4'
    } else if d == 5 {
        '5'
    } else if d == 6 {
        '6'
    } else if d == 7 {
        '7'
    } else if d == 8 {
        '8'
    } else {
        '9'
    }
}

fn push_natural(out: &mut String, n: u64)
    ensures
        final(out)@ == old(out)@ + nat_text(n as nat),
    decreases n,
{
    if n >= 10 {
        push_natural(out, n / 10);
    }
    out.push(digit_to_char(n % 10));
    proof {
        if n >= 10 {
            assert(final(out)@ =~= old(out)@ + nat_text(n as nat));
        } else {
            assert(final(out)@ =~= old(out)@ + nat_text(n as nat));
        }
    }
}

/// Appends the decimal text of `n` to `out`.
pub fn push_integer(out: &mut String, n: i64)
    ensures
        final(out)@ == old(out)@ + int_text(n as int),
{
    if n < 0 {
        out.push('-');
        let magnitude: u64 = if n == i64::MIN {
            9223372036854775808u64
        } else {
            (-n) as u64
        };
        push_natural(out, magnitude);
        assert(final(out)@ =~= old(out)@ + int_text(n as int));
    } else {
        push_natural(out, n as u64);
    }
}

/// Appends the compact JSON text of `data` to `out`.
pub fn write_json(out: &mut String, data: &JsonType)
    ensures
        final(out)@ == old(out)@ + render(data@),
    decreases data,
{
    match data {
        JsonType::Str(value) => {
            out.push('"');
            out.append(value.as_str());
            out.push('"');
            assert(final(out)@ =~= old(out)@ + render(data@));
        },
        JsonType::Num(value) => {
            let text = value.serialize();
            out.append(text.as_str());
            assert(final(out)@ =~= old(out)@ + render(data@));
        },
        JsonType::Bool(value) => {
            if *value {
                out.append("true");
            } else {
                out.append("false");
            }
            proof {
                reveal_strlit("true");
                reveal_strlit("false");
                assert(final(out)@ =~= old(out)@ + render(data@));
            }
        },
        JsonType::Array(v) => {
            proof {
                lemma_array_view(*data);
            }
            let ghost a = elements_view(v@);
            let ghost start = out@;
            out.push('[');
            let mut i: usize = 0;
            while i < v.len()
                invariant
                    i <= v@.len(),
                    a == elements_view(v@),
                    out@ == start + seq!['['] + render_elements(a.take(i as int)),
                    forall|j: int| 0 <= j < v@.len() ==> decreases_to!(data => v@[j]),
                decreases v@.len() - i,
            {
                let ghost before = out@;
                if i > 0 {
                    out.push(',');
                }
                write_json(out, &v[i]);
                proof {
                    assert(a.take(i + 1) =~= a.take(i as int).push(a[i as int]));
                    if i > 0 {
                        lemma_render_elements_push(a.take(i as int), a[i as int]);
                    } else {
                        assert(render_elements(a.take(1)) == render(a[0]));
                    }
                    assert(out@ =~= start + seq!['['] + render_elements(a.take(i + 1)));
                }
                i = i + 1;
            }
            out.push(']');
            assert(a.take(v@.len() as int) =~= a);
            assert(final(out)@ =~= old(out)@ + render(data@));
        },
        JsonType::Object(o) => {
            proof {
                lemma_object_view(*data);
            }
            let ghost m = members_view(o.data@);
            let ghost start = out@;
            out.push('{');
            let mut i: usize = 0;
            while i < o.data.len()
                invariant
                    i <= o.data@.len(),
                    m == members_view(o.data@),
                    out@ == start + seq!['{'] + render_members(m.take(i as int)),
                    forall|j: int| 0 <= j < o.data@.len() ==> decreases_to!(data => o.data@[j].1),
                decreases o.data@.len() - i,
            {
                if i > 0 {
                    out.push(',');
                }
                out.push('"');
                out.append(o.data[i].0.as_str());
                out.push('"');
                out.push(':');
                write_json(out, &o.data[i].1);
                proof {
                    assert(m.take(i + 1) =~= m.take(i as int).push(m[i as int]));
                    if i > 0 {
                        lemma_render_members_push(m.take(i as int), m[i as int].0, m[i as int].1);
                    } else {
                        assert(render_members(m.take(1)) == render_member(m[0].0, m[0].1));
                    }
                    assert(out@ =~= start + seq!['{'] + render_members(m.take(i + 1)));
                }
                i = i + 1;
            }
            out.push('}');
            assert(m.take(o.data@.len() as int) =~= m);
            assert(final(out)@ =~= old(out)@ + render(data@));
        },
    }
}

/// The compact JSON text of `data`.
pub fn serialize_json(data: &JsonType) -> (r: Result<String, JsonError>)
    ensures
        r matches Ok(s) && s@ == render(data@),
{
    let mut out = String::new();
    write_json(&mut out, data);
    assert(out@ =~= render(data@));
    Ok(out)
}

} // verus!
