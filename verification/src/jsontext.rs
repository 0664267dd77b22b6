//! Compact JSON rendering of a `JsonValue`, and the display form the
//! renderers fall back to when a value has no scalar reading.

use vstd::prelude::*;

use crate::json::{jview, jview_obj, jview_obj_index, jview_obj_len, jview_seq, jview_seq_index,
    jview_seq_len, obj_index, obj_index_props, spec_json_to_string, JsonV, JsonValue,
    json_value_to_string, obj_find};

verus! {

/// Hexadecimal digit for `n` in `0..16`, lower case.
pub open spec fn hex_char(n: int) -> char {
    if n == 0 {
        '0'
    } else if n == 1 {
        '1'
    } else if n == 2 {
        '2'
    } else if n == 3 {
        '3'
    } else if n == 4 {
        '4'
    } else if n == 5 {
        '5'
    } else if n == 6 {
        '6'
    } else if n == 7 {
        '7'
    } else if n == 8 {
        '8'
    } else if n == 9 {
        '9'
    } else if n == 10 {
        'a'
    } else if n == 11 {
        'b'
    } else if n == 12 {
        'c'
    } else if n == 13 {
        'd'
    } else if n == 14 {
        'e'
    } else {
        'f'
    }
}

/// How one character appears inside a JSON string literal.
pub open spec fn esc_char(c: char) -> Seq<char> {
    if c == '"' {
        seq!['\\', '"']
    } else if c == '\\' {
        seq!['\\', '\\']
    } else if c == '\u{8}' {
        seq!['\\', 'b']
    } else if c == '\u{c}' {
        seq!['\\', 'f']
    } else if c == '\n' {
        seq!['\\', 'n']
    } else if c == '\r' {
        seq!['\\', 'r']
    } else if c == '\t' {
        seq!['\\', 't']
    } else if (c as u32) < 32 {
        seq!['\\', 'u', '0', '0', hex_char((c as u32) as int / 16), hex_char((c as u32) as int % 16)]
    } else {
        seq![c]
    }
}

pub open spec fn spec_escape_json(s: Seq<char>) -> Seq<char>
    decreases s.len(),
{
    if s.len() == 0 {
        Seq::empty()
    } else {
        spec_escape_json(s.drop_last()) + esc_char(s.last())
    }
}

pub fn escape_json_into(out: &mut Vec<char>, s: &[char])
    ensures
        final(out)@ == old(out)@ + spec_escape_json(s@),
{
    let ghost orig = out@;
    for i in 0..s.len()
        invariant
            out@ == orig + spec_escape_json(s@.take(i as int)),
    {
        let c = s[i];
        if c == '"' {
            out.push('\\');
            out.push('"');
        } else if c == '\\' {
            out.push('\\');
            out.push('\\');
        } else if c == '\u{8}' {
            out.push('\\');
            out.push('b');
        } else if c == '\u{c}' {
            out.push('\\');
            out.push('f');
        } else if c == '\n' {
            out.push('\\');
            out.push('n');
        } else if c == '\r' {
            out.push('\\');
            out.push('r');
        } else if c == '\t' {
            out.push('\\');
            out.push('t');
        } else if (c as u32) < 32 {
            out.push('\\');
            out.push('u');
            out.push('0');
            out.push('0');
            let n = c as u32;
            let hexmap: [char; 16] = ['0', '1', '2', '3', '4', '5', '6', '7', '8', '9', 'a', 'b',
                'c', 'd', 'e', 'f'];
            out.push(hexmap[(n / 16) as usize]);
            out.push(hexmap[(n % 16) as usize]);
            assert(hexmap@[n as int / 16] == hex_char(n as int / 16));
            assert(hexmap@[n as int % 16] == hex_char(n as int % 16));
        } else {
            out.push(c);
        }
        proof {
            assert(s@.take(i + 1).drop_last() =~= s@.take(i as int));
            assert(s@.take(i + 1).last() == s@[i as int]);
            assert(out@ =~= orig + spec_escape_json(s@.take(i + 1)));
        }
    }
    proof {
        assert(s@.take(s@.len() as int) =~= s@);
    }
}

/// The compact JSON rendering of a value.
pub open spec fn spec_json_text(v: JsonV) -> Seq<char>
    decreases v, 0int,
{
    match v {
        JsonV::Null => "null"@,
        JsonV::Bool(b) => if b {
            "true"@
        } else {
            "false"@
        },
        JsonV::Number(n) => n,
        JsonV::Text(s) => seq!['"'] + spec_escape_json(s) + seq!['"'],
        JsonV::Array(a) => seq!['['] + text_items(a, a.len() as int) + seq![']'],
        JsonV::Object(o) => seq!['{'] + text_entries(o, o.len() as int) + seq!['}'],
    }
}

/// The rendering of the first `n` array elements, commas between them.
pub open spec fn text_items(a: Seq<JsonV>, n: int) -> Seq<char>
    decreases a, n,
{
    if n <= 0 || n > a.len() {
        Seq::empty()
    } else if n == 1 {
        spec_json_text(a[0])
    } else {
        text_items(a, n - 1) + seq![','] + spec_json_text(a[n - 1])
    }
}

/// The rendering of the first `n` object entries, commas between them.
pub open spec fn text_entries(o: Seq<(Seq<char>, JsonV)>, n: int) -> Seq<char>
    decreases o, n,
{
    if n <= 0 || n > o.len() {
        Seq::empty()
    } else {
        let entry = seq!['"'] + spec_escape_json(o[n - 1].0) + seq!['"', ':'] + spec_json_text(
            o[n - 1].1,
        );
        if n == 1 {
            entry
        } else {
            text_entries(o, n - 1) + seq![','] + entry
        }
    }
}

#[verifier::loop_isolation(false)]
#[verifier::rlimit(30)]
pub fn json_text_into(out: &mut Vec<char>, v: &JsonValue)
    ensures
        final(out)@ == old(out)@ + spec_json_text(jview(*v)),
    decreases *v,
{
    match v {
        JsonValue::Null => {
            crate::text::push_str_chars(out, "null");
        },
        JsonValue::Bool(b) => {
            if *b {
                crate::text::push_str_chars(out, "true");
            } else {
                crate::text::push_str_chars(out, "false");
            }
        },
        JsonValue::Number(n) => {
            crate::text::push_all(out, n.as_slice());
        },
        JsonValue::Text(s) => {
            out.push('"');
            escape_json_into(out, s.as_slice());
            out.push('"');
            assert(out@ =~= old(out)@ + spec_json_text(jview(*v)));
        },
        JsonValue::Array(a) => {
            proof {
                jview_seq_len(a@);
            }
            out.push('[');
            let ghost head = out@;
            let mut i: usize = 0;
            while i < a.len()
                invariant
                    i <= a@.len(),
                    jview_seq(a@).len() == a@.len(),
                    out@ == head + text_items(jview_seq(a@), i as int),
                decreases a@.len() - i,
            {
                proof {
                    jview_seq_index(a@, i as int);
                }
                if i > 0 {
                    out.push(',');
                }
                json_text_into(out, &a[i]);
                proof {
                    if i == 0 {
                        assert(text_items(jview_seq(a@), 0) =~= Seq::<char>::empty());
                        assert(head + text_items(jview_seq(a@), 0) =~= head);
                        assert(out@ =~= head + text_items(jview_seq(a@), 1));
                    } else {
                        assert(out@ =~= head + text_items(jview_seq(a@), i + 1));
                    }
                }
                i = i + 1;
            }
            out.push(']');
            proof {
                if a@.len() == 0 {
                    assert(text_items(jview_seq(a@), 0) =~= Seq::<char>::empty());
                }
                assert(out@ =~= old(out)@ + spec_json_text(jview(*v)));
            }
        },
        JsonValue::Object(o) => {
            proof {
                jview_obj_len(o@);
            }
            out.push('{');
            let ghost head = out@;
            let mut i: usize = 0;
            while i < o.len()
                invariant
                    i <= o@.len(),
                    jview_obj(o@).len() == o@.len(),
                    out@ == head + text_entries(jview_obj(o@), i as int),
                decreases o@.len() - i,
            {
                proof {
                    jview_obj_index(o@, i as int);
                }
                if i > 0 {
                    out.push(',');
                }
                out.push('"');
                escape_json_into(out, o[i].0.as_slice());
                out.push('"');
                out.push(':');
                json_text_into(out, &o[i].1);
                proof {
                    if i == 0 {
                        assert(text_entries(jview_obj(o@), 0) =~= Seq::<char>::empty());
                    }
                    assert(out@ =~= head + text_entries(jview_obj(o@), i + 1));
                }
                i = i + 1;
            }
            out.push('}');
            proof {
                if o@.len() == 0 {
                    assert(text_entries(jview_obj(o@), 0) =~= Seq::<char>::empty());
                }
                assert(out@ =~= old(out)@ + spec_json_text(jview(*v)));
            }
        },
    }
}

/// Display form of a value: its scalar text when it has one; otherwise arrays
/// join their elements' display forms with a comma, objects with an `@value`
/// entry display that entry, and anything else is rendered as compact JSON.
pub open spec fn spec_json_display(v: JsonV) -> Seq<char>
    decreases v, 1int,
{
    match spec_json_to_string(v) {
        Some(s) => s,
        None => match v {
            JsonV::Array(a) => display_items(a, a.len() as int),
            JsonV::Object(o) => {
                let i = obj_index(o, "@value"@);
                if 0 <= i < o.len() {
                    spec_json_display(o[i].1)
                } else {
                    spec_json_text(v)
                }
            },
            _ => spec_json_text(v),
        },
    }
}

/// Display forms of the first `n` array elements, joined with `", "`.
pub open spec fn display_items(a: Seq<JsonV>, n: int) -> Seq<char>
    decreases a, n, 2int,
{
    if n <= 0 || n > a.len() {
        Seq::empty()
    } else if n == 1 {
        spec_json_display(a[0])
    } else {
        display_items(a, n - 1) + seq![',', ' '] + spec_json_display(a[n - 1])
    }
}

#[verifier::loop_isolation(false)]
pub fn json_value_display(v: &JsonValue) -> (r: Vec<char>)
    ensures
        r@ == spec_json_display(jview(*v)),
    decreases *v,
{
    let direct = json_value_to_string(v);
    match direct {
        Some(s) => s,
        None => {
            match v {
                JsonValue::Array(a) => {
                    proof {
                        jview_seq_len(a@);
                    }
                    let mut out: Vec<char> = Vec::new();
                    let mut i: usize = 0;
                    while i < a.len()
                        invariant
                            i <= a@.len(),
                            jview_seq(a@).len() == a@.len(),
                            out@ == display_items(jview_seq(a@), i as int),
                        decreases a@.len() - i,
                    {
                        proof {
                            jview_seq_index(a@, i as int);
                        }
                        if i > 0 {
                            out.push(',');
                            out.push(' ');
                        }
                        let part = json_value_display(&a[i]);
                        crate::text::push_all(&mut out, part.as_slice());
                        proof {
                            if i == 0 {
                                assert(display_items(jview_seq(a@), 0) =~= Seq::<char>::empty());
                                assert(out@ =~= display_items(jview_seq(a@), 1));
                            } else {
                                assert(out@ =~= display_items(jview_seq(a@), i + 1));
                            }
                        }
                        i = i + 1;
                    }
                    proof {
                        if a@.len() == 0 {
                            assert(display_items(jview_seq(a@), 0) =~= Seq::<char>::empty());
                        }
                    }
                    out
                },
                JsonValue::Object(o) => {
                    proof {
                        jview_obj_len(o@);
                        obj_index_props(jview_obj(o@), "@value"@);
                    }
                    let at_value = obj_find(o, crate::text::to_chars("@value").as_slice());
                    match at_value {
                        Some(i) => {
                            proof {
                                jview_obj_index(o@, i as int);
                            }
                            json_value_display(&o[i].1)
                        },
                        None => {
                            let mut out: Vec<char> = Vec::new();
                            json_text_into(&mut out, v);
                            out
                        },
                    }
                },
                _ => {
                    let mut out: Vec<char> = Vec::new();
                    json_text_into(&mut out, v);
                    out
                },
            }
        },
    }
}

} // verus!
