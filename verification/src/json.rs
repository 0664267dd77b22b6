//! A JSON-like value: the normal form every literal of an expanded document is
//! brought into, and the payload type of node properties.
//!
//! Numbers keep their textual form, constrained by the JSON number grammar, so
//! that no precision is lost and no floating point is needed.

use vstd::prelude::*;

use crate::text::spec_digits;

verus! {

pub enum JsonValue {
    Null,
    Bool(bool),
    /// The textual form of the number, matching `is_json_number`.
    Number(Vec<char>),
    Text(Vec<char>),
    Array(Vec<JsonValue>),
    Object(Vec<(Vec<char>, JsonValue)>),
}

/// Mathematical shape of a `JsonValue`: sequences instead of vectors.
#[verifier::ext_equal]
pub enum JsonV {
    Null,
    Bool(bool),
    Number(Seq<char>),
    Text(Seq<char>),
    Array(Seq<JsonV>),
    Object(Seq<(Seq<char>, JsonV)>),
}

pub open spec fn jview(v: JsonValue) -> JsonV
    decreases v,
{
    match v {
        JsonValue::Null => JsonV::Null,
        JsonValue::Bool(b) => JsonV::Bool(b),
        JsonValue::Number(n) => JsonV::Number(n@),
        JsonValue::Text(s) => JsonV::Text(s@),
        JsonValue::Array(a) => JsonV::Array(jview_seq(a@)),
        JsonValue::Object(o) => JsonV::Object(jview_obj(o@)),
    }
}

pub open spec fn jview_seq(s: Seq<JsonValue>) -> Seq<JsonV>
    decreases s,
{
    if s.len() == 0 {
        Seq::empty()
    } else {
        jview_seq(s.drop_last()).push(jview(s.last()))
    }
}

pub open spec fn jview_obj(s: Seq<(Vec<char>, JsonValue)>) -> Seq<(Seq<char>, JsonV)>
    decreases s,
{
    if s.len() == 0 {
        Seq::empty()
    } else {
        jview_obj(s.drop_last()).push((s.last().0@, jview(s.last().1)))
    }
}

pub broadcast proof fn jview_seq_len(s: Seq<JsonValue>)
    ensures
        #[trigger] jview_seq(s).len() == s.len(),
    decreases s,
{
    if s.len() > 0 {
        jview_seq_len(s.drop_last());
    }
}

pub broadcast proof fn jview_seq_index(s: Seq<JsonValue>, i: int)
    requires
        0 <= i < s.len(),
    ensures
        #[trigger] jview_seq(s)[i] == jview(s[i]),
    decreases s,
{
    jview_seq_len(s);
    if i < s.len() - 1 {
        jview_seq_index(s.drop_last(), i);
    }
}

pub broadcast proof fn jview_obj_len(s: Seq<(Vec<char>, JsonValue)>)
    ensures
        #[trigger] jview_obj(s).len() == s.len(),
    decreases s,
{
    if s.len() > 0 {
        jview_obj_len(s.drop_last());
    }
}

pub broadcast proof fn jview_obj_index(s: Seq<(Vec<char>, JsonValue)>, i: int)
    requires
        0 <= i < s.len(),
    ensures
        #[trigger] jview_obj(s)[i] == (s[i].0@, jview(s[i].1)),
    decreases s,
{
    jview_obj_len(s);
    if i < s.len() - 1 {
        jview_obj_index(s.drop_last(), i);
    }
}

// ---------------------------------------------------------------------------
// The JSON number grammar: `-? (0 | [1-9][0-9]*) (. [0-9]+)? ([eE][+-]?[0-9]+)?`
// ---------------------------------------------------------------------------

pub open spec fn is_digit(c: char) -> bool {
    '0' <= c && c <= '9'
}

/// Length of the run of digits in `s` starting at `i`.
pub open spec fn digit_run(s: Seq<char>, i: int) -> int
    decreases s.len() - i,
{
    if 0 <= i < s.len() && is_digit(s[i]) {
        1 + digit_run(s, i + 1)
    } else {
        0
    }
}

proof fn digit_run_bounds(s: Seq<char>, i: int)
    requires
        0 <= i <= s.len(),
    ensures
        0 <= digit_run(s, i) <= s.len() - i,
    decreases s.len() - i,
{
    if i < s.len() && is_digit(s[i]) {
        digit_run_bounds(s, i + 1);
    }
}

/// Where the integer part ends, `i` being the position after the sign;
/// `-1` when the integer part is malformed (empty or a leading zero).
pub open spec fn int_end(s: Seq<char>, i: int) -> int {
    let run = digit_run(s, i);
    if run == 0 {
        -1
    } else if s[i] == '0' && run != 1 {
        -1
    } else {
        i + run
    }
}

/// Where the fraction part ends, `p` being the end of the integer part.
pub open spec fn frac_end(s: Seq<char>, p: int) -> int {
    if p < s.len() && s[p] == '.' {
        let run = digit_run(s, p + 1);
        if run == 0 {
            -1
        } else {
            p + 1 + run
        }
    } else {
        p
    }
}

/// Where the exponent part ends, `p` being the end of the fraction part.
pub open spec fn exp_end(s: Seq<char>, p: int) -> int {
    if p < s.len() && (s[p] == 'e' || s[p] == 'E') {
        let q = if p + 1 < s.len() && (s[p + 1] == '+' || s[p + 1] == '-') {
            p + 2
        } else {
            p + 1
        };
        let run = digit_run(s, q);
        if run == 0 {
            -1
        } else {
            q + run
        }
    } else {
        p
    }
}

pub open spec fn is_json_number(s: Seq<char>) -> bool {
    let i = if s.len() > 0 && s[0] == '-' {
        1int
    } else {
        0int
    };
    let p1 = int_end(s, i);
    if p1 < 0 {
        false
    } else {
        let p2 = frac_end(s, p1);
        if p2 < 0 {
            false
        } else {
            let p3 = exp_end(s, p2);
            p3 == s.len()
        }
    }
}

fn digit_run_exec(s: &[char], i: usize) -> (r: usize)
    requires
        i <= s@.len(),
    ensures
        r == digit_run(s@, i as int),
        i + r <= s@.len(),
{
    proof {
        digit_run_bounds(s@, i as int);
    }
    let mut j = i;
    while j < s.len() && '0' <= s[j] && s[j] <= '9'
        invariant
            i <= j <= s.len(),
            digit_run(s@, i as int) == (j - i) + digit_run(s@, j as int),
        decreases s.len() - j,
    {
        proof {
            digit_run_bounds(s@, j + 1);
        }
        j = j + 1;
    }
    j - i
}

pub fn is_json_number_exec(s: &[char]) -> (r: bool)
    ensures
        r == is_json_number(s@),
{
    let i: usize = if s.len() > 0 && s[0] == '-' {
        1
    } else {
        0
    };
    let run = digit_run_exec(s, i);
    if run == 0 {
        return false;
    }
    if s[i] == '0' && run != 1 {
        return false;
    }
    let p1 = i + run;
    let p2: usize = if p1 < s.len() && s[p1] == '.' {
        let frun = digit_run_exec(s, p1 + 1);
        if frun == 0 {
            return false;
        }
        p1 + 1 + frun
    } else {
        p1
    };
    if p2 < s.len() && (s[p2] == 'e' || s[p2] == 'E') {
        let q: usize = if p2 + 1 < s.len() && (s[p2 + 1] == '+' || s[p2 + 1] == '-') {
            p2 + 2
        } else {
            p2 + 1
        };
        let erun = digit_run_exec(s, q);
        if erun == 0 {
            return false;
        }
        q + erun == s.len()
    } else {
        p2 == s.len()
    }
}

// ---------------------------------------------------------------------------
// Looking a key up in an object: the first pair with that key wins.
// ---------------------------------------------------------------------------

pub open spec fn obj_index(o: Seq<(Seq<char>, JsonV)>, key: Seq<char>) -> int
    decreases o,
{
    if o.len() == 0 {
        -1
    } else if o.first().0 == key {
        0
    } else {
        let r = obj_index(o.drop_first(), key);
        if r < 0 {
            -1
        } else {
            r + 1
        }
    }
}

pub open spec fn obj_get(o: Seq<(Seq<char>, JsonV)>, key: Seq<char>) -> Option<JsonV> {
    let i = obj_index(o, key);
    if i >= 0 {
        Some(o[i].1)
    } else {
        None
    }
}

pub broadcast proof fn obj_index_props(o: Seq<(Seq<char>, JsonV)>, key: Seq<char>)
    ensures
        -1 <= #[trigger] obj_index(o, key) < o.len(),
        obj_index(o, key) >= 0 ==> o[obj_index(o, key)].0 == key,
        obj_index(o, key) == -1 ==> forall|j: int| 0 <= j < o.len() ==> o[j].0 != key,
    decreases o,
{
    if o.len() > 0 && o.first().0 != key {
        obj_index_props(o.drop_first(), key);
        assert forall|j: int| obj_index(o, key) == -1 && 0 <= j < o.len() implies o[j].0
            != key by {
            if j > 0 {
                assert(o.drop_first()[j - 1] == o[j]);
            }
        }
    }
}

pub fn obj_find<'a>(o: &'a Vec<(Vec<char>, JsonValue)>, key: &[char]) -> (r: Option<usize>)
    ensures
        match r {
            Some(i) => i < o@.len() && i == obj_index(jview_obj(o@), key@) && o@[i as int].0@
                == key@,
            None => obj_index(jview_obj(o@), key@) == -1,
        },
{
    proof {
        jview_obj_len(o@);
        assert(jview_obj(o@).skip(0) =~= jview_obj(o@));
    }
    let mut i: usize = 0;
    while i < o.len()
        invariant
            i <= o@.len(),
            jview_obj(o@).len() == o@.len(),
            obj_index(jview_obj(o@), key@) == if obj_index(jview_obj(o@).skip(i as int), key@)
                >= 0 {
                i + obj_index(jview_obj(o@).skip(i as int), key@)
            } else {
                -1
            },
        decreases o@.len() - i,
    {
        proof {
            jview_obj_index(o@, i as int);
            obj_index_props(jview_obj(o@).skip(i as int), key@);
            assert(jview_obj(o@).skip(i as int).first() == jview_obj(o@)[i as int]);
        }
        if crate::text::chars_eq(o[i].0.as_slice(), key) {
            return Some(i);
        }
        proof {
            assert(jview_obj(o@).skip(i as int).drop_first() =~= jview_obj(o@).skip(i + 1));
        }
        i = i + 1;
    }
    proof {
        assert(jview_obj(o@).skip(o@.len() as int) =~= Seq::<(Seq<char>, JsonV)>::empty());
    }
    None
}

// ---------------------------------------------------------------------------
// Scalar extraction, as the renderers read property values.
// ---------------------------------------------------------------------------

/// The scalar text of a value: strings directly, numbers and booleans by their
/// textual form, arrays by their first extractable element, objects by their
/// `@value` entry and then their `name` entry.
pub open spec fn spec_json_to_string(v: JsonV) -> Option<Seq<char>>
    decreases v,
        via spec_json_to_string_dec
{
    match v {
        JsonV::Text(s) => Some(s),
        JsonV::Number(n) => Some(n),
        JsonV::Bool(b) => Some(
            if b {
                "true"@
            } else {
                "false"@
            },
        ),
        JsonV::Array(a) => if a.len() == 0 {
            None
        } else {
            spec_json_to_string(a.first())
        },
        JsonV::Object(o) => {
            let i = obj_index(o, "@value"@);
            let k = obj_index(o, "name"@);
            if 0 <= i < o.len() {
                match spec_json_to_string(o[i].1) {
                    Some(s) => Some(s),
                    None => if 0 <= k < o.len() {
                        spec_json_to_string(o[k].1)
                    } else {
                        None
                    },
                }
            } else if 0 <= k < o.len() {
                spec_json_to_string(o[k].1)
            } else {
                None
            }
        },
        _ => None,
    }
}

#[via_fn]
proof fn spec_json_to_string_dec(v: JsonV) {
    match v {
        JsonV::Array(a) => {
            if a.len() > 0 {
                assert(decreases_to!(v => a));
                assert(decreases_to!(a => a.first()));
            }
        },
        JsonV::Object(o) => {
            let i = obj_index(o, "@value"@);
            let k = obj_index(o, "name"@);
            assert(decreases_to!(v => o));
            if 0 <= i < o.len() {
                assert(decreases_to!(o => o[i]));
                assert(decreases_to!(o[i] => o[i].1));
            }
            if 0 <= k < o.len() {
                assert(decreases_to!(o => o[k]));
                assert(decreases_to!(o[k] => o[k].1));
            }
        },
        _ => {},
    }
}

pub fn json_value_to_string(v: &JsonValue) -> (r: Option<Vec<char>>)
    ensures
        match r {
            Some(s) => spec_json_to_string(jview(*v)) == Some(s@),
            None => spec_json_to_string(jview(*v)) is None,
        },
    decreases *v,
{
    match v {
        JsonValue::Text(s) => Some(crate::text::copy_chars(s.as_slice())),
        JsonValue::Number(n) => Some(crate::text::copy_chars(n.as_slice())),
        JsonValue::Bool(b) => {
            let mut r: Vec<char> = Vec::new();
            if *b {
                crate::text::push_str_chars(&mut r, "true");
            } else {
                crate::text::push_str_chars(&mut r, "false");
            }
            Some(r)
        },
        JsonValue::Array(a) => {
            proof {
                jview_seq_len(a@);
            }
            if a.len() == 0 {
                None
            } else {
                proof {
                    jview_seq_index(a@, 0);
                }
                json_value_to_string(&a[0])
            }
        },
        JsonValue::Object(o) => {
            proof {
                jview_obj_len(o@);
                obj_index_props(jview_obj(o@), "@value"@);
                obj_index_props(jview_obj(o@), "name"@);
            }
            let at_value = obj_find(o, crate::text::to_chars("@value").as_slice());
            match at_value {
                Some(i) => {
                    proof {
                        jview_obj_index(o@, i as int);
                    }
                    let s = json_value_to_string(&o[i].1);
                    match s {
                        Some(s) => Some(s),
                        None => {
                            let name = obj_find(o, crate::text::to_chars("name").as_slice());
                            match name {
                                Some(k) => {
                                    proof {
                                        jview_obj_index(o@, k as int);
                                    }
                                    json_value_to_string(&o[k].1)
                                },
                                None => None,
                            }
                        },
                    }
                },
                None => {
                    let name = obj_find(o, crate::text::to_chars("name").as_slice());
                    match name {
                        Some(k) => {
                            proof {
                                jview_obj_index(o@, k as int);
                            }
                            json_value_to_string(&o[k].1)
                        },
                        None => None,
                    }
                },
            }
        },
        JsonValue::Null => None,
    }
}

} // verus!
