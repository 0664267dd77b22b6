//! Short names for IRIs, loose type matching, tokenization of property
//! names, and escaping for the diagram and markup outputs.

use vstd::prelude::*;

use crate::text::{lower_char, lower_chars, spec_contains, spec_lower, spec_lower_char,
    spec_upper_char, upper_char};

verus! {

/// The trailing path segment of an IRI: everything after the last `/` or `#`,
/// or the whole text when neither occurs.
pub open spec fn spec_shorten(s: Seq<char>) -> Seq<char>
    decreases s.len(),
{
    if s.len() == 0 {
        s
    } else if s.last() == '/' || s.last() == '#' {
        Seq::<char>::empty()
    } else {
        spec_shorten(s.drop_last()).push(s.last())
    }
}

pub fn shorten_iri(iri: &str) -> (r: String)
    ensures
        r@ == spec_shorten(iri@),
{
    let cs = crate::text::to_chars(iri);
    let n = cs.len();
    let seps: [char; 2] = ['/', '#'];
    let cut = crate::text::rfind_any(cs.as_slice(), seps.as_slice());
    let start: usize = match cut {
        Some(i) => {
            assert(i < n);
            i + 1
        },
        None => 0,
    };
    let mut out: Vec<char> = Vec::new();
    let mut i = start;
    while i < cs.len()
        invariant
            start <= i <= cs@.len(),
            cs@ == iri@,
            out@ == iri@.subrange(start as int, i as int),
        decreases cs@.len() - i,
    {
        out.push(cs[i]);
        assert(iri@.subrange(start as int, i + 1) =~= iri@.subrange(start as int, i as int).push(
            iri@[i as int],
        ));
        i = i + 1;
    }
    proof {
        lemma_shorten_suffix(iri@, start as int);
    }
    crate::text::from_chars(&out)
}

/// After the last separator, `spec_shorten` is the plain suffix.
proof fn lemma_shorten_suffix(s: Seq<char>, start: int)
    requires
        0 <= start <= s.len(),
        start > 0 ==> s[start - 1] == '/' || s[start - 1] == '#',
        forall|j: int| start <= j < s.len() ==> s[j] != '/' && s[j] != '#',
    ensures
        spec_shorten(s) == s.subrange(start, s.len() as int),
    decreases s.len() - start,
{
    if s.len() == start {
        if start == 0 {
            assert(s.subrange(0, 0) =~= s);
        } else {
            assert(s.last() == '/' || s.last() == '#');
            assert(spec_shorten(s) =~= s.subrange(start, s.len() as int));
        }
    } else {
        let pre = s.drop_last();
        lemma_shorten_suffix(pre, start);
        assert(pre.subrange(start, pre.len() as int) =~= s.subrange(
            start,
            s.len() as int,
        ).drop_last());
        assert(spec_shorten(s) == spec_shorten(pre).push(s.last()));
        assert(spec_shorten(s) =~= s.subrange(start, s.len() as int));
    }
}

/// The original's loose predicate test: the predicate IRI ends with the name.
pub fn predicate_matches(predicate: &str, name: &str) -> (r: bool)
    ensures
        r == crate::text::spec_ends_with(predicate@, name@),
{
    let p = crate::text::to_chars(predicate);
    let n = crate::text::to_chars(name);
    crate::text::ends_with_chars(p.as_slice(), n.as_slice())
}

/// Case-insensitive containment or suffix match of a short name against a
/// predicate IRI (`/name` or `#name` at the end, or anywhere inside).
pub fn predicate_matches_loose(predicate: &str, name: &str) -> (r: bool)
    ensures
        r == ({
            let p = spec_lower(predicate@);
            let n = spec_lower(name@);
            spec_contains(p, n) || crate::text::spec_ends_with(p, seq!['/'] + n)
                || crate::text::spec_ends_with(p, seq!['#'] + n)
        }),
{
    let pc = crate::text::to_chars(predicate);
    let nc = crate::text::to_chars(name);
    let p = lower_chars(pc.as_slice());
    let n = lower_chars(nc.as_slice());
    if crate::text::contains_chars(p.as_slice(), n.as_slice()) {
        return true;
    }
    let mut slash: Vec<char> = Vec::new();
    slash.push('/');
    crate::text::push_all(&mut slash, n.as_slice());
    if crate::text::ends_with_chars(p.as_slice(), slash.as_slice()) {
        assert(slash@ =~= seq!['/'] + spec_lower(name@));
        return true;
    }
    let mut hash: Vec<char> = Vec::new();
    hash.push('#');
    crate::text::push_all(&mut hash, n.as_slice());
    let r = crate::text::ends_with_chars(p.as_slice(), hash.as_slice());
    proof {
        assert(slash@ =~= seq!['/'] + spec_lower(name@));
        assert(hash@ =~= seq!['#'] + spec_lower(name@));
    }
    r
}

/// A node carries the given schema type when some type IRI's short form
/// equals it, ASCII case ignored.
pub open spec fn spec_has_type(types: Seq<Seq<char>>, name: Seq<char>) -> bool {
    exists|i: int| 0 <= i < types.len() && spec_lower(spec_shorten(#[trigger] types[i]))
        == spec_lower(name)
}

pub fn has_schema_type(node: &crate::graph::GraphNode, schema_type: &str) -> (r: bool)
    ensures
        r == spec_has_type(crate::graph::nview(*node).types, schema_type@),
{
    let target = lower_chars(crate::text::to_chars(schema_type).as_slice());
    let mut i: usize = 0;
    while i < node.types.len()
        invariant
            i <= node.types@.len(),
            target@ == spec_lower(schema_type@),
            forall|j: int| 0 <= j < i ==> spec_lower(spec_shorten(
                #[trigger] crate::graph::nview(*node).types[j],
            )) != spec_lower(schema_type@),
        decreases node.types@.len() - i,
    {
        let short = shorten_iri(node.types[i].as_str());
        let shortl = lower_chars(crate::text::to_chars(short.as_str()).as_slice());
        if crate::text::chars_eq(shortl.as_slice(), target.as_slice()) {
            proof {
                assert(crate::graph::nview(*node).types[i as int] == node.types@[i as int]@);
            }
            return true;
        }
        proof {
            assert(crate::graph::nview(*node).types[i as int] == node.types@[i as int]@);
        }
        i = i + 1;
    }
    false
}

/// First character ASCII-uppercased, the rest ASCII-lowercased.
pub open spec fn spec_title_case(s: Seq<char>) -> Seq<char> {
    if s.len() == 0 {
        s
    } else {
        seq![spec_upper_char(s.first())] + spec_lower(s.drop_first())
    }
}

pub fn title_case(input: &str) -> (r: String)
    ensures
        r@ == spec_title_case(input@),
{
    let cs = crate::text::to_chars(input);
    if cs.len() == 0 {
        return crate::text::from_chars(&cs);
    }
    let mut out: Vec<char> = Vec::new();
    out.push(upper_char(cs[0]));
    let mut i: usize = 1;
    while i < cs.len()
        invariant
            1 <= i <= cs@.len(),
            cs@ == input@,
            cs@.len() > 0,
            out@ == seq![spec_upper_char(input@[0])] + spec_lower(
                input@.subrange(1, i as int),
            ),
        decreases cs@.len() - i,
    {
        out.push(lower_char(cs[i]));
        proof {
            assert(input@.subrange(1, i + 1).map_values(|c: char| spec_lower_char(c))
                =~= input@.subrange(1, i as int).map_values(|c: char| spec_lower_char(c)).push(
                spec_lower_char(input@[i as int]),
            ));
            assert(out@ =~= seq![spec_upper_char(input@[0])] + spec_lower(
                input@.subrange(1, i + 1),
            ));
        }
        i = i + 1;
    }
    proof {
        assert(input@.subrange(1, input@.len() as int) =~= input@.drop_first());
    }
    crate::text::from_chars(&out)
}

/// Tokens of a property name: split before each ASCII upper-case letter and
/// at non-alphanumeric characters, lower-cased.
pub open spec fn is_alnum(c: char) -> bool {
    ('a' <= c && c <= 'z') || ('A' <= c && c <= 'Z') || ('0' <= c && c <= '9')
}

pub open spec fn is_upper(c: char) -> bool {
    'A' <= c && c <= 'Z'
}

/// One step of the tokenizer: the tokens gathered so far and the current run.
pub open spec fn token_step(acc: (Seq<Seq<char>>, Seq<char>), c: char) -> (Seq<Seq<char>>, Seq<
    char,
>) {
    let flushed = if is_upper(c) && acc.1.len() > 0 {
        (acc.0.push(spec_lower(acc.1)), Seq::<char>::empty())
    } else {
        acc
    };
    if is_alnum(c) {
        (flushed.0, flushed.1.push(c))
    } else if flushed.1.len() > 0 {
        (flushed.0.push(spec_lower(flushed.1)), Seq::<char>::empty())
    } else {
        flushed
    }
}

pub open spec fn spec_tokens_fold(s: Seq<char>, i: int) -> (Seq<Seq<char>>, Seq<char>)
    decreases i,
{
    if i <= 0 || i > s.len() {
        (Seq::<Seq<char>>::empty(), Seq::<char>::empty())
    } else {
        token_step(spec_tokens_fold(s, i - 1), s[i - 1])
    }
}

pub open spec fn spec_tokens(s: Seq<char>) -> Seq<Seq<char>> {
    let r = spec_tokens_fold(s, s.len() as int);
    if r.1.len() > 0 {
        r.0.push(spec_lower(r.1))
    } else {
        r.0
    }
}

/// Tokenize a property name by camel-case boundaries and separators:
/// `FrameSize` gives `frame`, `size`; `colorway` gives `colorway`.
pub fn normalize_tokens(s: &str) -> (r: Vec<String>)
    ensures
        r@.map_values(|t: String| t@) == spec_tokens(s@),
{
    let cs = crate::text::to_chars(s);
    let mut tokens: Vec<String> = Vec::new();
    let mut current: Vec<char> = Vec::new();
    let mut i: usize = 0;
    while i < cs.len()
        invariant
            i <= cs@.len(),
            cs@ == s@,
            (tokens@.map_values(|t: String| t@), current@) == spec_tokens_fold(s@, i as int),
        decreases cs@.len() - i,
    {
        let c = cs[i];
        let ghost pre = (tokens@.map_values(|t: String| t@), current@);
        if 'A' <= c && c <= 'Z' && current.len() > 0 {
            let lowered = lower_chars(current.as_slice());
            tokens.push(crate::text::from_chars(&lowered));
            current = Vec::new();
            proof {
                assert(tokens@.map_values(|t: String| t@) =~= pre.0.push(spec_lower(pre.1)));
            }
        }
        let ghost flushed = (tokens@.map_values(|t: String| t@), current@);
        if (('a' <= c && c <= 'z') || ('A' <= c && c <= 'Z') || ('0' <= c && c <= '9')) {
            current.push(c);
        } else if current.len() > 0 {
            let lowered = lower_chars(current.as_slice());
            tokens.push(crate::text::from_chars(&lowered));
            current = Vec::new();
            proof {
                assert(tokens@.map_values(|t: String| t@) =~= flushed.0.push(
                    spec_lower(flushed.1),
                ));
            }
        }
        i = i + 1;
    }
    if current.len() > 0 {
        let lowered = lower_chars(current.as_slice());
        let ghost pre = tokens@.map_values(|t: String| t@);
        tokens.push(crate::text::from_chars(&lowered));
        proof {
            assert(tokens@.map_values(|t: String| t@) =~= pre.push(
                spec_lower(spec_tokens_fold(s@, s@.len() as int).1),
            ));
        }
    }
    tokens
}

// ---------------------------------------------------------------------------
// Escaping for the diagram and markup outputs.
// ---------------------------------------------------------------------------

/// Double quotes become `\"`; everything else passes through.
pub open spec fn esc_mermaid_char(c: char) -> Seq<char> {
    if c == '"' {
        seq!['\\', '"']
    } else {
        seq![c]
    }
}

pub open spec fn spec_escape_mermaid(s: Seq<char>) -> Seq<char>
    decreases s.len(),
{
    if s.len() == 0 {
        Seq::<char>::empty()
    } else {
        spec_escape_mermaid(s.drop_last()) + esc_mermaid_char(s.last())
    }
}

pub fn escape_mermaid_label(label: &str) -> (r: String)
    ensures
        r@ == spec_escape_mermaid(label@),
{
    let cs = crate::text::to_chars(label);
    let mut out: Vec<char> = Vec::new();
    for i in 0..cs.len()
        invariant
            cs@ == label@,
            out@ == spec_escape_mermaid(label@.take(i as int)),
    {
        if cs[i] == '"' {
            out.push('\\');
            out.push('"');
        } else {
            out.push(cs[i]);
        }
        proof {
            assert(label@.take(i + 1).drop_last() =~= label@.take(i as int));
            assert(out@ =~= spec_escape_mermaid(label@.take(i + 1)));
        }
    }
    proof {
        assert(label@.take(label@.len() as int) =~= label@);
    }
    crate::text::from_chars(&out)
}

/// HTML attribute escaping: `&`, `"`, `'`, `<`, `>`.
pub open spec fn esc_attr_char(c: char) -> Seq<char> {
    if c == '&' {
        "&amp;"@
    } else if c == '"' {
        "&quot;"@
    } else if c == '\'' {
        "&#39;"@
    } else if c == '<' {
        "&lt;"@
    } else if c == '>' {
        "&gt;"@
    } else {
        seq![c]
    }
}

pub open spec fn spec_escape_attr(s: Seq<char>) -> Seq<char>
    decreases s.len(),
{
    if s.len() == 0 {
        Seq::<char>::empty()
    } else {
        spec_escape_attr(s.drop_last()) + esc_attr_char(s.last())
    }
}

pub fn escape_html_attr(value: &str) -> (r: String)
    ensures
        r@ == spec_escape_attr(value@),
{
    let cs = crate::text::to_chars(value);
    let mut out: Vec<char> = Vec::new();
    for i in 0..cs.len()
        invariant
            cs@ == value@,
            out@ == spec_escape_attr(value@.take(i as int)),
    {
        let c = cs[i];
        if c == '&' {
            crate::text::push_str_chars(&mut out, "&amp;");
        } else if c == '"' {
            crate::text::push_str_chars(&mut out, "&quot;");
        } else if c == '\'' {
            crate::text::push_str_chars(&mut out, "&#39;");
        } else if c == '<' {
            crate::text::push_str_chars(&mut out, "&lt;");
        } else if c == '>' {
            crate::text::push_str_chars(&mut out, "&gt;");
        } else {
            out.push(c);
        }
        proof {
            assert(value@.take(i + 1).drop_last() =~= value@.take(i as int));
            assert(out@ =~= spec_escape_attr(value@.take(i + 1)));
        }
    }
    proof {
        assert(value@.take(value@.len() as int) =~= value@);
    }
    crate::text::from_chars(&out)
}

/// HTML text escaping: `&`, `<`, `>`.
pub open spec fn esc_text_char(c: char) -> Seq<char> {
    if c == '&' {
        "&amp;"@
    } else if c == '<' {
        "&lt;"@
    } else if c == '>' {
        "&gt;"@
    } else {
        seq![c]
    }
}

pub open spec fn spec_escape_text(s: Seq<char>) -> Seq<char>
    decreases s.len(),
{
    if s.len() == 0 {
        Seq::<char>::empty()
    } else {
        spec_escape_text(s.drop_last()) + esc_text_char(s.last())
    }
}

pub fn escape_html_text(value: &str) -> (r: String)
    ensures
        r@ == spec_escape_text(value@),
{
    let cs = crate::text::to_chars(value);
    let mut out: Vec<char> = Vec::new();
    for i in 0..cs.len()
        invariant
            cs@ == value@,
            out@ == spec_escape_text(value@.take(i as int)),
    {
        let c = cs[i];
        if c == '&' {
            crate::text::push_str_chars(&mut out, "&amp;");
        } else if c == '<' {
            crate::text::push_str_chars(&mut out, "&lt;");
        } else if c == '>' {
            crate::text::push_str_chars(&mut out, "&gt;");
        } else {
            out.push(c);
        }
        proof {
            assert(value@.take(i + 1).drop_last() =~= value@.take(i as int));
            assert(out@ =~= spec_escape_text(value@.take(i + 1)));
        }
    }
    proof {
        assert(value@.take(value@.len() as int) =~= value@);
    }
    crate::text::from_chars(&out)
}

/// Characters other than ASCII letters, digits, `-` and `_` become `_`.
pub open spec fn sanitize_char(c: char) -> char {
    if is_alnum(c) || c == '-' || c == '_' {
        c
    } else {
        '_'
    }
}

pub fn sanitize_for_filename(input: &str) -> (r: String)
    ensures
        r@ == input@.map_values(|c: char| sanitize_char(c)),
{
    let cs = crate::text::to_chars(input);
    let mut out: Vec<char> = Vec::new();
    for i in 0..cs.len()
        invariant
            cs@ == input@,
            out@ == input@.take(i as int).map_values(|c: char| sanitize_char(c)),
    {
        let c = cs[i];
        if (('a' <= c && c <= 'z') || ('A' <= c && c <= 'Z') || ('0' <= c && c <= '9')) || c == '-'
            || c == '_' {
            out.push(c);
        } else {
            out.push('_');
        }
        proof {
            assert(input@.take(i + 1).map_values(|c: char| sanitize_char(c)) =~= input@.take(
                i as int,
            ).map_values(|c: char| sanitize_char(c)).push(sanitize_char(input@[i as int])));
        }
    }
    proof {
        assert(input@.take(input@.len() as int) =~= input@);
    }
    crate::text::from_chars(&out)
}

} // verus!
