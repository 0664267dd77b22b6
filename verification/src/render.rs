//! Text rendering: section headers, fixed-width key/value lines, the
//! availability labels, and the condensed graph summary.

use vstd::prelude::*;

use crate::text::{spec_lower, spec_digits};

verus! {

/// The section divider: a rule of 61 line characters.
pub open spec fn spec_divider() -> Seq<char> {
    Seq::new(61, |i: int| '\u{2500}')
}

fn divider_chars() -> (r: Vec<char>)
    ensures
        r@ == spec_divider(),
{
    let mut out: Vec<char> = Vec::new();
    let mut i: usize = 0;
    while i < 61
        invariant
            i <= 61,
            out@.len() == i,
            forall|j: int| 0 <= j < i ==> out@[j] == '\u{2500}',
        decreases 61 - i,
    {
        out.push('\u{2500}');
        i = i + 1;
    }
    proof {
        assert(out@ =~= spec_divider());
    }
    out
}

/// A section header: the divider, the icon and title, the divider again.
pub open spec fn spec_section_header(icon: Seq<char>, title: Seq<char>) -> Seq<char> {
    spec_divider() + "\n"@ + icon + " "@ + title + "\n"@ + spec_divider() + "\n"@
}

pub fn push_section_header(buf: &mut String, icon: &str, title: &str)
    ensures
        final(buf)@ == old(buf)@ + spec_section_header(icon@, title@),
{
    let mut out: Vec<char> = Vec::new();
    crate::text::push_all(&mut out, divider_chars().as_slice());
    crate::text::push_str_chars(&mut out, "\n");
    crate::text::push_str_chars(&mut out, icon);
    crate::text::push_str_chars(&mut out, " ");
    crate::text::push_str_chars(&mut out, title);
    crate::text::push_str_chars(&mut out, "\n");
    crate::text::push_all(&mut out, divider_chars().as_slice());
    crate::text::push_str_chars(&mut out, "\n");
    let s = crate::text::from_chars(&out);
    buf.append(s.as_str());
    proof {
        assert(out@ =~= spec_section_header(icon@, title@));
    }
}

/// A key/value line: a bullet, the label padded to sixteen characters, a
/// colon, the value. An empty value adds nothing.
pub open spec fn spec_key_value(label: Seq<char>, value: Seq<char>) -> Seq<char> {
    if value.len() == 0 {
        Seq::<char>::empty()
    } else {
        let pad = if label.len() < 16 {
            Seq::new((16 - label.len()) as nat, |i: int| ' ')
        } else {
            Seq::<char>::empty()
        };
        "\u{2022} "@ + label + pad + " : "@ + value + "\n"@
    }
}

pub fn push_key_value(buf: &mut String, label: &str, value: &str)
    ensures
        final(buf)@ == old(buf)@ + spec_key_value(label@, value@),
{
    let lc = crate::text::to_chars(label);
    let vc = crate::text::to_chars(value);
    if vc.len() == 0 {
        proof {
            assert(old(buf)@ + spec_key_value(label@, value@) =~= old(buf)@);
        }
        return ;
    }
    let mut out: Vec<char> = Vec::new();
    crate::text::push_str_chars(&mut out, "\u{2022} ");
    crate::text::push_all(&mut out, lc.as_slice());
    let mut pad: usize = 0;
    let ghost target: int = if label@.len() < 16 {
        16 - label@.len()
    } else {
        0
    };
    let need: usize = if lc.len() < 16 {
        16 - lc.len()
    } else {
        0
    };
    while pad < need
        invariant
            pad <= need,
            need == target,
            out@ == "\u{2022} "@ + label@ + Seq::new(pad as nat, |i: int| ' '),
        decreases need - pad,
    {
        out.push(' ');
        proof {
            assert(Seq::new((pad + 1) as nat, |i: int| ' ') =~= Seq::new(
                pad as nat,
                |i: int| ' ',
            ).push(' '));
            assert(out@ =~= "\u{2022} "@ + label@ + Seq::new((pad + 1) as nat, |i: int| ' '));
        }
        pad = pad + 1;
    }
    crate::text::push_str_chars(&mut out, " : ");
    crate::text::push_all(&mut out, vc.as_slice());
    crate::text::push_str_chars(&mut out, "\n");
    let s = crate::text::from_chars(&out);
    buf.append(s.as_str());
    proof {
        if label@.len() < 16 {
            assert(out@ =~= spec_key_value(label@, value@));
        } else {
            assert(Seq::new(0, |i: int| ' ') =~= Seq::<char>::empty());
            assert(out@ =~= spec_key_value(label@, value@));
        }
    }
}

/// The icon shown for an availability value, matched case-insensitively.
pub open spec fn spec_availability_icon(status: Seq<char>) -> Seq<char> {
    let l = spec_lower(status);
    if l == "instock"@ {
        "\u{2705}"@
    } else if l == "outofstock"@ {
        "\u{274c}"@
    } else if l == "preorder"@ {
        "\u{1f552}"@
    } else {
        "\u{2022}"@
    }
}

pub fn availability_icon(status: &str) -> (r: &'static str)
    ensures
        r@ == spec_availability_icon(status@),
{
    let l = crate::text::lower_chars(crate::text::to_chars(status).as_slice());
    if crate::text::chars_eq(l.as_slice(), crate::text::to_chars("instock").as_slice()) {
        "\u{2705}"
    } else if crate::text::chars_eq(l.as_slice(), crate::text::to_chars("outofstock").as_slice()) {
        "\u{274c}"
    } else if crate::text::chars_eq(l.as_slice(), crate::text::to_chars("preorder").as_slice()) {
        "\u{1f552}"
    } else {
        "\u{2022}"
    }
}

/// The icon and the status text.
pub fn availability_label(status: &str) -> (r: String)
    ensures
        r@ == spec_availability_icon(status@) + " "@ + status@,
{
    let icon = availability_icon(status);
    let mut out = crate::text::to_chars(icon);
    crate::text::push_str_chars(&mut out, " ");
    crate::text::push_str_chars(&mut out, status);
    crate::text::from_chars(&out)
}

/// Insert an entry behind every earlier entry whose status is not larger:
/// the insertion step of a stable sort by status.
pub open spec fn spec_insert_count(
    sorted: Seq<(Seq<char>, u32)>,
    e: (Seq<char>, u32),
) -> Seq<(Seq<char>, u32)>
    decreases sorted.len(),
{
    if sorted.len() == 0 {
        seq![e]
    } else if crate::graph::lex_le(e.0, sorted.first().0) && e.0 != sorted.first().0 {
        seq![e] + sorted
    } else {
        seq![sorted.first()] + spec_insert_count(sorted.drop_first(), e)
    }
}

/// The first `n` entries sorted ascending by status name, equal names
/// keeping their order.
pub open spec fn spec_sort_counts(entries: Seq<(Seq<char>, u32)>, n: int) -> Seq<(Seq<char>, u32)>
    decreases n,
{
    if n <= 0 || n > entries.len() {
        Seq::<(Seq<char>, u32)>::empty()
    } else {
        spec_insert_count(spec_sort_counts(entries, n - 1), entries[n - 1])
    }
}

#[verifier::loop_isolation(false)]
fn prepend_count(e: (String, u32), rest: Vec<(String, u32)>) -> (r: Vec<(String, u32)>)
    ensures
        crate::extract::counts_view(r@) == seq![(e.0@, e.1)] + rest@.map_values(
            |p: (String, u32)| (p.0@, p.1),
        ),
{
    let ghost ev = (e.0@, e.1);
    let mut out: Vec<(String, u32)> = Vec::new();
    out.push(e);
    let ghost rv = crate::extract::counts_view(rest@);
    let mut rest = rest;
    proof {
        assert(crate::extract::counts_view(rest@) =~= rv.skip(0));
    }
    while rest.len() > 0
        invariant
            out@.len() >= 1,
            out@.len() + rest@.len() == rv.len() + 1,
            (out@[0].0@, out@[0].1) == ev,
            crate::extract::counts_view(rest@) =~= rv.skip(out@.len() - 1),
            crate::extract::counts_view(out@) =~= seq![ev] + rv.take(
                out@.len() - 1,
            ),
        decreases rest@.len(),
    {
        let ghost restv = crate::extract::counts_view(rest@);
        let ghost outv = crate::extract::counts_view(out@);
        let nxt = rest.remove(0);
        out.push(nxt);
        proof {
            assert(crate::extract::counts_view(rest@) =~= restv.drop_first());
            assert(restv.drop_first() =~= rv.skip(out@.len() - 1));
            assert(crate::extract::counts_view(out@) =~= outv.push(restv[0]));
            assert(rv.take(out@.len() - 1) =~= rv.take(out@.len() - 2).push(
                rv[out@.len() - 2],
            ));
            assert(crate::extract::counts_view(out@) =~= seq![ev] + rv.take(
                out@.len() - 1,
            ));
        }
    }
    proof {
        assert(rv.take(out@.len() - 1) =~= rv);
        assert(crate::extract::counts_view(out@) =~= seq![ev] + rv);
    }
    out
}

fn insert_count(sorted: Vec<(String, u32)>, e: (String, u32)) -> (r: Vec<(String, u32)>)
    ensures
        crate::extract::counts_view(r@) == spec_insert_count(
            crate::extract::counts_view(sorted@),
            (e.0@, e.1),
        ),
    decreases sorted@.len(),
{
    let ghost sv = crate::extract::counts_view(sorted@);
    let ghost ev = (e.0@, e.1);
    let mut sorted = sorted;
    if sorted.len() == 0 {
        let mut out: Vec<(String, u32)> = Vec::new();
        out.push(e);
        proof {
            assert(crate::extract::counts_view(out@) =~= seq![ev]);
        }
        out
    } else {
        let le_first = crate::graph::lex_le_exec(
            crate::text::to_chars(e.0.as_str()).as_slice(),
            crate::text::to_chars(sorted[0].0.as_str()).as_slice(),
        );
        let eq_first = crate::text::chars_eq(
            crate::text::to_chars(e.0.as_str()).as_slice(),
            crate::text::to_chars(sorted[0].0.as_str()).as_slice(),
        );
        proof {
            assert(sv.first() == (sorted@[0].0@, sorted@[0].1));
        }
        if le_first && !eq_first {
            let r = prepend_count(e, sorted);
            proof {
                assert(crate::extract::counts_view(r@) =~= spec_insert_count(
                    sv,
                    ev,
                ));
            }
            r
        } else {
            let first = sorted.remove(0);
            let ghost fv = (first.0@, first.1);
            proof {
                assert(crate::extract::counts_view(sorted@) =~= sv.drop_first());
                assert(fv == sv.first());
            }
            let rest = insert_count(sorted, e);
            let r = prepend_count(first, rest);
            proof {
                assert(crate::extract::counts_view(r@) =~= seq![fv]
                    + spec_insert_count(sv.drop_first(), ev));
                assert(crate::extract::counts_view(r@) =~= spec_insert_count(
                    sv,
                    ev,
                ));
            }
            r
        }
    }
}

/// The availability summary: the entries sorted ascending by status name,
/// rendered as `count status` joined with a slash; nothing when no statuses
/// were counted.
pub open spec fn spec_counts_text(entries: Seq<(Seq<char>, u32)>, n: int) -> Seq<char>
    decreases n,
{
    if n <= 0 || n > entries.len() {
        Seq::<char>::empty()
    } else {
        let entry = spec_digits(entries[n - 1].1 as nat) + " "@ + entries[n - 1].0;
        if n == 1 {
            entry
        } else {
            spec_counts_text(entries, n - 1) + " / "@ + entry
        }
    }
}

#[verifier::loop_isolation(false)]
pub fn format_availability_counts(counts: &Vec<(String, u32)>) -> (r: Option<String>)
    ensures
        ({
            let ev = crate::extract::counts_view(counts@);
            let sorted = spec_sort_counts(ev, ev.len() as int);
            match r {
                Some(s) => counts@.len() > 0 && s@ == spec_counts_text(
                    sorted,
                    sorted.len() as int,
                ),
                None => counts@.len() == 0,
            }
        }),
{
    if counts.len() == 0 {
        return None;
    }
    let ghost ev0 = crate::extract::counts_view(counts@);
    // sort the entries ascending by status name
    let mut entries: Vec<(String, u32)> = Vec::new();
    let mut i: usize = 0;
    proof {
        assert(crate::extract::counts_view(entries@) =~= spec_sort_counts(ev0, 0));
        assert(ev0.len() == counts@.len());
    }
    while i < counts.len()
        invariant
            i <= counts@.len(),
            ev0 == crate::extract::counts_view(counts@),
            ev0.len() == counts@.len(),
            crate::extract::counts_view(entries@) == spec_sort_counts(
                ev0,
                i as int,
            ),
        decreases counts@.len() - i,
    {
        proof {
            assert(ev0[i as int] == (counts@[i as int].0@, counts@[i as int].1));
        }
        entries = insert_count(entries, (counts[i].0.clone(), counts[i].1));
        i = i + 1;
    }
    let ghost ev = crate::extract::counts_view(entries@);
    let counts = entries;
    let mut out: Vec<char> = Vec::new();
    let mut i: usize = 0;
    proof {
        assert(ev.len() == counts@.len());
    }
    while i < counts.len()
        invariant
            i <= counts@.len(),
            ev == crate::extract::counts_view(counts@),
            ev.len() == counts@.len(),
            out@ == spec_counts_text(ev, i as int),
        decreases counts@.len() - i,
    {
        if i > 0 {
            crate::text::push_str_chars(&mut out, " / ");
        }
        let d = crate::text::digits_of(counts[i].1 as u64);
        crate::text::push_all(&mut out, d.as_slice());
        crate::text::push_str_chars(&mut out, " ");
        crate::text::push_str_chars(&mut out, counts[i].0.as_str());
        proof {
            assert(ev[i as int] == (counts@[i as int].0@, counts@[i as int].1));
            assert(out@ =~= spec_counts_text(ev, i + 1));
        }
        i = i + 1;
    }
    Some(crate::text::from_chars(&out))
}

/// The condensed graph summary: a section header and one line per entry.
pub open spec fn spec_lines_block(lines: Seq<Seq<char>>, n: int) -> Seq<char>
    decreases n,
{
    if n <= 0 || n > lines.len() {
        Seq::<char>::empty()
    } else {
        spec_lines_block(lines, n - 1) + lines[n - 1] + "\n"@
    }
}

pub fn render_graph_summary(buf: &mut String, lines: &Vec<String>)
    ensures
        lines@.len() == 0 ==> final(buf)@ == old(buf)@,
        lines@.len() > 0 ==> final(buf)@ == old(buf)@ + spec_section_header(
            "\u{1f578}\u{fe0f}"@,
            "Graph Summary (condensed)"@,
        ) + spec_lines_block(
            lines@.map_values(|s: String| s@),
            lines@.len() as int,
        ) + "\n"@,
{
    if lines.len() == 0 {
        return ;
    }
    push_section_header(buf, "\u{1f578}\u{fe0f}", "Graph Summary (condensed)");
    let ghost lv = lines@.map_values(|s: String| s@);
    let ghost head = buf@;
    let mut i: usize = 0;
    proof {
        assert(lv.len() == lines@.len());
    }
    while i < lines.len()
        invariant
            i <= lines@.len(),
            lv == lines@.map_values(|s: String| s@),
            lv.len() == lines@.len(),
            buf@ == head + spec_lines_block(lv, i as int),
        decreases lines@.len() - i,
    {
        buf.append(lines[i].as_str());
        buf.append("\n");
        proof {
            assert(buf@ =~= head + spec_lines_block(lv, i + 1));
        }
        i = i + 1;
    }
    buf.append("\n");
}


/// The view of an optional text: the text, or nothing.
pub open spec fn opt_text(o: Option<String>) -> Seq<char> {
    match o {
        Some(s) => s@,
        None => Seq::<char>::empty(),
    }
}

/// The rendered organization section: a header, then one key/value line for
/// each field that is present, a blank line at the end.
pub open spec fn spec_render_org(o: crate::extract::OrganizationSummary) -> Seq<char> {
    spec_section_header("\u{1f3e2}"@, "Organization"@) + spec_key_value("Name"@, opt_text(o.name))
        + spec_key_value("Logo"@, opt_text(o.logo)) + spec_key_value(
        "Telephone"@,
        opt_text(o.telephone),
    ) + spec_key_value("Email"@, opt_text(o.email)) + spec_key_value(
        "Street"@,
        opt_text(o.street),
    ) + spec_key_value("City"@, opt_text(o.locality)) + spec_key_value(
        "Postal Code"@,
        opt_text(o.postal_code),
    ) + spec_key_value("Country"@, opt_text(o.country)) + spec_key_value(
        "Rating"@,
        opt_text(o.rating_value),
    ) + spec_key_value("Review Count"@, opt_text(o.review_count)) + "\n"@
}

/// Render one organization summary.
pub fn render_organization(buf: &mut String, org: &crate::extract::OrganizationSummary)
    ensures
        final(buf)@ == old(buf)@ + spec_render_org(*org),
{
    push_section_header(buf, "\u{1f3e2}", "Organization");
    push_opt(buf, "Name", &org.name);
    push_opt(buf, "Logo", &org.logo);
    push_opt(buf, "Telephone", &org.telephone);
    push_opt(buf, "Email", &org.email);
    push_opt(buf, "Street", &org.street);
    push_opt(buf, "City", &org.locality);
    push_opt(buf, "Postal Code", &org.postal_code);
    push_opt(buf, "Country", &org.country);
    push_opt(buf, "Rating", &org.rating_value);
    push_opt(buf, "Review Count", &org.review_count);
    buf.append("\n");
}

/// One key/value line when the value is present; an empty value (or none)
/// adds nothing.
pub fn push_opt(buf: &mut String, label: &str, value: &Option<String>)
    ensures
        final(buf)@ == old(buf)@ + spec_key_value(label@, opt_text(*value)),
{
    match value {
        Some(v) => {
            push_key_value(buf, label, v.as_str());
        },
        None => {
            proof {
                assert(old(buf)@ + spec_key_value(label@, opt_text(*value)) =~= old(buf)@);
            }
        },
    }
}

/// The rendered web page section, nothing when both fields are absent.
pub open spec fn spec_render_webpage(w: crate::extract::WebPageSummary) -> Seq<char> {
    if w.url is None && w.speakable is None {
        Seq::<char>::empty()
    } else {
        spec_section_header("\u{1f310}"@, "Web Page"@) + spec_key_value("URL"@, opt_text(w.url))
            + spec_key_value("Speakable"@, opt_text(w.speakable)) + "\n"@
    }
}

pub fn render_webpage(buf: &mut String, webpage: &crate::extract::WebPageSummary)
    ensures
        final(buf)@ == old(buf)@ + spec_render_webpage(*webpage),
{
    let skip = match (&webpage.url, &webpage.speakable) {
        (None, None) => true,
        _ => false,
    };
    if skip {
        proof {
            assert(old(buf)@ + spec_render_webpage(*webpage) =~= old(buf)@);
        }
        return ;
    }
    push_section_header(buf, "\u{1f310}", "Web Page");
    push_opt(buf, "URL", &webpage.url);
    push_opt(buf, "Speakable", &webpage.speakable);
    buf.append("\n");
}


// ---------------------------------------------------------------------------
// The variant table.
// ---------------------------------------------------------------------------

/// The table column a `variesBy` entry contributes, if recognized.
pub open spec fn spec_col_label(vary: Seq<char>) -> Option<Seq<char>> {
    if vary == "Color"@ {
        Some("Color"@)
    } else if vary == "Size"@ || vary == "FrameSize"@ {
        Some("Size"@)
    } else if vary == "FrameType"@ || vary == "FrameShape"@ {
        Some("FrameShape"@)
    } else if vary == "BatteryCapacity"@ {
        Some("Battery"@)
    } else {
        None
    }
}

/// The headers of the first `i` entries: SKU first, the recognized columns,
/// Price and Availability appended by the caller.
pub open spec fn spec_mid_headers(varies: Seq<Seq<char>>, i: int) -> Seq<Seq<char>>
    decreases i,
{
    if i <= 0 || i > varies.len() {
        Seq::<Seq<char>>::empty()
    } else {
        let prev = spec_mid_headers(varies, i - 1);
        match spec_col_label(varies[i - 1]) {
            Some(l) => prev.push(l),
            None => prev,
        }
    }
}

pub open spec fn spec_headers(varies: Seq<Seq<char>>) -> Seq<Seq<char>> {
    seq!["SKU"@] + spec_mid_headers(varies, varies.len() as int) + seq!["Price"@, "Availability"@]
}

/// A cell text, the dash standing for an absent value.
pub open spec fn cell_or_dash(o: Option<Seq<char>>) -> Seq<char> {
    match o {
        Some(s) => s,
        None => "\u{2013}"@,
    }
}

/// The value recorded in a pair list, if any.
pub open spec fn spec_pair_get(
    pairs: Seq<(Seq<char>, Seq<char>)>,
    key: Seq<char>,
) -> Option<Seq<char>> {
    let i = crate::extract::pair_index(pairs, key);
    if i >= 0 {
        Some(pairs[i].1)
    } else {
        None
    }
}

/// The cell of one variant under one recognized column.
pub open spec fn spec_cell(v: crate::extract::VSView, vary: Seq<char>) -> Seq<char> {
    if vary == "Color"@ {
        cell_or_dash(v.color)
    } else if vary == "Size"@ || vary == "FrameSize"@ {
        cell_or_dash(v.size)
    } else if vary == "FrameType"@ || vary == "FrameShape"@ {
        cell_or_dash(
            match spec_pair_get(v.additional, "FrameShape"@) {
                Some(s) => Some(s),
                None => spec_pair_get(v.additional, "FrameType"@),
            },
        )
    } else {
        cell_or_dash(spec_pair_get(v.additional, "BatteryCapacity"@))
    }
}

/// One row: the SKU, the recognized cells in `variesBy` order, the price and
/// the availability label.
pub open spec fn spec_mid_cells(v: crate::extract::VSView, varies: Seq<Seq<char>>, i: int) -> Seq<
    Seq<char>,
>
    decreases i,
{
    if i <= 0 || i > varies.len() {
        Seq::<Seq<char>>::empty()
    } else {
        let prev = spec_mid_cells(v, varies, i - 1);
        match spec_col_label(varies[i - 1]) {
            Some(_) => prev.push(spec_cell(v, varies[i - 1])),
            None => prev,
        }
    }
}

pub open spec fn spec_row(v: crate::extract::VSView, varies: Seq<Seq<char>>) -> Seq<Seq<char>> {
    seq![cell_or_dash(v.sku)] + spec_mid_cells(v, varies, varies.len() as int) + seq![
        cell_or_dash(v.price_display),
        match v.availability {
            Some(a) => spec_availability_icon(a) + " "@ + a,
            None => "\u{2013}"@,
        },
    ]
}

pub open spec fn spec_table_rows(vs: Seq<crate::extract::VSView>, varies: Seq<Seq<char>>, i: int) -> Seq<
    Seq<Seq<char>>,
>
    decreases i,
{
    if i <= 0 || i > vs.len() {
        Seq::<Seq<Seq<char>>>::empty()
    } else {
        spec_table_rows(vs, varies, i - 1).push(spec_row(vs[i - 1], varies))
    }
}

/// The width of column `c`: the longest of the header and every cell.
pub open spec fn spec_col_width(
    headers: Seq<Seq<char>>,
    rows: Seq<Seq<Seq<char>>>,
    c: int,
    i: int,
) -> int
    decreases i,
{
    if i <= 0 || i > rows.len() {
        headers[c].len() as int
    } else {
        let prev = spec_col_width(headers, rows, c, i - 1);
        if rows[i - 1][c].len() > prev {
            rows[i - 1][c].len() as int
        } else {
            prev
        }
    }
}

/// A row of cells rendered: each cell padded to its column width, wrapped in
/// spaces and pipes.
pub open spec fn spec_row_text(
    cells: Seq<Seq<char>>,
    headers: Seq<Seq<char>>,
    rows: Seq<Seq<Seq<char>>>,
    c: int,
) -> Seq<char>
    decreases cells.len() - c,
{
    if c < 0 || c >= cells.len() {
        seq!['|']
    } else {
        let w = spec_col_width(headers, rows, c, rows.len() as int);
        let pad = if cells[c].len() < w {
            Seq::new((w - cells[c].len()) as nat, |i: int| ' ')
        } else {
            Seq::<char>::empty()
        };
        seq!['|', ' '] + cells[c] + pad + seq![' '] + spec_row_text(cells, headers, rows, c + 1)
    }
}

/// The separator row: dashes to each column width.
pub open spec fn spec_sep_text(
    headers: Seq<Seq<char>>,
    rows: Seq<Seq<Seq<char>>>,
    c: int,
) -> Seq<char>
    decreases headers.len() - c,
{
    if c < 0 || c >= headers.len() {
        seq!['|']
    } else {
        let w = spec_col_width(headers, rows, c, rows.len() as int);
        seq!['|', ' '] + Seq::new(w as nat, |i: int| '-') + seq![' '] + spec_sep_text(
            headers,
            rows,
            c + 1,
        )
    }
}

/// All data rows rendered.
pub open spec fn spec_rows_text(
    rows: Seq<Seq<Seq<char>>>,
    headers: Seq<Seq<char>>,
    i: int,
) -> Seq<char>
    decreases i,
{
    if i <= 0 || i > rows.len() {
        Seq::<char>::empty()
    } else {
        spec_rows_text(rows, headers, i - 1) + spec_row_text(rows[i - 1], headers, rows, 0)
            + "\n"@
    }
}

/// The whole variant table: a section header, the header and separator rows,
/// one row per variant, a note when more variants exist than are shown, and
/// a blank line.
pub open spec fn spec_variant_table(
    vs: Seq<crate::extract::VSView>,
    varies: Seq<Seq<char>>,
    total: int,
) -> Seq<char> {
    if vs.len() == 0 {
        Seq::<char>::empty()
    } else {
        let headers = spec_headers(varies);
        let rows = spec_table_rows(vs, varies, vs.len() as int);
        spec_section_header("\u{1f9e9}"@, "Variants"@) + spec_row_text(headers, headers, rows, 0)
            + "\n"@ + spec_sep_text(headers, rows, 0) + "\n"@ + spec_rows_text(
            rows,
            headers,
            rows.len() as int,
        ) + (if total > vs.len() {
            "("@ + spec_digits((total - vs.len()) as nat)
                + " additional variants not shown)\n"@
        } else {
            Seq::<char>::empty()
        }) + "\n"@
    }
}


/// View of a list of cell texts.
pub open spec fn cells_view(cells: Seq<String>) -> Seq<Seq<char>> {
    cells.map_values(|s: String| s@)
}

/// View of a list of rows.
pub open spec fn rows_view(rows: Seq<Vec<String>>) -> Seq<Seq<Seq<char>>> {
    rows.map_values(|r: Vec<String>| cells_view(r@))
}

proof fn lemma_mid_lens(v: crate::extract::VSView, varies: Seq<Seq<char>>, i: int)
    ensures
        spec_mid_cells(v, varies, i).len() == spec_mid_headers(varies, i).len(),
    decreases i,
{
    if i > 0 && i <= varies.len() {
        lemma_mid_lens(v, varies, i - 1);
    }
}

/// Every row is as wide as the header row.
pub proof fn lemma_row_len(v: crate::extract::VSView, varies: Seq<Seq<char>>)
    ensures
        spec_row(v, varies).len() == spec_headers(varies).len(),
{
    lemma_mid_lens(v, varies, varies.len() as int);
}

fn dash_string() -> (r: String)
    ensures
        r@ == "\u{2013}"@,
{
    crate::text::from_chars(&crate::text::to_chars("\u{2013}"))
}

fn cell_text(o: &Option<String>) -> (r: String)
    ensures
        r@ == cell_or_dash(crate::extract::opt_view(*o)),
{
    match o {
        Some(s) => s.clone(),
        None => dash_string(),
    }
}

/// The cells of one variant row.
#[verifier::loop_isolation(false)]
fn row_cells(v: &crate::extract::VariantSummary, varies_by: &Vec<String>) -> (r: Vec<String>)
    ensures
        cells_view(r@) == spec_row(
            crate::extract::vsview(*v),
            crate::text::strs_view(varies_by@),
        ),
{
    let ghost vv = crate::extract::vsview(*v);
    let ghost varies = crate::text::strs_view(varies_by@);
    let mut cells: Vec<String> = Vec::new();
    cells.push(cell_text(&v.sku));
    proof {
        assert(cells_view(cells@) =~= seq![cell_or_dash(vv.sku)] + spec_mid_cells(vv, varies, 0));
    }
    let mut i: usize = 0;
    while i < varies_by.len()
        invariant
            i <= varies_by@.len(),
            varies == crate::text::strs_view(varies_by@),
            varies.len() == varies_by@.len(),
            vv == crate::extract::vsview(*v),
            cells_view(cells@) == seq![cell_or_dash(vv.sku)] + spec_mid_cells(
                vv,
                varies,
                i as int,
            ),
        decreases varies_by@.len() - i,
    {
        proof {
            assert(varies[i as int] == varies_by@[i as int]@);
        }
        let vary = crate::text::to_chars(varies_by[i].as_str());
        let is_color = crate::text::chars_eq(
            vary.as_slice(),
            crate::text::to_chars("Color").as_slice(),
        );
        let is_size = crate::text::chars_eq(
            vary.as_slice(),
            crate::text::to_chars("Size").as_slice(),
        ) || crate::text::chars_eq(
            vary.as_slice(),
            crate::text::to_chars("FrameSize").as_slice(),
        );
        let is_frame = crate::text::chars_eq(
            vary.as_slice(),
            crate::text::to_chars("FrameType").as_slice(),
        ) || crate::text::chars_eq(
            vary.as_slice(),
            crate::text::to_chars("FrameShape").as_slice(),
        );
        let is_battery = crate::text::chars_eq(
            vary.as_slice(),
            crate::text::to_chars("BatteryCapacity").as_slice(),
        );
        let ghost prev = cells_view(cells@);
        if is_color {
            cells.push(cell_text(&v.color));
        } else if is_size {
            cells.push(cell_text(&v.size));
        } else if is_frame {
            let shape = crate::extract::pairs_get(&v.additional, "FrameShape");
            let cell = match shape {
                Some(s) => Some(s),
                None => crate::extract::pairs_get(&v.additional, "FrameType"),
            };
            cells.push(cell_text(&cell));
        } else if is_battery {
            let cell = crate::extract::pairs_get(&v.additional, "BatteryCapacity");
            cells.push(cell_text(&cell));
        }
        proof {
            if is_color || is_size || is_frame || is_battery {
                assert(cells_view(cells@) =~= prev.push(spec_cell(vv, varies[i as int])));
            }
            assert(cells_view(cells@) =~= seq![cell_or_dash(vv.sku)] + spec_mid_cells(
                vv,
                varies,
                i + 1,
            ));
        }
        i = i + 1;
    }
    cells.push(cell_text(&v.price_display));
    match &v.availability {
        Some(a) => {
            cells.push(availability_label(a.as_str()));
        },
        None => {
            cells.push(dash_string());
        },
    }
    proof {
        assert(cells_view(cells@) =~= spec_row(vv, varies));
    }
    cells
}

/// Append one rendered row, each cell padded to its column width.
#[verifier::loop_isolation(false)]
fn push_row_text(
    out: &mut Vec<char>,
    cells: &Vec<String>,
    widths: &Vec<usize>,
    Ghost(headers): Ghost<Seq<Seq<char>>>,
    Ghost(rows): Ghost<Seq<Seq<Seq<char>>>>,
)
    requires
        widths@.len() == cells@.len(),
        forall|c: int| 0 <= c < widths@.len() ==> widths@[c] as int == spec_col_width(
            headers,
            rows,
            c,
            rows.len() as int,
        ),
    ensures
        final(out)@ == old(out)@ + spec_row_text(cells_view(cells@), headers, rows, 0),
{
    let ghost cv = cells_view(cells@);
    let ghost start = out@;
    let mut c: usize = 0;
    proof {
        reveal_strlit("| ");
        reveal_strlit(" ");
        reveal_strlit("|");
        assert(out@.skip(start.len() as int) =~= Seq::<char>::empty());
        assert("| "@ =~= seq!['|', ' ']);
        assert(" "@ =~= seq![' ']);
        assert("|"@ =~= seq!['|']);
    }
    while c < cells.len()
        invariant
            c <= cells@.len(),
            cv == cells_view(cells@),
            cv.len() == cells@.len(),
            widths@.len() == cells@.len(),
            out@.len() >= start.len(),
            out@.take(start.len() as int) == start,
            spec_row_text(cv, headers, rows, 0) == out@.skip(start.len() as int)
                + spec_row_text(cv, headers, rows, c as int),
        decreases cells@.len() - c,
    {
        let ghost emitted = out@.skip(start.len() as int);
        proof {
            assert(out@ =~= start + emitted);
        }
        crate::text::push_str_chars(out, "| ");
        crate::text::push_str_chars(out, cells[c].as_str());
        let w = widths[c];
        let cl = crate::text::to_chars(cells[c].as_str());
        let mut pad: usize = 0;
        let need: usize = if cl.len() < w {
            w - cl.len()
        } else {
            0
        };
        let ghost before_pad = out@;
        while pad < need
            invariant
                pad <= need,
                out@ == before_pad + Seq::new(pad as nat, |i: int| ' '),
            decreases need - pad,
        {
            out.push(' ');
            proof {
                assert(Seq::new((pad + 1) as nat, |i: int| ' ') =~= Seq::new(
                    pad as nat,
                    |i: int| ' ',
                ).push(' '));
                assert(out@ =~= before_pad + Seq::new((pad + 1) as nat, |i: int| ' '));
            }
            pad = pad + 1;
        }
        crate::text::push_str_chars(out, " ");
        proof {
            let wsp = spec_col_width(headers, rows, c as int, rows.len() as int);
            assert(w as int == wsp);
            assert(cv[c as int] == cells@[c as int]@);
            let padspec: Seq<char> = if cv[c as int].len() < wsp {
                Seq::new((wsp - cv[c as int].len()) as nat, |i: int| ' ')
            } else {
                Seq::<char>::empty()
            };
            assert(Seq::new(need as nat, |i: int| ' ') =~= padspec);
            assert(out@ =~= start + (emitted + (seq!['|', ' '] + cv[c as int] + padspec
                + seq![' '])));
            assert(out@.take(start.len() as int) =~= start);
            assert(out@.skip(start.len() as int) =~= emitted + (seq!['|', ' '] + cv[c as int]
                + padspec + seq![' ']));
            assert(spec_row_text(cv, headers, rows, c as int) == seq!['|', ' '] + cv[c as int]
                + padspec + seq![' '] + spec_row_text(cv, headers, rows, c + 1));
            assert(spec_row_text(cv, headers, rows, 0) =~= out@.skip(start.len() as int)
                + spec_row_text(cv, headers, rows, c + 1));
        }
        c = c + 1;
    }
    let ghost emitted_all = out@.skip(start.len() as int);
    proof {
        assert(out@ =~= start + emitted_all);
    }
    crate::text::push_str_chars(out, "|");
    proof {
        assert(spec_row_text(cv, headers, rows, cv.len() as int) =~= seq!['|']);
        assert(out@ =~= start + (emitted_all + seq!['|']));
        assert(out@ =~= start + spec_row_text(cv, headers, rows, 0));
    }
}


/// Append the separator row.
#[verifier::loop_isolation(false)]
fn push_sep_text(
    out: &mut Vec<char>,
    widths: &Vec<usize>,
    Ghost(headers): Ghost<Seq<Seq<char>>>,
    Ghost(rows): Ghost<Seq<Seq<Seq<char>>>>,
)
    requires
        widths@.len() == headers.len(),
        forall|c: int| 0 <= c < widths@.len() ==> widths@[c] as int == spec_col_width(
            headers,
            rows,
            c,
            rows.len() as int,
        ),
    ensures
        final(out)@ == old(out)@ + spec_sep_text(headers, rows, 0),
{
    let ghost start = out@;
    let mut c: usize = 0;
    proof {
        reveal_strlit("| ");
        reveal_strlit(" ");
        reveal_strlit("|");
        assert("| "@ =~= seq!['|', ' ']);
        assert(" "@ =~= seq![' ']);
        assert("|"@ =~= seq!['|']);
        assert(out@.skip(start.len() as int) =~= Seq::<char>::empty());
    }
    while c < widths.len()
        invariant
            c <= widths@.len(),
            widths@.len() == headers.len(),
            out@.len() >= start.len(),
            out@.take(start.len() as int) == start,
            spec_sep_text(headers, rows, 0) == out@.skip(start.len() as int) + spec_sep_text(
                headers,
                rows,
                c as int,
            ),
        decreases widths@.len() - c,
    {
        let ghost emitted = out@.skip(start.len() as int);
        proof {
            assert(out@ =~= start + emitted);
        }
        crate::text::push_str_chars(out, "| ");
        let w = widths[c];
        let mut d: usize = 0;
        let ghost before = out@;
        while d < w
            invariant
                d <= w,
                out@ == before + Seq::new(d as nat, |i: int| '-'),
            decreases w - d,
        {
            out.push('-');
            proof {
                assert(Seq::new((d + 1) as nat, |i: int| '-') =~= Seq::new(
                    d as nat,
                    |i: int| '-',
                ).push('-'));
                assert(out@ =~= before + Seq::new((d + 1) as nat, |i: int| '-'));
            }
            d = d + 1;
        }
        crate::text::push_str_chars(out, " ");
        proof {
            let wsp = spec_col_width(headers, rows, c as int, rows.len() as int);
            assert(w as int == wsp);
            assert(out@ =~= start + (emitted + (seq!['|', ' '] + Seq::new(wsp as nat, |i: int| '-')
                + seq![' '])));
            assert(out@.take(start.len() as int) =~= start);
            assert(out@.skip(start.len() as int) =~= emitted + (seq!['|', ' '] + Seq::new(
                wsp as nat,
                |i: int| '-',
            ) + seq![' ']));
            assert(spec_sep_text(headers, rows, 0) =~= out@.skip(start.len() as int)
                + spec_sep_text(headers, rows, c + 1));
        }
        c = c + 1;
    }
    let ghost emitted_all = out@.skip(start.len() as int);
    proof {
        assert(out@ =~= start + emitted_all);
    }
    crate::text::push_str_chars(out, "|");
    proof {
        assert(spec_sep_text(headers, rows, headers.len() as int) =~= seq!['|']);
        assert(out@ =~= start + (emitted_all + seq!['|']));
        assert(out@ =~= start + spec_sep_text(headers, rows, 0));
    }
}

/// The column widths: per column, the longest of header and cells.
#[verifier::loop_isolation(false)]
fn table_widths(headers: &Vec<String>, rows: &Vec<Vec<String>>) -> (r: Vec<usize>)
    requires
        forall|i: int| 0 <= i < rows@.len() ==> (#[trigger] rows@[i])@.len() == headers@.len(),
    ensures
        r@.len() == headers@.len(),
        forall|c: int| 0 <= c < r@.len() ==> r@[c] as int == spec_col_width(
            cells_view(headers@),
            rows_view(rows@),
            c,
            rows_view(rows@).len() as int,
        ),
{
    let ghost hv = cells_view(headers@);
    let ghost rv = rows_view(rows@);
    let mut widths: Vec<usize> = Vec::new();
    let mut c: usize = 0;
    proof {
        assert(hv.len() == headers@.len());
        assert(rv.len() == rows@.len());
    }
    while c < headers.len()
        invariant
            c <= headers@.len(),
            hv == cells_view(headers@),
            rv == rows_view(rows@),
            hv.len() == headers@.len(),
            rv.len() == rows@.len(),
            widths@.len() == c,
            forall|k: int| 0 <= k < c ==> widths@[k] as int == spec_col_width(
                hv,
                rv,
                k,
                rv.len() as int,
            ),
        decreases headers@.len() - c,
    {
        let mut w = headers[c].as_str().unicode_len();
        proof {
            assert(hv[c as int] == headers@[c as int]@);
            assert(w as int == spec_col_width(hv, rv, c as int, 0));
        }
        let mut i: usize = 0;
        while i < rows.len()
            invariant
                i <= rows@.len(),
                c < headers@.len(),
                hv == cells_view(headers@),
                rv == rows_view(rows@),
                rv.len() == rows@.len(),
                forall|j: int| 0 <= j < rows@.len() ==> (#[trigger] rows@[j])@.len()
                    == headers@.len(),
                w as int == spec_col_width(hv, rv, c as int, i as int),
            decreases rows@.len() - i,
        {
            proof {
                assert(rv[i as int] == cells_view(rows@[i as int]@));
                assert(rv[i as int][c as int] == rows@[i as int]@[c as int]@);
            }
            let cl = rows[i][c].as_str().unicode_len();
            if cl > w {
                w = cl;
            }
            i = i + 1;
        }
        widths.push(w);
        c = c + 1;
    }
    widths
}



proof fn lemma_table_rows_len(vs: Seq<crate::extract::VSView>, varies: Seq<Seq<char>>, n: int)
    ensures
        n >= 0 && n <= vs.len() ==> spec_table_rows(vs, varies, n).len() == n,
    decreases n,
{
    if n > 0 && n <= vs.len() {
        lemma_table_rows_len(vs, varies, n - 1);
    }
}

proof fn lemma_table_rows_index(
    vs: Seq<crate::extract::VSView>,
    varies: Seq<Seq<char>>,
    n: int,
    j: int,
)
    requires
        0 <= j < n <= vs.len(),
    ensures
        spec_table_rows(vs, varies, n)[j] == spec_row(vs[j], varies),
    decreases n,
{
    lemma_table_rows_len(vs, varies, n - 1);
    if j < n - 1 {
        lemma_table_rows_index(vs, varies, n - 1, j);
    }
}

/// Render the variant table: SKU first, the recognized `variesBy` columns,
/// Price and Availability last, one row per variant, a note when more
/// variants exist than are shown.
#[verifier::loop_isolation(false)]
#[verifier::rlimit(50)]
pub fn render_variant_table(
    buf: &mut String,
    variants: &Vec<crate::extract::VariantSummary>,
    varies_by: &Vec<String>,
    total: usize,
)
    ensures
        final(buf)@ == old(buf)@ + spec_variant_table(
            crate::extract::vs_views(variants@),
            crate::text::strs_view(varies_by@),
            total as int,
        ),
{
    let ghost vs = crate::extract::vs_views(variants@);
    let ghost varies = crate::text::strs_view(varies_by@);
    if variants.len() == 0 {
        proof {
            assert(old(buf)@ + spec_variant_table(vs, varies, total as int) =~= old(buf)@);
        }
        return ;
    }
    push_section_header(buf, "\u{1f9e9}", "Variants");
    // the header cells
    let mut headers: Vec<String> = Vec::new();
    headers.push(crate::text::from_chars(&crate::text::to_chars("SKU")));
    proof {
        assert(cells_view(headers@) =~= seq!["SKU"@] + spec_mid_headers(varies, 0));
    }
    let mut i: usize = 0;
    while i < varies_by.len()
        invariant
            i <= varies_by@.len(),
            varies == crate::text::strs_view(varies_by@),
            varies.len() == varies_by@.len(),
            cells_view(headers@) == seq!["SKU"@] + spec_mid_headers(varies, i as int),
        decreases varies_by@.len() - i,
    {
        proof {
            assert(varies[i as int] == varies_by@[i as int]@);
        }
        let vary = crate::text::to_chars(varies_by[i].as_str());
        let ghost prev = cells_view(headers@);
        if crate::text::chars_eq(vary.as_slice(), crate::text::to_chars("Color").as_slice()) {
            headers.push(crate::text::from_chars(&crate::text::to_chars("Color")));
            proof {
                assert(cells_view(headers@) =~= prev.push("Color"@));
            }
        } else if crate::text::chars_eq(vary.as_slice(), crate::text::to_chars("Size").as_slice())
            || crate::text::chars_eq(
            vary.as_slice(),
            crate::text::to_chars("FrameSize").as_slice(),
        ) {
            headers.push(crate::text::from_chars(&crate::text::to_chars("Size")));
            proof {
                assert(cells_view(headers@) =~= prev.push("Size"@));
            }
        } else if crate::text::chars_eq(
            vary.as_slice(),
            crate::text::to_chars("FrameType").as_slice(),
        ) || crate::text::chars_eq(
            vary.as_slice(),
            crate::text::to_chars("FrameShape").as_slice(),
        ) {
            headers.push(crate::text::from_chars(&crate::text::to_chars("FrameShape")));
            proof {
                assert(cells_view(headers@) =~= prev.push("FrameShape"@));
            }
        } else if crate::text::chars_eq(
            vary.as_slice(),
            crate::text::to_chars("BatteryCapacity").as_slice(),
        ) {
            headers.push(crate::text::from_chars(&crate::text::to_chars("Battery")));
            proof {
                assert(cells_view(headers@) =~= prev.push("Battery"@));
            }
        }
        proof {
            assert(cells_view(headers@) =~= seq!["SKU"@] + spec_mid_headers(varies, i + 1));
        }
        i = i + 1;
    }
    headers.push(crate::text::from_chars(&crate::text::to_chars("Price")));
    headers.push(crate::text::from_chars(&crate::text::to_chars("Availability")));
    proof {
        assert(cells_view(headers@) =~= spec_headers(varies));
    }
    // the data rows
    let mut rows: Vec<Vec<String>> = Vec::new();
    let mut i: usize = 0;
    proof {
        assert(rows_view(rows@) =~= spec_table_rows(vs, varies, 0));
        assert(vs.len() == variants@.len());
    }
    while i < variants.len()
        invariant
            i <= variants@.len(),
            vs == crate::extract::vs_views(variants@),
            vs.len() == variants@.len(),
            varies == crate::text::strs_view(varies_by@),
            rows_view(rows@) == spec_table_rows(vs, varies, i as int),
            rows@.len() == i,
        decreases variants@.len() - i,
    {
        proof {
            assert(vs[i as int] == crate::extract::vsview(variants@[i as int]));
        }
        let cells = row_cells(&variants[i], varies_by);
        let ghost prev = rows_view(rows@);
        rows.push(cells);
        proof {
            assert(rows_view(rows@) =~= prev.push(spec_row(vs[i as int], varies)));
        }
        i = i + 1;
    }
    proof {
        let hv = cells_view(headers@);
        let rvv = rows_view(rows@);
        assert forall|j: int| 0 <= j < rows@.len() implies (#[trigger] rows@[j])@.len()
            == headers@.len() by {
            assert(rvv[j] == cells_view(rows@[j]@));
            lemma_table_rows_index(vs, varies, rows@.len() as int, j);
            lemma_row_len(vs[j], varies);
            assert(cells_view(rows@[j]@).len() == rows@[j]@.len());
        }
    }
    let widths = table_widths(&headers, &rows);
    let ghost hv = cells_view(headers@);
    let ghost rvv = rows_view(rows@);
    let mut out: Vec<char> = Vec::new();
    push_row_text(&mut out, &headers, &widths, Ghost(hv), Ghost(rvv));
    crate::text::push_str_chars(&mut out, "\n");
    push_sep_text(&mut out, &widths, Ghost(hv), Ghost(rvv));
    crate::text::push_str_chars(&mut out, "\n");
    let mut i: usize = 0;
    let ghost mid = out@;
    proof {
        assert(out@ =~= mid + spec_rows_text(rvv, hv, 0));
    }
    while i < rows.len()
        invariant
            i <= rows@.len(),
            hv == cells_view(headers@),
            rvv == rows_view(rows@),
            rvv.len() == rows@.len(),
            widths@.len() == headers@.len(),
            forall|c: int| 0 <= c < widths@.len() ==> widths@[c] as int == spec_col_width(
                hv,
                rvv,
                c,
                rvv.len() as int,
            ),
            out@ == mid + spec_rows_text(rvv, hv, i as int),
        decreases rows@.len() - i,
    {
        proof {
            assert(rvv[i as int] == cells_view(rows@[i as int]@));
        }
        push_row_text(&mut out, &rows[i], &widths, Ghost(hv), Ghost(rvv));
        crate::text::push_str_chars(&mut out, "\n");
        proof {
            assert(out@ =~= mid + spec_rows_text(rvv, hv, i + 1));
        }
        i = i + 1;
    }
    if total > variants.len() {
        crate::text::push_str_chars(&mut out, "(");
        let d = crate::text::digits_of((total - variants.len()) as u64);
        crate::text::push_all(&mut out, d.as_slice());
        crate::text::push_str_chars(&mut out, " additional variants not shown)\n");
    }
    crate::text::push_str_chars(&mut out, "\n");
    let s = crate::text::from_chars(&out);
    buf.append(s.as_str());
    proof {
        assert(buf@ =~= old(buf)@ + spec_variant_table(vs, varies, total as int));
    }
}


// ---------------------------------------------------------------------------
// The product group sections.
// ---------------------------------------------------------------------------

/// Insert a pair behind every earlier pair whose key is not larger.
pub open spec fn spec_insert_pair_sorted(
    sorted: Seq<(Seq<char>, Seq<char>)>,
    e: (Seq<char>, Seq<char>),
) -> Seq<(Seq<char>, Seq<char>)>
    decreases sorted.len(),
{
    if sorted.len() == 0 {
        seq![e]
    } else if crate::graph::lex_le(e.0, sorted.first().0) && e.0 != sorted.first().0 {
        seq![e] + sorted
    } else {
        seq![sorted.first()] + spec_insert_pair_sorted(sorted.drop_first(), e)
    }
}

/// The first `n` pairs sorted ascending by key.
pub open spec fn spec_sort_pairs(
    pairs: Seq<(Seq<char>, Seq<char>)>,
    n: int,
) -> Seq<(Seq<char>, Seq<char>)>
    decreases n,
{
    if n <= 0 || n > pairs.len() {
        Seq::<(Seq<char>, Seq<char>)>::empty()
    } else {
        spec_insert_pair_sorted(spec_sort_pairs(pairs, n - 1), pairs[n - 1])
    }
}

#[verifier::loop_isolation(false)]
fn prepend_pair(e: (String, String), rest: Vec<(String, String)>) -> (r: Vec<(String, String)>)
    ensures
        crate::extract::pairs_view(r@) == seq![(e.0@, e.1@)] + crate::extract::pairs_view(rest@),
{
    let ghost ev = (e.0@, e.1@);
    let mut out: Vec<(String, String)> = Vec::new();
    out.push(e);
    let ghost rv = crate::extract::pairs_view(rest@);
    let mut rest = rest;
    proof {
        assert(crate::extract::pairs_view(rest@) =~= rv.skip(0));
    }
    while rest.len() > 0
        invariant
            out@.len() >= 1,
            out@.len() + rest@.len() == rv.len() + 1,
            (out@[0].0@, out@[0].1@) == ev,
            crate::extract::pairs_view(rest@) =~= rv.skip(out@.len() - 1),
            crate::extract::pairs_view(out@) =~= seq![ev] + rv.take(out@.len() - 1),
        decreases rest@.len(),
    {
        let ghost restv = crate::extract::pairs_view(rest@);
        let ghost outv = crate::extract::pairs_view(out@);
        let nxt = rest.remove(0);
        out.push(nxt);
        proof {
            assert(crate::extract::pairs_view(rest@) =~= restv.drop_first());
            assert(restv.drop_first() =~= rv.skip(out@.len() - 1));
            assert(crate::extract::pairs_view(out@) =~= outv.push(restv[0]));
            assert(rv.take(out@.len() - 1) =~= rv.take(out@.len() - 2).push(
                rv[out@.len() - 2],
            ));
            assert(crate::extract::pairs_view(out@) =~= seq![ev] + rv.take(out@.len() - 1));
        }
    }
    proof {
        assert(rv.take(out@.len() - 1) =~= rv);
        assert(crate::extract::pairs_view(out@) =~= seq![ev] + rv);
    }
    out
}

fn insert_pair_sorted(sorted: Vec<(String, String)>, e: (String, String)) -> (r: Vec<(
    String,
    String,
)>)
    ensures
        crate::extract::pairs_view(r@) == spec_insert_pair_sorted(
            crate::extract::pairs_view(sorted@),
            (e.0@, e.1@),
        ),
    decreases sorted@.len(),
{
    let ghost sv = crate::extract::pairs_view(sorted@);
    let ghost ev = (e.0@, e.1@);
    let mut sorted = sorted;
    if sorted.len() == 0 {
        let mut out: Vec<(String, String)> = Vec::new();
        out.push(e);
        proof {
            assert(crate::extract::pairs_view(out@) =~= seq![ev]);
        }
        out
    } else {
        let le_first = crate::graph::lex_le_exec(
            crate::text::to_chars(e.0.as_str()).as_slice(),
            crate::text::to_chars(sorted[0].0.as_str()).as_slice(),
        );
        let eq_first = crate::text::chars_eq(
            crate::text::to_chars(e.0.as_str()).as_slice(),
            crate::text::to_chars(sorted[0].0.as_str()).as_slice(),
        );
        proof {
            assert(sv.first() == (sorted@[0].0@, sorted@[0].1@));
        }
        if le_first && !eq_first {
            let r = prepend_pair(e, sorted);
            proof {
                assert(crate::extract::pairs_view(r@) =~= spec_insert_pair_sorted(sv, ev));
            }
            r
        } else {
            let first = sorted.remove(0);
            let ghost fv = (first.0@, first.1@);
            proof {
                assert(crate::extract::pairs_view(sorted@) =~= sv.drop_first());
                assert(fv == sv.first());
            }
            let rest = insert_pair_sorted(sorted, e);
            let r = prepend_pair(first, rest);
            proof {
                assert(crate::extract::pairs_view(r@) =~= seq![fv] + spec_insert_pair_sorted(
                    sv.drop_first(),
                    ev,
                ));
                assert(crate::extract::pairs_view(r@) =~= spec_insert_pair_sorted(sv, ev));
            }
            r
        }
    }
}

/// The joined `variesBy` entries, a comma and a space between them.
pub open spec fn spec_join_comma(items: Seq<Seq<char>>, n: int) -> Seq<char>
    decreases n,
{
    if n <= 0 || n > items.len() {
        Seq::<char>::empty()
    } else if n == 1 {
        items[0]
    } else {
        spec_join_comma(items, n - 1) + ", "@ + items[n - 1]
    }
}

/// The common-properties block: a heading and one line per pair sorted by
/// key, the `name` key (in any case) skipped; nothing when no pair is left.
pub open spec fn spec_common_block(pairs: Seq<(Seq<char>, Seq<char>)>) -> Seq<char> {
    if pairs.len() == 0 {
        Seq::<char>::empty()
    } else {
        "\n**Common Properties** (shared by all variants):\n"@ + spec_common_lines(
            spec_sort_pairs(pairs, pairs.len() as int),
            spec_sort_pairs(pairs, pairs.len() as int).len() as int,
        )
    }
}

pub open spec fn spec_common_lines(sorted: Seq<(Seq<char>, Seq<char>)>, n: int) -> Seq<char>
    decreases n,
{
    if n <= 0 || n > sorted.len() {
        Seq::<char>::empty()
    } else {
        spec_common_lines(sorted, n - 1) + (if crate::text::spec_lower(sorted[n - 1].0)
            == "name"@ {
            Seq::<char>::empty()
        } else {
            spec_key_value(sorted[n - 1].0, sorted[n - 1].1)
        })
    }
}

/// One product group section: the header under the group's name, the id,
/// brand, varies-by, variant count, price range and availability lines, the
/// common-properties block, a blank line, and the variant table.
pub open spec fn spec_render_group(g: crate::extract::PGView) -> Seq<char> {
    spec_group_head(g) + spec_common_block(g.common_properties) + "
"@ + spec_variant_table(
        g.variants,
        g.varies_by,
        g.total_variants,
    )
}

/// The heading lines of a product group section.
pub open spec fn spec_group_head(g: crate::extract::PGView) -> Seq<char> {
    spec_group_head_a(g) + spec_group_head_b(g)
}

/// The header and identity lines of a group section.
pub open spec fn spec_group_head_a(g: crate::extract::PGView) -> Seq<char> {
    spec_section_header(
        "\u{1f4e6}"@,
        "ProductGroup: "@ + (match g.name {
            Some(n) => n,
            None => "ProductGroup"@,
        }),
    ) + spec_key_value("ProductGroup ID"@, opt_text_v(g.product_group_id)) + spec_key_value(
        "Brand"@,
        opt_text_v(g.brand),
    ) + spec_key_value("Varies By"@, spec_join_comma(g.varies_by, g.varies_by.len() as int))
}

/// The aggregate lines of a group section.
pub open spec fn spec_group_head_b(g: crate::extract::PGView) -> Seq<char> {
    (if g.total_variants > 0 {
        spec_key_value("Total Variants"@, spec_digits(g.total_variants as nat))
    } else {
        Seq::<char>::empty()
    }) + (match g.price_stats {
        Some((mn, mx, cur)) => if -0x4000000000000000 < mn < 0x4000000000000000
            && -0x4000000000000000 < mx < 0x4000000000000000 {
            spec_key_value("Price Range"@, crate::extract::spec_price_range(mn, mx, cur))
        } else {
            Seq::<char>::empty()
        },
        None => Seq::<char>::empty(),
    }) + (if g.availability_counts.len() > 0 {
        spec_key_value(
            "Availability"@,
            spec_counts_text(
                spec_sort_counts(g.availability_counts, g.availability_counts.len() as int),
                spec_sort_counts(
                    g.availability_counts,
                    g.availability_counts.len() as int,
                ).len() as int,
            ),
        )
    } else {
        Seq::<char>::empty()
    })
}

pub open spec fn opt_text_v(o: Option<Seq<char>>) -> Seq<char> {
    match o {
        Some(s) => s,
        None => Seq::<char>::empty(),
    }
}


/// Render the header and identity lines of one product group section.
#[verifier::loop_isolation(false)]
#[verifier::rlimit(60)]
fn render_group_head_a(buf: &mut String, g: &crate::extract::ProductGroupSummary)
    ensures
        final(buf)@ == old(buf)@ + spec_group_head_a(crate::extract::pgview(*g)),
{
    let ghost gv = crate::extract::pgview(*g);
    let mut title = crate::text::to_chars("ProductGroup: ");
    match &g.name {
        Some(n) => {
            crate::text::push_str_chars(&mut title, n.as_str());
        },
        None => {
            crate::text::push_str_chars(&mut title, "ProductGroup");
        },
    }
    let title_s = crate::text::from_chars(&title);
    push_section_header(buf, "\u{1f4e6}", title_s.as_str());
    proof {
        reveal_strlit("ProductGroup: ");
        assert(title_s@ =~= "ProductGroup: "@ + (match gv.name {
            Some(n) => n,
            None => "ProductGroup"@,
        }));
    }
    push_opt(buf, "ProductGroup ID", &g.product_group_id);
    push_opt(buf, "Brand", &g.brand);
    // the varies-by line
    let mut joined: Vec<char> = Vec::new();
    let mut i: usize = 0;
    proof {
        assert(gv.varies_by.len() == g.varies_by@.len());
        assert(joined@ =~= spec_join_comma(gv.varies_by, 0));
    }
    while i < g.varies_by.len()
        invariant
            i <= g.varies_by@.len(),
            gv == crate::extract::pgview(*g),
            gv.varies_by.len() == g.varies_by@.len(),
            joined@ == spec_join_comma(gv.varies_by, i as int),
        decreases g.varies_by@.len() - i,
    {
        proof {
            assert(gv.varies_by[i as int] == g.varies_by@[i as int]@);
        }
        if i > 0 {
            crate::text::push_str_chars(&mut joined, ", ");
        }
        crate::text::push_str_chars(&mut joined, g.varies_by[i].as_str());
        proof {
            assert(joined@ =~= spec_join_comma(gv.varies_by, i + 1));
        }
        i = i + 1;
    }
    let joined_s = crate::text::from_chars(&joined);
    push_key_value(buf, "Varies By", joined_s.as_str());
    proof {
        assert(buf@ =~= old(buf)@ + spec_group_head_a(gv));
    }
}

/// Render the aggregate lines of one product group section.
#[verifier::loop_isolation(false)]
#[verifier::rlimit(60)]
fn render_group_head_b(buf: &mut String, g: &crate::extract::ProductGroupSummary)
    ensures
        final(buf)@ == old(buf)@ + spec_group_head_b(crate::extract::pgview(*g)),
{
    let ghost gv = crate::extract::pgview(*g);
    if g.total_variants > 0 {
        let d = crate::text::digits_of(g.total_variants as u64);
        let ds = crate::text::from_chars(&d);
        push_key_value(buf, "Total Variants", ds.as_str());
        proof {
            assert(ds@.len() > 0);
        }
    }
    match &g.price_stats {
        Some(stats) => {
            if -0x4000000000000000 < stats.min_micros && stats.min_micros < 0x4000000000000000
                && -0x4000000000000000 < stats.max_micros && stats.max_micros
                < 0x4000000000000000 {
                let range = crate::extract::format_price_range(
                    stats.min_micros,
                    stats.max_micros,
                    &stats.currency,
                );
                push_key_value(buf, "Price Range", range.as_str());
            }
        },
        None => {},
    }
    if g.availability_counts.len() > 0 {
        let counts_s = format_availability_counts(&g.availability_counts);
        match counts_s {
            Some(cs) => {
                push_key_value(buf, "Availability", cs.as_str());
            },
            None => {},
        }
    }
    proof {
        assert(buf@ =~= old(buf)@ + spec_group_head_b(gv));
    }
}

/// Render one product group section.
#[verifier::loop_isolation(false)]
#[verifier::rlimit(80)]
pub fn render_product_group(buf: &mut String, g: &crate::extract::ProductGroupSummary)
    ensures
        final(buf)@ == old(buf)@ + spec_render_group(crate::extract::pgview(*g)),
{
    let ghost gv = crate::extract::pgview(*g);
    render_group_head_a(buf, g);
    render_group_head_b(buf, g);
    // the common-properties block
    if g.common_properties.len() > 0 {
        buf.append("\n**Common Properties** (shared by all variants):\n");
        let ghost cp = crate::extract::pairs_view(g.common_properties@);
        let mut sorted: Vec<(String, String)> = Vec::new();
        let mut i: usize = 0;
        proof {
            assert(crate::extract::pairs_view(sorted@) =~= spec_sort_pairs(cp, 0));
            assert(cp.len() == g.common_properties@.len());
        }
        while i < g.common_properties.len()
            invariant
                i <= g.common_properties@.len(),
                cp == crate::extract::pairs_view(g.common_properties@),
                cp.len() == g.common_properties@.len(),
                crate::extract::pairs_view(sorted@) == spec_sort_pairs(cp, i as int),
            decreases g.common_properties@.len() - i,
        {
            proof {
                assert(cp[i as int] == (g.common_properties@[i as int].0@, g.common_properties@[
                    i as int].1@));
            }
            sorted = insert_pair_sorted(
                sorted,
                (g.common_properties[i].0.clone(), g.common_properties[i].1.clone()),
            );
            i = i + 1;
        }
        let ghost sv = crate::extract::pairs_view(sorted@);
        let mut i: usize = 0;
        let ghost mid = buf@;
        proof {
            assert(buf@ =~= mid + spec_common_lines(sv, 0));
        }
        while i < sorted.len()
            invariant
                i <= sorted@.len(),
                sv == crate::extract::pairs_view(sorted@),
                sv.len() == sorted@.len(),
                buf@ == mid + spec_common_lines(sv, i as int),
            decreases sorted@.len() - i,
        {
            proof {
                assert(sv[i as int] == (sorted@[i as int].0@, sorted@[i as int].1@));
            }
            let key_lower = crate::text::lower_chars(
                crate::text::to_chars(sorted[i].0.as_str()).as_slice(),
            );
            if !crate::text::chars_eq(
                key_lower.as_slice(),
                crate::text::to_chars("name").as_slice(),
            ) {
                push_key_value(buf, sorted[i].0.as_str(), sorted[i].1.as_str());
            }
            proof {
                assert(buf@ =~= mid + spec_common_lines(sv, i + 1));
            }
            i = i + 1;
        }
    }
    buf.append("\n");
    render_variant_table(buf, &g.variants, &g.varies_by, g.total_variants);
    proof {
        assert(buf@ =~= old(buf)@ + spec_render_group(gv));
    }
}

/// The sections of every product group, in order.
pub open spec fn spec_render_groups(gs: Seq<crate::extract::PGView>, n: int) -> Seq<char>
    decreases n,
{
    if n <= 0 || n > gs.len() {
        Seq::<char>::empty()
    } else {
        spec_render_groups(gs, n - 1) + spec_render_group(gs[n - 1])
    }
}

/// Render every product group section.
#[verifier::loop_isolation(false)]
#[verifier::rlimit(60)]
pub fn render_product_groups(buf: &mut String, groups: &Vec<crate::extract::ProductGroupSummary>)
    ensures
        final(buf)@ == old(buf)@ + spec_render_groups(
            crate::extract::pg_views(groups@),
            groups@.len() as int,
        ),
{
    let ghost gs = crate::extract::pg_views(groups@);
    let mut i: usize = 0;
    proof {
        assert(gs.len() == groups@.len());
        assert(buf@ =~= old(buf)@ + spec_render_groups(gs, 0));
    }
    while i < groups.len()
        invariant
            i <= groups@.len(),
            gs == crate::extract::pg_views(groups@),
            gs.len() == groups@.len(),
            buf@ == old(buf)@ + spec_render_groups(gs, i as int),
        decreases groups@.len() - i,
    {
        proof {
            assert(gs[i as int] == crate::extract::pgview(groups@[i as int]));
        }
        render_product_group(buf, &groups[i]);
        proof {
            assert(buf@ =~= old(buf)@ + spec_render_groups(gs, i + 1));
        }
        i = i + 1;
    }
}

} // verus!
