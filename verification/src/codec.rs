//! The persisted form of the deletion history: a single JSON document with
//! one ordered array of records, timestamps stored as whole seconds. The
//! writer and the parser are both verified, and parsing what was written
//! gives back the same records. The parser is deliberately strict: a
//! document in any other layout — other field orders, whitespace, textual
//! timestamps — reads as no history, which callers treat as an empty
//! ledger.

use vstd::prelude::*;

use crate::history::{DeletionMethod, DeletionRecord, History, RecordView};
use crate::text::{append_u64, digit_char, render_u64};

verus! {

/// The records of a ledger as mathematical values.
pub open spec fn records_view(s: Seq<DeletionRecord>) -> Seq<RecordView> {
    s.map_values(|r: DeletionRecord| r@)
}

/// How one character appears inside a quoted string: quotes and backslashes
/// gain a backslash, everything else stands as itself.
pub open spec fn esc_char(c: char) -> Seq<char> {
    if c == '"' {
        seq!['\\', '"']
    } else if c == '\\' {
        seq!['\\', '\\']
    } else {
        seq![c]
    }
}

/// The escaped body of a quoted string.
pub open spec fn escape(s: Seq<char>) -> Seq<char>
    decreases s.len(),
{
    if s.len() == 0 {
        Seq::<char>::empty()
    } else {
        esc_char(s[0]) + escape(s.skip(1))
    }
}

/// Escaping distributes over concatenation.
pub proof fn lemma_escape_append(a: Seq<char>, b: Seq<char>)
    ensures
        escape(a + b) == escape(a) + escape(b),
    decreases a.len(),
{
    if a.len() == 0 {
        assert(a + b =~= b);
        assert(escape(a) + escape(b) =~= escape(b));
    } else {
        assert((a + b).skip(1) =~= a.skip(1) + b);
        lemma_escape_append(a.skip(1), b);
        assert(esc_char((a + b)[0]) + (escape(a.skip(1)) + escape(b)) =~= (esc_char(a[0]) + escape(
            a.skip(1),
        )) + escape(b));
    }
}

/// A quoted, escaped string.
pub open spec fn render_string(s: Seq<char>) -> Seq<char> {
    seq!['"'] + escape(s) + seq!['"']
}

/// The tail of a rendered array: a comma before each further element.
pub open spec fn render_strings_rest(ps: Seq<Seq<char>>) -> Seq<char>
    decreases ps.len(),
{
    if ps.len() == 0 {
        Seq::<char>::empty()
    } else {
        seq![','] + render_string(ps[0]) + render_strings_rest(ps.skip(1))
    }
}

/// A rendered array of strings.
pub open spec fn render_strings(ps: Seq<Seq<char>>) -> Seq<char> {
    if ps.len() == 0 {
        seq!['[', ']']
    } else {
        seq!['['] + render_string(ps[0]) + render_strings_rest(ps.skip(1)) + seq![']']
    }
}

/// The method field's value.
pub open spec fn render_method(m: DeletionMethod) -> Seq<char> {
    match m {
        DeletionMethod::Trash => "\"Trash\""@,
        DeletionMethod::Permanent => "\"Permanent\""@,
    }
}

/// One record as a JSON object with a fixed field order.
pub open spec fn render_record(r: RecordView) -> Seq<char> {
    "{\"timestamp\":"@ + render_u64(r.timestamp as int) + ",\"paths\":"@ + render_strings(r.paths)
        + ",\"total_size\":"@ + render_u64(r.total_size as int) + ",\"method\":"@ + render_method(
        r.method,
    ) + seq!['}']
}

/// The tail of the rendered record array.
pub open spec fn render_records_rest(rs: Seq<RecordView>) -> Seq<char>
    decreases rs.len(),
{
    if rs.len() == 0 {
        Seq::<char>::empty()
    } else {
        seq![','] + render_record(rs[0]) + render_records_rest(rs.skip(1))
    }
}

/// The whole ledger as one JSON document.
pub open spec fn render_history(rs: Seq<RecordView>) -> Seq<char> {
    if rs.len() == 0 {
        "{\"records\":["@ + "]}"@
    } else {
        "{\"records\":["@ + render_record(rs[0]) + render_records_rest(rs.skip(1)) + "]}"@
    }
}

fn write_escaped(out: &mut String, s: &str)
    ensures
        final(out)@ == old(out)@ + escape(s@),
{
    let n = s.unicode_len();
    let mut i: usize = 0;
    proof {
        assert(s@.take(0) =~= Seq::<char>::empty());
        assert(old(out)@ + escape(s@.take(0)) =~= old(out)@);
    }
    while i < n
        invariant
            i <= n,
            n == s@.len(),
            out@ == old(out)@ + escape(s@.take(i as int)),
        decreases n - i,
    {
        let c = s.get_char(i);
        if (c as u32) == ('"' as u32) {
            out.push('\\');
            out.push('"');
        } else if (c as u32) == ('\\' as u32) {
            out.push('\\');
            out.push('\\');
        } else {
            out.push(c);
        }
        proof {
            assert(s@.take(i + 1) =~= s@.take(i as int) + seq![s@[i as int]]);
            lemma_escape_append(s@.take(i as int), seq![s@[i as int]]);
            assert(escape(seq![s@[i as int]]) == esc_char(s@[i as int]) + escape(
                seq![s@[i as int]].skip(1),
            ));
            assert(seq![s@[i as int]].skip(1) =~= Seq::<char>::empty());
            assert(escape(seq![s@[i as int]]) =~= esc_char(s@[i as int]));
            assert(out@ =~= old(out)@ + escape(s@.take(i + 1)));
        }
        i = i + 1;
    }
    proof {
        assert(s@.take(n as int) =~= s@);
    }
}

fn write_string(out: &mut String, s: &str)
    ensures
        final(out)@ == old(out)@ + render_string(s@),
{
    out.push('"');
    write_escaped(out, s);
    out.push('"');
    proof {
        assert(final(out)@ =~= old(out)@ + render_string(s@));
    }
}

fn write_paths(out: &mut String, ps: &Vec<String>)
    ensures
        final(out)@ == old(out)@ + render_strings(ps.deep_view()),
{
    let ghost view = ps.deep_view();
    out.push('[');
    if ps.len() == 0 {
        out.push(']');
        proof {
            assert(final(out)@ =~= old(out)@ + render_strings(view));
        }
        return ;
    }
    write_string(out, ps[0].as_str());
    proof {
        assert(view[0] == ps@[0]@);
    }
    let mut k: usize = 1;
    while k < ps.len()
        invariant
            1 <= k <= ps.len(),
            view == ps.deep_view(),
            view.len() == ps@.len(),
            forall|j: int| 0 <= j < view.len() ==> #[trigger] view[j] == ps@[j]@,
            out@ + render_strings_rest(view.skip(k as int)) + seq![']'] == old(out)@
                + render_strings(view),
        decreases ps.len() - k,
    {
        out.push(',');
        write_string(out, ps[k].as_str());
        proof {
            assert(view.skip(k as int)[0] == view[k as int]);
            assert(view.skip(k as int).skip(1) =~= view.skip(k + 1));
            assert(render_strings_rest(view.skip(k as int)) == seq![','] + render_string(
                view[k as int],
            ) + render_strings_rest(view.skip(k + 1)));
            assert(out@ + render_strings_rest(view.skip(k + 1)) + seq![']'] =~= old(out)@
                + render_strings(view));
        }
        k = k + 1;
    }
    out.push(']');
    proof {
        assert(view.skip(ps@.len() as int) =~= Seq::<Seq<char>>::empty());
        assert(render_strings_rest(view.skip(ps@.len() as int)) =~= Seq::<char>::empty());
        assert(final(out)@ =~= old(out)@ + render_strings(view));
    }
}

fn write_method(out: &mut String, m: DeletionMethod)
    ensures
        final(out)@ == old(out)@ + render_method(m),
{
    match m {
        DeletionMethod::Trash => out.append("\"Trash\""),
        DeletionMethod::Permanent => out.append("\"Permanent\""),
    }
}

fn write_record(out: &mut String, r: &DeletionRecord)
    ensures
        final(out)@ == old(out)@ + render_record(r@),
{
    out.append("{\"timestamp\":");
    append_u64(out, r.timestamp);
    out.append(",\"paths\":");
    write_paths(out, &r.paths);
    out.append(",\"total_size\":");
    append_u64(out, r.total_size);
    out.append(",\"method\":");
    write_method(out, r.method);
    out.push('}');
    proof {
        assert(final(out)@ =~= old(out)@ + render_record(r@));
    }
}

/// Renders the ledger as the single JSON document that is persisted.
pub fn to_json_string(h: &History) -> (r: String)
    ensures
        r@ == render_history(records_view(h.records@)),
{
    let ghost view = records_view(h.records@);
    let mut out = String::new();
    out.append("{\"records\":[");
    if h.records.len() == 0 {
        out.append("]}");
        proof {
            assert(out@ =~= render_history(view));
        }
        return out;
    }
    proof {
        assert(view[0] == h.records@[0]@);
    }
    write_record(&mut out, &h.records[0]);
    let mut k: usize = 1;
    while k < h.records.len()
        invariant
            1 <= k <= h.records@.len(),
            view == records_view(h.records@),
            view.len() == h.records@.len(),
            forall|j: int| 0 <= j < view.len() ==> #[trigger] view[j] == h.records@[j]@,
            out@ + render_records_rest(view.skip(k as int)) + "]}"@ == render_history(view),
        decreases h.records@.len() - k,
    {
        out.push(',');
        write_record(&mut out, &h.records[k]);
        proof {
            assert(view.skip(k as int)[0] == view[k as int]);
            assert(view.skip(k as int).skip(1) =~= view.skip(k + 1));
            assert(render_records_rest(view.skip(k as int)) == seq![','] + render_record(
                view[k as int],
            ) + render_records_rest(view.skip(k + 1)));
            assert(out@ + render_records_rest(view.skip(k + 1)) + "]}"@ =~= render_history(view));
        }
        k = k + 1;
    }
    out.append("]}");
    proof {
        assert(view.skip(h.records@.len() as int) =~= Seq::<RecordView>::empty());
        assert(render_records_rest(view.skip(h.records@.len() as int)) =~= Seq::<char>::empty());
        assert(out@ =~= render_history(view));
    }
    out
}

// ---------------------------------------------------------------------------
// The parser, at the specification level.
// ---------------------------------------------------------------------------
/// A decimal digit character.
pub open spec fn is_digit(c: char) -> bool {
    48 <= c as int <= 57
}

/// The numeric value of a digit character.
pub open spec fn digit_val(c: char) -> int {
    c as int - 48
}

/// Recognises `lit` verbatim at position `i`.
pub open spec fn parse_lit(s: Seq<char>, i: int, lit: Seq<char>) -> Option<int> {
    if 0 <= i && i + lit.len() <= s.len() && s.subrange(i, i + lit.len()) == lit {
        Some(i + lit.len())
    } else {
        None
    }
}

/// The end of the maximal digit run beginning at `i`.
pub open spec fn digits_end(s: Seq<char>, i: int) -> int
    decreases s.len() - i,
{
    if 0 <= i < s.len() && is_digit(s[i]) {
        digits_end(s, i + 1)
    } else {
        i
    }
}

/// The value of the digit run `s[i..e)`.
pub open spec fn digits_val(s: Seq<char>, i: int, e: int) -> int
    decreases e - i,
{
    if i >= e {
        0
    } else {
        digits_val(s, i, e - 1) * 10 + digit_val(s[e - 1])
    }
}

/// Reads a decimal number at `i`; fails without digits or beyond `u64`.
pub open spec fn parse_u64(s: Seq<char>, i: int) -> Option<(u64, int)> {
    let e = digits_end(s, i);
    if e == i {
        None
    } else {
        let v = digits_val(s, i, e);
        if v <= u64::MAX {
            Some((v as u64, e))
        } else {
            None
        }
    }
}

/// Reads the body of a quoted string up to and including the closing quote,
/// undoing the two escapes the writer produces.
pub open spec fn parse_str_content(s: Seq<char>, i: int) -> Option<(Seq<char>, int)>
    decreases s.len() - i,
{
    if !(0 <= i < s.len()) {
        None
    } else if s[i] == '"' {
        Some((Seq::<char>::empty(), i + 1))
    } else if s[i] == '\\' {
        if i + 1 < s.len() && (s[i + 1] == '"' || s[i + 1] == '\\') {
            match parse_str_content(s, i + 2) {
                Some((t, j)) => Some((seq![s[i + 1]] + t, j)),
                None => None,
            }
        } else {
            None
        }
    } else {
        match parse_str_content(s, i + 1) {
            Some((t, j)) => Some((seq![s[i]] + t, j)),
            None => None,
        }
    }
}

/// Reads a quoted string at `i`.
pub open spec fn parse_string(s: Seq<char>, i: int) -> Option<(Seq<char>, int)> {
    if 0 <= i < s.len() && s[i] == '"' {
        parse_str_content(s, i + 1)
    } else {
        None
    }
}

/// Reads the tail of a string array: further comma-led elements, then the
/// closing bracket. `fuel` only bounds the recursion; one unit is spent per
/// element.
pub open spec fn parse_strings_rest(s: Seq<char>, i: int, fuel: nat) -> Option<
    (Seq<Seq<char>>, int),
>
    decreases fuel,
{
    if 0 <= i < s.len() && s[i] == ']' {
        Some((Seq::<Seq<char>>::empty(), i + 1))
    } else if 0 <= i < s.len() && s[i] == ',' && fuel > 0 {
        match parse_string(s, i + 1) {
            Some((p, j)) => match parse_strings_rest(s, j, (fuel - 1) as nat) {
                Some((ps, k)) => Some((seq![p] + ps, k)),
                None => None,
            },
            None => None,
        }
    } else {
        None
    }
}

/// Reads a whole string array at `i`.
pub open spec fn parse_strings(s: Seq<char>, i: int, fuel: nat) -> Option<(Seq<Seq<char>>, int)> {
    if 0 <= i < s.len() && s[i] == '[' {
        if i + 1 < s.len() && s[i + 1] == ']' {
            Some((Seq::<Seq<char>>::empty(), i + 2))
        } else {
            match parse_string(s, i + 1) {
                Some((p, j)) => match parse_strings_rest(s, j, fuel) {
                    Some((ps, k)) => Some((seq![p] + ps, k)),
                    None => None,
                },
                None => None,
            }
        }
    } else {
        None
    }
}

/// Reads a deletion method value.
pub open spec fn parse_method(s: Seq<char>, i: int) -> Option<(DeletionMethod, int)> {
    match parse_lit(s, i, "\"Trash\""@) {
        Some(j) => Some((DeletionMethod::Trash, j)),
        None => match parse_lit(s, i, "\"Permanent\""@) {
            Some(j) => Some((DeletionMethod::Permanent, j)),
            None => None,
        },
    }
}

/// Reads one record object at `i`.
pub open spec fn parse_record(s: Seq<char>, i: int) -> Option<(RecordView, int)> {
    match parse_lit(s, i, "{\"timestamp\":"@) {
        None => None,
        Some(j1) => match parse_u64(s, j1) {
            None => None,
            Some((ts, j2)) => match parse_lit(s, j2, ",\"paths\":"@) {
                None => None,
                Some(j3) => match parse_strings(s, j3, s.len() as nat) {
                    None => None,
                    Some((ps, j4)) => match parse_lit(s, j4, ",\"total_size\":"@) {
                        None => None,
                        Some(j5) => match parse_u64(s, j5) {
                            None => None,
                            Some((sz, j6)) => match parse_lit(s, j6, ",\"method\":"@) {
                                None => None,
                                Some(j7) => match parse_method(s, j7) {
                                    None => None,
                                    Some((m, j8)) => if j8 < s.len() && s[j8] == '}' {
                                        Some(
                                            (
                                                RecordView {
                                                    timestamp: ts,
                                                    paths: ps,
                                                    total_size: sz,
                                                    method: m,
                                                },
                                                j8 + 1,
                                            ),
                                        )
                                    } else {
                                        None
                                    },
                                },
                            },
                        },
                    },
                },
            },
        },
    }
}

/// Reads the tail of the record array, closing bracket included.
pub open spec fn parse_records_rest(s: Seq<char>, i: int, fuel: nat) -> Option<
    (Seq<RecordView>, int),
>
    decreases fuel,
{
    if 0 <= i < s.len() && s[i] == ']' {
        Some((Seq::<RecordView>::empty(), i + 1))
    } else if 0 <= i < s.len() && s[i] == ',' && fuel > 0 {
        match parse_record(s, i + 1) {
            Some((r, j)) => match parse_records_rest(s, j, (fuel - 1) as nat) {
                Some((rs, k)) => Some((seq![r] + rs, k)),
                None => None,
            },
            None => None,
        }
    } else {
        None
    }
}

/// Reads a whole history document; succeeds only when the entire input is
/// exactly one document.
pub open spec fn parse_history(s: Seq<char>) -> Option<Seq<RecordView>> {
    match parse_lit(s, 0, "{\"records\":["@) {
        None => None,
        Some(j) => {
            let inner = if j < s.len() && s[j] == ']' {
                Some((Seq::<RecordView>::empty(), j + 1))
            } else {
                match parse_record(s, j) {
                    Some((r, j2)) => match parse_records_rest(s, j2, s.len() as nat) {
                        Some((rs, k)) => Some((seq![r] + rs, k)),
                        None => None,
                    },
                    None => None,
                }
            };
            match inner {
                Some((rs, k)) => if k < s.len() && s[k] == '}' && k + 1 == s.len() {
                    Some(rs)
                } else {
                    None
                },
                None => None,
            }
        },
    }
}

// ---------------------------------------------------------------------------
// Round-trip: parsing what the writer renders gives back the same values.
// ---------------------------------------------------------------------------
proof fn lemma_digit_char_props(d: int)
    requires
        0 <= d < 10,
    ensures
        is_digit(digit_char(d)),
        digit_val(digit_char(d)) == d,
{
}

proof fn lemma_render_u64_digits(n: int)
    requires
        n >= 0,
    ensures
        render_u64(n).len() >= 1,
        forall|k: int| 0 <= k < render_u64(n).len() ==> is_digit(#[trigger] render_u64(n)[k]),
    decreases n,
{
    if n < 10 {
        lemma_digit_char_props(n);
    } else {
        lemma_render_u64_digits(n / 10);
        lemma_digit_char_props(n % 10);
    }
}

proof fn lemma_digits_end_region(s: Seq<char>, i: int, e: int)
    requires
        0 <= i <= e <= s.len(),
        forall|j: int| i <= j < e ==> is_digit(#[trigger] s[j]),
        e == s.len() || !is_digit(s[e]),
    ensures
        digits_end(s, i) == e,
    decreases e - i,
{
    if i < e {
        lemma_digits_end_region(s, i + 1, e);
    }
}

proof fn lemma_digits_val_region(n: int, s: Seq<char>, i: int)
    requires
        n >= 0,
        0 <= i,
        i + render_u64(n).len() <= s.len(),
        s.subrange(i, i + render_u64(n).len()) == render_u64(n),
    ensures
        digits_val(s, i, i + render_u64(n).len()) == n,
    decreases n,
{
    let w = render_u64(n);
    let e = i + w.len();
    if n < 10 {
        assert(s[i] == w[0]);
        lemma_digit_char_props(n);
        assert(digits_val(s, i, i + 1) == digits_val(s, i, i) * 10 + digit_val(s[i]));
    } else {
        let wp = render_u64(n / 10);
        assert(w == wp.push(digit_char(n % 10)));
        assert(s.subrange(i, i + wp.len()) =~= wp) by {
            assert forall|k: int| 0 <= k < wp.len() implies s.subrange(i, i + wp.len())[k]
                == wp[k] by {
                assert(s[i + k] == w[k]);
            }
        }
        lemma_digits_val_region(n / 10, s, i);
        assert(s[e - 1] == w[w.len() - 1]);
        lemma_digit_char_props(n % 10);
        assert(digits_val(s, i, e) == digits_val(s, i, e - 1) * 10 + digit_val(s[e - 1]));
        assert(digits_val(s, i, e) == (n / 10) * 10 + n % 10);
    }
}

proof fn lemma_parse_u64_render(n: u64, s: Seq<char>, i: int)
    requires
        0 <= i,
        i + render_u64(n as int).len() <= s.len(),
        s.subrange(i, i + render_u64(n as int).len()) == render_u64(n as int),
        i + render_u64(n as int).len() == s.len() || !is_digit(s[i + render_u64(n as int).len()]),
    ensures
        parse_u64(s, i) == Some((n, i + render_u64(n as int).len())),
{
    let w = render_u64(n as int);
    let e = i + w.len();
    lemma_render_u64_digits(n as int);
    assert forall|j: int| i <= j < e implies is_digit(#[trigger] s[j]) by {
        assert(s[j] == w[j - i]);
    }
    lemma_digits_end_region(s, i, e);
    lemma_digits_val_region(n as int, s, i);
}

proof fn lemma_parse_content_render(p: Seq<char>, s: Seq<char>, i: int)
    requires
        0 <= i,
        i + escape(p).len() + 1 <= s.len(),
        s.subrange(i, i + escape(p).len()) == escape(p),
        s[i + escape(p).len()] == '"',
    ensures
        parse_str_content(s, i) == Some((p, i + escape(p).len() + 1)),
    decreases p.len(),
{
    let w = escape(p);
    if p.len() == 0 {
        assert(w.len() == 0);
    } else {
        let c = p[0];
        let rest = escape(p.skip(1));
        assert(w == esc_char(c) + rest);
        let off = esc_char(c).len();
        assert(s.subrange(i + off, i + off + rest.len()) =~= rest) by {
            assert forall|k: int| 0 <= k < rest.len() implies s.subrange(
                i + off,
                i + off + rest.len(),
            )[k] == rest[k] by {
                assert(s[i + off + k] == w[off + k]);
            }
        }
        assert(s[i + off + rest.len()] == '"');
        lemma_parse_content_render(p.skip(1), s, i + off);
        if c == '"' {
            assert(s[i] == w[0]);
            assert(s[i + 1] == w[1]);
            assert(s[i] == '\\' && s[i + 1] == '"');
            assert(seq![s[i + 1]] + p.skip(1) =~= p);
        } else if c == '\\' {
            assert(s[i] == w[0]);
            assert(s[i + 1] == w[1]);
            assert(s[i] == '\\' && s[i + 1] == '\\');
            assert(seq![s[i + 1]] + p.skip(1) =~= p);
        } else {
            assert(s[i] == w[0]);
            assert(s[i] == c);
            assert(seq![s[i]] + p.skip(1) =~= p);
        }
    }
}

proof fn lemma_parse_string_render(p: Seq<char>, s: Seq<char>, i: int)
    requires
        0 <= i,
        i + render_string(p).len() <= s.len(),
        s.subrange(i, i + render_string(p).len()) == render_string(p),
    ensures
        parse_string(s, i) == Some((p, i + render_string(p).len())),
        render_string(p).len() >= 2,
{
    let w = render_string(p);
    assert(w.len() == escape(p).len() + 2);
    assert(s[i] == w[0]);
    assert(s[i] == '"');
    assert(s.subrange(i + 1, i + 1 + escape(p).len()) =~= escape(p)) by {
        assert forall|k: int| 0 <= k < escape(p).len() implies s.subrange(
            i + 1,
            i + 1 + escape(p).len(),
        )[k] == escape(p)[k] by {
            assert(s[i + 1 + k] == w[1 + k]);
        }
    }
    assert(s[i + 1 + escape(p).len()] == w[w.len() - 1]);
    assert(s[i + 1 + escape(p).len()] == '"');
    lemma_parse_content_render(p, s, i + 1);
}

proof fn lemma_render_strings_rest_len(ps: Seq<Seq<char>>)
    ensures
        render_strings_rest(ps).len() >= ps.len(),
    decreases ps.len(),
{
    if ps.len() > 0 {
        lemma_render_strings_rest_len(ps.skip(1));
    }
}

proof fn lemma_parse_strings_rest_render(ps: Seq<Seq<char>>, s: Seq<char>, i: int, fuel: nat)
    requires
        0 <= i,
        i + render_strings_rest(ps).len() + 1 <= s.len(),
        s.subrange(i, i + render_strings_rest(ps).len()) == render_strings_rest(ps),
        s[i + render_strings_rest(ps).len()] == ']',
        fuel >= ps.len(),
    ensures
        parse_strings_rest(s, i, fuel) == Some((ps, i + render_strings_rest(ps).len() + 1)),
    decreases ps.len(),
{
    let w = render_strings_rest(ps);
    if ps.len() == 0 {
        assert(s[i] == ']');
    } else {
        let first = render_string(ps[0]);
        let rest = render_strings_rest(ps.skip(1));
        assert(w == seq![','] + first + rest);
        assert(s[i] == w[0]);
        assert(s[i] == ',');
        assert(s.subrange(i + 1, i + 1 + first.len()) =~= first) by {
            assert forall|k: int| 0 <= k < first.len() implies s.subrange(
                i + 1,
                i + 1 + first.len(),
            )[k] == first[k] by {
                assert(s[i + 1 + k] == w[1 + k]);
            }
        }
        lemma_parse_string_render(ps[0], s, i + 1);
        let j = i + 1 + first.len();
        assert(s.subrange(j, j + rest.len()) =~= rest) by {
            assert forall|k: int| 0 <= k < rest.len() implies s.subrange(j, j + rest.len())[k]
                == rest[k] by {
                assert(s[j + k] == w[1 + first.len() + k]);
            }
        }
        assert(s[j + rest.len()] == ']');
        lemma_parse_strings_rest_render(ps.skip(1), s, j, (fuel - 1) as nat);
        assert(seq![ps[0]] + ps.skip(1) =~= ps);
    }
}

proof fn lemma_parse_strings_render(ps: Seq<Seq<char>>, s: Seq<char>, i: int, fuel: nat)
    requires
        0 <= i,
        i + render_strings(ps).len() <= s.len(),
        s.subrange(i, i + render_strings(ps).len()) == render_strings(ps),
        fuel >= ps.len(),
    ensures
        parse_strings(s, i, fuel) == Some((ps, i + render_strings(ps).len())),
        render_strings(ps).len() >= 2,
    decreases ps.len(),
{
    let w = render_strings(ps);
    assert(s[i] == w[0]);
    assert(s[i] == '[');
    if ps.len() == 0 {
        assert(s[i + 1] == w[1]);
        assert(s[i + 1] == ']');
    } else {
        let first = render_string(ps[0]);
        let rest = render_strings_rest(ps.skip(1));
        assert(w == seq!['['] + first + rest + seq![']']);
        assert(s.subrange(i + 1, i + 1 + first.len()) =~= first) by {
            assert forall|k: int| 0 <= k < first.len() implies s.subrange(
                i + 1,
                i + 1 + first.len(),
            )[k] == first[k] by {
                assert(s[i + 1 + k] == w[1 + k]);
            }
        }
        lemma_parse_string_render(ps[0], s, i + 1);
        assert(s[i + 1] == first[0]);
        assert(s[i + 1] == '"');
        let j = i + 1 + first.len();
        assert(s.subrange(j, j + rest.len()) =~= rest) by {
            assert forall|k: int| 0 <= k < rest.len() implies s.subrange(j, j + rest.len())[k]
                == rest[k] by {
                assert(s[j + k] == w[1 + first.len() + k]);
            }
        }
        assert(s[j + rest.len()] == w[w.len() - 1]);
        assert(s[j + rest.len()] == ']');
        lemma_parse_strings_rest_render(ps.skip(1), s, j, fuel);
        assert(seq![ps[0]] + ps.skip(1) =~= ps);
    }
}

proof fn lemma_parse_method_render(m: DeletionMethod, s: Seq<char>, i: int)
    requires
        0 <= i,
        i + render_method(m).len() <= s.len(),
        s.subrange(i, i + render_method(m).len()) == render_method(m),
    ensures
        parse_method(s, i) == Some((m, i + render_method(m).len())),
{
    reveal_strlit("\"Trash\"");
    reveal_strlit("\"Permanent\"");
    let w = render_method(m);
    match m {
        DeletionMethod::Trash => {
            assert(parse_lit(s, i, "\"Trash\""@) == Some(i + w.len()));
        },
        DeletionMethod::Permanent => {
            assert(parse_lit(s, i, "\"Trash\""@) is None) by {
                if parse_lit(s, i, "\"Trash\""@) is Some {
                    assert(s.subrange(i, i + 7)[1] == "\"Trash\""@[1]);
                    assert(s[i + 1] == 'T');
                    assert(s[i + 1] == w[1]);
                    assert(w[1] == 'P');
                }
            }
            assert(parse_lit(s, i, "\"Permanent\""@) == Some(i + w.len()));
        },
    }
}

#[verifier::rlimit(100)]
proof fn lemma_parse_record_render(r: RecordView, s: Seq<char>, i: int)
    requires
        0 <= i,
        i + render_record(r).len() <= s.len(),
        s.subrange(i, i + render_record(r).len()) == render_record(r),
    ensures
        parse_record(s, i) == Some((r, i + render_record(r).len())),
        render_record(r).len() >= 1,
{
    reveal_strlit("{\"timestamp\":");
    reveal_strlit(",\"paths\":");
    reveal_strlit(",\"total_size\":");
    reveal_strlit(",\"method\":");
    reveal_strlit("\"Trash\"");
    reveal_strlit("\"Permanent\"");
    let w = render_record(r);
    let lit1 = "{\"timestamp\":"@;
    let wts = render_u64(r.timestamp as int);
    let lit2 = ",\"paths\":"@;
    let wps = render_strings(r.paths);
    let lit3 = ",\"total_size\":"@;
    let wsz = render_u64(r.total_size as int);
    let lit4 = ",\"method\":"@;
    let wm = render_method(r.method);
    assert(w == lit1 + wts + lit2 + wps + lit3 + wsz + lit4 + wm + seq!['}']);
    let o1 = lit1.len() as int;
    let o2 = o1 + wts.len() as int;
    let o3 = o2 + lit2.len() as int;
    let o4 = o3 + wps.len() as int;
    let o5 = o4 + lit3.len() as int;
    let o6 = o5 + wsz.len() as int;
    let o7 = o6 + lit4.len() as int;
    let o8 = o7 + wm.len() as int;
    assert forall|j: int| i <= j < i + w.len() implies s[j] == w[j - i] by {
        assert(s.subrange(i, i + w.len())[j - i] == w[j - i]);
    }
    // the leading literal
    assert(s.subrange(i, i + o1) =~= lit1) by {
        assert forall|k: int| 0 <= k < o1 implies s.subrange(i, i + o1)[k] == lit1[k] by {
            assert(s[i + k] == w[k]);
            assert(w[k] == lit1[k]);
        }
    }
    // the timestamp digits, followed by the comma of the next literal
    assert(s.subrange(i + o1, i + o2) =~= wts) by {
        assert forall|k: int| 0 <= k < wts.len() implies s.subrange(i + o1, i + o2)[k]
            == wts[k] by {
            assert(s[i + o1 + k] == w[o1 + k]);
            assert(w[o1 + k] == wts[k]);
        }
    }
    assert(s[i + o2] == w[o2]);
    assert(w[o2] == lit2[0]);
    lemma_render_u64_digits(r.timestamp as int);
    lemma_parse_u64_render(r.timestamp, s, i + o1);
    // the paths literal and array
    assert(s.subrange(i + o2, i + o3) =~= lit2) by {
        assert forall|k: int| 0 <= k < lit2.len() implies s.subrange(i + o2, i + o3)[k]
            == lit2[k] by {
            assert(s[i + o2 + k] == w[o2 + k]);
            assert(w[o2 + k] == lit2[k]);
        }
    }
    assert(s.subrange(i + o3, i + o4) =~= wps) by {
        assert forall|k: int| 0 <= k < wps.len() implies s.subrange(i + o3, i + o4)[k]
            == wps[k] by {
            assert(s[i + o3 + k] == w[o3 + k]);
            assert(w[o3 + k] == wps[k]);
        }
    }
    lemma_render_strings_rest_len(r.paths.skip(1));
    assert(wps.len() >= r.paths.len());
    lemma_parse_strings_render(r.paths, s, i + o3, s.len() as nat);
    // the size literal and digits, followed by the next comma
    assert(s.subrange(i + o4, i + o5) =~= lit3) by {
        assert forall|k: int| 0 <= k < lit3.len() implies s.subrange(i + o4, i + o5)[k]
            == lit3[k] by {
            assert(s[i + o4 + k] == w[o4 + k]);
            assert(w[o4 + k] == lit3[k]);
        }
    }
    assert(s.subrange(i + o5, i + o6) =~= wsz) by {
        assert forall|k: int| 0 <= k < wsz.len() implies s.subrange(i + o5, i + o6)[k]
            == wsz[k] by {
            assert(s[i + o5 + k] == w[o5 + k]);
            assert(w[o5 + k] == wsz[k]);
        }
    }
    assert(s[i + o6] == w[o6]);
    assert(w[o6] == lit4[0]);
    lemma_render_u64_digits(r.total_size as int);
    lemma_parse_u64_render(r.total_size, s, i + o5);
    // the method literal and value, and the closing brace
    assert(s.subrange(i + o6, i + o7) =~= lit4) by {
        assert forall|k: int| 0 <= k < lit4.len() implies s.subrange(i + o6, i + o7)[k]
            == lit4[k] by {
            assert(s[i + o6 + k] == w[o6 + k]);
            assert(w[o6 + k] == lit4[k]);
        }
    }
    assert(s.subrange(i + o7, i + o8) =~= wm) by {
        assert forall|k: int| 0 <= k < wm.len() implies s.subrange(i + o7, i + o8)[k] == wm[k] by {
            assert(s[i + o7 + k] == w[o7 + k]);
            assert(w[o7 + k] == wm[k]);
        }
    }
    lemma_parse_method_render(r.method, s, i + o7);
    assert(s[i + o8] == w[o8]);
    assert(w[o8] == '}');
}

proof fn lemma_render_records_rest_len(rs: Seq<RecordView>)
    ensures
        render_records_rest(rs).len() >= rs.len(),
    decreases rs.len(),
{
    if rs.len() > 0 {
        lemma_render_records_rest_len(rs.skip(1));
        lemma_render_record_len(rs[0]);
    }
}

proof fn lemma_render_record_len(r: RecordView)
    ensures
        render_record(r).len() >= 1,
{
}

#[verifier::rlimit(100)]
proof fn lemma_parse_records_rest_render(rs: Seq<RecordView>, s: Seq<char>, i: int, fuel: nat)
    requires
        0 <= i,
        i + render_records_rest(rs).len() + 1 <= s.len(),
        s.subrange(i, i + render_records_rest(rs).len()) == render_records_rest(rs),
        s[i + render_records_rest(rs).len()] == ']',
        fuel >= rs.len(),
    ensures
        parse_records_rest(s, i, fuel) == Some((rs, i + render_records_rest(rs).len() + 1)),
    decreases rs.len(),
{
    let w = render_records_rest(rs);
    if rs.len() == 0 {
        assert(s[i] == ']');
    } else {
        let first = render_record(rs[0]);
        let rest = render_records_rest(rs.skip(1));
        assert(w == seq![','] + first + rest);
        assert(s[i] == w[0]);
        assert(s[i] == ',');
        assert(s.subrange(i + 1, i + 1 + first.len()) =~= first) by {
            assert forall|k: int| 0 <= k < first.len() implies s.subrange(
                i + 1,
                i + 1 + first.len(),
            )[k] == first[k] by {
                assert(s[i + 1 + k] == w[1 + k]);
            }
        }
        lemma_parse_record_render(rs[0], s, i + 1);
        let j = i + 1 + first.len();
        assert(s.subrange(j, j + rest.len()) =~= rest) by {
            assert forall|k: int| 0 <= k < rest.len() implies s.subrange(j, j + rest.len())[k]
                == rest[k] by {
                assert(s[j + k] == w[1 + first.len() + k]);
            }
        }
        assert(s[j + rest.len()] == ']');
        lemma_parse_records_rest_render(rs.skip(1), s, j, (fuel - 1) as nat);
        assert(seq![rs[0]] + rs.skip(1) =~= rs);
    }
}

// ---------------------------------------------------------------------------
// The executable parser, proved equal to the specification parser.
// ---------------------------------------------------------------------------
fn p_lit(s: &str, i: usize, lit: &str) -> (r: Option<usize>)
    requires
        i <= s@.len(),
    ensures
        match parse_lit(s@, i as int, lit@) {
            None => r is None,
            Some(j) => r matches Some(jj) && jj == j,
        },
{
    let n = s.unicode_len();
    let m = lit.unicode_len();
    if n - i < m {
        return None;
    }
    let mut k: usize = 0;
    while k < m
        invariant
            k <= m,
            i + m <= n,
            n == s@.len(),
            m == lit@.len(),
            forall|j: int| 0 <= j < k ==> s@[i + j] == lit@[j],
        decreases m - k,
    {
        let cs = s.get_char(i + k);
        let cl = lit.get_char(k);
        if (cs as u32) != (cl as u32) {
            proof {
                assert(s@.subrange(i as int, i + lit@.len())[k as int] != lit@[k as int]);
            }
            return None;
        }
        k = k + 1;
    }
    proof {
        assert(s@.subrange(i as int, i + lit@.len()) =~= lit@);
    }
    Some(i + m)
}

proof fn lemma_digits_val_nonneg(s: Seq<char>, i: int, e: int)
    requires
        forall|j: int| i <= j < e ==> is_digit(#[trigger] s[j]),
    ensures
        digits_val(s, i, e) >= 0,
    decreases e - i,
{
    if i < e {
        lemma_digits_val_nonneg(s, i, e - 1);
    }
}

proof fn lemma_digits_val_mono(s: Seq<char>, i: int, j: int, e: int)
    requires
        i <= j <= e,
        forall|k: int| i <= k < e ==> is_digit(#[trigger] s[k]),
    ensures
        digits_val(s, i, e) >= digits_val(s, i, j),
    decreases e - j,
{
    if j < e {
        lemma_digits_val_mono(s, i, j, e - 1);
        lemma_digits_val_nonneg(s, i, e - 1);
    }
}

fn p_u64(s: &str, i: usize) -> (r: Option<(u64, usize)>)
    requires
        i <= s@.len(),
    ensures
        match parse_u64(s@, i as int) {
            None => r is None,
            Some((v, j)) => r matches Some((vv, jj)) && vv == v && jj == j,
        },
{
    let n = s.unicode_len();
    let mut e: usize = i;
    loop
        invariant
            i <= e <= n,
            n == s@.len(),
            forall|j: int| i <= j < e ==> is_digit(#[trigger] s@[j]),
        ensures
            i <= e <= n,
            forall|j: int| i <= j < e ==> is_digit(#[trigger] s@[j]),
            e == n || !is_digit(s@[e as int]),
        decreases n - e,
    {
        if e >= n {
            break ;
        }
        let c = s.get_char(e) as u32;
        if !(48 <= c && c <= 57) {
            break ;
        }
        e = e + 1;
    }
    proof {
        lemma_digits_end_region(s@, i as int, e as int);
    }
    if e == i {
        return None;
    }
    let mut acc: u64 = 0;
    let mut j: usize = i;
    while j < e
        invariant
            i <= j <= e <= n,
            i < e,
            n == s@.len(),
            digits_end(s@, i as int) == e,
            forall|k: int| i <= k < e ==> is_digit(#[trigger] s@[k]),
            acc as int == digits_val(s@, i as int, j as int),
        decreases e - j,
    {
        let d = (s.get_char(j) as u32) - 48;
        let d64 = d as u64;
        proof {
            assert(d64 as int == digit_val(s@[j as int]));
            assert(digits_val(s@, i as int, j + 1) == digits_val(s@, i as int, j as int) * 10
                + digit_val(s@[j as int]));
        }
        if acc > (u64::MAX - d64) / 10 {
            proof {
                assert(acc as int * 10 + d64 as int > u64::MAX) by {
                    assert(acc as int >= (u64::MAX - d64 as int) / 10 + 1);
                }
                lemma_digits_val_mono(s@, i as int, j + 1, e as int);
                assert(digits_val(s@, i as int, e as int) > u64::MAX);
            }
            return None;
        }
        acc = acc * 10 + d64;
        j = j + 1;
    }
    proof {
        lemma_digits_val_nonneg(s@, i as int, e as int);
    }
    Some((acc, e))
}

fn p_content(s: &str, i: usize) -> (r: Option<(String, usize)>)
    requires
        i <= s@.len(),
    ensures
        match parse_str_content(s@, i as int) {
            None => r is None,
            Some((t, j)) => r matches Some((ts, jj)) && ts@ == t && jj == j,
        },
    decreases s@.len() - i,
{
    let n = s.unicode_len();
    if i >= n {
        return None;
    }
    let c = s.get_char(i);
    if (c as u32) == ('"' as u32) {
        return Some((String::new(), i + 1));
    }
    if (c as u32) == ('\\' as u32) {
        if i + 1 < n {
            let c2 = s.get_char(i + 1);
            if (c2 as u32) == ('"' as u32) || (c2 as u32) == ('\\' as u32) {
                match p_content(s, i + 2) {
                    Some((t, j)) => {
                        let mut out = String::new();
                        out.push(c2);
                        out.append(t.as_str());
                        proof {
                            let ghost spec_t = parse_str_content(s@, i + 2)->Some_0.0;
                            assert(out@ =~= seq![s@[i + 1]] + spec_t);
                        }
                        return Some((out, j));
                    },
                    None => {
                        return None;
                    },
                }
            } else {
                return None;
            }
        } else {
            return None;
        }
    }
    match p_content(s, i + 1) {
        Some((t, j)) => {
            let mut out = String::new();
            out.push(c);
            out.append(t.as_str());
            proof {
                let ghost spec_t = parse_str_content(s@, i + 1)->Some_0.0;
                assert(out@ =~= seq![s@[i as int]] + spec_t);
            }
            Some((out, j))
        },
        None => None,
    }
}

fn p_string(s: &str, i: usize) -> (r: Option<(String, usize)>)
    requires
        i <= s@.len(),
    ensures
        match parse_string(s@, i as int) {
            None => r is None,
            Some((t, j)) => r matches Some((ts, jj)) && ts@ == t && jj == j,
        },
{
    let n = s.unicode_len();
    if i < n {
        let c = s.get_char(i);
        if (c as u32) == ('"' as u32) {
            return p_content(s, i + 1);
        }
    }
    None
}

proof fn lemma_content_bounds(s: Seq<char>, i: int)
    requires
        0 <= i,
    ensures
        parse_str_content(s, i) matches Some((t, j)) ==> i < j <= s.len(),
    decreases s.len() - i,
{
    if 0 <= i < s.len() {
        lemma_content_bounds(s, i + 1);
        if i + 1 < s.len() {
            lemma_content_bounds(s, i + 2);
        }
    }
}

fn p_strings_rest(s: &str, i: usize, fuel: usize) -> (r: Option<(Vec<String>, usize)>)
    requires
        i <= s@.len(),
    ensures
        match parse_strings_rest(s@, i as int, fuel as nat) {
            None => r is None,
            Some((ps, j)) => r matches Some((v, jj)) && v.deep_view() == ps && jj == j,
        },
    decreases fuel,
{
    let n = s.unicode_len();
    if i < n {
        let c = s.get_char(i);
        if (c as u32) == (']' as u32) {
            let v: Vec<String> = Vec::new();
            proof {
                assert(v.deep_view() =~= Seq::<Seq<char>>::empty());
            }
            return Some((v, i + 1));
        }
        if (c as u32) == (',' as u32) && fuel > 0 {
            proof {
                lemma_content_bounds(s@, i + 2);
            }
            match p_string(s, i + 1) {
                Some((p, j)) => {
                    match p_strings_rest(s, j, fuel - 1) {
                        Some((mut v, k)) => {
                            let ghost ps_rest = v.deep_view();
                            let ghost pv = p@;
                            v.insert(0, p);
                            proof {
                                assert(v.deep_view() =~= seq![pv] + ps_rest);
                            }
                            return Some((v, k));
                        },
                        None => {
                            return None;
                        },
                    }
                },
                None => {
                    return None;
                },
            }
        }
    }
    None
}

fn p_strings(s: &str, i: usize, fuel: usize) -> (r: Option<(Vec<String>, usize)>)
    requires
        i <= s@.len(),
    ensures
        match parse_strings(s@, i as int, fuel as nat) {
            None => r is None,
            Some((ps, j)) => r matches Some((v, jj)) && v.deep_view() == ps && jj == j,
        },
{
    let n = s.unicode_len();
    if i < n {
        let c = s.get_char(i);
        if (c as u32) == ('[' as u32) {
            if i + 1 < n {
                let c2 = s.get_char(i + 1);
                if (c2 as u32) == (']' as u32) {
                    let v: Vec<String> = Vec::new();
                    proof {
                        assert(v.deep_view() =~= Seq::<Seq<char>>::empty());
                    }
                    return Some((v, i + 2));
                }
            }
            proof {
                lemma_content_bounds(s@, i + 2);
            }
            match p_string(s, i + 1) {
                Some((p, j)) => {
                    match p_strings_rest(s, j, fuel) {
                        Some((mut v, k)) => {
                            let ghost ps_rest = v.deep_view();
                            let ghost pv = p@;
                            v.insert(0, p);
                            proof {
                                assert(v.deep_view() =~= seq![pv] + ps_rest);
                            }
                            return Some((v, k));
                        },
                        None => {
                            return None;
                        },
                    }
                },
                None => {
                    return None;
                },
            }
        }
    }
    None
}

fn p_method(s: &str, i: usize) -> (r: Option<(DeletionMethod, usize)>)
    requires
        i <= s@.len(),
    ensures
        match parse_method(s@, i as int) {
            None => r is None,
            Some((m, j)) => r matches Some((mm, jj)) && mm == m && jj == j,
        },
{
    match p_lit(s, i, "\"Trash\"") {
        Some(j) => Some((DeletionMethod::Trash, j)),
        None => match p_lit(s, i, "\"Permanent\"") {
            Some(j) => Some((DeletionMethod::Permanent, j)),
            None => None,
        },
    }
}

proof fn lemma_parse_bounds(s: Seq<char>, i: int, fuel: nat)
    requires
        0 <= i,
    ensures
        parse_u64(s, i) matches Some((v, j)) ==> i <= j <= s.len(),
        parse_strings_rest(s, i, fuel) matches Some((ps, j)) ==> i < j <= s.len(),
    decreases fuel,
{
    lemma_digits_end_bounds(s, i);
    if 0 <= i < s.len() && s[i] == ',' && fuel > 0 {
        lemma_content_bounds(s, i + 2);
        match parse_string(s, i + 1) {
            Some((p, j)) => {
                lemma_parse_bounds(s, j, (fuel - 1) as nat);
            },
            None => {},
        }
    }
}

proof fn lemma_digits_end_bounds(s: Seq<char>, i: int)
    requires
        0 <= i,
    ensures
        i <= s.len() ==> i <= digits_end(s, i) <= s.len(),
    decreases s.len() - i,
{
    if 0 <= i < s.len() && is_digit(s[i]) {
        lemma_digits_end_bounds(s, i + 1);
    }
}

fn p_record(s: &str, i: usize) -> (r: Option<(DeletionRecord, usize)>)
    requires
        i <= s@.len(),
    ensures
        match parse_record(s@, i as int) {
            None => r is None,
            Some((rv, j)) => r matches Some((rec, jj)) && rec@ == rv && jj == j,
        },
{
    let n = s.unicode_len();
    let j1 = match p_lit(s, i, "{\"timestamp\":") {
        Some(j) => j,
        None => {
            return None;
        },
    };
    proof {
        lemma_parse_bounds(s@, j1 as int, 0);
    }
    let (ts, j2) = match p_u64(s, j1) {
        Some(x) => x,
        None => {
            return None;
        },
    };
    let j3 = match p_lit(s, j2, ",\"paths\":") {
        Some(j) => j,
        None => {
            return None;
        },
    };
    proof {
        lemma_content_bounds(s@, j3 + 2);
        lemma_parse_bounds(s@, j3 as int, s@.len() as nat);
    }
    let (paths, j4) = match p_strings(s, j3, n) {
        Some(x) => x,
        None => {
            return None;
        },
    };
    proof {
        if parse_strings(s@, j3 as int, s@.len() as nat) matches Some((ps, jj)) {
            lemma_strings_bounds(s@, j3 as int, s@.len() as nat);
        }
    }
    let j5 = match p_lit(s, j4, ",\"total_size\":") {
        Some(j) => j,
        None => {
            return None;
        },
    };
    proof {
        lemma_parse_bounds(s@, j5 as int, 0);
    }
    let (sz, j6) = match p_u64(s, j5) {
        Some(x) => x,
        None => {
            return None;
        },
    };
    let j7 = match p_lit(s, j6, ",\"method\":") {
        Some(j) => j,
        None => {
            return None;
        },
    };
    let (m, j8) = match p_method(s, j7) {
        Some(x) => x,
        None => {
            return None;
        },
    };
    if j8 < n {
        let c = s.get_char(j8);
        if (c as u32) == ('}' as u32) {
            let rec = DeletionRecord { timestamp: ts, paths, total_size: sz, method: m };
            proof {
                let ghost rv = parse_record(s@, i as int)->Some_0.0;
                assert(rec@.paths =~= rv.paths);
            }
            return Some((rec, j8 + 1));
        }
    }
    None
}

proof fn lemma_strings_bounds(s: Seq<char>, i: int, fuel: nat)
    requires
        0 <= i,
    ensures
        parse_strings(s, i, fuel) matches Some((ps, j)) ==> i < j <= s.len(),
{
    if 0 <= i < s.len() && s[i] == '[' {
        lemma_content_bounds(s, i + 2);
        match parse_string(s, i + 1) {
            Some((p, j)) => {
                lemma_parse_bounds(s, j, fuel);
            },
            None => {},
        }
    }
}

fn p_records_rest(s: &str, i: usize, fuel: usize) -> (r: Option<(Vec<DeletionRecord>, usize)>)
    requires
        i <= s@.len(),
    ensures
        match parse_records_rest(s@, i as int, fuel as nat) {
            None => r is None,
            Some((rs, j)) => r matches Some((v, jj)) && records_view(v@) == rs && jj == j,
        },
    decreases fuel,
{
    let n = s.unicode_len();
    if i < n {
        let c = s.get_char(i);
        if (c as u32) == (']' as u32) {
            let v: Vec<DeletionRecord> = Vec::new();
            proof {
                assert(records_view(v@) =~= Seq::<RecordView>::empty());
            }
            return Some((v, i + 1));
        }
        if (c as u32) == (',' as u32) && fuel > 0 {
            match p_record(s, i + 1) {
                Some((rec, j)) => {
                    proof {
                        lemma_record_bounds(s@, i + 1);
                    }
                    match p_records_rest(s, j, fuel - 1) {
                        Some((mut v, k)) => {
                            let ghost rest_view = records_view(v@);
                            let ghost rv = rec@;
                            v.insert(0, rec);
                            proof {
                                assert(records_view(v@) =~= seq![rv] + rest_view);
                            }
                            return Some((v, k));
                        },
                        None => {
                            return None;
                        },
                    }
                },
                None => {
                    return None;
                },
            }
        }
    }
    None
}

proof fn lemma_record_bounds(s: Seq<char>, i: int)
    requires
        0 <= i,
    ensures
        parse_record(s, i) matches Some((rv, j)) ==> i <= j <= s.len(),
{
    match parse_lit(s, i, "{\"timestamp\":"@) {
        None => {},
        Some(j1) => {
            lemma_parse_bounds(s, j1, 0);
            match parse_u64(s, j1) {
                None => {},
                Some((ts, j2)) => {
                    match parse_lit(s, j2, ",\"paths\":"@) {
                        None => {},
                        Some(j3) => {
                            lemma_strings_bounds(s, j3, s.len() as nat);
                            match parse_strings(s, j3, s.len() as nat) {
                                None => {},
                                Some((ps, j4)) => {
                                    match parse_lit(s, j4, ",\"total_size\":"@) {
                                        None => {},
                                        Some(j5) => {
                                            lemma_parse_bounds(s, j5, 0);
                                        },
                                    }
                                },
                            }
                        },
                    }
                },
            }
        },
    }
}

/// Parses the persisted document back into a ledger. Returns `None` for
/// anything that is not exactly a document the writer produces.
pub fn from_json_str(s: &str) -> (r: Option<History>)
    ensures
        match parse_history(s@) {
            None => r is None,
            Some(rvs) => r matches Some(h) && records_view(h.records@) == rvs,
        },
{
    let n = s.unicode_len();
    let j = match p_lit(s, 0, "{\"records\":[") {
        Some(j) => j,
        None => {
            return None;
        },
    };
    let inner: Option<(Vec<DeletionRecord>, usize)> = if j < n && (s.get_char(j) as u32) == (
    ']' as u32) {
        let v: Vec<DeletionRecord> = Vec::new();
        proof {
            assert(records_view(v@) =~= Seq::<RecordView>::empty());
        }
        Some((v, j + 1))
    } else {
        match p_record(s, j) {
            Some((rec, j2)) => {
                proof {
                    lemma_record_bounds(s@, j as int);
                }
                match p_records_rest(s, j2, n) {
                    Some((mut v, k)) => {
                        let ghost rest_view = records_view(v@);
                        let ghost rv = rec@;
                        v.insert(0, rec);
                        proof {
                            assert(records_view(v@) =~= seq![rv] + rest_view);
                        }
                        Some((v, k))
                    },
                    None => None,
                }
            },
            None => None,
        }
    };
    match inner {
        Some((v, k)) => {
            if k < n && (s.get_char(k) as u32) == ('}' as u32) && k + 1 == n {
                Some(History { records: v })
            } else {
                None
            }
        },
        None => None,
    }
}

/// Round-trip at the heart of persistence: parsing a rendered ledger gives
/// back exactly the same sequence of records — timestamps, paths, sizes and
/// methods all preserved — for every sequence of records.
#[verifier::rlimit(100)]
pub proof fn lemma_history_roundtrip(rs: Seq<RecordView>)
    ensures
        parse_history(render_history(rs)) == Some(rs),
{
    reveal_strlit("{\"records\":[");
    reveal_strlit("]}");
    let s = render_history(rs);
    let lit = "{\"records\":["@;
    let tail = "]}"@;
    assert(tail.len() == 2 && tail[0] == ']' && tail[1] == '}');
    if rs.len() == 0 {
        assert(s == lit + tail);
        assert(s.subrange(0, lit.len() as int) =~= lit);
        assert(parse_lit(s, 0, lit) == Some(lit.len() as int));
        assert(s[lit.len() as int] == ']');
        assert(s[lit.len() as int + 1] == '}');
    } else {
        lemma_history_roundtrip_nonempty(rs);
    }
}

#[verifier::rlimit(100)]
proof fn lemma_history_layout(rs: Seq<RecordView>)
    requires
        rs.len() > 0,
    ensures
        ({
            let s = render_history(rs);
            let lit = "{\"records\":["@;
            let first = render_record(rs[0]);
            let rest = render_records_rest(rs.skip(1));
            let j = lit.len() as int;
            let j2 = j + first.len() as int;
            &&& s.len() == lit.len() + first.len() + rest.len() + 2
            &&& s.subrange(0, j) == lit
            &&& s.subrange(j, j2) == first
            &&& s.subrange(j2, j2 + rest.len() as int) == rest
            &&& s[j2 + rest.len() as int] == ']'
            &&& s[j2 + rest.len() as int + 1] == '}'
        }),
{
    reveal_strlit("{\"records\":[");
    reveal_strlit("]}");
    let s = render_history(rs);
    let lit = "{\"records\":["@;
    let tail = "]}"@;
    assert(tail.len() == 2 && tail[0] == ']' && tail[1] == '}');
    let first = render_record(rs[0]);
    let rest = render_records_rest(rs.skip(1));
    assert(s == lit + first + rest + tail);
    lemma_piece(s, Seq::<char>::empty(), lit, first + rest + tail);
    lemma_piece(s, lit, first, rest + tail);
    lemma_piece(s, lit + first, rest, tail);
    lemma_piece(s, lit + first + rest, tail, Seq::<char>::empty());
    let t0 = (lit + first + rest).len() as int;
    assert(s[t0 + 0] == tail[0]);
    assert(s[t0 + 1] == tail[1]);
}

#[verifier::rlimit(100)]
proof fn lemma_history_roundtrip_nonempty(rs: Seq<RecordView>)
    requires
        rs.len() > 0,
    ensures
        parse_history(render_history(rs)) == Some(rs),
{
    reveal_strlit("{\"records\":[");
    reveal_strlit("{\"timestamp\":");
    let s = render_history(rs);
    let lit = "{\"records\":["@;
    let first = render_record(rs[0]);
    let rest = render_records_rest(rs.skip(1));
    lemma_history_layout(rs);
    assert(parse_lit(s, 0, lit) == Some(lit.len() as int));
    let j = lit.len() as int;
    lemma_parse_record_render(rs[0], s, j);
    assert(s[j] == s.subrange(j, j + first.len() as int)[0]);
    assert(s[j] == first[0]);
    assert(first[0] == "{\"timestamp\":"@[0]);
    assert(s[j] == '{');
    let j2 = j + first.len();
    assert(s[j2 + rest.len()] == ']');
    lemma_render_records_rest_len(rs.skip(1));
    lemma_parse_records_rest_render(rs.skip(1), s, j2, s.len() as nat);
    let k = j2 + rest.len() + 1;
    assert(s[k] == '}');
    assert(k + 1 == s.len());
    assert(seq![rs[0]] + rs.skip(1) =~= rs);
}

proof fn lemma_piece(s: Seq<char>, pre: Seq<char>, mid: Seq<char>, post: Seq<char>)
    requires
        s =~= pre + mid + post,
    ensures
        s.subrange(pre.len() as int, pre.len() as int + mid.len() as int) == mid,
        forall|k: int|
            0 <= k < mid.len() ==> #[trigger] s[pre.len() as int + k] == mid[k],
{
    let a = pre.len() as int;
    let b = mid.len() as int;
    assert(s.subrange(a, a + b) =~= mid);
    assert forall|k: int| 0 <= k < b implies #[trigger] s[a + k] == mid[k] by {
        assert(s.subrange(a, a + b)[k] == mid[k]);
    }
}

} // verus!
