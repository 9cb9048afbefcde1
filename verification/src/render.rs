//! The exposition renderer and its matching reader.
//!
//! A record renders as `name{key="value", key2="value2"} value`, with empty
//! braces for label-less records; records are separated by single newlines
//! and no newline follows the last one. An empty snapshot renders as the
//! empty body. The reader parses that exact format back; rendering then
//! reading recovers every well-formed record unchanged.

use vstd::prelude::*;
use crate::text::{
    TrimSet, in_set, is_digit, trim_start, trim_end, spec_trim, spec_split, spec_split_rec,
    spec_join, split, join, copy_range, append_chars,
};
use crate::value::comma_to_dot;
use crate::value::{Value, ValueView, spec_decimal, spec_render_value, parse_value, render_value};
use crate::record::{
    MetricName, MetricRecord, RecordView, Label, LabelView, spec_name_str, spec_name_of,
    name_chars, parse_name,
};
use crate::parsers::rec_views;

verus! {

/// One rendered label pair: `key="value"`.
pub open spec fn spec_render_label(l: LabelView) -> Seq<char> {
    l.key + seq!['=', '"'] + l.value + seq!['"']
}

/// The rendered label list: pairs joined with a comma and a space.
pub open spec fn spec_render_labels(ls: Seq<LabelView>) -> Seq<char>
    decreases ls.len(),
{
    if ls.len() == 0 {
        Seq::empty()
    } else if ls.len() == 1 {
        spec_render_label(ls[0])
    } else {
        spec_render_label(ls[0]) + seq![',', ' '] + spec_render_labels(ls.skip(1))
    }
}

/// One rendered record line: the name, the braced label list, a space, and
/// the value.
pub open spec fn spec_render_record(r: RecordView) -> Seq<char> {
    spec_name_str(r.name) + seq!['{'] + spec_render_labels(r.labels) + seq!['}', ' ']
        + spec_render_value(r.value)
}

/// The rendered lines of a snapshot, one per record, in order.
pub open spec fn spec_record_lines(rs: Seq<RecordView>) -> Seq<Seq<char>> {
    rs.map_values(|r: RecordView| spec_render_record(r))
}

/// The rendered snapshot: one line per record, separated by newlines, no
/// trailing newline; an empty snapshot is the empty body.
pub open spec fn spec_render(rs: Seq<RecordView>) -> Seq<char> {
    spec_join(spec_record_lines(rs), '\n')
}

/// Render the label list of one record.
pub fn render_labels(ls: &Vec<Label>) -> (r: Vec<char>)
    ensures
        r@ == spec_render_labels(ls@.map_values(|l: Label| l@)),
{
    let ghost full = ls@.map_values(|l: Label| l@);
    let mut out: Vec<char> = Vec::new();
    let mut i: usize = 0;
    proof {
        assert(full.skip(0) =~= full);
    }
    while i < ls.len()
        invariant
            0 <= i <= ls.len(),
            full == ls@.map_values(|l: Label| l@),
            i == 0 ==> out@ == Seq::<char>::empty(),
            i == 0 ==> spec_render_labels(full) == spec_render_labels(full.skip(i as int)),
            i > 0 ==> spec_render_labels(full) == out@ + (
                if i < ls.len() { seq![',', ' '] + spec_render_labels(full.skip(i as int)) }
                else { Seq::<char>::empty() }
            ),
        decreases ls.len() - i,
    {
        let ghost pre = out@;
        let ghost li = full[i as int];
        proof {
            assert(full.skip(i as int)[0] == li);
            assert(full.skip(i as int).skip(1) =~= full.skip(i as int + 1));
            assert(full.skip(i as int).len() == ls.len() - i);
        }
        if i > 0 {
            out.push(',');
            out.push(' ');
        }
        append_chars(&mut out, &ls[i].key);
        out.push('=');
        out.push('"');
        append_chars(&mut out, &ls[i].value);
        out.push('"');
        proof {
            assert(ls@[i as int]@ == li);
            if i == 0 {
                assert(out@ =~= spec_render_label(li));
                if i + 1 < ls.len() {
                    assert(spec_render_labels(full.skip(0))
                        == spec_render_label(li) + seq![',', ' '] + spec_render_labels(full.skip(1)));
                    assert(spec_render_label(li) + seq![',', ' '] + spec_render_labels(full.skip(1))
                        =~= out@ + (seq![',', ' '] + spec_render_labels(full.skip(1))));
                } else {
                    assert(spec_render_labels(full.skip(0)) == spec_render_label(li));
                }
            } else {
                assert(out@ =~= pre + seq![',', ' '] + spec_render_label(li));
                if i + 1 < ls.len() {
                    assert(spec_render_labels(full.skip(i as int))
                        == spec_render_label(li) + seq![',', ' '] + spec_render_labels(full.skip(i as int + 1)));
                    assert(pre + (seq![',', ' '] + (spec_render_label(li) + seq![',', ' ']
                            + spec_render_labels(full.skip(i as int + 1))))
                        =~= out@ + (seq![',', ' '] + spec_render_labels(full.skip(i as int + 1))));
                } else {
                    assert(spec_render_labels(full.skip(i as int)) == spec_render_label(li));
                    assert(pre + (seq![',', ' '] + spec_render_label(li)) =~= out@);
                }
            }
        }
        i = i + 1;
    }
    proof {
        if ls.len() == 0 {
            assert(spec_render_labels(full) == Seq::<char>::empty());
        }
        assert(out@ =~= spec_render_labels(full));
    }
    out
}

/// Render one record as its exposition line.
pub fn render_record(r: &MetricRecord) -> (out: Vec<char>)
    ensures
        out@ == spec_render_record(r@),
{
    let mut out = name_chars(r.name);
    out.push('{');
    let labels = render_labels(&r.labels);
    append_chars(&mut out, &labels);
    out.push('}');
    out.push(' ');
    let v = render_value(&r.value);
    append_chars(&mut out, &v);
    proof {
        assert(out@ =~= spec_render_record(r@));
    }
    out
}

/// Render a whole snapshot in the exposition format.
pub fn render_snapshot(records: &Vec<MetricRecord>) -> (out: Vec<char>)
    ensures
        out@ == spec_render(rec_views(records@)),
{
    let ghost target = spec_record_lines(rec_views(records@));
    let mut lines: Vec<Vec<char>> = Vec::new();
    let mut i: usize = 0;
    while i < records.len()
        invariant
            0 <= i <= records.len(),
            target == spec_record_lines(rec_views(records@)),
            lines@.len() == i,
            forall|k: int| 0 <= k < i ==> lines@[k]@ == target[k],
        decreases records.len() - i,
    {
        let line = render_record(&records[i]);
        lines.push(line);
        i = i + 1;
    }
    proof {
        assert(lines.deep_view() =~~= target);
    }
    join(&lines, '\n')
}

/// The index of the first occurrence of `c` in `s`, or `-1`.
pub open spec fn find_first(s: Seq<char>, c: char) -> int
    decreases s.len(),
{
    if s.len() == 0 {
        -1
    } else if s[0] == c {
        0
    } else {
        let r = find_first(s.skip(1), c);
        if r < 0 { -1 } else { r + 1 }
    }
}

/// The index of the last occurrence of `c` in `s`, or `-1`.
pub open spec fn find_last(s: Seq<char>, c: char) -> int
    decreases s.len(),
{
    if s.len() == 0 {
        -1
    } else if s.last() == c {
        s.len() - 1
    } else {
        find_last(s.drop_last(), c)
    }
}

/// What `find_first` returns: `-1` exactly when `c` does not occur, else
/// the first index holding `c`.
pub proof fn lemma_find_first_props(s: Seq<char>, c: char)
    ensures
        find_first(s, c) == -1 <==> !s.contains(c),
        find_first(s, c) != -1 ==> 0 <= find_first(s, c) < s.len() && s[find_first(s, c)] == c
            && forall|k: int| 0 <= k < find_first(s, c) ==> s[k] != c,
    decreases s.len(),
{
    if s.len() == 0 {
    } else if s[0] == c {
        assert(s.contains(c));
    } else {
        lemma_find_first_props(s.skip(1), c);
        let r = find_first(s.skip(1), c);
        if r < 0 {
            assert forall|k: int| 0 <= k < s.len() implies s[k] != c by {
                if k > 0 {
                    assert(s.skip(1)[k - 1] == s[k]);
                    assert(!s.skip(1).contains(c));
                }
            }
        } else {
            assert(s.skip(1)[r] == s[r + 1]);
            assert forall|k: int| 0 <= k < r + 1 implies s[k] != c by {
                if k > 0 {
                    assert(s.skip(1)[k - 1] == s[k]);
                }
            }
            assert(s.contains(c));
        }
        if !s.contains(c) && r >= 0 {
            assert(s[r + 1] == c);
        }
        if s.contains(c) && r < 0 {
            let w = choose|i: int| 0 <= i < s.len() && s[i] == c;
            assert(w > 0);
            assert(s.skip(1)[w - 1] == c);
            assert(s.skip(1).contains(c));
        }
    }
}

/// The first occurrence of `c` in `a + [c] + b` is at `a.len()` when `a`
/// does not contain `c`.
pub proof fn lemma_find_first_concat(a: Seq<char>, b: Seq<char>, c: char)
    requires
        !a.contains(c),
    ensures
        find_first(a + seq![c] + b, c) == a.len(),
    decreases a.len(),
{
    let s = a + seq![c] + b;
    if a.len() == 0 {
        assert(s[0] == c);
    } else {
        assert(s[0] == a[0]);
        if a[0] == c {
            assert(a.contains(c));
        }
        assert(!a.skip(1).contains(c)) by {
            if a.skip(1).contains(c) {
                let w = choose|i: int| 0 <= i < a.skip(1).len() && a.skip(1)[i] == c;
                assert(a[w + 1] == c);
                assert(a.contains(c));
            }
        }
        lemma_find_first_concat(a.skip(1), b, c);
        assert(s.skip(1) =~= a.skip(1) + seq![c] + b);
    }
}

/// The last occurrence of `c` in `a + [c] + b` is at `a.len()` when `b`
/// does not contain `c`.
pub proof fn lemma_find_last_concat(a: Seq<char>, b: Seq<char>, c: char)
    requires
        !b.contains(c),
    ensures
        find_last(a + seq![c] + b, c) == a.len(),
    decreases b.len(),
{
    let s = a + seq![c] + b;
    if b.len() == 0 {
        assert(s.last() == c);
        assert(s.len() - 1 == a.len());
    } else {
        assert(s.last() == b.last());
        if b.last() == c {
            assert(b.contains(c));
        }
        assert(!b.drop_last().contains(c)) by {
            if b.drop_last().contains(c) {
                let w = choose|i: int| 0 <= i < b.drop_last().len() && b.drop_last()[i] == c;
                assert(b[w] == c);
                assert(b.contains(c));
            }
        }
        lemma_find_last_concat(a, b.drop_last(), c);
        assert(s.drop_last() =~= a + seq![c] + b.drop_last());
    }
}

/// Splitting a sequence free of the separator yields one token.
pub proof fn lemma_split_rec_no_sep(s: Seq<char>, sep: char, cur: Seq<char>)
    requires
        !s.contains(sep),
    ensures
        spec_split_rec(s, sep, cur) == seq![cur + s],
    decreases s.len(),
{
    if s.len() == 0 {
        assert(cur + s =~= cur);
    } else {
        if s[0] == sep {
            assert(s.contains(sep));
        }
        assert(!s.skip(1).contains(sep)) by {
            if s.skip(1).contains(sep) {
                let w = choose|i: int| 0 <= i < s.skip(1).len() && s.skip(1)[i] == sep;
                assert(s[w + 1] == sep);
                assert(s.contains(sep));
            }
        }
        lemma_split_rec_no_sep(s.skip(1), sep, cur.push(s[0]));
        assert(cur.push(s[0]) + s.skip(1) =~= cur + s);
    }
}

/// Splitting `a + [sep] + b` when `a` is free of the separator yields the
/// token `cur + a` and then the tokens of `b`.
pub proof fn lemma_split_rec_concat(a: Seq<char>, b: Seq<char>, sep: char, cur: Seq<char>)
    requires
        !a.contains(sep),
    ensures
        spec_split_rec(a + seq![sep] + b, sep, cur)
            == seq![cur + a] + spec_split_rec(b, sep, Seq::empty()),
    decreases a.len(),
{
    let s = a + seq![sep] + b;
    if a.len() == 0 {
        assert(s[0] == sep);
        assert(s.skip(1) =~= b);
        assert(cur + a =~= cur);
    } else {
        assert(s[0] == a[0]);
        if a[0] == sep {
            assert(a.contains(sep));
        }
        assert(!a.skip(1).contains(sep)) by {
            if a.skip(1).contains(sep) {
                let w = choose|i: int| 0 <= i < a.skip(1).len() && a.skip(1)[i] == sep;
                assert(a[w + 1] == sep);
                assert(a.contains(sep));
            }
        }
        lemma_split_rec_concat(a.skip(1), b, sep, cur.push(a[0]));
        assert(s.skip(1) =~= a.skip(1) + seq![sep] + b);
        assert(cur.push(a[0]) + a.skip(1) =~= cur + a);
    }
}

/// Splitting undoes joining when no token contains the separator.
pub proof fn lemma_split_join(ts: Seq<Seq<char>>, sep: char)
    requires
        ts.len() >= 1,
        forall|i: int| 0 <= i < ts.len() ==> !(#[trigger] ts[i]).contains(sep),
    ensures
        spec_split(spec_join(ts, sep), sep) == ts,
    decreases ts.len(),
{
    if ts.len() == 1 {
        lemma_split_rec_no_sep(ts[0], sep, Seq::empty());
        assert(Seq::<char>::empty() + ts[0] =~= ts[0]);
        assert(seq![ts[0]] =~= ts);
    } else {
        assert(spec_join(ts, sep) == ts[0] + seq![sep] + spec_join(ts.skip(1), sep));
        lemma_split_rec_concat(ts[0], spec_join(ts.skip(1), sep), sep, Seq::empty());
        assert(forall|i: int| 0 <= i < ts.skip(1).len() ==> !(#[trigger] ts.skip(1)[i]).contains(sep));
        lemma_split_join(ts.skip(1), sep);
        assert(Seq::<char>::empty() + ts[0] =~= ts[0]);
        assert(seq![ts[0]] + ts.skip(1) =~= ts);
    }
}

/// A well-formed value's rendering parses back to the same value.
pub proof fn lemma_value_round_trip(v: ValueView)
    requires
        v.wf(),
    ensures
        spec_decimal(spec_render_value(v)) == Some(v),
{
    let t = spec_render_value(v);
    assert(t[0] == v.int_part[0]);
    assert(is_digit(t[0]));
    assert(!in_set(TrimSet::Ws, t[0]));
    assert(trim_start(TrimSet::Ws, t) == t);
    if v.frac_part.len() > 0 {
        assert(t.last() == v.frac_part.last());
        assert(is_digit(t.last()));
    } else {
        assert(t.last() == v.int_part.last());
        assert(is_digit(t.last()));
    }
    assert(!in_set(TrimSet::Ws, t.last()));
    assert(trim_end(TrimSet::Ws, t) == t);
    assert(spec_trim(TrimSet::Ws, t) == t);
    assert forall|i: int| 0 <= i < t.len() implies t[i] != ',' by {
        if v.frac_part.len() > 0 {
            if i < v.int_part.len() {
                assert(t[i] == v.int_part[i]);
            } else if i == v.int_part.len() {
                assert(t[i] == '.');
            } else {
                assert(t[i] == v.frac_part[i - v.int_part.len() - 1]);
            }
        } else {
            assert(t[i] == v.int_part[i]);
        }
    }
    assert(comma_to_dot(t) =~= t);
    assert(!v.int_part.contains('.')) by {
        if v.int_part.contains('.') {
            let w = choose|i: int| 0 <= i < v.int_part.len() && v.int_part[i] == '.';
            assert(is_digit(v.int_part[w]));
        }
    }
    if v.frac_part.len() == 0 {
        lemma_split_rec_no_sep(t, '.', Seq::empty());
        assert(Seq::<char>::empty() + t =~= t);
        assert(spec_split(t, '.') == seq![t]);
        assert(spec_decimal(t) == Some(ValueView { int_part: t, frac_part: Seq::empty() }));
        assert(ValueView { int_part: t, frac_part: Seq::empty() } == v);
    } else {
        assert(!v.frac_part.contains('.')) by {
            if v.frac_part.contains('.') {
                let w = choose|i: int| 0 <= i < v.frac_part.len() && v.frac_part[i] == '.';
                assert(is_digit(v.frac_part[w]));
            }
        }
        lemma_split_rec_concat(v.int_part, v.frac_part, '.', Seq::empty());
        lemma_split_rec_no_sep(v.frac_part, '.', Seq::empty());
        assert(Seq::<char>::empty() + v.int_part =~= v.int_part);
        assert(Seq::<char>::empty() + v.frac_part =~= v.frac_part);
        assert(spec_split(t, '.') == seq![v.int_part] + seq![v.frac_part]);
        assert((seq![v.int_part] + seq![v.frac_part]).len() == 2);
        assert((seq![v.int_part] + seq![v.frac_part])[0] == v.int_part);
        assert((seq![v.int_part] + seq![v.frac_part])[1] == v.frac_part);
        assert(spec_decimal(t) == Some(ValueView { int_part: v.int_part, frac_part: v.frac_part }));
        assert(ValueView { int_part: v.int_part, frac_part: v.frac_part } == v);
    }
}

/// A label the rendering of which is unambiguous: no quote or newline
/// anywhere, and no equals sign in the key.
pub open spec fn wf_label(l: LabelView) -> bool {
    !l.key.contains('=') && !l.key.contains('"') && !l.key.contains('\n')
        && !l.value.contains('"') && !l.value.contains('\n')
}

/// A record the rendering of which is unambiguous: a well-formed value and
/// well-formed labels. Every record the parsers produce from newline-split
/// lines is of this shape.
pub open spec fn wf_record(r: RecordView) -> bool {
    r.value.wf() && (forall|i: int| 0 <= i < r.labels.len() ==> wf_label(#[trigger] r.labels[i]))
}

/// The labels read back from a rendered label list: `key="value"` pairs
/// separated by a comma and a space, or nothing for an unreadable list.
pub open spec fn spec_parse_labels(s: Seq<char>) -> Option<Seq<LabelView>>
    decreases s.len(),
{
    if s.len() == 0 {
        Some(Seq::empty())
    } else {
        let e = find_first(s, '=');
        if e < 0 || e + 2 > s.len() || s[e + 1] != '"' {
            None
        } else {
            let key = s.take(e);
            let rest1 = s.skip(e + 2);
            let q = find_first(rest1, '"');
            if q < 0 || q + 1 > rest1.len() {
                None
            } else {
                let value = rest1.take(q);
                let after = rest1.skip(q + 1);
                if after.len() == 0 {
                    Some(seq![LabelView { key, value }])
                } else if after.len() >= 2 && after[0] == ',' && after[1] == ' ' {
                    match spec_parse_labels(after.skip(2)) {
                        Some(rest) => Some(seq![LabelView { key, value }] + rest),
                        None => None,
                    }
                } else {
                    None
                }
            }
        }
    }
}

/// The record read back from one rendered line: the name before the first
/// `{`, the labels inside the braces up to the last `}`, and the value after
/// the space that follows it.
pub open spec fn spec_parse_record(line: Seq<char>) -> Option<RecordView> {
    let ob = find_first(line, '{');
    if ob < 0 {
        None
    } else {
        match spec_name_of(line.take(ob)) {
            None => None,
            Some(name) => {
                let cb = find_last(line, '}');
                if cb < ob + 1 || cb + 2 > line.len() || line[cb + 1] != ' ' {
                    None
                } else {
                    match (spec_parse_labels(line.subrange(ob + 1, cb)), spec_decimal(line.skip(cb + 2))) {
                        (Some(ls), Some(v)) => Some(RecordView { name, labels: ls, value: v }),
                        _ => None,
                    }
                }
            },
        }
    }
}

/// The records read back from the rendered lines, or nothing if any line is
/// unreadable.
pub open spec fn spec_parse_lines(lines: Seq<Seq<char>>) -> Option<Seq<RecordView>>
    decreases lines.len(),
{
    if lines.len() == 0 {
        Some(Seq::empty())
    } else {
        match (spec_parse_record(lines[0]), spec_parse_lines(lines.skip(1))) {
            (Some(r), Some(rest)) => Some(seq![r] + rest),
            _ => None,
        }
    }
}

/// The snapshot read back from a rendered body: the empty body is the empty
/// snapshot, any other body is its newline-split lines read record by record.
pub open spec fn spec_parse_exposition(text: Seq<char>) -> Option<Seq<RecordView>> {
    if text.len() == 0 {
        Some(Seq::empty())
    } else {
        spec_parse_lines(spec_split(text, '\n'))
    }
}

/// A well-formed label list's rendering parses back to the same labels.
pub proof fn lemma_labels_round_trip(ls: Seq<LabelView>)
    requires
        forall|i: int| 0 <= i < ls.len() ==> wf_label(#[trigger] ls[i]),
    ensures
        spec_parse_labels(spec_render_labels(ls)) == Some(ls),
    decreases ls.len(),
{
    if ls.len() == 0 {
        assert(spec_render_labels(ls) == Seq::<char>::empty());
    } else {
        let l0 = ls[0];
        assert(wf_label(l0));
        let ghost tail: Seq<char> = if ls.len() == 1 { Seq::empty() }
            else { seq![',', ' '] + spec_render_labels(ls.skip(1)) };
        let s = spec_render_labels(ls);
        assert(s =~= l0.key + seq!['='] + (seq!['"'] + l0.value + seq!['"'] + tail));
        lemma_find_first_concat(l0.key, seq!['"'] + l0.value + seq!['"'] + tail, '=');
        let e = find_first(s, '=');
        assert(e == l0.key.len());
        assert(s.len() == l0.key.len() + 3 + l0.value.len() + tail.len());
        assert(s[e + 1] == '"');
        assert(s.take(e) =~= l0.key);
        let rest1 = s.skip(e + 2);
        assert(rest1 =~= l0.value + seq!['"'] + tail);
        lemma_find_first_concat(l0.value, tail, '"');
        let q = find_first(rest1, '"');
        assert(q == l0.value.len());
        assert(rest1.take(q) =~= l0.value);
        let after = rest1.skip(q + 1);
        assert(after =~= tail);
        assert((LabelView { key: s.take(e), value: rest1.take(q) }) == l0);
        if ls.len() == 1 {
            assert(after.len() == 0);
            assert(spec_parse_labels(s) == Some(seq![l0]));
            assert(seq![l0] =~= ls);
        } else {
            assert(after[0] == ',');
            assert(after[1] == ' ');
            assert(after.skip(2) =~= spec_render_labels(ls.skip(1)));
            assert(forall|i: int| 0 <= i < ls.skip(1).len() ==> wf_label(#[trigger] ls.skip(1)[i])) by {
                assert(forall|i: int| 0 <= i < ls.skip(1).len() ==> ls.skip(1)[i] == ls[i + 1]);
            }
            lemma_labels_round_trip(ls.skip(1));
            assert(spec_parse_labels(s) == Some(seq![l0] + ls.skip(1)));
            assert(seq![l0] + ls.skip(1) =~= ls);
        }
    }
}

/// Every wire identifier is non-empty and free of braces and newlines.
pub proof fn lemma_name_clean(n: MetricName)
    ensures
        spec_name_str(n).len() > 0,
        !spec_name_str(n).contains('{'),
        !spec_name_str(n).contains('\n'),
{
    reveal_strlit("cpu_user");
    reveal_strlit("cpu_idle");
    reveal_strlit("cpu_system");
    reveal_strlit("cpu_nice");
    reveal_strlit("mem_total");
    reveal_strlit("mem_free");
    reveal_strlit("mem_used");
    reveal_strlit("mem_buffered");
    reveal_strlit("proc_cpu");
    reveal_strlit("proc_mem");
    reveal_strlit("netstat_info");
}

/// A well-formed value's rendering contains neither newline nor brace.
pub proof fn lemma_value_clean(v: ValueView)
    requires
        v.wf(),
    ensures
        forall|i: int| 0 <= i < spec_render_value(v).len()
            ==> #[trigger] spec_render_value(v)[i] != '\n' && spec_render_value(v)[i] != '}',
{
    let t = spec_render_value(v);
    assert forall|i: int| 0 <= i < t.len() implies t[i] != '\n' && t[i] != '}' by {
        if v.frac_part.len() > 0 {
            if i < v.int_part.len() {
                assert(t[i] == v.int_part[i]);
                assert(is_digit(t[i]));
            } else if i == v.int_part.len() {
                assert(t[i] == '.');
            } else {
                assert(t[i] == v.frac_part[i - v.int_part.len() - 1]);
                assert(is_digit(t[i]));
            }
        } else {
            assert(t[i] == v.int_part[i]);
            assert(is_digit(t[i]));
        }
    }
}

/// A well-formed label list's rendering contains no newline.
pub proof fn lemma_labels_clean(ls: Seq<LabelView>)
    requires
        forall|i: int| 0 <= i < ls.len() ==> wf_label(#[trigger] ls[i]),
    ensures
        !spec_render_labels(ls).contains('\n'),
    decreases ls.len(),
{
    if ls.len() == 0 {
        if spec_render_labels(ls).contains('\n') {
            let w = choose|i: int| 0 <= i < spec_render_labels(ls).len()
                && spec_render_labels(ls)[i] == '\n';
        }
    } else {
        let l0 = ls[0];
        let p0 = spec_render_label(l0);
        assert(!p0.contains('\n')) by {
            if p0.contains('\n') {
                let w = choose|i: int| 0 <= i < p0.len() && p0[i] == '\n';
                if w < l0.key.len() {
                    assert(p0[w] == l0.key[w]);
                    assert(l0.key.contains('\n'));
                } else if w < l0.key.len() + 2 {
                } else if w < l0.key.len() + 2 + l0.value.len() {
                    assert(p0[w] == l0.value[w - l0.key.len() - 2]);
                    assert(l0.value.contains('\n'));
                } else {
                    assert(p0[w] == '"');
                }
            }
        }
        if ls.len() == 1 {
            assert(spec_render_labels(ls) == p0);
        } else {
            assert(forall|i: int| 0 <= i < ls.skip(1).len() ==> wf_label(#[trigger] ls.skip(1)[i])) by {
                assert(forall|i: int| 0 <= i < ls.skip(1).len() ==> ls.skip(1)[i] == ls[i + 1]);
            }
            lemma_labels_clean(ls.skip(1));
            let rest = spec_render_labels(ls.skip(1));
            let s = spec_render_labels(ls);
            assert(s == p0 + seq![',', ' '] + rest);
            if s.contains('\n') {
                let w = choose|i: int| 0 <= i < s.len() && s[i] == '\n';
                if w < p0.len() {
                    assert(s[w] == p0[w]);
                    assert(p0.contains('\n'));
                } else if w < p0.len() + 2 {
                    assert(s[w] == seq![',', ' '][w - p0.len()]);
                } else {
                    assert(s[w] == rest[w - p0.len() - 2]);
                    assert(rest.contains('\n'));
                }
            }
        }
    }
}

/// A well-formed record's rendered line is non-empty and free of newlines.
pub proof fn lemma_record_clean(r: RecordView)
    requires
        wf_record(r),
    ensures
        spec_render_record(r).len() > 0,
        !spec_render_record(r).contains('\n'),
{
    let name = spec_name_str(r.name);
    let labels = spec_render_labels(r.labels);
    let v = spec_render_value(r.value);
    let line = spec_render_record(r);
    lemma_name_clean(r.name);
    lemma_labels_clean(r.labels);
    lemma_value_clean(r.value);
    assert(line.len() == name.len() + 1 + labels.len() + 2 + v.len());
    if line.contains('\n') {
        let w = choose|i: int| 0 <= i < line.len() && line[i] == '\n';
        if w < name.len() {
            assert(line[w] == name[w]);
            assert(name.contains('\n'));
        } else if w == name.len() {
            assert(line[w] == '{');
        } else if w < name.len() + 1 + labels.len() {
            assert(line[w] == labels[w - name.len() - 1]);
            assert(labels.contains('\n'));
        } else if w < name.len() + 1 + labels.len() + 2 {
            assert(line[w] == seq!['}', ' '][w - name.len() - 1 - labels.len()]);
        } else {
            assert(line[w] == v[w - name.len() - 3 - labels.len()]);
        }
    }
}

/// A well-formed record's rendered line reads back as the same record.
pub proof fn lemma_record_round_trip(r: RecordView)
    requires
        wf_record(r),
    ensures
        spec_parse_record(spec_render_record(r)) == Some(r),
{
    let name = spec_name_str(r.name);
    let labels = spec_render_labels(r.labels);
    let v = spec_render_value(r.value);
    let line = spec_render_record(r);
    lemma_name_clean(r.name);
    lemma_value_clean(r.value);
    assert(line =~= name + seq!['{'] + (labels + seq!['}', ' '] + v));
    lemma_find_first_concat(name, labels + seq!['}', ' '] + v, '{');
    let ob = find_first(line, '{');
    assert(ob == name.len());
    assert(line.take(ob) =~= name);
    crate::record::lemma_name_round_trip(r.name);
    assert(spec_name_of(line.take(ob)) == Some(r.name));
    assert(line =~= (name + seq!['{'] + labels) + seq!['}'] + (seq![' '] + v));
    assert(!(seq![' '] + v).contains('}')) by {
        if (seq![' '] + v).contains('}') {
            let w = choose|i: int| 0 <= i < (seq![' '] + v).len() && (seq![' '] + v)[i] == '}';
            if w == 0 {
                assert((seq![' '] + v)[0] == ' ');
            } else {
                assert((seq![' '] + v)[w] == v[w - 1]);
            }
        }
    }
    lemma_find_last_concat(name + seq!['{'] + labels, seq![' '] + v, '}');
    let cb = find_last(line, '}');
    assert(cb == name.len() + 1 + labels.len());
    assert(cb >= ob + 1);
    assert(cb + 2 <= line.len());
    assert(line[cb + 1] == ' ');
    assert(line.subrange(ob + 1, cb) =~= labels);
    assert(line.skip(cb + 2) =~= v);
    lemma_labels_round_trip(r.labels);
    lemma_value_round_trip(r.value);
    assert(spec_parse_labels(line.subrange(ob + 1, cb)) == Some(r.labels));
    assert(spec_decimal(line.skip(cb + 2)) == Some(r.value));
    assert((RecordView { name: r.name, labels: r.labels, value: r.value }) == r);
}

/// The rendered lines of well-formed records read back as those records.
pub proof fn lemma_lines_round_trip(rs: Seq<RecordView>)
    requires
        forall|i: int| 0 <= i < rs.len() ==> wf_record(#[trigger] rs[i]),
    ensures
        spec_parse_lines(spec_record_lines(rs)) == Some(rs),
    decreases rs.len(),
{
    let lines = spec_record_lines(rs);
    if rs.len() == 0 {
        assert(lines =~= Seq::<Seq<char>>::empty());
    } else {
        assert(lines[0] == spec_render_record(rs[0]));
        lemma_record_round_trip(rs[0]);
        assert(forall|i: int| 0 <= i < rs.skip(1).len() ==> wf_record(#[trigger] rs.skip(1)[i])) by {
            assert(forall|i: int| 0 <= i < rs.skip(1).len() ==> rs.skip(1)[i] == rs[i + 1]);
        }
        lemma_lines_round_trip(rs.skip(1));
        assert(lines.skip(1) =~= spec_record_lines(rs.skip(1)));
        assert(spec_parse_lines(lines) == Some(seq![rs[0]] + rs.skip(1)));
        assert(seq![rs[0]] + rs.skip(1) =~= rs);
    }
}

/// Round trip: rendering a snapshot of well-formed records and reading the
/// rendered body back recovers every record's name, labels and value
/// exactly, in order.
pub proof fn lemma_exposition_round_trip(rs: Seq<RecordView>)
    requires
        forall|i: int| 0 <= i < rs.len() ==> wf_record(#[trigger] rs[i]),
    ensures
        spec_parse_exposition(spec_render(rs)) == Some(rs),
{
    let lines = spec_record_lines(rs);
    let text = spec_render(rs);
    if rs.len() == 0 {
        assert(lines =~= Seq::<Seq<char>>::empty());
        assert(text == Seq::<char>::empty());
    } else {
        assert forall|i: int| 0 <= i < lines.len() implies !(#[trigger] lines[i]).contains('\n') by {
            assert(lines[i] == spec_render_record(rs[i]));
            lemma_record_clean(rs[i]);
        }
        lemma_split_join(lines, '\n');
        assert(lines[0] == spec_render_record(rs[0]));
        lemma_record_clean(rs[0]);
        assert(text.len() > 0) by {
            if lines.len() == 1 {
                assert(text == lines[0]);
            } else {
                assert(text == lines[0] + seq!['\n'] + spec_join(lines.skip(1), '\n'));
            }
        }
        lemma_lines_round_trip(rs);
    }
}

/// `find_first` yields the position of the first hit.
pub proof fn lemma_find_first_at(s: Seq<char>, c: char, i: int)
    requires
        0 <= i < s.len(),
        s[i] == c,
        forall|k: int| 0 <= k < i ==> s[k] != c,
    ensures
        find_first(s, c) == i,
    decreases i,
{
    if i == 0 {
    } else {
        assert(s[0] != c);
        assert(s.skip(1)[i - 1] == s[i]);
        assert(forall|k: int| 0 <= k < i - 1 ==> s.skip(1)[k] == s[k + 1]);
        lemma_find_first_at(s.skip(1), c, i - 1);
    }
}

/// Find the first occurrence of `c` in `s` at or after `from`.
pub fn find_from(s: &Vec<char>, c: char, from: usize) -> (r: Option<usize>)
    requires
        from <= s@.len(),
    ensures
        r matches Some(i) ==> from <= i < s@.len() && s@[i as int] == c
            && find_first(s@.skip(from as int), c) == i - from,
        r is None ==> find_first(s@.skip(from as int), c) == -1,
{
    let mut i: usize = from;
    while i < s.len()
        invariant
            from <= i <= s@.len(),
            forall|k: int| from <= k < i ==> s@[k] != c,
        decreases s@.len() - i,
    {
        if s[i] == c {
            proof {
                let suffix = s@.skip(from as int);
                assert(suffix[i - from] == s@[i as int]);
                assert(forall|k: int| 0 <= k < i - from ==> suffix[k] == s@[k + from]);
                lemma_find_first_at(suffix, c, i - from);
            }
            return Some(i);
        }
        i = i + 1;
    }
    proof {
        let suffix = s@.skip(from as int);
        assert(forall|k: int| 0 <= k < suffix.len() ==> suffix[k] == s@[k + from]);
        lemma_find_first_props(suffix, c);
        if suffix.contains(c) {
            let w = choose|k: int| 0 <= k < suffix.len() && suffix[k] == c;
            assert(s@[w + from] == c);
        }
    }
    None
}

/// Find the last occurrence of `c` in `s`.
pub fn find_last_exec(s: &Vec<char>, c: char) -> (r: Option<usize>)
    ensures
        r matches Some(i) ==> i < s@.len() && s@[i as int] == c && find_last(s@, c) == i,
        r is None ==> find_last(s@, c) == -1,
{
    let mut j: usize = s.len();
    proof {
        assert(s@.take(j as int) =~= s@);
    }
    while j > 0
        invariant
            j <= s@.len(),
            find_last(s@, c) == find_last(s@.take(j as int), c),
        decreases j,
    {
        let ghost part = s@.take(j as int);
        proof {
            assert(part.last() == s@[j - 1]);
        }
        if s[j - 1] == c {
            proof {
                assert(find_last(part, c) == j - 1);
            }
            return Some(j - 1);
        }
        proof {
            assert(part.drop_last() =~= s@.take(j as int - 1));
        }
        j = j - 1;
    }
    proof {
        assert(s@.take(0) =~= Seq::<char>::empty());
    }
    None
}

/// Prepend already-read labels to the outcome of reading the rest.
pub open spec fn opt_prepend_labels(pre: Seq<LabelView>, o: Option<Seq<LabelView>>) -> Option<Seq<LabelView>> {
    match o {
        Some(rest) => Some(pre + rest),
        None => None,
    }
}

/// Read a rendered label list back into labels.
pub fn parse_labels_chars(s: &Vec<char>) -> (r: Option<Vec<Label>>)
    ensures
        r matches Some(v) ==> spec_parse_labels(s@) == Some(v@.map_values(|l: Label| l@)),
        r is None ==> spec_parse_labels(s@) is None,
{
    let mut out: Vec<Label> = Vec::new();
    let mut pos: usize = 0;
    proof {
        assert(s@.skip(0) =~= s@);
        assert(out@.map_values(|l: Label| l@) =~= Seq::<LabelView>::empty());
        assert(Seq::<LabelView>::empty() + spec_parse_labels(s@).unwrap()
            =~= spec_parse_labels(s@).unwrap());
        if spec_parse_labels(s@) is Some {
            assert(opt_prepend_labels(Seq::empty(), spec_parse_labels(s@)) == spec_parse_labels(s@));
        }
    }
    while pos < s.len()
        invariant
            0 <= pos <= s@.len(),
            spec_parse_labels(s@)
                == opt_prepend_labels(out@.map_values(|l: Label| l@), spec_parse_labels(s@.skip(pos as int))),
        decreases s@.len() - pos,
    {
        let ghost rem = s@.skip(pos as int);
        let ghost pre = out@.map_values(|l: Label| l@);
        proof {
            assert(rem.len() == s@.len() - pos);
        }
        let e = match find_from(s, '=', pos) {
            Some(e) => e,
            None => {
                return None;
            },
        };
        if e + 1 >= s.len() || s[e + 1] != '"' {
            proof {
                let erel = e - pos;
                if e + 1 < s.len() {
                    assert(rem[erel + 1] == s@[e + 1]);
                }
                assert(spec_parse_labels(rem) is None);
            }
            return None;
        }
        proof {
            assert(rem[e - pos + 1] == s@[e + 1]);
        }
        let key = copy_range(s, pos, e);
        proof {
            assert(key@ =~= rem.take(e - pos));
        }
        let q = match find_from(s, '"', e + 2) {
            Some(q) => q,
            None => {
                proof {
                    assert(rem.skip(e - pos + 2) =~= s@.skip(e + 2));
                }
                return None;
            },
        };
        proof {
            assert(rem.skip(e - pos + 2) =~= s@.skip(e + 2));
        }
        let value = copy_range(s, e + 2, q);
        proof {
            assert(value@ =~= s@.skip(e + 2).take(q - e - 2));
        }
        let ghost pair = LabelView { key: rem.take(e - pos), value: s@.skip(e + 2).take(q - e - 2) };
        out.push(Label { key, value });
        proof {
            assert(out@.map_values(|l: Label| l@) =~= pre.push(pair));
            assert(s@.skip(e + 2).skip(q - e - 2 + 1) =~= s@.skip(q + 1));
        }
        if q + 1 == s.len() {
            proof {
                assert(s@.skip(q + 1).len() == 0);
                assert(spec_parse_labels(rem) == Some(seq![pair]));
                assert(pre + seq![pair] =~= pre.push(pair));
                assert(s@.skip(s@.len() as int) =~= Seq::<char>::empty());
                assert(pre.push(pair) + Seq::<LabelView>::empty() =~= pre.push(pair));
            }
            pos = s.len();
        } else if q + 2 < s.len() && s[q + 1] == ',' && s[q + 2] == ' ' {
            proof {
                let after = s@.skip(q + 1);
                assert(after[0] == s@[q + 1]);
                assert(after[1] == s@[q + 2]);
                assert(after.skip(2) =~= s@.skip(q + 3));
                match spec_parse_labels(s@.skip(q + 3)) {
                    Some(rest) => {
                        assert(spec_parse_labels(rem) == Some(seq![pair] + rest));
                        assert(pre + (seq![pair] + rest) =~= pre.push(pair) + rest);
                    },
                    None => {
                        assert(spec_parse_labels(rem) is None);
                    },
                }
            }
            pos = q + 3;
        } else {
            proof {
                let after = s@.skip(q + 1);
                assert(after.len() > 0);
                assert(after[0] == s@[q + 1]);
                if after.len() >= 2 {
                    assert(after[1] == s@[q + 2]);
                }
                assert(spec_parse_labels(rem) is None);
            }
            return None;
        }
    }
    proof {
        assert(s@.skip(pos as int) =~= Seq::<char>::empty());
        assert(spec_parse_labels(s@) == Some(out@.map_values(|l: Label| l@) + Seq::<LabelView>::empty()));
        assert(out@.map_values(|l: Label| l@) + Seq::<LabelView>::empty()
            =~= out@.map_values(|l: Label| l@));
    }
    Some(out)
}

/// Read one rendered line back into a record.
pub fn parse_record_line(line: &Vec<char>) -> (r: Option<MetricRecord>)
    ensures
        r matches Some(rec) ==> spec_parse_record(line@) == Some(rec@),
        r is None ==> spec_parse_record(line@) is None,
{
    let n = line.len();
    proof {
        assert(line@.skip(0) =~= line@);
    }
    let ob = match find_from(line, '{', 0) {
        Some(ob) => ob,
        None => {
            return None;
        },
    };
    let name_text = copy_range(line, 0, ob);
    proof {
        assert(name_text@ =~= line@.take(ob as int));
    }
    let name = match parse_name(&name_text) {
        Some(n) => n,
        None => {
            return None;
        },
    };
    let cb = match find_last_exec(line, '}') {
        Some(cb) => cb,
        None => {
            return None;
        },
    };
    proof {
        assert(ob < n && cb < n);
    }
    if cb < ob + 1 || cb >= n - 1 || line[cb + 1] != ' ' {
        proof {
            assert(cb >= n - 1 ==> cb + 2 > line@.len());
        }
        return None;
    }
    let labels_text = copy_range(line, ob + 1, cb);
    let labels = match parse_labels_chars(&labels_text) {
        Some(ls) => ls,
        None => {
            return None;
        },
    };
    let value_text = copy_range(line, cb + 2, line.len());
    proof {
        assert(value_text@ =~= line@.skip(cb + 2));
    }
    let value = match parse_value(&value_text) {
        Some(v) => v,
        None => {
            return None;
        },
    };
    let rec = MetricRecord { name, labels, value };
    proof {
        assert(rec@ == (RecordView {
            name,
            labels: labels@.map_values(|l: Label| l@),
            value: value@,
        }));
    }
    Some(rec)
}

/// Prepend already-read records to the outcome of reading the rest.
pub open spec fn opt_prepend_records(pre: Seq<RecordView>, o: Option<Seq<RecordView>>) -> Option<Seq<RecordView>> {
    match o {
        Some(rest) => Some(pre + rest),
        None => None,
    }
}

/// Read a whole rendered body back into records: the matching reader of the
/// exposition format.
pub fn parse_exposition(text: &Vec<char>) -> (r: Option<Vec<MetricRecord>>)
    ensures
        r matches Some(v) ==> spec_parse_exposition(text@) == Some(rec_views(v@)),
        r is None ==> spec_parse_exposition(text@) is None,
{
    if text.len() == 0 {
        let out: Vec<MetricRecord> = Vec::new();
        proof {
            assert(rec_views(out@) =~= Seq::<RecordView>::empty());
        }
        return Some(out);
    }
    let lines = split(text, '\n');
    let ghost full = lines.deep_view();
    let mut out: Vec<MetricRecord> = Vec::new();
    let mut i: usize = 0;
    proof {
        assert(full.skip(0) =~= full);
        assert(rec_views(out@) =~= Seq::<RecordView>::empty());
        if spec_parse_lines(full) is Some {
            assert(Seq::<RecordView>::empty() + spec_parse_lines(full).unwrap()
                =~= spec_parse_lines(full).unwrap());
        }
    }
    while i < lines.len()
        invariant
            0 <= i <= lines.len(),
            full == lines.deep_view(),
            full == spec_split(text@, '\n'),
            text@.len() > 0,
            spec_parse_lines(full) == opt_prepend_records(rec_views(out@), spec_parse_lines(full.skip(i as int))),
        decreases lines.len() - i,
    {
        proof {
            assert(full.skip(i as int)[0] == full[i as int]);
            assert(full.skip(i as int).skip(1) =~= full.skip(i as int + 1));
            assert(lines@[i as int].deep_view() =~= lines@[i as int]@);
            assert(full[i as int] == lines@[i as int]@);
        }
        let ghost pre = rec_views(out@);
        match parse_record_line(&lines[i]) {
            Some(rec) => {
                let ghost rv = rec@;
                out.push(rec);
                proof {
                    assert(rec_views(out@) =~= pre.push(rv));
                    match spec_parse_lines(full.skip(i as int + 1)) {
                        Some(rest) => {
                            assert(spec_parse_lines(full.skip(i as int)) == Some(seq![rv] + rest));
                            assert(pre + (seq![rv] + rest) =~= pre.push(rv) + rest);
                        },
                        None => {
                            assert(spec_parse_lines(full.skip(i as int)) is None);
                        },
                    }
                }
            },
            None => {
                proof {
                    assert(spec_parse_lines(full.skip(i as int)) is None);
                    assert(spec_parse_lines(full) is None);
                    assert(full == spec_split(text@, '\n'));
                    assert(text@.len() > 0);
                }
                return None;
            },
        }
        i = i + 1;
    }
    proof {
        assert(full.skip(i as int) =~= Seq::<Seq<char>>::empty());
        assert(spec_parse_lines(full) == Some(rec_views(out@) + Seq::<RecordView>::empty()));
        assert(rec_views(out@) + Seq::<RecordView>::empty() =~= rec_views(out@));
    }
    Some(out)
}

} // verus!
