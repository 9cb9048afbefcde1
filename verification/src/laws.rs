//! The library's laws: what the parsers yield on well-formed summary lines,
//! process rows and statistics lines, and that parsing is a function of the
//! line alone. The exposition round-trip law lives beside the renderer.

use vstd::prelude::*;
use crate::text::{TrimSet, is_digit, trim_start, trim_end, spec_trim, spec_split, spec_split_rec, spec_fields};
use crate::value::{ValueView, all_digits, comma_to_dot, spec_decimal};
use crate::record::{MetricName, RecordView, LabelView, scalar};
use crate::parsers::{
    SummaryKind, spec_tag_name, spec_scan, spec_parse_cpu, spec_parse_mem, spec_parse_proc,
    spec_parse_netstat, proc_labels, digit_runs, netstat_record, netstat_desc,
};
use crate::value::lemma_decimal_wf;
use crate::render::wf_record;

verus! {

/// The empty token is not a decimal numeral.
pub proof fn lemma_empty_not_decimal()
    ensures
        spec_decimal(Seq::<char>::empty()) is None,
{
    let e = Seq::<char>::empty();
    assert(spec_trim(TrimSet::Ws, e) == e);
    assert(comma_to_dot(e) =~= e);
    assert(spec_split(e, '.') == seq![e]);
    assert(seq![e][0].len() == 0);
}

/// The first token of a split begins with the accumulated prefix.
pub proof fn lemma_split_first(s: Seq<char>, sep: char, cur: Seq<char>)
    ensures
        spec_split_rec(s, sep, cur).len() >= 1,
        spec_split_rec(s, sep, cur)[0].len() >= cur.len(),
        spec_split_rec(s, sep, cur)[0].take(cur.len() as int) == cur,
    decreases s.len(),
{
    if s.len() == 0 {
        assert(spec_split_rec(s, sep, cur)[0] == cur);
        assert(cur.take(cur.len() as int) =~= cur);
    } else if s[0] == sep {
        assert(spec_split_rec(s, sep, cur)[0] == cur);
        assert(cur.take(cur.len() as int) =~= cur);
    } else {
        lemma_split_first(s.skip(1), sep, cur.push(s[0]));
        let first = spec_split_rec(s.skip(1), sep, cur.push(s[0]))[0];
        assert(spec_split_rec(s, sep, cur)[0] == first);
        assert(first.take(cur.len() as int + 1) == cur.push(s[0]));
        assert(first.take(cur.len() as int) =~= first.take(cur.len() as int + 1).take(cur.len() as int));
        assert(cur.push(s[0]).take(cur.len() as int) =~= cur);
    }
}

/// A token whose first significant character is neither a digit nor a dot
/// is not a decimal numeral.
pub proof fn lemma_not_decimal(tok: Seq<char>)
    requires
        ({
            let t = comma_to_dot(spec_trim(TrimSet::Ws, tok));
            t.len() > 0 && !is_digit(t[0]) && t[0] != '.'
        }),
    ensures
        spec_decimal(tok) is None,
{
    let t = comma_to_dot(spec_trim(TrimSet::Ws, tok));
    let parts = spec_split(t, '.');
    lemma_split_first(t.skip(1), '.', Seq::<char>::empty().push(t[0]));
    assert(parts[0] == spec_split_rec(t.skip(1), '.', Seq::<char>::empty().push(t[0]))[0]);
    assert(parts[0].take(1) == Seq::<char>::empty().push(t[0]));
    assert(parts[0].len() >= 1);
    assert(parts[0].take(1)[0] == parts[0][0]);
    assert(Seq::<char>::empty().push(t[0])[0] == t[0]);
    assert(parts[0][0] == t[0]);
    assert(!all_digits(parts[0]));
}

/// Tokens that are not decimal numerals emit nothing: the scan of a token
/// sequence with such a prefix is the scan of the rest, with the last
/// prefix token as the remembered previous token.
pub proof fn lemma_scan_skip_prefix(kind: SummaryKind, prev: Seq<char>, pre: Seq<Seq<char>>, rest: Seq<Seq<char>>)
    requires
        spec_decimal(prev) is None,
        forall|i: int| 0 <= i < pre.len() ==> spec_decimal(#[trigger] pre[i]) is None,
    ensures
        spec_scan(kind, prev, pre + rest)
            == spec_scan(kind, if pre.len() == 0 { prev } else { pre.last() }, rest),
    decreases pre.len(),
{
    if pre.len() == 0 {
        assert(pre + rest =~= rest);
    } else {
        let ts = pre + rest;
        assert(ts.len() > 0);
        assert(ts[0] == pre[0]);
        assert(spec_scan(kind, prev, ts)
            == Seq::<RecordView>::empty() + spec_scan(kind, ts[0], ts.skip(1)));
        assert(Seq::<RecordView>::empty() + spec_scan(kind, ts[0], ts.skip(1))
            =~= spec_scan(kind, ts[0], ts.skip(1)));
        assert(ts.skip(1) =~= pre.skip(1) + rest);
        assert(forall|i: int| 0 <= i < pre.skip(1).len() ==> pre.skip(1)[i] == pre[i + 1]);
        lemma_scan_skip_prefix(kind, pre[0], pre.skip(1), rest);
        if pre.len() > 1 {
            assert(pre.skip(1).last() == pre.last());
        }
    }
}

/// One scan step on a decimal token followed by a recognized tag emits that
/// tag's record.
proof fn scan_emit_step(kind: SummaryKind, prev: Seq<char>, v: ValueView, n: MetricName, ts: Seq<Seq<char>>)
    requires
        spec_decimal(prev) == Some(v),
        ts.len() > 0,
        spec_tag_name(kind, spec_trim(TrimSet::Tag, ts[0])) == Some(n),
    ensures
        spec_scan(kind, prev, ts) == seq![scalar(n, v)] + spec_scan(kind, ts[0], ts.skip(1)),
{
}

/// One scan step on a non-decimal previous token emits nothing.
proof fn scan_silent_step(kind: SummaryKind, prev: Seq<char>, ts: Seq<Seq<char>>)
    requires
        spec_decimal(prev) is None,
        ts.len() > 0,
    ensures
        spec_scan(kind, prev, ts) == spec_scan(kind, ts[0], ts.skip(1)),
{
    assert(spec_scan(kind, prev, ts)
        == Seq::<RecordView>::empty() + spec_scan(kind, ts[0], ts.skip(1)));
    assert(Seq::<RecordView>::empty() + spec_scan(kind, ts[0], ts.skip(1))
        =~= spec_scan(kind, ts[0], ts.skip(1)));
}

/// The CPU line's four tags: each trims to its tag word and is itself not a
/// decimal numeral.
proof fn lemma_cpu_tags()
    ensures
        spec_trim(TrimSet::Tag, "us,"@) == "us"@,
        spec_trim(TrimSet::Tag, "sy,"@) == "sy"@,
        spec_trim(TrimSet::Tag, "ni,"@) == "ni"@,
        spec_trim(TrimSet::Tag, "id"@) == "id"@,
        spec_decimal("us,"@) is None,
        spec_decimal("sy,"@) is None,
        spec_decimal("ni,"@) is None,
        spec_decimal("id"@) is None,
        spec_tag_name(SummaryKind::Cpu, "us"@) == Some(MetricName::CpuUser),
        spec_tag_name(SummaryKind::Cpu, "sy"@) == Some(MetricName::CpuSystem),
        spec_tag_name(SummaryKind::Cpu, "ni"@) == Some(MetricName::CpuNice),
        spec_tag_name(SummaryKind::Cpu, "id"@) == Some(MetricName::CpuIdle),
{
    reveal_strlit("us,");
    reveal_strlit("us");
    reveal_strlit("sy,");
    reveal_strlit("sy");
    reveal_strlit("ni,");
    reveal_strlit("ni");
    reveal_strlit("id");
    assert(trim_start(TrimSet::Tag, "us,"@) == "us,"@);
    assert("us,"@.drop_last() =~= "us"@);
    assert(trim_end(TrimSet::Tag, "us"@) == "us"@);
    assert(trim_end(TrimSet::Tag, "us,"@) == "us"@);
    assert(trim_start(TrimSet::Tag, "sy,"@) == "sy,"@);
    assert("sy,"@.drop_last() =~= "sy"@);
    assert(trim_end(TrimSet::Tag, "sy"@) == "sy"@);
    assert(trim_end(TrimSet::Tag, "sy,"@) == "sy"@);
    assert(trim_start(TrimSet::Tag, "ni,"@) == "ni,"@);
    assert("ni,"@.drop_last() =~= "ni"@);
    assert(trim_end(TrimSet::Tag, "ni"@) == "ni"@);
    assert(trim_end(TrimSet::Tag, "ni,"@) == "ni"@);
    assert(trim_start(TrimSet::Tag, "id"@) == "id"@);
    assert(trim_end(TrimSet::Tag, "id"@) == "id"@);
    assert(trim_start(TrimSet::Ws, "us,"@) == "us,"@);
    assert(trim_end(TrimSet::Ws, "us,"@) == "us,"@);
    assert(comma_to_dot("us,"@)[0] == 'u');
    lemma_not_decimal("us,"@);
    assert(trim_start(TrimSet::Ws, "sy,"@) == "sy,"@);
    assert(trim_end(TrimSet::Ws, "sy,"@) == "sy,"@);
    assert(comma_to_dot("sy,"@)[0] == 's');
    lemma_not_decimal("sy,"@);
    assert(trim_start(TrimSet::Ws, "ni,"@) == "ni,"@);
    assert(trim_end(TrimSet::Ws, "ni,"@) == "ni,"@);
    assert(comma_to_dot("ni,"@)[0] == 'n');
    lemma_not_decimal("ni,"@);
    assert(trim_start(TrimSet::Ws, "id"@) == "id"@);
    assert(trim_end(TrimSet::Ws, "id"@) == "id"@);
    assert(comma_to_dot("id"@)[0] == 'i');
    lemma_not_decimal("id"@);
}

/// Parsing a valid CPU-summary token sequence — any run of non-numeric
/// tokens, then `X us, Y sy, Z ni, W id` — yields exactly four label-less
/// records carrying X, Y, Z and W, in that order.
pub proof fn lemma_cpu_summary(pre: Seq<Seq<char>>, x: Seq<char>, y: Seq<char>, z: Seq<char>, w: Seq<char>, vx: ValueView, vy: ValueView, vz: ValueView, vw: ValueView)
    requires
        forall|i: int| 0 <= i < pre.len() ==> spec_decimal(#[trigger] pre[i]) is None,
        spec_decimal(x) == Some(vx),
        spec_decimal(y) == Some(vy),
        spec_decimal(z) == Some(vz),
        spec_decimal(w) == Some(vw),
    ensures
        spec_scan(SummaryKind::Cpu, Seq::empty(), pre + seq![x, "us,"@, y, "sy,"@, z, "ni,"@, w, "id"@])
            == seq![
                scalar(MetricName::CpuUser, vx),
                scalar(MetricName::CpuSystem, vy),
                scalar(MetricName::CpuNice, vz),
                scalar(MetricName::CpuIdle, vw),
            ],
{
    let kind = SummaryKind::Cpu;
    let ts = seq![x, "us,"@, y, "sy,"@, z, "ni,"@, w, "id"@];
    lemma_empty_not_decimal();
    lemma_scan_skip_prefix(kind, Seq::empty(), pre, ts);
    let p0 = if pre.len() == 0 { Seq::<char>::empty() } else { pre.last() };
    assert(spec_decimal(p0) is None);
    lemma_cpu_tags();
    let ts1 = ts.skip(1);
    let ts2 = ts.skip(2);
    let ts3 = ts.skip(3);
    let ts4 = ts.skip(4);
    let ts5 = ts.skip(5);
    let ts6 = ts.skip(6);
    let ts7 = ts.skip(7);
    let ts8 = ts.skip(8);
    assert(ts1.skip(1) =~= ts2);
    assert(ts2.skip(1) =~= ts3);
    assert(ts3.skip(1) =~= ts4);
    assert(ts4.skip(1) =~= ts5);
    assert(ts5.skip(1) =~= ts6);
    assert(ts6.skip(1) =~= ts7);
    assert(ts7.skip(1) =~= ts8);
    assert(ts8 =~= Seq::<Seq<char>>::empty());
    assert(ts[0] == x);
    assert(ts1[0] == "us,"@);
    assert(ts2[0] == y);
    assert(ts3[0] == "sy,"@);
    assert(ts4[0] == z);
    assert(ts5[0] == "ni,"@);
    assert(ts6[0] == w);
    assert(ts7[0] == "id"@);
    scan_silent_step(kind, p0, ts);
    scan_emit_step(kind, x, vx, MetricName::CpuUser, ts1);
    scan_silent_step(kind, "us,"@, ts2);
    scan_emit_step(kind, y, vy, MetricName::CpuSystem, ts3);
    scan_silent_step(kind, "sy,"@, ts4);
    scan_emit_step(kind, z, vz, MetricName::CpuNice, ts5);
    scan_silent_step(kind, "ni,"@, ts6);
    scan_emit_step(kind, w, vw, MetricName::CpuIdle, ts7);
    assert(spec_scan(kind, "id"@, ts8) == Seq::<RecordView>::empty());
    assert(spec_scan(kind, p0, ts)
        =~= seq![
            scalar(MetricName::CpuUser, vx),
            scalar(MetricName::CpuSystem, vy),
            scalar(MetricName::CpuNice, vz),
            scalar(MetricName::CpuIdle, vw),
        ]);
}

/// The memory line's four labels: each trims to its word and is itself not
/// a decimal numeral.
proof fn lemma_mem_tags()
    ensures
        spec_trim(TrimSet::Tag, "total,"@) == "total"@,
        spec_trim(TrimSet::Tag, "free,"@) == "free"@,
        spec_trim(TrimSet::Tag, "used,"@) == "used"@,
        spec_trim(TrimSet::Tag, "buff/cache"@) == "buff/cache"@,
        spec_decimal("total,"@) is None,
        spec_decimal("free,"@) is None,
        spec_decimal("used,"@) is None,
        spec_decimal("buff/cache"@) is None,
        spec_tag_name(SummaryKind::Mem, "total"@) == Some(MetricName::MemTotal),
        spec_tag_name(SummaryKind::Mem, "free"@) == Some(MetricName::MemFree),
        spec_tag_name(SummaryKind::Mem, "used"@) == Some(MetricName::MemUsed),
        spec_tag_name(SummaryKind::Mem, "buff/cache"@) == Some(MetricName::MemBuffered),
{
    reveal_strlit("total,");
    reveal_strlit("total");
    reveal_strlit("free,");
    reveal_strlit("free");
    reveal_strlit("used,");
    reveal_strlit("used");
    reveal_strlit("buff/cache");
    assert(trim_start(TrimSet::Tag, "total,"@) == "total,"@);
    assert("total,"@.drop_last() =~= "total"@);
    assert(trim_end(TrimSet::Tag, "total"@) == "total"@);
    assert(trim_end(TrimSet::Tag, "total,"@) == "total"@);
    assert(trim_start(TrimSet::Tag, "free,"@) == "free,"@);
    assert("free,"@.drop_last() =~= "free"@);
    assert(trim_end(TrimSet::Tag, "free"@) == "free"@);
    assert(trim_end(TrimSet::Tag, "free,"@) == "free"@);
    assert(trim_start(TrimSet::Tag, "used,"@) == "used,"@);
    assert("used,"@.drop_last() =~= "used"@);
    assert(trim_end(TrimSet::Tag, "used"@) == "used"@);
    assert(trim_end(TrimSet::Tag, "used,"@) == "used"@);
    assert(trim_start(TrimSet::Tag, "buff/cache"@) == "buff/cache"@);
    assert(trim_end(TrimSet::Tag, "buff/cache"@) == "buff/cache"@);
    assert(trim_start(TrimSet::Ws, "total,"@) == "total,"@);
    assert(trim_end(TrimSet::Ws, "total,"@) == "total,"@);
    assert(comma_to_dot("total,"@)[0] == 't');
    lemma_not_decimal("total,"@);
    assert(trim_start(TrimSet::Ws, "free,"@) == "free,"@);
    assert(trim_end(TrimSet::Ws, "free,"@) == "free,"@);
    assert(comma_to_dot("free,"@)[0] == 'f');
    lemma_not_decimal("free,"@);
    assert(trim_start(TrimSet::Ws, "used,"@) == "used,"@);
    assert(trim_end(TrimSet::Ws, "used,"@) == "used,"@);
    assert(comma_to_dot("used,"@)[0] == 'u');
    lemma_not_decimal("used,"@);
    assert(trim_start(TrimSet::Ws, "buff/cache"@) == "buff/cache"@);
    assert(trim_end(TrimSet::Ws, "buff/cache"@) == "buff/cache"@);
    assert(comma_to_dot("buff/cache"@)[0] == 'b');
    lemma_not_decimal("buff/cache"@);
}

/// Parsing a valid memory-summary token sequence yields exactly four
/// label-less records matching total, free, used and buff/cache, in that
/// order.
pub proof fn lemma_mem_summary(pre: Seq<Seq<char>>, x: Seq<char>, y: Seq<char>, z: Seq<char>, w: Seq<char>, vx: ValueView, vy: ValueView, vz: ValueView, vw: ValueView)
    requires
        forall|i: int| 0 <= i < pre.len() ==> spec_decimal(#[trigger] pre[i]) is None,
        spec_decimal(x) == Some(vx),
        spec_decimal(y) == Some(vy),
        spec_decimal(z) == Some(vz),
        spec_decimal(w) == Some(vw),
    ensures
        spec_scan(SummaryKind::Mem, Seq::empty(), pre + seq![x, "total,"@, y, "free,"@, z, "used,"@, w, "buff/cache"@])
            == seq![
                scalar(MetricName::MemTotal, vx),
                scalar(MetricName::MemFree, vy),
                scalar(MetricName::MemUsed, vz),
                scalar(MetricName::MemBuffered, vw),
            ],
{
    let kind = SummaryKind::Mem;
    let ts = seq![x, "total,"@, y, "free,"@, z, "used,"@, w, "buff/cache"@];
    lemma_empty_not_decimal();
    lemma_scan_skip_prefix(kind, Seq::empty(), pre, ts);
    let p0 = if pre.len() == 0 { Seq::<char>::empty() } else { pre.last() };
    assert(spec_decimal(p0) is None);
    lemma_mem_tags();
    let ts1 = ts.skip(1);
    let ts2 = ts.skip(2);
    let ts3 = ts.skip(3);
    let ts4 = ts.skip(4);
    let ts5 = ts.skip(5);
    let ts6 = ts.skip(6);
    let ts7 = ts.skip(7);
    let ts8 = ts.skip(8);
    assert(ts1.skip(1) =~= ts2);
    assert(ts2.skip(1) =~= ts3);
    assert(ts3.skip(1) =~= ts4);
    assert(ts4.skip(1) =~= ts5);
    assert(ts5.skip(1) =~= ts6);
    assert(ts6.skip(1) =~= ts7);
    assert(ts7.skip(1) =~= ts8);
    assert(ts8 =~= Seq::<Seq<char>>::empty());
    assert(ts[0] == x);
    assert(ts1[0] == "total,"@);
    assert(ts2[0] == y);
    assert(ts3[0] == "free,"@);
    assert(ts4[0] == z);
    assert(ts5[0] == "used,"@);
    assert(ts6[0] == w);
    assert(ts7[0] == "buff/cache"@);
    scan_silent_step(kind, p0, ts);
    scan_emit_step(kind, x, vx, MetricName::MemTotal, ts1);
    scan_silent_step(kind, "total,"@, ts2);
    scan_emit_step(kind, y, vy, MetricName::MemFree, ts3);
    scan_silent_step(kind, "free,"@, ts4);
    scan_emit_step(kind, z, vz, MetricName::MemUsed, ts5);
    scan_silent_step(kind, "used,"@, ts6);
    scan_emit_step(kind, w, vw, MetricName::MemBuffered, ts7);
    assert(spec_scan(kind, "buff/cache"@, ts8) == Seq::<RecordView>::empty());
    assert(spec_scan(kind, p0, ts)
        =~= seq![
            scalar(MetricName::MemTotal, vx),
            scalar(MetricName::MemFree, vy),
            scalar(MetricName::MemUsed, vz),
            scalar(MetricName::MemBuffered, vw),
        ]);
}

/// Parsing a process row with well-formed numeric CPU and memory columns
/// yields exactly two labeled records sharing identical pid/user/command
/// labels.
pub proof fn lemma_proc_row_shape(line: Seq<char>)
    requires
        spec_fields(line).len() >= 9,
        spec_decimal(spec_fields(line)[8]) is Some,
        spec_decimal(spec_fields(line)[5]) is Some,
    ensures
        spec_parse_proc(line) is Ok,
        spec_parse_proc(line) matches Ok(rs) ==> {
            &&& rs.len() == 2
            &&& rs[0].labels == rs[1].labels
            &&& rs[0].labels == proc_labels(spec_fields(line))
            &&& rs[0].name == MetricName::ProcCpu
            &&& rs[1].name == MetricName::ProcMem
        },
{
}

/// Parsing a network-statistics line with N digit runs yields exactly N
/// records, each labeled with the current category and the line with that
/// digit run removed, trimmed and collapsed.
pub proof fn lemma_netstat_shape(header: Seq<char>, line: Seq<char>)
    ensures
        spec_parse_netstat(header, line).len() == digit_runs(spec_trim(TrimSet::Ws, line)).len(),
        forall|i: int| 0 <= i < spec_parse_netstat(header, line).len() ==> {
            let l = spec_trim(TrimSet::Ws, line);
            let r = #[trigger] spec_parse_netstat(header, line)[i];
            &&& r == netstat_record(header, l, digit_runs(l)[i])
            &&& r.name == MetricName::NetstatInfo
            &&& r.labels == seq![
                LabelView { key: "category"@, value: header },
                LabelView { key: "desc"@, value: netstat_desc(l, digit_runs(l)[i]) },
            ]
            &&& r.value == (ValueView { int_part: digit_runs(l)[i], frac_part: Seq::<char>::empty() })
        },
{
}

/// Every record of a summary-line scan is well formed: its value is a
/// decimal numeral and it carries no labels. The exposition round trip
/// therefore applies to whole CPU- and memory-summary snapshots.
pub proof fn lemma_summary_records_wf(kind: SummaryKind, prev: Seq<char>, ts: Seq<Seq<char>>)
    ensures
        forall|i: int| 0 <= i < spec_scan(kind, prev, ts).len()
            ==> wf_record(#[trigger] spec_scan(kind, prev, ts)[i]),
    decreases ts.len(),
{
    if ts.len() > 0 {
        lemma_summary_records_wf(kind, ts[0], ts.skip(1));
        let out = spec_scan(kind, prev, ts);
        let rest = spec_scan(kind, ts[0], ts.skip(1));
        match (spec_decimal(prev), spec_tag_name(kind, spec_trim(TrimSet::Tag, ts[0]))) {
            (Some(v), Some(n)) => {
                lemma_decimal_wf(prev);
                assert(wf_record(scalar(n, v)));
                assert(out == seq![scalar(n, v)] + rest);
                assert forall|i: int| 0 <= i < out.len() implies wf_record(out[i]) by {
                    if i == 0 {
                        assert(out[i] == scalar(n, v));
                    } else {
                        assert(out[i] == rest[i - 1]);
                    }
                }
            },
            _ => {
                assert(out == Seq::<RecordView>::empty() + rest);
                assert forall|i: int| 0 <= i < out.len() implies wf_record(out[i]) by {
                    assert(out[i] == rest[i]);
                }
            },
        }
    }
}

/// Parsing is a function of the line (and, for statistics lines, the
/// header) alone: equal inputs yield equal record sets, so re-parsing the
/// same line yields identical records.
pub proof fn lemma_parse_deterministic(l1: Seq<char>, l2: Seq<char>, h1: Seq<char>, h2: Seq<char>)
    requires
        l1 == l2,
        h1 == h2,
    ensures
        spec_parse_cpu(l1) == spec_parse_cpu(l2),
        spec_parse_mem(l1) == spec_parse_mem(l2),
        spec_parse_proc(l1) == spec_parse_proc(l2),
        spec_parse_netstat(h1, l1) == spec_parse_netstat(h2, l2),
{
}

} // verus!
