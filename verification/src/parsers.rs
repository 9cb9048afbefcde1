//! The source parsers: pure functions turning one pre-classified line of an
//! external tool's output into zero or more metric records, or a parse error.

use vstd::prelude::*;
use crate::text::{
    TrimSet, is_digit, digit, spec_trim, spec_split, spec_fields, keep_nonempty, spec_collapse,
    remove_first, trim, split, fields, nonempty_tokens, collapse, remove_first_exec, copy_chars,
    eq_chars,
};
use crate::value::{Value, ValueView, spec_decimal, parse_value};
use crate::record::{
    MetricName, MetricRecord, RecordView, Label, LabelView, scalar, scalar_record, copy_label,
};

verus! {

/// The views of a record vector, in order.
pub open spec fn rec_views(s: Seq<MetricRecord>) -> Seq<RecordView> {
    s.map_values(|x: MetricRecord| x@)
}

/// Which of the two summary lines a sliding scan is reading.
#[derive(Clone, Copy, PartialEq, Eq, Structural, Debug)]
pub enum SummaryKind {
    /// The aggregate CPU line: tags `us`, `sy`, `ni`, `id`.
    Cpu,
    /// The memory line: tags `total`, `free`, `used`, `buff/cache`.
    Mem,
}

/// The metric named by a unit tag of the given summary line, after the tag
/// was trimmed of spaces and commas; unknown tags name nothing.
pub open spec fn spec_tag_name(kind: SummaryKind, tag: Seq<char>) -> Option<MetricName> {
    match kind {
        SummaryKind::Cpu => {
            if tag == "us"@ { Some(MetricName::CpuUser) }
            else if tag == "sy"@ { Some(MetricName::CpuSystem) }
            else if tag == "ni"@ { Some(MetricName::CpuNice) }
            else if tag == "id"@ { Some(MetricName::CpuIdle) }
            else { None }
        },
        SummaryKind::Mem => {
            if tag == "total"@ { Some(MetricName::MemTotal) }
            else if tag == "free"@ { Some(MetricName::MemFree) }
            else if tag == "used"@ { Some(MetricName::MemUsed) }
            else if tag == "buff/cache"@ { Some(MetricName::MemBuffered) }
            else { None }
        },
    }
}

/// Recognize a trimmed unit tag of a summary line.
pub fn summary_tag(kind: SummaryKind, tag: &Vec<char>) -> (r: Option<MetricName>)
    ensures
        r == spec_tag_name(kind, tag@),
{
    match kind {
        SummaryKind::Cpu => {
            let us = vec!['u', 's'];
            let sy = vec!['s', 'y'];
            let ni = vec!['n', 'i'];
            let id = vec!['i', 'd'];
            proof {
                reveal_strlit("us");
                reveal_strlit("sy");
                reveal_strlit("ni");
                reveal_strlit("id");
                assert(us@ =~= "us"@);
                assert(sy@ =~= "sy"@);
                assert(ni@ =~= "ni"@);
                assert(id@ =~= "id"@);
            }
            if eq_chars(tag, &us) { Some(MetricName::CpuUser) }
            else if eq_chars(tag, &sy) { Some(MetricName::CpuSystem) }
            else if eq_chars(tag, &ni) { Some(MetricName::CpuNice) }
            else if eq_chars(tag, &id) { Some(MetricName::CpuIdle) }
            else { None }
        },
        SummaryKind::Mem => {
            let total = vec!['t', 'o', 't', 'a', 'l'];
            let free = vec!['f', 'r', 'e', 'e'];
            let used = vec!['u', 's', 'e', 'd'];
            let buff = vec!['b', 'u', 'f', 'f', '/', 'c', 'a', 'c', 'h', 'e'];
            proof {
                reveal_strlit("total");
                reveal_strlit("free");
                reveal_strlit("used");
                reveal_strlit("buff/cache");
                assert(total@ =~= "total"@);
                assert(free@ =~= "free"@);
                assert(used@ =~= "used"@);
                assert(buff@ =~= "buff/cache"@);
            }
            if eq_chars(tag, &total) { Some(MetricName::MemTotal) }
            else if eq_chars(tag, &free) { Some(MetricName::MemFree) }
            else if eq_chars(tag, &used) { Some(MetricName::MemUsed) }
            else if eq_chars(tag, &buff) { Some(MetricName::MemBuffered) }
            else { None }
        },
    }
}

/// The sliding-window scan over the whitespace-split tokens of a summary
/// line: whenever the previous token is a decimal numeral and the current
/// token trims to a known unit tag, one scalar record is emitted.
pub open spec fn spec_scan(kind: SummaryKind, prev: Seq<char>, ts: Seq<Seq<char>>) -> Seq<RecordView>
    decreases ts.len(),
{
    if ts.len() == 0 {
        Seq::empty()
    } else {
        let emitted = match (spec_decimal(prev), spec_tag_name(kind, spec_trim(TrimSet::Tag, ts[0]))) {
            (Some(v), Some(n)) => seq![scalar(n, v)],
            _ => Seq::<RecordView>::empty(),
        };
        emitted + spec_scan(kind, ts[0], ts.skip(1))
    }
}

/// The records of the aggregate CPU summary line.
pub open spec fn spec_parse_cpu(line: Seq<char>) -> Seq<RecordView> {
    spec_scan(SummaryKind::Cpu, Seq::empty(), spec_split(line, ' '))
}

/// The records of the memory summary line.
pub open spec fn spec_parse_mem(line: Seq<char>) -> Seq<RecordView> {
    spec_scan(SummaryKind::Mem, Seq::empty(), spec_split(line, ' '))
}

/// Run the sliding-window scan of a summary line.
pub fn scan_summary(kind: SummaryKind, line: &Vec<char>) -> (r: Vec<MetricRecord>)
    ensures
        rec_views(r@) == spec_scan(kind, Seq::empty(), spec_split(line@, ' ')),
{
    let ts = split(line, ' ');
    let ghost full = ts.deep_view();
    let mut out: Vec<MetricRecord> = Vec::new();
    let mut prev: Vec<char> = Vec::new();
    let mut i: usize = 0;
    proof {
        assert(full.skip(0) =~= full);
        assert(rec_views(out@) =~= Seq::<RecordView>::empty());
        assert(Seq::<RecordView>::empty() + spec_scan(kind, prev@, full) =~= spec_scan(kind, prev@, full));
    }
    while i < ts.len()
        invariant
            0 <= i <= ts.len(),
            full == ts.deep_view(),
            spec_scan(kind, Seq::empty(), full) == rec_views(out@) + spec_scan(kind, prev@, full.skip(i as int)),
        decreases ts.len() - i,
    {
        proof {
            assert(full.skip(i as int)[0] == full[i as int]);
            assert(full.skip(i as int).skip(1) =~= full.skip(i as int + 1));
            assert(ts@[i as int].deep_view() =~= ts@[i as int]@);
            assert(full[i as int] == ts@[i as int]@);
        }
        let tag = trim(TrimSet::Tag, &ts[i]);
        let pv = parse_value(&prev);
        let tn = summary_tag(kind, &tag);
        let ghost pre_views = rec_views(out@);
        let ghost emitted = match (spec_decimal(prev@), spec_tag_name(kind, spec_trim(TrimSet::Tag, full[i as int]))) {
            (Some(v), Some(n)) => seq![scalar(n, v)],
            _ => Seq::<RecordView>::empty(),
        };
        match (pv, tn) {
            (Some(v), Some(n)) => {
                let rec = scalar_record(n, v);
                let ghost rv = rec@;
                out.push(rec);
                proof {
                    assert(rec_views(out@) =~= pre_views.push(rv));
                    assert(emitted =~= seq![rv]);
                    assert(pre_views.push(rv) =~= pre_views + emitted);
                }
            },
            _ => {
                proof {
                    assert(emitted =~= Seq::<RecordView>::empty());
                    assert(rec_views(out@) =~= pre_views + emitted);
                }
            },
        }
        proof {
            assert(spec_scan(kind, prev@, full.skip(i as int))
                == emitted + spec_scan(kind, full[i as int], full.skip(i as int + 1)));
            assert(pre_views + (emitted + spec_scan(kind, full[i as int], full.skip(i as int + 1)))
                =~= (pre_views + emitted) + spec_scan(kind, full[i as int], full.skip(i as int + 1)));
        }
        prev = copy_chars(&ts[i]);
        i = i + 1;
    }
    proof {
        assert(full.skip(i as int) =~= Seq::<Seq<char>>::empty());
        assert(spec_scan(kind, prev@, full.skip(i as int)) == Seq::<RecordView>::empty());
        assert(rec_views(out@) + Seq::<RecordView>::empty() =~= rec_views(out@));
    }
    out
}

/// Parse the aggregate CPU summary line: emit one scalar record per
/// `value unit-tag` pair whose tag is `us`, `sy`, `ni` or `id`; unknown
/// tags are skipped silently.
pub fn handle_cpu_line(line: &Vec<char>) -> (r: Vec<MetricRecord>)
    ensures
        rec_views(r@) == spec_parse_cpu(line@),
{
    scan_summary(SummaryKind::Cpu, line)
}

/// Parse the memory summary line: emit one scalar record per `value label`
/// pair whose label is `total`, `free`, `used` or `buff/cache`.
pub fn handle_mem_line(line: &Vec<char>) -> (r: Vec<MetricRecord>)
    ensures
        rec_views(r@) == spec_parse_mem(line@),
{
    scan_summary(SummaryKind::Mem, line)
}

/// Why a process-table row could not be parsed.
#[derive(Clone, Copy, PartialEq, Eq, Structural, Debug)]
pub enum ParseError {
    /// The row has fewer than nine whitespace-separated columns.
    MissingColumns,
    /// The CPU column is not a decimal numeral.
    BadCpuColumn,
    /// The memory column is not a decimal numeral.
    BadMemColumn,
}

/// The labels shared by the two records of a process row: pid, user and
/// command, read from the first, second and last columns.
pub open spec fn proc_labels(ts: Seq<Seq<char>>) -> Seq<LabelView> {
    seq![
        LabelView { key: "pid"@, value: ts[0] },
        LabelView { key: "user"@, value: ts[1] },
        LabelView { key: "command"@, value: ts[ts.len() - 1] },
    ]
}

/// The outcome of parsing one process-table row: exactly two labeled
/// records (CPU and memory percentage) sharing the pid/user/command labels,
/// or the first error met. The CPU column is checked first.
pub open spec fn spec_parse_proc(line: Seq<char>) -> Result<Seq<RecordView>, ParseError> {
    let ts = spec_fields(line);
    if ts.len() < 9 {
        Err(ParseError::MissingColumns)
    } else {
        match spec_decimal(ts[8]) {
            None => Err(ParseError::BadCpuColumn),
            Some(cpu) => match spec_decimal(ts[5]) {
                None => Err(ParseError::BadMemColumn),
                Some(mem) => Ok(seq![
                    RecordView { name: MetricName::ProcCpu, labels: proc_labels(ts), value: cpu },
                    RecordView { name: MetricName::ProcMem, labels: proc_labels(ts), value: mem },
                ]),
            },
        }
    }
}

/// Parse one row of the process table.
pub fn handle_proc_line(line: &Vec<char>) -> (r: Result<Vec<MetricRecord>, ParseError>)
    ensures
        r matches Ok(v) ==> spec_parse_proc(line@) == Ok::<Seq<RecordView>, ParseError>(rec_views(v@)),
        r matches Err(e) ==> spec_parse_proc(line@) == Err::<Seq<RecordView>, ParseError>(e),
{
    let ts = fields(line);
    let ghost full = ts.deep_view();
    if ts.len() < 9 {
        return Err(ParseError::MissingColumns);
    }
    proof {
        assert(ts@[8].deep_view() =~= ts@[8]@);
        assert(full[8] == ts@[8]@);
        assert(ts@[5].deep_view() =~= ts@[5]@);
        assert(full[5] == ts@[5]@);
        assert(ts@[0].deep_view() =~= ts@[0]@);
        assert(full[0] == ts@[0]@);
        assert(ts@[1].deep_view() =~= ts@[1]@);
        assert(full[1] == ts@[1]@);
        assert(ts@[ts@.len() - 1].deep_view() =~= ts@[ts@.len() - 1]@);
        assert(full[full.len() - 1] == ts@[ts@.len() - 1]@);
    }
    let cpu = match parse_value(&ts[8]) {
        Some(v) => v,
        None => {
            return Err(ParseError::BadCpuColumn);
        },
    };
    let mem = match parse_value(&ts[5]) {
        Some(v) => v,
        None => {
            return Err(ParseError::BadMemColumn);
        },
    };
    let pid_key = vec!['p', 'i', 'd'];
    let user_key = vec!['u', 's', 'e', 'r'];
    let command_key = vec!['c', 'o', 'm', 'm', 'a', 'n', 'd'];
    proof {
        reveal_strlit("pid");
        reveal_strlit("user");
        reveal_strlit("command");
        assert(pid_key@ =~= "pid"@);
        assert(user_key@ =~= "user"@);
        assert(command_key@ =~= "command"@);
    }
    let labels_cpu = vec![
        Label { key: pid_key, value: copy_chars(&ts[0]) },
        Label { key: user_key, value: copy_chars(&ts[1]) },
        Label { key: command_key, value: copy_chars(&ts[ts.len() - 1]) },
    ];
    let labels_mem = vec![
        copy_label(&labels_cpu[0]),
        copy_label(&labels_cpu[1]),
        copy_label(&labels_cpu[2]),
    ];
    proof {
        assert(labels_cpu@.map_values(|l: Label| l@) =~= proc_labels(full));
        assert(labels_mem@.map_values(|l: Label| l@) =~= proc_labels(full));
    }
    let rec_cpu = MetricRecord { name: MetricName::ProcCpu, labels: labels_cpu, value: cpu };
    let rec_mem = MetricRecord { name: MetricName::ProcMem, labels: labels_mem, value: mem };
    let ghost rv_cpu = rec_cpu@;
    let ghost rv_mem = rec_mem@;
    let out = vec![rec_cpu, rec_mem];
    proof {
        assert(rv_cpu == (RecordView { name: MetricName::ProcCpu, labels: proc_labels(full), value: cpu@ }));
        assert(rv_mem == (RecordView { name: MetricName::ProcMem, labels: proc_labels(full), value: mem@ }));
        assert(rec_views(out@) =~= seq![rv_cpu, rv_mem]);
        assert(spec_parse_proc(line@) == Ok::<Seq<RecordView>, ParseError>(seq![rv_cpu, rv_mem]));
    }
    Ok(out)
}

/// `s` with every character that is not a digit replaced by `_`.
pub open spec fn mask_digits(s: Seq<char>) -> Seq<char> {
    s.map_values(|c: char| if !is_digit(c) { '_' } else { c })
}

/// The maximal digit runs of `s`, in order of appearance.
pub open spec fn digit_runs(s: Seq<char>) -> Seq<Seq<char>> {
    keep_nonempty(spec_split(mask_digits(s), '_'))
}

/// The description label derived for one digit run of a trimmed network
/// statistics line: the line with the first occurrence of the run removed,
/// trimmed of colons and spaces, internal whitespace runs collapsed.
pub open spec fn netstat_desc(l: Seq<char>, run: Seq<char>) -> Seq<char> {
    spec_collapse(spec_trim(TrimSet::Desc, remove_first(l, run)))
}

/// The record emitted for one digit run of a network statistics line.
pub open spec fn netstat_record(header: Seq<char>, l: Seq<char>, run: Seq<char>) -> RecordView {
    RecordView {
        name: MetricName::NetstatInfo,
        labels: seq![
            LabelView { key: "category"@, value: header },
            LabelView { key: "desc"@, value: netstat_desc(l, run) },
        ],
        value: ValueView { int_part: run, frac_part: Seq::empty() },
    }
}

/// The records of one network statistics data line under the most recent
/// category header: one record per digit run of the trimmed line.
pub open spec fn spec_parse_netstat(header: Seq<char>, line: Seq<char>) -> Seq<RecordView> {
    let l = spec_trim(TrimSet::Ws, line);
    digit_runs(l).map_values(|run: Seq<char>| netstat_record(header, l, run))
}

/// Parse one network statistics data line under `header`.
pub fn handle_netstat_line(header: &Vec<char>, line: &Vec<char>) -> (r: Vec<MetricRecord>)
    ensures
        rec_views(r@) == spec_parse_netstat(header@, line@),
{
    let l = trim(TrimSet::Ws, line);
    let mut masked: Vec<char> = Vec::new();
    let mut i: usize = 0;
    proof {
        assert(masked@ =~= mask_digits(l@.take(0)));
    }
    while i < l.len()
        invariant
            0 <= i <= l.len(),
            masked@ == mask_digits(l@.take(i as int)),
        decreases l.len() - i,
    {
        if !digit(l[i]) {
            masked.push('_');
        } else {
            masked.push(l[i]);
        }
        proof {
            assert(masked@ =~= mask_digits(l@.take(i as int + 1)));
        }
        i = i + 1;
    }
    proof {
        assert(l@.take(i as int) =~= l@);
    }
    let runs = nonempty_tokens(&masked, '_');
    let ghost runsv = runs.deep_view();
    let ghost target = spec_parse_netstat(header@, line@);
    proof {
        assert(runsv == digit_runs(l@));
        assert(target =~= runsv.map_values(|run: Seq<char>| netstat_record(header@, l@, run)));
    }
    let mut out: Vec<MetricRecord> = Vec::new();
    let mut k: usize = 0;
    let category_key = vec!['c', 'a', 't', 'e', 'g', 'o', 'r', 'y'];
    let desc_key = vec!['d', 'e', 's', 'c'];
    proof {
        reveal_strlit("category");
        reveal_strlit("desc");
        assert(category_key@ =~= "category"@);
        assert(desc_key@ =~= "desc"@);
    }
    while k < runs.len()
        invariant
            0 <= k <= runs.len(),
            runsv == runs.deep_view(),
            target == spec_parse_netstat(header@, line@),
            target == runsv.map_values(|run: Seq<char>| netstat_record(header@, l@, run)),
            l@ == spec_trim(TrimSet::Ws, line@),
            category_key@ == "category"@,
            desc_key@ == "desc"@,
            rec_views(out@) == target.take(k as int),
        decreases runs.len() - k,
    {
        proof {
            assert(runs@[k as int].deep_view() =~= runs@[k as int]@);
            assert(runsv[k as int] == runs@[k as int]@);
        }
        let removed = remove_first_exec(&l, &runs[k]);
        let trimmed = trim(TrimSet::Desc, &removed);
        let desc = collapse(&trimmed);
        let rec = MetricRecord {
            name: MetricName::NetstatInfo,
            labels: vec![
                Label { key: copy_chars(&category_key), value: copy_chars(header) },
                Label { key: copy_chars(&desc_key), value: desc },
            ],
            value: Value { int_part: copy_chars(&runs[k]), frac_part: Vec::new() },
        };
        let ghost rv = rec@;
        proof {
            assert(rv.labels =~= netstat_record(header@, l@, runsv[k as int]).labels);
            assert(rv.value.int_part == netstat_record(header@, l@, runsv[k as int]).value.int_part);
            assert(rv.value.frac_part =~= Seq::<char>::empty());
            assert(rv == netstat_record(header@, l@, runsv[k as int]));
            assert(rv == target[k as int]);
        }
        let ghost pre_views = rec_views(out@);
        out.push(rec);
        proof {
            assert(rec_views(out@) =~= pre_views.push(rv));
            assert(pre_views.push(rv) =~= target.take(k as int + 1));
        }
        k = k + 1;
    }
    proof {
        assert(target.take(k as int) =~= target);
    }
    out
}

} // verus!
