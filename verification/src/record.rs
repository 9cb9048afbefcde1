//! Metric records: a fixed metric name, a label list, and a decimal value.

use vstd::prelude::*;
use crate::value::{Value, ValueView};
use crate::text::eq_chars;

verus! {

/// The fixed enumeration of metric identifiers; no dynamic names exist.
#[derive(Clone, Copy, PartialEq, Eq, Structural, Debug)]
pub enum MetricName {
    CpuUser,
    CpuIdle,
    CpuSystem,
    CpuNice,
    MemTotal,
    MemFree,
    MemUsed,
    MemBuffered,
    ProcCpu,
    ProcMem,
    NetstatInfo,
}

/// The wire identifier of each metric name.
pub open spec fn spec_name_str(n: MetricName) -> Seq<char> {
    match n {
        MetricName::CpuUser => "cpu_user"@,
        MetricName::CpuIdle => "cpu_idle"@,
        MetricName::CpuSystem => "cpu_system"@,
        MetricName::CpuNice => "cpu_nice"@,
        MetricName::MemTotal => "mem_total"@,
        MetricName::MemFree => "mem_free"@,
        MetricName::MemUsed => "mem_used"@,
        MetricName::MemBuffered => "mem_buffered"@,
        MetricName::ProcCpu => "proc_cpu"@,
        MetricName::ProcMem => "proc_mem"@,
        MetricName::NetstatInfo => "netstat_info"@,
    }
}

/// Build the wire identifier of `n` as a character vector.
pub fn name_chars(n: MetricName) -> (r: Vec<char>)
    ensures
        r@ == spec_name_str(n),
{
    match n {
        MetricName::CpuUser => {
            let v = vec!['c', 'p', 'u', '_', 'u', 's', 'e', 'r'];
            proof { reveal_strlit("cpu_user"); assert(v@ =~= "cpu_user"@); }
            v
        },
        MetricName::CpuIdle => {
            let v = vec!['c', 'p', 'u', '_', 'i', 'd', 'l', 'e'];
            proof { reveal_strlit("cpu_idle"); assert(v@ =~= "cpu_idle"@); }
            v
        },
        MetricName::CpuSystem => {
            let v = vec!['c', 'p', 'u', '_', 's', 'y', 's', 't', 'e', 'm'];
            proof { reveal_strlit("cpu_system"); assert(v@ =~= "cpu_system"@); }
            v
        },
        MetricName::CpuNice => {
            let v = vec!['c', 'p', 'u', '_', 'n', 'i', 'c', 'e'];
            proof { reveal_strlit("cpu_nice"); assert(v@ =~= "cpu_nice"@); }
            v
        },
        MetricName::MemTotal => {
            let v = vec!['m', 'e', 'm', '_', 't', 'o', 't', 'a', 'l'];
            proof { reveal_strlit("mem_total"); assert(v@ =~= "mem_total"@); }
            v
        },
        MetricName::MemFree => {
            let v = vec!['m', 'e', 'm', '_', 'f', 'r', 'e', 'e'];
            proof { reveal_strlit("mem_free"); assert(v@ =~= "mem_free"@); }
            v
        },
        MetricName::MemUsed => {
            let v = vec!['m', 'e', 'm', '_', 'u', 's', 'e', 'd'];
            proof { reveal_strlit("mem_used"); assert(v@ =~= "mem_used"@); }
            v
        },
        MetricName::MemBuffered => {
            let v = vec!['m', 'e', 'm', '_', 'b', 'u', 'f', 'f', 'e', 'r', 'e', 'd'];
            proof { reveal_strlit("mem_buffered"); assert(v@ =~= "mem_buffered"@); }
            v
        },
        MetricName::ProcCpu => {
            let v = vec!['p', 'r', 'o', 'c', '_', 'c', 'p', 'u'];
            proof { reveal_strlit("proc_cpu"); assert(v@ =~= "proc_cpu"@); }
            v
        },
        MetricName::ProcMem => {
            let v = vec!['p', 'r', 'o', 'c', '_', 'm', 'e', 'm'];
            proof { reveal_strlit("proc_mem"); assert(v@ =~= "proc_mem"@); }
            v
        },
        MetricName::NetstatInfo => {
            let v = vec!['n', 'e', 't', 's', 't', 'a', 't', '_', 'i', 'n', 'f', 'o'];
            proof { reveal_strlit("netstat_info"); assert(v@ =~= "netstat_info"@); }
            v
        },
    }
}

/// The metric name whose wire identifier is `s`, if any.
pub open spec fn spec_name_of(s: Seq<char>) -> Option<MetricName> {
    if s == spec_name_str(MetricName::CpuUser) { Some(MetricName::CpuUser) }
    else if s == spec_name_str(MetricName::CpuIdle) { Some(MetricName::CpuIdle) }
    else if s == spec_name_str(MetricName::CpuSystem) { Some(MetricName::CpuSystem) }
    else if s == spec_name_str(MetricName::CpuNice) { Some(MetricName::CpuNice) }
    else if s == spec_name_str(MetricName::MemTotal) { Some(MetricName::MemTotal) }
    else if s == spec_name_str(MetricName::MemFree) { Some(MetricName::MemFree) }
    else if s == spec_name_str(MetricName::MemUsed) { Some(MetricName::MemUsed) }
    else if s == spec_name_str(MetricName::MemBuffered) { Some(MetricName::MemBuffered) }
    else if s == spec_name_str(MetricName::ProcCpu) { Some(MetricName::ProcCpu) }
    else if s == spec_name_str(MetricName::ProcMem) { Some(MetricName::ProcMem) }
    else if s == spec_name_str(MetricName::NetstatInfo) { Some(MetricName::NetstatInfo) }
    else { None }
}

/// Recognize a wire identifier.
pub fn parse_name(s: &Vec<char>) -> (r: Option<MetricName>)
    ensures
        r == spec_name_of(s@),
{
    if eq_chars(s, &name_chars(MetricName::CpuUser)) { Some(MetricName::CpuUser) }
    else if eq_chars(s, &name_chars(MetricName::CpuIdle)) { Some(MetricName::CpuIdle) }
    else if eq_chars(s, &name_chars(MetricName::CpuSystem)) { Some(MetricName::CpuSystem) }
    else if eq_chars(s, &name_chars(MetricName::CpuNice)) { Some(MetricName::CpuNice) }
    else if eq_chars(s, &name_chars(MetricName::MemTotal)) { Some(MetricName::MemTotal) }
    else if eq_chars(s, &name_chars(MetricName::MemFree)) { Some(MetricName::MemFree) }
    else if eq_chars(s, &name_chars(MetricName::MemUsed)) { Some(MetricName::MemUsed) }
    else if eq_chars(s, &name_chars(MetricName::MemBuffered)) { Some(MetricName::MemBuffered) }
    else if eq_chars(s, &name_chars(MetricName::ProcCpu)) { Some(MetricName::ProcCpu) }
    else if eq_chars(s, &name_chars(MetricName::ProcMem)) { Some(MetricName::ProcMem) }
    else if eq_chars(s, &name_chars(MetricName::NetstatInfo)) { Some(MetricName::NetstatInfo) }
    else { None }
}

/// Every wire identifier names back its metric.
pub proof fn lemma_name_round_trip(n: MetricName)
    ensures
        spec_name_of(spec_name_str(n)) == Some(n),
{
    reveal_strlit("cpu_user");
    reveal_strlit("cpu_idle");
    reveal_strlit("cpu_system");
    reveal_strlit("cpu_nice");
    reveal_strlit("mem_total");
    reveal_strlit("mem_free");
    reveal_strlit("mem_used");
    reveal_strlit("mem_buffered");
    reveal_strlit("proc_cpu");
    reveal_strlit("proc_mem");
    reveal_strlit("netstat_info");
    assert("cpu_user"@[0] == 'c' && "cpu_user"@[4] == 'u');
    assert("cpu_idle"@[0] == 'c' && "cpu_idle"@[4] == 'i');
    assert("cpu_nice"@[0] == 'c' && "cpu_nice"@[4] == 'n');
    assert("cpu_system"@.len() == 10);
    assert("mem_total"@.len() == 9);
    assert("mem_free"@[0] == 'm' && "mem_free"@[4] == 'f');
    assert("mem_used"@[0] == 'm' && "mem_used"@[4] == 'u');
    assert("mem_buffered"@[0] == 'm' && "mem_buffered"@.len() == 12);
    assert("proc_cpu"@[0] == 'p' && "proc_cpu"@[5] == 'c');
    assert("proc_mem"@[0] == 'p' && "proc_mem"@[5] == 'm');
    assert("netstat_info"@[0] == 'n' && "netstat_info"@.len() == 12);
}

/// One label: a key and a value, both character strings.
#[derive(Debug, Clone, PartialEq, Eq)]
pub struct Label {
    pub key: Vec<char>,
    pub value: Vec<char>,
}

/// The mathematical view of a label.
pub struct LabelView {
    pub key: Seq<char>,
    pub value: Seq<char>,
}

impl View for Label {
    type V = LabelView;

    open spec fn view(&self) -> LabelView {
        LabelView { key: self.key@, value: self.value@ }
    }
}

/// One metric record: name, label list, decimal value.
#[derive(Debug, Clone, PartialEq, Eq)]
pub struct MetricRecord {
    pub name: MetricName,
    pub labels: Vec<Label>,
    pub value: Value,
}

/// The mathematical view of a metric record.
pub struct RecordView {
    pub name: MetricName,
    pub labels: Seq<LabelView>,
    pub value: ValueView,
}

impl View for MetricRecord {
    type V = RecordView;

    open spec fn view(&self) -> RecordView {
        RecordView {
            name: self.name,
            labels: self.labels@.map_values(|l: Label| l@),
            value: self.value@,
        }
    }
}

/// Copy one label.
pub fn copy_label(l: &Label) -> (r: Label)
    ensures
        r@ == l@,
{
    Label {
        key: crate::text::copy_chars(&l.key),
        value: crate::text::copy_chars(&l.value),
    }
}

/// Copy one metric record.
pub fn copy_record(r: &MetricRecord) -> (out: MetricRecord)
    ensures
        out@ == r@,
{
    let mut labels: Vec<Label> = Vec::new();
    let mut i: usize = 0;
    while i < r.labels.len()
        invariant
            0 <= i <= r.labels.len(),
            labels@.len() == i,
            forall|k: int| 0 <= k < i ==> labels@[k]@ == r.labels@[k]@,
        decreases r.labels.len() - i,
    {
        let l = copy_label(&r.labels[i]);
        labels.push(l);
        i = i + 1;
    }
    proof {
        assert(labels@.map_values(|l: Label| l@)
            =~= r.labels@.map_values(|l: Label| l@));
    }
    let out = MetricRecord {
        name: r.name,
        labels,
        value: Value {
            int_part: crate::text::copy_chars(&r.value.int_part),
            frac_part: crate::text::copy_chars(&r.value.frac_part),
        },
    };
    proof {
        assert(out@ == r@);
    }
    out
}

/// A scalar record: a name and a value, with no labels.
pub open spec fn scalar(n: MetricName, v: ValueView) -> RecordView {
    RecordView { name: n, labels: Seq::empty(), value: v }
}

/// Build a scalar (label-less) record.
pub fn scalar_record(n: MetricName, v: Value) -> (r: MetricRecord)
    ensures
        r@ == scalar(n, v@),
{
    let r = MetricRecord { name: n, labels: Vec::new(), value: v };
    proof {
        assert(r@.labels =~= Seq::<LabelView>::empty());
        assert(r@ == scalar(n, v@));
    }
    r
}

} // verus!
