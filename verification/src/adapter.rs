//! Source adapters' pure half: classify each line of a command's captured
//! output, dispatch it to the matching parser, and collect the records and
//! the per-line parse failures. Invoking the external commands and capturing
//! their output is the surrounding program's job.

use vstd::prelude::*;
use crate::text::{TrimSet, is_digit, spec_trim, spec_split, trim, split, copy_chars, has_prefix};
use crate::record::{MetricRecord, RecordView};
use crate::parsers::{
    ParseError, rec_views, spec_parse_cpu, spec_parse_mem, spec_parse_proc, spec_parse_netstat,
    handle_cpu_line, handle_mem_line, handle_proc_line, handle_netstat_line,
};

verus! {

/// What kind of line of the process-tool output this is.
#[derive(Clone, Copy, PartialEq, Eq, Structural, Debug)]
pub enum LineClass {
    /// The aggregate CPU summary line.
    Cpu,
    /// The memory summary line.
    Mem,
    /// A process-table data row: a leading space, then a digit after
    /// whitespace.
    Proc,
    /// Anything else: headers, blanks, decorations; ignored silently.
    Other,
}

/// Classify one line of the process-tool output.
pub open spec fn spec_classify(line: Seq<char>) -> LineClass {
    if "%Cpu(s):"@.is_prefix_of(line) {
        LineClass::Cpu
    } else if "MiB Mem :"@.is_prefix_of(line) {
        LineClass::Mem
    } else if line.len() > 0 && line[0] == ' ' && spec_trim(TrimSet::Ws, line).len() > 0
        && is_digit(spec_trim(TrimSet::Ws, line)[0]) {
        LineClass::Proc
    } else {
        LineClass::Other
    }
}

/// Classify one line of the process-tool output.
pub fn classify_line(line: &Vec<char>) -> (r: LineClass)
    ensures
        r == spec_classify(line@),
{
    let cpu_prefix = vec!['%', 'C', 'p', 'u', '(', 's', ')', ':'];
    let mem_prefix = vec!['M', 'i', 'B', ' ', 'M', 'e', 'm', ' ', ':'];
    proof {
        reveal_strlit("%Cpu(s):");
        reveal_strlit("MiB Mem :");
        assert(cpu_prefix@ =~= "%Cpu(s):"@);
        assert(mem_prefix@ =~= "MiB Mem :"@);
    }
    if has_prefix(line, &cpu_prefix) {
        LineClass::Cpu
    } else if has_prefix(line, &mem_prefix) {
        LineClass::Mem
    } else if line.len() > 0 && line[0] == ' ' {
        let t = trim(TrimSet::Ws, line);
        if t.len() > 0 && '0' <= t[0] && t[0] <= '9' {
            LineClass::Proc
        } else {
            LineClass::Other
        }
    } else {
        LineClass::Other
    }
}

/// The outcome of one line of the process-tool output: the records of its
/// class's parser, no records for unrecognized lines, or a parse error.
pub open spec fn spec_handle_line(line: Seq<char>) -> Result<Seq<RecordView>, ParseError> {
    match spec_classify(line) {
        LineClass::Cpu => Ok(spec_parse_cpu(line)),
        LineClass::Mem => Ok(spec_parse_mem(line)),
        LineClass::Proc => spec_parse_proc(line),
        LineClass::Other => Ok(Seq::empty()),
    }
}

/// Classify one line of the process-tool output and run its parser.
pub fn handle_line(line: &Vec<char>) -> (r: Result<Vec<MetricRecord>, ParseError>)
    ensures
        r matches Ok(v) ==> spec_handle_line(line@) == Ok::<Seq<RecordView>, ParseError>(rec_views(v@)),
        r matches Err(e) ==> spec_handle_line(line@) == Err::<Seq<RecordView>, ParseError>(e),
{
    match classify_line(line) {
        LineClass::Cpu => Ok(handle_cpu_line(line)),
        LineClass::Mem => Ok(handle_mem_line(line)),
        LineClass::Proc => handle_proc_line(line),
        LineClass::Other => {
            let r: Vec<MetricRecord> = Vec::new();
            proof {
                assert(rec_views(r@) =~= Seq::<RecordView>::empty());
            }
            Ok(r)
        },
    }
}

/// Append copies of the records of `src` to `dst`, in order.
pub fn append_records(dst: &mut Vec<MetricRecord>, src: &Vec<MetricRecord>)
    ensures
        rec_views(final(dst)@) == rec_views(old(dst)@) + rec_views(src@),
{
    let mut i: usize = 0;
    proof {
        assert(rec_views(dst@) =~= rec_views(old(dst)@) + rec_views(src@).take(0));
    }
    while i < src.len()
        invariant
            0 <= i <= src.len(),
            rec_views(dst@) == rec_views(old(dst)@) + rec_views(src@).take(i as int),
        decreases src.len() - i,
    {
        let ghost pre = rec_views(dst@);
        let r = crate::record::copy_record(&src[i]);
        dst.push(r);
        proof {
            assert(rec_views(dst@) =~= pre.push(src@[i as int]@));
            assert(rec_views(src@).take(i as int + 1) =~= rec_views(src@).take(i as int).push(src@[i as int]@));
            assert(pre.push(src@[i as int]@)
                =~= rec_views(old(dst)@) + rec_views(src@).take(i as int + 1));
        }
        i = i + 1;
    }
    proof {
        assert(rec_views(src@).take(i as int) =~= rec_views(src@));
    }
}

/// The records and per-line errors of a whole process-tool output: line by
/// line, records of successful lines concatenated in order, errors of
/// failing lines collected in order; a failing line skips only itself.
pub open spec fn spec_collect_top(lines: Seq<Seq<char>>) -> (Seq<RecordView>, Seq<ParseError>)
    decreases lines.len(),
{
    if lines.len() == 0 {
        (Seq::empty(), Seq::empty())
    } else {
        let rest = spec_collect_top(lines.skip(1));
        match spec_handle_line(lines[0]) {
            Ok(rs) => (rs + rest.0, rest.1),
            Err(e) => (rest.0, seq![e] + rest.1),
        }
    }
}

/// Parse every line of the process-tool output.
pub fn collect_top(lines: &Vec<Vec<char>>) -> (r: (Vec<MetricRecord>, Vec<ParseError>))
    ensures
        rec_views(r.0@) == spec_collect_top(lines.deep_view()).0,
        r.1@ == spec_collect_top(lines.deep_view()).1,
{
    let ghost full = lines.deep_view();
    let mut recs: Vec<MetricRecord> = Vec::new();
    let mut errs: Vec<ParseError> = Vec::new();
    let mut i: usize = 0;
    proof {
        assert(full.skip(0) =~= full);
        assert(rec_views(recs@) =~= Seq::<RecordView>::empty());
        assert(Seq::<RecordView>::empty() + spec_collect_top(full).0 =~= spec_collect_top(full).0);
        assert(errs@ + spec_collect_top(full).1 =~= spec_collect_top(full).1);
    }
    while i < lines.len()
        invariant
            0 <= i <= lines.len(),
            full == lines.deep_view(),
            spec_collect_top(full).0 == rec_views(recs@) + spec_collect_top(full.skip(i as int)).0,
            spec_collect_top(full).1 == errs@ + spec_collect_top(full.skip(i as int)).1,
        decreases lines.len() - i,
    {
        proof {
            assert(full.skip(i as int)[0] == full[i as int]);
            assert(full.skip(i as int).skip(1) =~= full.skip(i as int + 1));
            assert(lines@[i as int].deep_view() =~= lines@[i as int]@);
            assert(full[i as int] == lines@[i as int]@);
        }
        let ghost pre_recs = rec_views(recs@);
        let ghost pre_errs = errs@;
        let ghost rest = spec_collect_top(full.skip(i as int + 1));
        match handle_line(&lines[i]) {
            Ok(rs) => {
                append_records(&mut recs, &rs);
                proof {
                    assert(spec_collect_top(full.skip(i as int))
                        == ((rec_views(rs@) + rest.0, rest.1)));
                    assert(pre_recs + (rec_views(rs@) + rest.0) =~= rec_views(recs@) + rest.0);
                }
            },
            Err(e) => {
                errs.push(e);
                proof {
                    assert(spec_collect_top(full.skip(i as int)) == ((rest.0, seq![e] + rest.1)));
                    assert(pre_errs + (seq![e] + rest.1) =~= errs@ + rest.1);
                }
            },
        }
        i = i + 1;
    }
    proof {
        assert(full.skip(i as int) =~= Seq::<Seq<char>>::empty());
        assert(rec_views(recs@) + spec_collect_top(full.skip(i as int)).0 =~= rec_views(recs@));
        assert(errs@ + spec_collect_top(full.skip(i as int)).1 =~= errs@);
    }
    (recs, errs)
}

/// A category header line of the statistics-tool output: unindented and
/// ending in a colon. Such a line is not a data line; it renames the
/// category that labels the data lines after it.
pub open spec fn spec_is_header(line: Seq<char>) -> bool {
    line.len() >= 1 && line[0] != ' ' && line.last() == ':'
}

/// The records of a whole statistics-tool output: empty lines are skipped,
/// header lines set the current category (initially empty), every other
/// line is parsed as a data line under the current category.
pub open spec fn spec_collect_netstat(header: Seq<char>, lines: Seq<Seq<char>>) -> Seq<RecordView>
    decreases lines.len(),
{
    if lines.len() == 0 {
        Seq::empty()
    } else if lines[0].len() == 0 {
        spec_collect_netstat(header, lines.skip(1))
    } else if spec_is_header(lines[0]) {
        spec_collect_netstat(lines[0].drop_last(), lines.skip(1))
    } else {
        spec_parse_netstat(header, lines[0]) + spec_collect_netstat(header, lines.skip(1))
    }
}

/// Parse every line of the statistics-tool output, starting with an empty
/// category.
pub fn collect_netstat(lines: &Vec<Vec<char>>) -> (r: Vec<MetricRecord>)
    ensures
        rec_views(r@) == spec_collect_netstat(Seq::empty(), lines.deep_view()),
{
    let ghost full = lines.deep_view();
    let mut recs: Vec<MetricRecord> = Vec::new();
    let mut header: Vec<char> = Vec::new();
    let mut i: usize = 0;
    proof {
        assert(full.skip(0) =~= full);
        assert(rec_views(recs@) =~= Seq::<RecordView>::empty());
        assert(Seq::<RecordView>::empty() + spec_collect_netstat(header@, full)
            =~= spec_collect_netstat(header@, full));
        assert(header@ =~= Seq::<char>::empty());
    }
    while i < lines.len()
        invariant
            0 <= i <= lines.len(),
            full == lines.deep_view(),
            spec_collect_netstat(Seq::empty(), full)
                == rec_views(recs@) + spec_collect_netstat(header@, full.skip(i as int)),
        decreases lines.len() - i,
    {
        proof {
            assert(full.skip(i as int)[0] == full[i as int]);
            assert(full.skip(i as int).skip(1) =~= full.skip(i as int + 1));
            assert(lines@[i as int].deep_view() =~= lines@[i as int]@);
            assert(full[i as int] == lines@[i as int]@);
        }
        let line = &lines[i];
        if line.len() == 0 {
        } else if line[0] != ' ' && line[line.len() - 1] == ':' {
            let mut h = copy_chars(line);
            let _last = h.pop();
            proof {
                assert(h@ =~= full[i as int].drop_last());
            }
            header = h;
        } else {
            let ghost pre_recs = rec_views(recs@);
            let rs = handle_netstat_line(&header, line);
            append_records(&mut recs, &rs);
            proof {
                assert(spec_collect_netstat(header@, full.skip(i as int))
                    == spec_parse_netstat(header@, full[i as int])
                        + spec_collect_netstat(header@, full.skip(i as int + 1)));
                assert(pre_recs + (rec_views(rs@) + spec_collect_netstat(header@, full.skip(i as int + 1)))
                    =~= rec_views(recs@) + spec_collect_netstat(header@, full.skip(i as int + 1)));
            }
        }
        i = i + 1;
    }
    proof {
        assert(full.skip(i as int) =~= Seq::<Seq<char>>::empty());
        assert(rec_views(recs@) + spec_collect_netstat(header@, full.skip(i as int)) =~= rec_views(recs@));
    }
    recs
}

/// Split a whole captured process-tool output into lines and parse it.
pub fn collect_top_text(text: &Vec<char>) -> (r: (Vec<MetricRecord>, Vec<ParseError>))
    ensures
        rec_views(r.0@) == spec_collect_top(spec_split(text@, '\n')).0,
        r.1@ == spec_collect_top(spec_split(text@, '\n')).1,
{
    let lines = split(text, '\n');
    collect_top(&lines)
}

/// Split a whole captured statistics-tool output into lines and parse it.
pub fn collect_netstat_text(text: &Vec<char>) -> (r: Vec<MetricRecord>)
    ensures
        rec_views(r@) == spec_collect_netstat(Seq::empty(), spec_split(text@, '\n')),
{
    let lines = split(text, '\n');
    collect_netstat(&lines)
}

} // verus!
