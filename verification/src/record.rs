//! Per-process swap records and the per-candidate collection step.
//!
//! A candidate process is identified by a numeric directory entry name and
//! carries two optional resources: its memory-map report and its raw
//! command-line buffer (`None` stands for a resource that could not be
//! read).  A candidate yields a record exactly when its report is readable
//! and its swap total is positive; an unreadable command line degrades the
//! record to an empty command rather than dropping it.

use vstd::prelude::*;

verus! {

use crate::cmdline::{spec_chop_null, chop_null};
use crate::report::{spec_is_digits, spec_digits_value, spec_swap_result, parse_digits,
    get_swap_for};

/// One unit of output: a process identifier, its positive swap usage in
/// bytes, and its decoded command line.
pub struct ProcessSwapRecord {
    pub pid: u64,
    pub swap_bytes: i64,
    pub command: Vec<u8>,
}

/// The mathematical view of a record.
pub struct RecordModel {
    pub pid: u64,
    pub swap_bytes: i64,
    pub command: Seq<u8>,
}

impl View for ProcessSwapRecord {
    type V = RecordModel;

    open spec fn view(&self) -> RecordModel {
        RecordModel { pid: self.pid, swap_bytes: self.swap_bytes, command: self.command@ }
    }
}

/// A candidate process as the scan sees it: its identifier and the contents
/// of its two per-process resources, each `None` when unreadable.
pub struct CandidateModel {
    pub pid: u64,
    pub smaps: Option<Seq<u8>>,
    pub cmdline: Option<Seq<u8>>,
}

/// The contents of an optional raw buffer.
pub open spec fn spec_buffer_view(o: Option<Vec<u8>>) -> Option<Seq<u8>> {
    match o {
        Some(v) => Some(v@),
        None => None,
    }
}

/// The record a candidate yields, if any: none when the report is
/// unreadable or its swap total is zero, negative or unrepresentable;
/// otherwise the pid, the total in bytes, and the decoded command line
/// (empty when the command-line resource is unreadable).
pub open spec fn spec_collect(c: CandidateModel) -> Option<RecordModel> {
    match c.smaps {
        None => None,
        Some(rep) => match spec_swap_result(rep) {
            Some(v) => if v > 0 {
                Some(RecordModel {
                    pid: c.pid,
                    swap_bytes: v as i64,
                    command: match c.cmdline {
                        None => Seq::empty(),
                        Some(cl) => spec_chop_null(cl),
                    },
                })
            } else {
                None
            },
            None => None,
        },
    }
}

/// Decide one candidate: parse its memory-map report, drop it silently when
/// the report is unreadable or shows no positive swap usage, and otherwise
/// emit its record with the decoded command line.
pub fn collect_record(pid: u64, smaps: Option<Vec<u8>>, cmdline: Option<Vec<u8>>) -> (r:
    Option<ProcessSwapRecord>)
    ensures
        ({
            let c = CandidateModel {
                pid: pid,
                smaps: spec_buffer_view(smaps),
                cmdline: spec_buffer_view(cmdline),
            };
            match r {
                Some(rec) => spec_collect(c) == Some(rec@),
                None => spec_collect(c) is None,
            }
        }),
{
    match smaps {
        None => None,
        Some(rep) => match get_swap_for(rep.as_slice()) {
            None => None,
            Some(v) => if v > 0 {
                let command = match cmdline {
                    None => Vec::new(),
                    Some(cl) => chop_null(cl),
                };
                Some(ProcessSwapRecord { pid, swap_bytes: v, command })
            } else {
                None
            },
        },
    }
}

/// The records an enumeration of candidates yields, in enumeration order.
pub open spec fn spec_collect_all(cs: Seq<CandidateModel>) -> Seq<RecordModel>
    decreases cs.len(),
{
    if cs.len() == 0 {
        Seq::empty()
    } else {
        match spec_collect(cs[0]) {
            Some(r) => seq![r] + spec_collect_all(cs.skip(1)),
            None => spec_collect_all(cs.skip(1)),
        }
    }
}

/// Law: a candidate whose memory-map resource cannot be opened contributes
/// nothing — the records collected from an enumeration that contains it are
/// exactly those collected from the enumeration without it.
pub proof fn lemma_unreadable_candidate_dropped(cs: Seq<CandidateModel>, i: int)
    requires
        0 <= i < cs.len(),
        cs[i].smaps is None,
    ensures
        spec_collect_all(cs.remove(i)) == spec_collect_all(cs),
    decreases cs.len(),
{
    if i == 0 {
        assert(cs.remove(0) =~= cs.skip(1));
    } else {
        assert(cs.remove(i)[0] == cs[0]);
        assert(cs.remove(i).skip(1) =~= cs.skip(1).remove(i - 1));
        lemma_unreadable_candidate_dropped(cs.skip(1), i - 1);
    }
}

/// Interpret a directory entry name as a candidate process identifier: one
/// or more decimal digit bytes whose value fits an unsigned 64-bit integer.
/// Every other name is silently skipped by the scan.
pub open spec fn spec_parse_pid(name: Seq<u8>) -> Option<int> {
    if spec_is_digits(name) && spec_digits_value(name) <= u64::MAX {
        Some(spec_digits_value(name))
    } else {
        None
    }
}

/// Parse a directory entry name as a process identifier.
pub fn parse_pid(name: &[u8]) -> (r: Option<u64>)
    ensures
        spec_parse_pid(name@) is Some ==> r == Some(spec_parse_pid(name@)->Some_0 as u64),
        spec_parse_pid(name@) is None ==> r is None,
{
    proof {
        assert(name@.subrange(0, name@.len() as int) =~= name@);
    }
    match parse_digits(name, 0, name.len(), 0xffff_ffff_ffff_ffff) {
        Some(v) => Some(v as u64),
        None => None,
    }
}

} // verus!
