//! The rotator: the counters of the active file, the thresholds, and the
//! decisions that follow from them.
//!
//! A rotator touches no file. Each call says what the caller has to do, as a
//! plan of file operations to perform in order, and the rotator's counters
//! are those of the active file once the plan has been carried out.

use crate::disk::Op;
use crate::naming::{file_name, file_path};
use crate::plan::{promote_ops, rotation_plan, shift_op, shift_ops, FileOp};
use crate::scan::{count_lines, newline_count, NEWLINE};
use vstd::prelude::*;
use vstd::slice::slice_to_vec;
use vstd::string::StringSliceAdditionalSpecFns;

verus! {

/// A rotator as mathematical values.
pub struct RotatorView {
    /// The path of the active file.
    pub base_path: Seq<char>,
    /// The size in bytes beyond which the active file is rotated; `0` for no
    /// such limit.
    pub max_size: nat,
    /// The number of lines at which the active file is rotated, if any.
    pub max_lines: Option<nat>,
    /// The number of backups kept.
    pub max_count: nat,
    /// The bytes in the active file.
    pub size: nat,
    /// The lines in the active file.
    pub lines: nat,
}

/// What is written for `line`: its bytes and the byte that ends a line.
pub open spec fn record(line: Seq<u8>) -> Seq<u8> {
    line.push(NEWLINE)
}

/// Whether the counters have crossed a threshold: the size is over its limit,
/// or the number of lines has reached its limit.
pub open spec fn rotation_due(v: RotatorView) -> bool {
    ||| v.max_size > 0 && v.size > v.max_size
    ||| v.max_lines is Some && v.lines >= v.max_lines->0
}

/// The rotator once the record of `line` is in the active file.
pub open spec fn written(v: RotatorView, line: Seq<u8>) -> RotatorView {
    RotatorView { size: v.size + line.len() + 1, lines: v.lines + 1, ..v }
}

/// The rotator on an empty active file.
pub open spec fn emptied(v: RotatorView) -> RotatorView {
    RotatorView { size: 0, lines: 0, ..v }
}

/// The rotator after a line has been handled: the line is counted, and if
/// that crosses a threshold the counters start again.
pub open spec fn write_outcome(v: RotatorView, line: Seq<u8>) -> RotatorView {
    if rotation_due(written(v, line)) {
        emptied(v)
    } else {
        written(v, line)
    }
}

/// The plan for a line: its record is written first, and a rotation follows
/// if the counters have then crossed a threshold.
pub open spec fn write_plan(v: RotatorView, line: Seq<u8>) -> Seq<Op> {
    let append = seq![Op::Append { data: record(line) }];
    if rotation_due(written(v, line)) {
        append + rotation_plan(v.max_count)
    } else {
        append
    }
}

/// Whether the counters of `v` can take the record of `line`: whether both
/// still fit their 64 bits with the line counted.
pub open spec fn has_room(v: RotatorView, line: Seq<u8>) -> bool {
    v.size + line.len() + 1 <= u64::MAX && v.lines + 1 <= u64::MAX
}

/// The thresholds and counters of one log file and its chain of backups.
#[derive(Debug)]
pub struct LogRotator {
    base_path: String,
    max_size: u64,
    max_lines: Option<u64>,
    max_count: usize,
    current_size: u64,
    current_lines: u64,
}

impl View for LogRotator {
    type V = RotatorView;

    closed spec fn view(&self) -> RotatorView {
        RotatorView {
            base_path: self.base_path@,
            max_size: self.max_size as nat,
            max_lines: match self.max_lines {
                Some(limit) => Some(limit as nat),
                None => None,
            },
            max_count: self.max_count as nat,
            size: self.current_size as nat,
            lines: self.current_lines as nat,
        }
    }
}

impl LogRotator {
    /// A rotator for the file at `path`, which holds `existing` when the
    /// rotator takes it over (nothing, for a new file). The counters start at
    /// what the file holds, so that the thresholds count its content too.
    pub fn new(
        path: &str,
        max_size: u64,
        max_lines: Option<u64>,
        max_count: usize,
        existing: &[u8],
    ) -> (rotator: Self)
        ensures
            rotator@ == (RotatorView {
                base_path: path@,
                max_size: max_size as nat,
                max_lines: match max_lines {
                    Some(limit) => Some(limit as nat),
                    None => None,
                },
                max_count: max_count as nat,
                size: existing@.len(),
                lines: newline_count(existing@),
            }),
    {
        let current_size = existing.len() as u64;
        let current_lines = if current_size > 0 {
            count_lines(existing)
        } else {
            0
        };
        LogRotator {
            base_path: path.to_owned(),
            max_size,
            max_lines,
            max_count,
            current_size,
            current_lines,
        }
    }

    /// Handles one line: the plan writes the line and a newline to the
    /// active file, and then rotates if the counters, with this line in them,
    /// have crossed a threshold. The thresholds are tested after the line is
    /// counted, so the line is in the file that is archived and never lost.
    pub fn write_line(&mut self, line: &str) -> (plan: Vec<FileOp>)
        requires
            has_room(old(self)@, line.spec_bytes()),
        ensures
            final(self)@ == write_outcome(old(self)@, line.spec_bytes()),
            plan.deep_view() == write_plan(old(self)@, line.spec_bytes()),
    {
        let line_bytes = line.as_bytes();
        let line_len = line_bytes.len() as u64;
        let line_with_newline_len = line_len + 1;

        let mut data = slice_to_vec(line_bytes);
        data.push(NEWLINE);
        let mut plan: Vec<FileOp> = Vec::new();
        plan.push(FileOp::Append { data });
        self.current_size = self.current_size + line_with_newline_len;
        self.current_lines = self.current_lines + 1;
        assert(plan.deep_view() =~= seq![Op::Append { data: record(line.spec_bytes()) }]);

        let size_exceeded = self.max_size > 0 && self.current_size > self.max_size;
        let lines_exceeded = match self.max_lines {
            Some(limit) => self.current_lines >= limit,
            None => false,
        };

        if size_exceeded || lines_exceeded {
            let ghost append = plan.deep_view();
            let mut rotation = self.rotate();
            plan.append(&mut rotation);
            assert(plan.deep_view() =~= append + rotation_plan(old(self)@.max_count));
        }
        plan
    }

    /// Rotates: the plan closes the active file, deletes the oldest backup
    /// and moves every other one place up, from the oldest down, copies the
    /// active file to backup `1`, cuts it to no content and opens it again.
    /// The counters start again at zero.
    pub fn rotate(&mut self) -> (plan: Vec<FileOp>)
        ensures
            final(self)@ == emptied(old(self)@),
            plan.deep_view() == rotation_plan(old(self)@.max_count),
    {
        let mut plan: Vec<FileOp> = Vec::new();
        plan.push(FileOp::Close);

        let ghost count = self.max_count as nat;
        let mut i: usize = self.max_count;
        while i > 0
            invariant
                i <= self.max_count,
                count == self.max_count,
                plan.deep_view() =~= seq![Op::Close] + shift_ops(count).take(count - i),
            decreases i,
        {
            let ghost before = plan.deep_view();
            if i == self.max_count {
                plan.push(FileOp::Remove { index: i });
            } else {
                plan.push(FileOp::Rename { from: i, to: i + 1 });
            }
            proof {
                let k = count - i;
                assert(plan.deep_view() =~= before.push(shift_op(count, k)));
                assert(shift_ops(count).take(k + 1) =~= shift_ops(count).take(k).push(
                    shift_op(count, k),
                ));
            }
            i = i - 1;
        }

        let ghost shifted = plan.deep_view();
        plan.push(FileOp::Copy { from: 0, to: 1 });
        plan.push(FileOp::Truncate { index: 0 });
        plan.push(FileOp::Open);
        proof {
            assert(shift_ops(count).take(count as int) =~= shift_ops(count));
            assert(plan.deep_view() =~= shifted + promote_ops());
        }

        self.current_size = 0;
        self.current_lines = 0;
        plan
    }

    /// Handles one line as `write_line` does if the counters have room for
    /// it, and otherwise hands out no plan and changes nothing.
    pub fn try_write_line(&mut self, line: &str) -> (plan: Option<Vec<FileOp>>)
        ensures
            plan is Some == has_room(old(self)@, line.spec_bytes()),
            plan is Some ==> final(self)@ == write_outcome(old(self)@, line.spec_bytes())
                && plan->0.deep_view() == write_plan(old(self)@, line.spec_bytes()),
            plan is None ==> final(self)@ == old(self)@,
    {
        let line_len = line.as_bytes().len() as u64;
        if line_len < u64::MAX - self.current_size && self.current_lines < u64::MAX {
            Some(self.write_line(line))
        } else {
            None
        }
    }

    /// The path of file `index` of the chain: of the active file for `0`, of
    /// backup `index` otherwise.
    pub fn file_path(&self, index: usize) -> (path: String)
        ensures
            path@ == file_name(self@.base_path, index as nat),
    {
        file_path(self.base_path.as_str(), index)
    }

    /// The path of the active file.
    pub fn base_path(&self) -> (path: &str)
        ensures
            path@ == self@.base_path,
    {
        self.base_path.as_str()
    }

    /// The size limit in bytes; `0` for none.
    pub fn max_size(&self) -> (limit: u64)
        ensures
            limit == self@.max_size,
    {
        self.max_size
    }

    /// The limit on the number of lines, if any.
    pub fn max_lines(&self) -> (limit: Option<u64>)
        ensures
            limit is Some == self@.max_lines is Some,
            limit is Some ==> limit->0 == self@.max_lines->0,
    {
        self.max_lines
    }

    /// The number of backups kept.
    pub fn max_count(&self) -> (count: usize)
        ensures
            count == self@.max_count,
    {
        self.max_count
    }

    /// The bytes in the active file.
    pub fn current_size(&self) -> (size: u64)
        ensures
            size == self@.size,
    {
        self.current_size
    }

    /// The lines in the active file.
    pub fn current_lines(&self) -> (lines: u64)
        ensures
            lines == self@.lines,
    {
        self.current_lines
    }
}

} // verus!
