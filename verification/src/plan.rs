//! The file operations that a rotator asks of its caller, the plan of one
//! rotation, and the proof of what that plan does to the chain of backups.

use crate::disk::{
    apply, files_of, lemma_run_concat, lemma_run_one, lemma_run_push, lookup, orderly, run, Disk,
    Op,
};
use vstd::prelude::*;

verus! {

/// One file operation for the caller to perform. Files are named by their
/// number: `0` is the active file, `i >= 1` the backup with suffix `.i`.
/// An operation on a file that does not exist does nothing, and a failure of
/// any operation is final: the caller stops at it.
#[derive(Debug, PartialEq, Eq)]
pub enum FileOp {
    /// Write `data` at the end of the active file and flush.
    Append { data: Vec<u8> },
    /// Flush and close the handle of the active file.
    Close,
    /// Delete file `index` if it exists.
    Remove { index: usize },
    /// Move file `from` to `to` if `from` exists, replacing `to`.
    Rename { from: usize, to: usize },
    /// Copy the content of file `from` to `to` if `from` exists, replacing `to`.
    Copy { from: usize, to: usize },
    /// Cut file `index` down to no content if it exists, keeping the file itself.
    Truncate { index: usize },
    /// Open the active file for appending, creating it empty if it is missing.
    Open,
}

impl View for FileOp {
    type V = Op;

    open spec fn view(&self) -> Op {
        match *self {
            FileOp::Append { data } => Op::Append { data: data@ },
            FileOp::Close => Op::Close,
            FileOp::Remove { index } => Op::Remove { index: index as nat },
            FileOp::Rename { from, to } => Op::Rename { from: from as nat, to: to as nat },
            FileOp::Copy { from, to } => Op::Copy { from: from as nat, to: to as nat },
            FileOp::Truncate { index } => Op::Truncate { index: index as nat },
            FileOp::Open => Op::Open,
        }
    }
}

impl DeepView for FileOp {
    type V = Op;

    open spec fn deep_view(&self) -> Op {
        self@
    }
}

/// The `k`-th step of shifting a chain of `count` backups, oldest first: the
/// oldest backup is deleted, every other moves one place up.
pub open spec fn shift_op(count: nat, k: int) -> Op {
    if k == 0 {
        Op::Remove { index: count }
    } else {
        Op::Rename { from: (count - k) as nat, to: (count - k + 1) as nat }
    }
}

/// The steps that shift a chain of `count` backups, from backup `count` down
/// to backup `1`.
pub open spec fn shift_ops(count: nat) -> Seq<Op> {
    Seq::new(count, |k: int| shift_op(count, k))
}

/// What ends a rotation: the active file is copied to backup `1` and cut to
/// no content, which keeps the file itself in place for whoever reads it, and
/// is opened again.
pub open spec fn promote_ops() -> Seq<Op> {
    seq![Op::Copy { from: 0, to: 1 }, Op::Truncate { index: 0 }, Op::Open]
}

/// The plan of one rotation with `count` backups kept.
pub open spec fn rotation_plan(count: nat) -> Seq<Op> {
    seq![Op::Close] + shift_ops(count) + promote_ops()
}

/// File `j` after a rotation of `files` with `count` backups kept.
pub open spec fn rotated_entry(files: Map<nat, Seq<u8>>, count: nat, j: nat) -> Option<Seq<u8>> {
    if j == 0 {
        Some(Seq::empty())
    } else if j == 1 && files.contains_key(0) {
        Some(files[0])
    } else if j <= count {
        if j >= 2 {
            lookup(files, (j - 1) as nat)
        } else {
            None
        }
    } else {
        lookup(files, j)
    }
}

/// The files after a rotation with `count` backups kept: the active file is
/// empty, backup `1` holds what the active file held, each backup up to
/// `count` holds what the one before it held, and the files beyond `count`
/// are as they were.
pub open spec fn rotated(files: Map<nat, Seq<u8>>, count: nat) -> Map<nat, Seq<u8>> {
    files_of(|j: nat| rotated_entry(files, count, j))
}

/// File `j` after the first `k` steps of shifting `count` backups.
pub open spec fn shifted_entry(files: Map<nat, Seq<u8>>, count: nat, k: nat, j: nat) -> Option<
    Seq<u8>,
> {
    if j > count || j + k <= count {
        lookup(files, j)
    } else if j + k == count + 1 {
        None
    } else {
        lookup(files, (j - 1) as nat)
    }
}

/// The files after the first `k` steps of shifting `count` backups.
pub open spec fn shifted(files: Map<nat, Seq<u8>>, count: nat, k: nat) -> Map<nat, Seq<u8>> {
    files_of(|j: nat| shifted_entry(files, count, k, j))
}

/// The first `k` steps of the shift leave the files `shifted(.., k)`: going
/// from the oldest backup down, no step overwrites a file that has yet to move.
pub proof fn lemma_shift_prefix(disk: Disk, count: nat, k: nat)
    requires
        k <= count,
        !disk.open,
    ensures
        run(disk, shift_ops(count).take(k as int)) == (Disk {
            files: shifted(disk.files, count, k),
            open: false,
        }),
        orderly(disk, shift_ops(count).take(k as int)),
    decreases k,
{
    let ops = shift_ops(count);
    if k == 0 {
        assert(ops.take(0) =~= Seq::<Op>::empty());
        assert(shifted(disk.files, count, 0) =~= disk.files);
    } else {
        let before = (k - 1) as nat;
        lemma_shift_prefix(disk, count, before);
        let op = shift_op(count, before as int);
        assert(ops.take(k as int) =~= ops.take(before as int).push(op));
        lemma_run_push(disk, ops.take(before as int), op);
        let mid = Disk { files: shifted(disk.files, count, before), open: false };
        assert(apply(mid, op).files =~= shifted(disk.files, count, k));
    }
}

/// A rotation leaves the files `rotated(..)` and the handle open, and it
/// respects the ownership of the handle when it starts with the handle open.
pub proof fn lemma_rotation_plan(disk: Disk, count: nat)
    ensures
        run(disk, rotation_plan(count)) == (Disk {
            files: rotated(disk.files, count),
            open: true,
        }),
        disk.open ==> orderly(disk, rotation_plan(count)),
{
    let closed = Disk { files: disk.files, open: false };
    lemma_run_one(disk, Op::Close);
    lemma_shift_prefix(closed, count, count);
    assert(shift_ops(count).take(count as int) =~= shift_ops(count));
    lemma_run_concat(disk, seq![Op::Close], shift_ops(count));
    let shifted_disk = Disk { files: shifted(disk.files, count, count), open: false };
    assert(run(disk, seq![Op::Close] + shift_ops(count)) == shifted_disk);

    let copy = Op::Copy { from: 0, to: 1 };
    let cut = Op::Truncate { index: 0 };
    let none = Seq::<Op>::empty();
    assert(promote_ops() =~= none.push(copy).push(cut).push(Op::Open));
    lemma_run_push(shifted_disk, none, copy);
    lemma_run_push(shifted_disk, none.push(copy), cut);
    lemma_run_push(shifted_disk, none.push(copy).push(cut), Op::Open);
    let copied = apply(shifted_disk, copy);
    let emptied = apply(copied, cut);
    let reopened = apply(emptied, Op::Open);
    assert(run(shifted_disk, promote_ops()) == reopened);
    assert(reopened.files =~= rotated(disk.files, count));
    lemma_run_concat(disk, seq![Op::Close] + shift_ops(count), promote_ops());
}

} // verus!
