//! A mathematical model of the files that a rotator manages, and of what each
//! file operation does to them.
//!
//! The files are numbered: `0` is the active file, `i >= 1` is the backup with
//! suffix `.i`. A file that does not exist has no entry in the model.

use vstd::prelude::*;

verus! {

/// What a file operation means, with its data as mathematical values.
pub enum Op {
    /// Write `data` at the end of the active file and flush.
    Append { data: Seq<u8> },
    /// Flush and close the handle of the active file.
    Close,
    /// Delete file `index` if it exists.
    Remove { index: nat },
    /// Move file `from` to `to` if `from` exists, replacing `to`.
    Rename { from: nat, to: nat },
    /// Copy the content of file `from` to `to` if `from` exists, replacing `to`.
    Copy { from: nat, to: nat },
    /// Cut file `index` down to no content if it exists.
    Truncate { index: nat },
    /// Open the active file for appending, creating it empty if it is missing.
    Open,
}

/// The managed files and whether the handle of the active file is open.
pub struct Disk {
    pub files: Map<nat, Seq<u8>>,
    pub open: bool,
}

/// The content of file `index`; a missing file has none.
pub open spec fn content(files: Map<nat, Seq<u8>>, index: nat) -> Seq<u8> {
    if files.contains_key(index) {
        files[index]
    } else {
        Seq::empty()
    }
}

/// The file `index` as an option: `None` where it does not exist.
pub open spec fn lookup(files: Map<nat, Seq<u8>>, index: nat) -> Option<Seq<u8>> {
    if files.contains_key(index) {
        Some(files[index])
    } else {
        None
    }
}

/// The files that exist exactly where `entry` gives a content.
pub open spec fn files_of(entry: spec_fn(nat) -> Option<Seq<u8>>) -> Map<nat, Seq<u8>> {
    Map::new(|j: nat| entry(j) is Some, |j: nat| entry(j)->0)
}

/// The disk after `op`.
pub open spec fn apply(disk: Disk, op: Op) -> Disk {
    match op {
        Op::Append { data } => Disk {
            files: disk.files.insert(0, content(disk.files, 0) + data),
            open: disk.open,
        },
        Op::Close => Disk { files: disk.files, open: false },
        Op::Remove { index } => Disk { files: disk.files.remove(index), open: disk.open },
        Op::Rename { from, to } => if disk.files.contains_key(from) {
            Disk { files: disk.files.remove(from).insert(to, disk.files[from]), open: disk.open }
        } else {
            disk
        },
        Op::Copy { from, to } => if disk.files.contains_key(from) {
            Disk { files: disk.files.insert(to, disk.files[from]), open: disk.open }
        } else {
            disk
        },
        Op::Truncate { index } => if disk.files.contains_key(index) {
            Disk { files: disk.files.insert(index, Seq::empty()), open: disk.open }
        } else {
            disk
        },
        Op::Open => Disk {
            files: if disk.files.contains_key(0) {
                disk.files
            } else {
                disk.files.insert(0, Seq::empty())
            },
            open: true,
        },
    }
}

/// Whether `op` respects the ownership of the handle: writing and closing need
/// the handle, and the files are only rearranged or reopened without it.
pub open spec fn permitted(disk: Disk, op: Op) -> bool {
    match op {
        Op::Append { .. } => disk.open,
        Op::Close => disk.open,
        _ => !disk.open,
    }
}

/// The disk after the operations of `ops`, first to last.
pub open spec fn run(disk: Disk, ops: Seq<Op>) -> Disk
    decreases ops.len(),
{
    if ops.len() == 0 {
        disk
    } else {
        apply(run(disk, ops.drop_last()), ops.last())
    }
}

/// Whether each operation of `ops` is permitted at the point where it runs.
pub open spec fn orderly(disk: Disk, ops: Seq<Op>) -> bool
    decreases ops.len(),
{
    if ops.len() == 0 {
        true
    } else {
        orderly(disk, ops.drop_last()) && permitted(run(disk, ops.drop_last()), ops.last())
    }
}

/// Running one more operation applies it to the disk that the others left.
pub proof fn lemma_run_push(disk: Disk, ops: Seq<Op>, op: Op)
    ensures
        run(disk, ops.push(op)) == apply(run(disk, ops), op),
        orderly(disk, ops.push(op)) == (orderly(disk, ops) && permitted(run(disk, ops), op)),
{
    assert(ops.push(op).drop_last() =~= ops);
}

/// Running a single operation applies it.
pub proof fn lemma_run_one(disk: Disk, op: Op)
    ensures
        run(disk, seq![op]) == apply(disk, op),
        orderly(disk, seq![op]) == permitted(disk, op),
{
    assert(seq![op] =~= Seq::<Op>::empty().push(op));
    lemma_run_push(disk, Seq::empty(), op);
}

/// Running two plans one after the other is running their concatenation.
pub proof fn lemma_run_concat(disk: Disk, first: Seq<Op>, second: Seq<Op>)
    ensures
        run(disk, first + second) == run(run(disk, first), second),
        orderly(disk, first + second) == (orderly(disk, first) && orderly(
            run(disk, first),
            second,
        )),
    decreases second.len(),
{
    if second.len() == 0 {
        assert(first + second =~= first);
    } else {
        lemma_run_concat(disk, first, second.drop_last());
        assert((first + second).drop_last() =~= first + second.drop_last());
    }
}

} // verus!
