//! What holds of a rotator over whole runs: which lines end up in which file,
//! when a rotation happens, and what the chain of backups holds after many.
//!
//! A run is modelled by the plans that the rotator hands out, carried out on
//! a model disk in the order in which they were handed out.

use crate::disk::{apply, content, lemma_run_concat, lemma_run_one, lookup, orderly, run, Disk, Op};
use crate::plan::{lemma_rotation_plan, rotated, rotated_entry, rotation_plan};
use crate::rotator::{
    emptied, record, rotation_due, write_outcome, write_plan, written, RotatorView,
};
use crate::scan::{newline_count, NEWLINE};
use vstd::prelude::*;

verus! {

/// The state between two calls: the handle is open on an existing active file.
pub open spec fn ready(disk: Disk) -> bool {
    disk.open && disk.files.contains_key(0)
}

/// Whether the counters of `v` are those of the active file of `disk`.
pub open spec fn tracks(v: RotatorView, disk: Disk) -> bool {
    &&& ready(disk)
    &&& v.size == disk.files[0].len()
    &&& v.lines == newline_count(disk.files[0])
}

/// Whether `line` is a single line: it holds no newline byte.
pub open spec fn single_line(line: Seq<u8>) -> bool {
    forall|i: int| 0 <= i < line.len() ==> line[i] != NEWLINE
}

/// The records of `lines`, one after the other.
pub open spec fn joined(lines: Seq<Seq<u8>>) -> Seq<u8>
    decreases lines.len(),
{
    if lines.len() == 0 {
        Seq::empty()
    } else {
        joined(lines.drop_last()) + record(lines.last())
    }
}

/// The rotator after it has handled `lines`, first to last.
pub open spec fn fed(v: RotatorView, lines: Seq<Seq<u8>>) -> RotatorView
    decreases lines.len(),
{
    if lines.len() == 0 {
        v
    } else {
        write_outcome(fed(v, lines.drop_last()), lines.last())
    }
}

/// The plans that the rotator hands out for `lines`, one after the other.
pub open spec fn fed_plan(v: RotatorView, lines: Seq<Seq<u8>>) -> Seq<Op>
    decreases lines.len(),
{
    if lines.len() == 0 {
        Seq::empty()
    } else {
        fed_plan(v, lines.drop_last()) + write_plan(fed(v, lines.drop_last()), lines.last())
    }
}

/// The number of rotations that handling `lines` sets off.
pub open spec fn rotations(v: RotatorView, lines: Seq<Seq<u8>>) -> nat
    decreases lines.len(),
{
    if lines.len() == 0 {
        0
    } else {
        let before = rotations(v, lines.drop_last());
        if rotation_due(written(fed(v, lines.drop_last()), lines.last())) {
            before + 1
        } else {
            before
        }
    }
}

/// The disk after one epoch for each of `writes`: the bytes of the epoch are
/// written to the active file, and a rotation with `count` backups follows.
pub open spec fn epochs(disk: Disk, count: nat, writes: Seq<Seq<u8>>) -> Disk
    decreases writes.len(),
{
    if writes.len() == 0 {
        disk
    } else {
        run(
            epochs(disk, count, writes.drop_last()),
            seq![Op::Append { data: writes.last() }] + rotation_plan(count),
        )
    }
}

/// What the active file holds when epoch `i` ends: what it held at the start
/// and the bytes of the epoch for the first, the bytes of the epoch for every
/// other.
pub open spec fn epoch_content(disk: Disk, writes: Seq<Seq<u8>>, i: int) -> Seq<u8> {
    if i == 0 {
        content(disk.files, 0) + writes[0]
    } else {
        writes[i]
    }
}

/// The newline bytes of a concatenation are those of its two parts.
pub proof fn lemma_newline_count_concat(a: Seq<u8>, b: Seq<u8>)
    ensures
        newline_count(a + b) == newline_count(a) + newline_count(b),
    decreases b.len(),
{
    if b.len() == 0 {
        assert(a + b =~= a);
    } else {
        lemma_newline_count_concat(a, b.drop_last());
        assert((a + b).drop_last() =~= a + b.drop_last());
    }
}

/// The record of a single line holds exactly one newline byte.
pub proof fn lemma_record_is_one_line(line: Seq<u8>)
    requires
        single_line(line),
    ensures
        newline_count(line) == 0,
        newline_count(record(line)) == 1,
    decreases line.len(),
{
    if line.len() > 0 {
        lemma_record_is_one_line(line.drop_last());
    }
    assert(record(line).drop_last() =~= line);
}

/// A file made of the records of single lines holds as many terminated lines
/// as it was made of.
pub proof fn lemma_joined_line_count(lines: Seq<Seq<u8>>)
    requires
        forall|i: int| 0 <= i < lines.len() ==> single_line(#[trigger] lines[i]),
    ensures
        newline_count(joined(lines)) == lines.len(),
    decreases lines.len(),
{
    if lines.len() > 0 {
        lemma_joined_line_count(lines.drop_last());
        lemma_record_is_one_line(lines.last());
        lemma_newline_count_concat(joined(lines.drop_last()), record(lines.last()));
    }
}

/// A plan for a line respects the ownership of the handle and leaves the
/// rotator ready for the next call.
pub proof fn law_write_plan_is_orderly(v: RotatorView, disk: Disk, line: Seq<u8>)
    requires
        ready(disk),
    ensures
        orderly(disk, write_plan(v, line)),
        ready(run(disk, write_plan(v, line))),
{
    let append = Op::Append { data: record(line) };
    lemma_run_one(disk, append);
    if rotation_due(written(v, line)) {
        lemma_rotation_plan(apply(disk, append), v.max_count);
        lemma_run_concat(disk, seq![append], rotation_plan(v.max_count));
    }
}

/// While the counters stay within the thresholds, nothing rotates, and every
/// line is in the active file, after what the file held and in the order in
/// which the lines came. The size may reach its limit, the number of lines
/// has to stay below its limit.
pub proof fn law_within_thresholds_nothing_rotates(
    v: RotatorView,
    disk: Disk,
    lines: Seq<Seq<u8>>,
)
    requires
        ready(disk),
        v.max_size > 0 ==> v.size + joined(lines).len() <= v.max_size,
        v.max_lines is Some ==> v.lines + lines.len() < v.max_lines->0,
    ensures
        rotations(v, lines) == 0,
        fed(v, lines) == (RotatorView {
            size: v.size + joined(lines).len(),
            lines: v.lines + lines.len(),
            ..v
        }),
        run(disk, fed_plan(v, lines)) == (Disk {
            files: disk.files.insert(0, disk.files[0] + joined(lines)),
            open: true,
        }),
        orderly(disk, fed_plan(v, lines)),
    decreases lines.len(),
{
    if lines.len() == 0 {
        assert(disk.files.insert(0, disk.files[0] + joined(lines)) =~= disk.files);
    } else {
        let head = lines.drop_last();
        let last = lines.last();
        law_within_thresholds_nothing_rotates(v, disk, head);
        let mid = run(disk, fed_plan(v, head));
        let append = Op::Append { data: record(last) };
        assert(write_plan(fed(v, head), last) == seq![append]);
        lemma_run_one(mid, append);
        lemma_run_concat(disk, fed_plan(v, head), seq![append]);
        assert((disk.files[0] + joined(head)) + record(last) =~= disk.files[0] + joined(lines));
        assert(apply(mid, append).files =~= disk.files.insert(
            0,
            disk.files[0] + joined(lines),
        ));
    }
}

/// A line that takes the size over its limit sets off exactly one rotation,
/// right after the line is written: the line is the end of backup `1`, after
/// what the active file held before it, and the active file is empty.
pub proof fn law_line_over_size_limit_is_archived(v: RotatorView, disk: Disk, line: Seq<u8>)
    requires
        ready(disk),
        v.max_size > 0,
        v.size + line.len() + 1 > v.max_size,
    ensures
        write_plan(v, line) == seq![Op::Append { data: record(line) }] + rotation_plan(
            v.max_count,
        ),
        write_outcome(v, line) == emptied(v),
        lookup(run(disk, write_plan(v, line)).files, 1) == Some(disk.files[0] + record(line)),
        lookup(run(disk, write_plan(v, line)).files, 0) == Some(Seq::<u8>::empty()),
        ready(run(disk, write_plan(v, line))),
{
    let append = Op::Append { data: record(line) };
    lemma_run_one(disk, append);
    lemma_rotation_plan(apply(disk, append), v.max_count);
    lemma_run_concat(disk, seq![append], rotation_plan(v.max_count));
}

/// After `m` epochs on a chain of at least one backup: backup `j`, for `j` up
/// to `m` and up to `count`, holds what the active file held when the `j`-th
/// last epoch ended, and the files beyond `count` are as they were.
pub proof fn lemma_epochs(disk: Disk, count: nat, writes: Seq<Seq<u8>>)
    requires
        count >= 1,
    ensures
        writes.len() >= 1 ==> ready(epochs(disk, count, writes)),
        writes.len() >= 1 ==> epochs(disk, count, writes).files[0] == Seq::<u8>::empty(),
        forall|j: nat|
            1 <= j <= count && j <= writes.len() ==> #[trigger] lookup(
                epochs(disk, count, writes).files,
                j,
            ) == Some(epoch_content(disk, writes, writes.len() - j)),
        forall|j: nat|
            j > count ==> #[trigger] lookup(epochs(disk, count, writes).files, j) == lookup(
                disk.files,
                j,
            ),
    decreases writes.len(),
{
    if writes.len() > 0 {
        let head = writes.drop_last();
        let m = head.len();
        lemma_epochs(disk, count, head);
        let before = epochs(disk, count, head);
        let append = Op::Append { data: writes.last() };
        let written_disk = apply(before, append);
        lemma_run_one(before, append);
        lemma_rotation_plan(written_disk, count);
        lemma_run_concat(before, seq![append], rotation_plan(count));
        let after = epochs(disk, count, writes);
        assert(after.files == rotated(written_disk.files, count));
        assert(written_disk.files[0] =~= epoch_content(disk, writes, m as int)) by {
            if m > 0 {
                assert(before.files[0] + writes.last() =~= writes.last());
            }
        }
        assert forall|j: nat| 1 <= j <= count && j <= writes.len() implies #[trigger] lookup(
            after.files,
            j,
        ) == Some(epoch_content(disk, writes, writes.len() - j)) by {
            assert(rotated_entry(written_disk.files, count, j) == lookup(after.files, j));
            if j >= 2 {
                let i = (j - 1) as nat;
                assert(lookup(before.files, i) == Some(epoch_content(disk, head, m - i)));
                assert(lookup(written_disk.files, i) == lookup(before.files, i));
            }
        }
        assert forall|j: nat| j > count implies #[trigger] lookup(after.files, j) == lookup(
            disk.files,
            j,
        ) by {
            assert(rotated_entry(written_disk.files, count, j) == lookup(after.files, j));
            assert(lookup(before.files, j) == lookup(disk.files, j));
            assert(lookup(written_disk.files, j) == lookup(before.files, j));
        }
    }
}

/// After more rotations than backups are kept, every backup up to `count`
/// exists, backup `j` holds the bytes of the `j`-th last epoch, the active
/// file is empty, and no rotation has made or changed a file beyond `count`:
/// where there was no backup `count + 1`, there is none.
pub proof fn law_chain_holds_latest_epochs(disk: Disk, count: nat, writes: Seq<Seq<u8>>)
    requires
        1 <= count < writes.len(),
    ensures
        lookup(epochs(disk, count, writes).files, 0) == Some(Seq::<u8>::empty()),
        forall|j: nat|
            1 <= j <= count ==> #[trigger] lookup(epochs(disk, count, writes).files, j) == Some(
                writes[writes.len() - j],
            ),
        forall|j: nat|
            j > count ==> #[trigger] lookup(epochs(disk, count, writes).files, j) == lookup(
                disk.files,
                j,
            ),
        !disk.files.contains_key(count + 1) ==> !epochs(
            disk,
            count,
            writes,
        ).files.contains_key(count + 1),
{
    lemma_epochs(disk, count, writes);
    let after = epochs(disk, count, writes);
    assert forall|j: nat| 1 <= j <= count implies #[trigger] lookup(after.files, j) == Some(
        writes[writes.len() - j],
    ) by {
        assert(lookup(after.files, j) == Some(epoch_content(disk, writes, writes.len() - j)));
    }
    assert(lookup(after.files, count + 1) == lookup(disk.files, count + 1));
}

/// A rotator that takes over a file of stored lines, with a limit on the
/// number of lines only, rotates at the line that brings the file to the
/// limit and at none before it.
pub proof fn law_resumed_count_rotates_at_limit(
    v: RotatorView,
    stored: Seq<Seq<u8>>,
    lines: Seq<Seq<u8>>,
)
    requires
        forall|i: int| 0 <= i < stored.len() ==> single_line(#[trigger] stored[i]),
        v.lines == newline_count(joined(stored)),
        v.max_size == 0,
        v.max_lines is Some,
        stored.len() < v.max_lines->0,
        stored.len() + lines.len() == v.max_lines->0,
    ensures
        rotations(v, lines.drop_last()) == 0,
        rotation_due(written(fed(v, lines.drop_last()), lines.last())),
        rotations(v, lines) == 1,
        fed(v, lines) == emptied(v),
{
    lemma_joined_line_count(stored);
    lemma_fed_below_line_limit(v, lines.drop_last());
}

/// While the number of lines stays below its limit and there is no limit on
/// the size, nothing rotates and every line is counted.
pub proof fn lemma_fed_below_line_limit(v: RotatorView, lines: Seq<Seq<u8>>)
    requires
        v.max_size == 0,
        v.max_lines is Some ==> v.lines + lines.len() < v.max_lines->0,
    ensures
        rotations(v, lines) == 0,
        fed(v, lines) == (RotatorView {
            size: v.size + joined(lines).len(),
            lines: v.lines + lines.len(),
            ..v
        }),
    decreases lines.len(),
{
    if lines.len() > 0 {
        lemma_fed_below_line_limit(v, lines.drop_last());
    }
}

/// A rotation puts what the active file holds into backup `1` and leaves the
/// active file empty, whatever the file held and however many backups are
/// kept: a rotation at startup archives the content that was found.
pub proof fn law_rotation_archives_active_file(disk: Disk, count: nat)
    requires
        disk.files.contains_key(0),
    ensures
        lookup(run(disk, rotation_plan(count)).files, 1) == Some(disk.files[0]),
        lookup(run(disk, rotation_plan(count)).files, 0) == Some(Seq::<u8>::empty()),
        ready(run(disk, rotation_plan(count))),
        disk.open ==> orderly(disk, rotation_plan(count)),
{
    lemma_rotation_plan(disk, count);
}

/// The counters of a rotator are those of the active file after every call:
/// a single line keeps them exact, whether or not it sets off a rotation.
pub proof fn law_write_keeps_counters_exact(v: RotatorView, disk: Disk, line: Seq<u8>)
    requires
        tracks(v, disk),
        single_line(line),
    ensures
        tracks(write_outcome(v, line), run(disk, write_plan(v, line))),
{
    let append = Op::Append { data: record(line) };
    lemma_run_one(disk, append);
    lemma_record_is_one_line(line);
    lemma_newline_count_concat(disk.files[0], record(line));
    if rotation_due(written(v, line)) {
        lemma_rotation_plan(apply(disk, append), v.max_count);
        lemma_run_concat(disk, seq![append], rotation_plan(v.max_count));
    }
}

/// The counters of a rotator are those of the active file after a rotation.
pub proof fn law_rotate_keeps_counters_exact(v: RotatorView, disk: Disk)
    requires
        ready(disk),
    ensures
        tracks(emptied(v), run(disk, rotation_plan(v.max_count))),
{
    lemma_rotation_plan(disk, v.max_count);
}

} // verus!
