//! Counting the terminated lines of existing log content.

use vstd::prelude::*;

verus! {

/// The byte that terminates a line.
pub const NEWLINE: u8 = 10;

/// The number of newline bytes in `content`, which is the number of
/// terminated lines it holds.
pub open spec fn newline_count(content: Seq<u8>) -> nat
    decreases content.len(),
{
    if content.len() == 0 {
        0
    } else {
        let rest = newline_count(content.drop_last());
        if content.last() == NEWLINE {
            rest + 1
        } else {
            rest
        }
    }
}

/// Counts the terminated lines of `content`.
pub fn count_lines(content: &[u8]) -> (count: u64)
    ensures
        count == newline_count(content@),
{
    let mut count: u64 = 0;
    let mut i: usize = 0;
    while i < content.len()
        invariant
            i <= content.len(),
            count == newline_count(content@.take(i as int)),
            count <= i,
        decreases content.len() - i,
    {
        proof {
            assert(content@.take(i + 1).drop_last() =~= content@.take(i as int));
        }
        if content[i] == NEWLINE {
            count = count + 1;
        }
        i = i + 1;
    }
    proof {
        assert(content@.take(i as int) =~= content@);
    }
    count
}

} // verus!
