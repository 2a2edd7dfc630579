//! The names of the managed files: the active file has the base path, and
//! backup `i` has the base path, a dot and `i` in decimal.

use vstd::prelude::*;
use vstd::string::StringExecFns;

verus! {

/// The character of the decimal digit `d`.
pub open spec fn digit_char(d: nat) -> char {
    if d == 0 {
        '0'
    } else if d == 1 {
        '1'
    } else if d == 2 {
        '2'
    } else if d == 3 {
        '3'
    } else if d == 4 {
        '4'
    } else if d == 5 {
        '5'
    } else if d == 6 {
        '6'
    } else if d == 7 {
        '7'
    } else if d == 8 {
        '8'
    } else {
        '9'
    }
}

/// `n` in decimal, without leading zeros.
pub open spec fn decimal(n: nat) -> Seq<char>
    decreases n,
{
    if n < 10 {
        seq![digit_char(n)]
    } else {
        decimal(n / 10).push(digit_char(n % 10))
    }
}

/// The name of file `index` of the chain on `base`.
pub open spec fn file_name(base: Seq<char>, index: nat) -> Seq<char> {
    if index == 0 {
        base
    } else {
        base.push('.') + decimal(index)
    }
}

/// A number has at least one digit.
pub proof fn lemma_decimal_nonempty(n: nat)
    ensures
        decimal(n).len() >= 1,
    decreases n,
{
    if n >= 10 {
        lemma_decimal_nonempty(n / 10);
    }
}

/// Two numbers with the same digits are the same number.
pub proof fn lemma_decimal_injective(a: nat, b: nat)
    requires
        decimal(a) == decimal(b),
    ensures
        a == b,
    decreases a,
{
    lemma_decimal_nonempty(a / 10);
    lemma_decimal_nonempty(b / 10);
    if a < 10 && b < 10 {
        assert(decimal(a)[0] == digit_char(a));
        assert(decimal(b)[0] == digit_char(b));
    } else if a >= 10 && b >= 10 {
        assert(decimal(a).last() == digit_char(a % 10));
        assert(decimal(b).last() == digit_char(b % 10));
        assert(decimal(a).drop_last() =~= decimal(a / 10));
        assert(decimal(b).drop_last() =~= decimal(b / 10));
        lemma_decimal_injective(a / 10, b / 10);
    } else if a < 10 {
        assert(decimal(b).len() == decimal(b / 10).len() + 1);
    } else {
        assert(decimal(a).len() == decimal(a / 10).len() + 1);
    }
}

/// No two files of a chain share a name: the numbering of the files is
/// faithful to the names on disk.
pub proof fn lemma_file_name_injective(base: Seq<char>, i: nat, j: nat)
    requires
        file_name(base, i) == file_name(base, j),
    ensures
        i == j,
{
    lemma_decimal_nonempty(i);
    lemma_decimal_nonempty(j);
    if i != 0 && j != 0 {
        let stem = base.push('.');
        let n = stem.len() as int;
        assert((stem + decimal(i)).subrange(n, n + decimal(i).len()) =~= decimal(i));
        assert((stem + decimal(j)).subrange(n, n + decimal(j).len()) =~= decimal(j));
        assert(decimal(i).len() == decimal(j).len()) by {
            assert((stem + decimal(i)).len() == (stem + decimal(j)).len());
        }
        lemma_decimal_injective(i, j);
    } else if i != 0 || j != 0 {
        assert(file_name(base, i).len() != file_name(base, j).len());
    }
}

/// The text of the decimal digit `d`.
fn digit_text(d: usize) -> (text: &'static str)
    requires
        d < 10,
    ensures
        text@ == seq![digit_char(d as nat)],
{
    proof {
        reveal_strlit("0");
        reveal_strlit("1");
        reveal_strlit("2");
        reveal_strlit("3");
        reveal_strlit("4");
        reveal_strlit("5");
        reveal_strlit("6");
        reveal_strlit("7");
        reveal_strlit("8");
        reveal_strlit("9");
    }
    let text = if d == 0 {
        "0"
    } else if d == 1 {
        "1"
    } else if d == 2 {
        "2"
    } else if d == 3 {
        "3"
    } else if d == 4 {
        "4"
    } else if d == 5 {
        "5"
    } else if d == 6 {
        "6"
    } else if d == 7 {
        "7"
    } else if d == 8 {
        "8"
    } else {
        "9"
    };
    assert(text@ =~= seq![digit_char(d as nat)]);
    text
}

/// Writes `n` in decimal at the end of `out`.
fn append_decimal(out: &mut String, n: usize)
    ensures
        final(out)@ == old(out)@ + decimal(n as nat),
    decreases n,
{
    if n >= 10 {
        append_decimal(out, n / 10);
    }
    out.append(digit_text(n % 10));
    assert(out@ =~= old(out)@ + decimal(n as nat));
}

/// The path of file `index` of the chain on `base`: `base` itself for the
/// active file, `base.index` for a backup.
pub fn file_path(base: &str, index: usize) -> (path: String)
    ensures
        path@ == file_name(base@, index as nat),
{
    let mut path = base.to_owned();
    if index > 0 {
        proof {
            reveal_strlit(".");
        }
        path.append(".");
        append_decimal(&mut path, index);
        assert(path@ =~= base@.push('.') + decimal(index as nat));
    }
    path
}

} // verus!
