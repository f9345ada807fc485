//! How large the trash is, and how a size is written.

use crate::report;
use crate::report::Report;
use crate::text;
use vstd::prelude::*;

verus! {

/// `n / d` rounded to the nearest whole number, and to the even one of two
/// that are equally near.
pub open spec fn half_even(n: nat, d: nat) -> nat {
    let q = n / d;
    let r = n % d;
    if 2 * r < d || (2 * r == d && q % 2 == 0) {
        q
    } else {
        q + 1
    }
}

/// The distance between neighbouring double-precision numbers at `n`.
pub open spec fn double_step(n: nat) -> nat
    decreases n,
{
    if n < 0x20_0000_0000_0000 {
        1
    } else {
        2 * double_step(n / 2)
    }
}

/// The double-precision number nearest to `n`.
pub open spec fn nearest_double(n: nat) -> nat {
    half_even(n, double_step(n)) * double_step(n)
}

/// `n` bytes in a unit, with one digit behind the point.
pub open spec fn in_unit(n: nat, unit: nat, name: Seq<char>) -> Seq<char> {
    let tenths = half_even(nearest_double(n) * 10, unit);
    text::decimal(tenths / 10) + "."@ + text::decimal(tenths % 10) + name
}

/// `n` bytes in the largest unit of which there is at least one.
pub open spec fn size_text(n: nat) -> Seq<char> {
    if n < 0x400 {
        text::decimal(n) + " B"@
    } else if n < 0x10_0000 {
        in_unit(n, 0x400, " KiB"@)
    } else if n < 0x4000_0000 {
        in_unit(n, 0x10_0000, " MiB"@)
    } else if n < 0x100_0000_0000 {
        in_unit(n, 0x4000_0000, " GiB"@)
    } else {
        in_unit(n, 0x100_0000_0000, " TiB"@)
    }
}

/// `n / d` rounded half to even.
fn round_half_even(n: u128, d: u128) -> (r: u128)
    requires
        0 < d <= 0x100_0000_0000,
        n <= 0x100_0000_0000_0000_0000,
    ensures
        r == half_even(n as nat, d as nat),
        r <= n / d + 1,
{
    let q: u128 = n / d;
    let rest: u128 = n % d;
    if 2 * rest < d || (2 * rest == d && q % 2 == 0) {
        q
    } else {
        q + 1
    }
}

/// The distance between neighbouring double-precision numbers at `n`.
fn step_at(n: u64) -> (r: u64)
    ensures
        r == double_step(n as nat),
        r == 1 || r * 0x10_0000_0000_0000 <= n,
        r >= 1,
    decreases n,
{
    if n < 0x20_0000_0000_0000 {
        1
    } else {
        2 * step_at(n / 2)
    }
}

/// Writes `n` bytes in a unit, with one digit behind the point.
fn write_in_unit(n: u64, unit: u128, name: &str) -> (s: String)
    requires
        0x400 <= unit <= 0x100_0000_0000,
    ensures
        s@ == in_unit(n as nat, unit as nat, name@),
{
    let step: u64 = step_at(n);
    let steps: u128 = round_half_even(n as u128, step as u128);
    assert(steps * step <= n + step) by (nonlinear_arith)
        requires
            steps <= (n as u128) / (step as u128) + 1,
            step >= 1,
    ;
    let near: u128 = steps * (step as u128);
    let tenths: u128 = round_half_even(near * 10, unit);
    assert(tenths <= near * 10 / 0x400 + 1) by (nonlinear_arith)
        requires
            tenths <= (near * 10) / (unit as int) + 1,
            0x400 <= unit,
            near >= 0,
    ;
    let mut s = text::decimal_of((tenths / 10) as u64);
    s.append(".");
    s.append(text::decimal_of((tenths % 10) as u64).as_str());
    s.append(name);
    s
}

/// Writes a number of bytes for people to read.
pub fn human_size(bytes: u64) -> (s: String)
    ensures
        s@ == size_text(bytes as nat),
{
    if bytes < 0x400 {
        let mut s = text::decimal_of(bytes);
        s.append(" B");
        s
    } else if bytes < 0x10_0000 {
        write_in_unit(bytes, 0x400, " KiB")
    } else if bytes < 0x4000_0000 {
        write_in_unit(bytes, 0x10_0000, " MiB")
    } else if bytes < 0x100_0000_0000 {
        write_in_unit(bytes, 0x4000_0000, " GiB")
    } else {
        write_in_unit(bytes, 0x100_0000_0000, " TiB")
    }
}

/// What stands at a path: a directory with what it holds, or anything else
/// with its length, where that could be read.
pub enum Tree {
    Leaf(Option<u64>),
    Dir(Vec<Tree>),
}

/// The sum of the lengths in a tree; a length that could not be read counts
/// nothing.
pub open spec fn tree_size(t: Tree) -> nat
    decreases t,
{
    match t {
        Tree::Leaf(Some(n)) => n as nat,
        Tree::Leaf(None) => 0,
        Tree::Dir(v) => forest_size(v@),
    }
}

/// The sum of the lengths in several trees.
pub open spec fn forest_size(s: Seq<Tree>) -> nat
    decreases s,
{
    if s.len() == 0 {
        0
    } else {
        forest_size(s.drop_last()) + tree_size(s.last())
    }
}

/// No tree of several is larger than all of them together.
proof fn lemma_forest_grows(s: Seq<Tree>, i: int)
    requires
        0 <= i <= s.len(),
    ensures
        forest_size(s.take(i)) <= forest_size(s),
    decreases s.len(),
{
    if i == s.len() {
        assert(s.take(i) =~= s);
    } else {
        lemma_forest_grows(s.drop_last(), i);
        assert(s.drop_last().take(i) =~= s.take(i));
    }
}

/// The sum of the lengths in a tree, where it can be counted in 64 bits.
pub fn checked_dir_size(t: &Tree) -> (r: Option<u64>)
    ensures
        match r {
            Some(n) => n == tree_size(*t),
            None => tree_size(*t) > u64::MAX,
        },
    decreases t,
{
    match t {
        Tree::Leaf(length) => match length {
            Some(n) => Some(*n),
            None => Some(0),
        },
        Tree::Dir(v) => {
            let mut total: u64 = 0;
            let mut i: usize = 0;
            assert(v@.take(0) =~= seq![]);
            while i < v.len()
                invariant
                    i <= v@.len(),
                    *t == Tree::Dir(*v),
                    total == forest_size(v@.take(i as int)),
                decreases v.len() - i,
            {
                assert(v@.take(i + 1).drop_last() =~= v@.take(i as int));
                assert(forest_size(v@.take(i + 1)) == forest_size(v@.take(i as int)) + tree_size(
                    v@[i as int],
                ));
                proof {
                    lemma_forest_grows(v@, i + 1);
                    assert(decreases_to!(*t => t->Dir_0));
                    assert(decreases_to!(*v => v[i as int]));
                }
                match checked_dir_size(&v[i]) {
                    Some(n) => match total.checked_add(n) {
                        Some(sum) => {
                            total = sum;
                        },
                        None => {
                            return None;
                        },
                    },
                    None => {
                        return None;
                    },
                }
                i += 1;
            }
            assert(v@.take(i as int) =~= v@);
            Some(total)
        },
    }
}

/// The sum of the lengths in a tree.
pub fn dir_size(t: &Tree) -> (n: u64)
    requires
        tree_size(*t) <= u64::MAX,
    ensures
        n == tree_size(*t),
{
    match checked_dir_size(t) {
        Some(n) => n,
        None => 0,
    }
}

/// Whether what stands at the path to be measured is measured by its own
/// length, and not by what it holds.
pub fn is_measured_whole(is_file: bool, is_symlink: bool) -> (r: bool)
    ensures
        r == (is_file || is_symlink),
{
    is_file || is_symlink
}

/// Whether an entry of a directory is measured by what it holds: links are not
/// followed.
pub fn is_walked(is_dir: bool, is_symlink: bool) -> (r: bool)
    ensures
        r == (is_dir && !is_symlink),
{
    is_dir && !is_symlink
}

/// Whether exact bytes are asked for.
pub fn wants_bytes(args: &[String]) -> (r: bool)
    ensures
        r == text::texts(args@).contains("--bytes"@),
{
    let mut i: usize = 0;
    while i < args.len()
        invariant
            i <= args@.len(),
            forall|j: int| 0 <= j < i ==> #[trigger] args@[j]@ != "--bytes"@,
        decreases args.len() - i,
    {
        if text::str_eq(args[i].as_str(), "--bytes") {
            assert(text::texts(args@)[i as int] == "--bytes"@);
            return true;
        }
        i += 1;
    }
    assert forall|j: int| 0 <= j < args@.len() implies text::texts(args@)[j] != "--bytes"@ by {
        assert(text::texts(args@)[j] == args@[j]@);
    }
    false
}

/// What `size` prints: the size of the trash, or that there is none.
pub open spec fn size_output(exact: bool, total: Option<u64>) -> Seq<char> {
    match total {
        Some(n) => if exact {
            text::decimal(n as nat) + "\n"@
        } else {
            size_text(n as nat) + "\n"@
        },
        None => if exact {
            "0\n"@
        } else {
            "Trash is empty (0 B)\n"@
        },
    }
}

/// What `size` prints, given the size of the trash directory where there is
/// one.
pub fn cmd_size(args: &[String], total: Option<u64>) -> (s: String)
    ensures
        s@ == size_output(text::texts(args@).contains("--bytes"@), total),
{
    let exact = wants_bytes(args);
    match total {
        Some(n) => {
            let mut s = if exact {
                text::decimal_of(n)
            } else {
                human_size(n)
            };
            s.append("\n");
            s
        },
        None => if exact {
            "0\n".to_owned()
        } else {
            "Trash is empty (0 B)\n".to_owned()
        },
    }
}

/// What `size` reports; it never fails.
pub fn size_report(args: &[String], total: Option<u64>) -> (r: Report)
    ensures
        r@ == report::success(size_output(text::texts(args@).contains("--bytes"@), total)),
{
    Report::success(cmd_size(args, total))
}

/// Rounding gives a nearest whole number, and the even one of two.
pub proof fn law_rounding_is_nearest(n: nat, d: nat)
    requires
        d > 0,
    ensures
        -(d as int) <= 2 * (half_even(n, d) * d - n) <= d,
        2 * (half_even(n, d) * d - n) == d || 2 * (half_even(n, d) * d - n) == -(d as int)
            ==> half_even(n, d) % 2 == 0,
{
    let q = n / d;
    let r = n % d;
    assert(n == q * d + r && r < d) by (nonlinear_arith)
        requires
            d > 0,
            q == n / d,
            r == n % d,
    ;
    assert((q + 1) * d == q * d + d) by (nonlinear_arith);
}

/// A written size is within half a tenth of its unit of the true one, up to
/// the size from which on double-precision numbers skip whole numbers.
pub proof fn law_written_size_is_near(n: nat, unit: nat)
    requires
        n < 0x20_0000_0000_0000,
        unit > 0,
    ensures
        -(unit as int) <= 2 * (half_even(nearest_double(n) * 10, unit) * unit - n * 10) <= unit,
{
    let step = double_step(n);
    let whole = half_even(n, step);
    assert(step == 1 && whole == n);
    assert(whole * step == n) by (nonlinear_arith)
        requires
            step == 1,
            whole == n,
    ;
    law_rounding_is_nearest(n * 10, unit);
}

/// Sizes add up: a directory with some things and then others is as large as one
/// with the first and one with the others together, and a directory with one
/// thing is as large as that thing. So the order does not matter, and nothing
/// counts twice or not at all.
pub proof fn law_sizes_add_up(first: Vec<Tree>, second: Vec<Tree>, both: Vec<Tree>)
    requires
        both@ == first@ + second@,
    ensures
        tree_size(Tree::Dir(both)) == tree_size(Tree::Dir(first)) + tree_size(Tree::Dir(second)),
{
    lemma_forests_add_up(first@, second@);
}

/// Forests add up.
proof fn lemma_forests_add_up(a: Seq<Tree>, b: Seq<Tree>)
    ensures
        forest_size(a + b) == forest_size(a) + forest_size(b),
    decreases b.len(),
{
    if b.len() == 0 {
        assert(a + b =~= a);
    } else {
        lemma_forests_add_up(a, b.drop_last());
        assert((a + b).drop_last() =~= a + b.drop_last());
        assert((a + b).last() == b.last());
    }
}

/// A directory with one thing is as large as that thing, an empty one takes
/// nothing, a file is as large as it is long, and one whose length could not be
/// read takes nothing.
pub proof fn law_sizes_of_single_things(dir: Vec<Tree>, thing: Tree, length: u64)
    ensures
        dir@ == seq![thing] ==> tree_size(Tree::Dir(dir)) == tree_size(thing),
        dir@.len() == 0 ==> tree_size(Tree::Dir(dir)) == 0,
        tree_size(Tree::Leaf(Some(length))) == length,
        tree_size(Tree::Leaf(None)) == 0,
{
    if dir@ == seq![thing] {
        assert(dir@.drop_last() =~= seq![]);
        assert(dir@.last() == thing);
        assert(forest_size(dir@) == forest_size(dir@.drop_last()) + tree_size(thing));
        assert(forest_size(dir@.drop_last()) == 0);
    }
}

/// As many files of one length as there are take that many times the length.
pub proof fn law_equal_files_multiply(dir: Vec<Tree>, length: u64)
    requires
        forall|i: int| 0 <= i < dir@.len() ==> #[trigger] dir@[i] == Tree::Leaf(Some(length)),
    ensures
        tree_size(Tree::Dir(dir)) == dir@.len() * length,
{
    lemma_equal_files(dir@, length);
}

proof fn lemma_equal_files(s: Seq<Tree>, length: u64)
    requires
        forall|i: int| 0 <= i < s.len() ==> #[trigger] s[i] == Tree::Leaf(Some(length)),
    ensures
        forest_size(s) == s.len() * length,
    decreases s.len(),
{
    if s.len() > 0 {
        let t = s.drop_last();
        assert forall|i: int| 0 <= i < t.len() implies #[trigger] t[i] == Tree::Leaf(
            Some(length),
        ) by {
            assert(t[i] == s[i]);
        }
        lemma_equal_files(t, length);
        assert(s[s.len() - 1] == Tree::Leaf(Some(length)));
        let n = s.len();
        assert(tree_size(s.last()) == length) by {
            assert(s.last() == Tree::Leaf(Some(length)));
        }
        assert(forest_size(s) == forest_size(t) + tree_size(s.last()));
        assert((n - 1) * length + length == n * length) by (nonlinear_arith);
        assert(t.len() == n - 1);
    } else {
        assert(s.len() * length == 0) by (nonlinear_arith)
            requires
                s.len() == 0,
        ;
    }
}

/// How a size is written: in bytes below 1024 of them, and else in the unit of
/// which there is at least one and less than 1024, as far as there are units; by
/// tenths of the unit, none of which is nearer, as long as whole numbers are
/// exact, and else as near as one part in two to the power of 52 allows.
pub proof fn law_sizes_are_written_to_a_tenth(n: nat) -> (t: nat)
    requires
        n <= u64::MAX,
    ensures
        ({
            let number = text::decimal(t / 10) + "."@ + text::decimal(t % 10);
            let unit: nat = if n < 1024 * 1024 {
                1024
            } else if n < 1024 * 1024 * 1024 {
                1024 * 1024
            } else if n < 1024 * 1024 * 1024 * 1024 {
                1024 * 1024 * 1024
            } else {
                1024 * 1024 * 1024 * 1024
            };
            let slack: int = if n < 0x20_0000_0000_0000 {
                0
            } else {
                10 * (n as int / 0x10_0000_0000_0000)
            };
            &&& n < 1024 ==> size_text(n) == text::decimal(n) + " B"@
            &&& n >= 1024 && unit == 1024 ==> size_text(n) == number + " KiB"@
            &&& unit == 1024 * 1024 ==> size_text(n) == number + " MiB"@
            &&& unit == 1024 * 1024 * 1024 ==> size_text(n) == number + " GiB"@
            &&& unit == 1024 * 1024 * 1024 * 1024 ==> size_text(n) == number + " TiB"@
            &&& -(unit + slack) <= 2 * (t * unit - n * 10) <= unit + slack
            &&& slack == 0 && (2 * (t * unit - n * 10) == unit || 2 * (n * 10 - t * unit) == unit)
                ==> t % 2 == 0
        }),
{
    let unit: nat = if n < 1024 * 1024 {
        1024
    } else if n < 1024 * 1024 * 1024 {
        1024 * 1024
    } else if n < 1024 * 1024 * 1024 * 1024 {
        1024 * 1024 * 1024
    } else {
        1024 * 1024 * 1024 * 1024
    };
    let near = nearest_double(n);
    lemma_nearest_double(n);
    law_rounding_is_nearest(near * 10, unit);
    half_even(near * 10, unit)
}

/// A double-precision number is near the whole number that it stands for.
proof fn lemma_nearest_double(n: nat)
    ensures
        n < 0x20_0000_0000_0000 ==> nearest_double(n) == n,
        n >= 0x20_0000_0000_0000 ==> -(n as int / 0x10_0000_0000_0000) <= 2 * (nearest_double(n)
            - n) <= n as int / 0x10_0000_0000_0000,
{
    let step = double_step(n);
    lemma_double_step(n);
    law_rounding_is_nearest(n, step);
    if n < 0x20_0000_0000_0000 {
        let whole = half_even(n, step);
        assert(step == 1 && whole == n);
        assert(whole * step == n) by (nonlinear_arith)
            requires
                step == 1,
                whole == n,
        ;
    }
}

/// Double-precision numbers stand closer than one part in two to the power of
/// 52.
proof fn lemma_double_step(n: nat)
    ensures
        double_step(n) >= 1,
        n >= 0x20_0000_0000_0000 ==> double_step(n) * 0x10_0000_0000_0000 <= n,
    decreases n,
{
    if n >= 0x20_0000_0000_0000 {
        lemma_double_step(n / 2);
    }
}

/// What `size` prints: the size in bytes where that is asked for, and else as it
/// is written; and that there is no trash, where there is none.
pub proof fn law_what_size_prints(n: u64)
    ensures
        size_output(true, Some(n)) == text::decimal(n as nat) + "\n"@,
        size_output(false, Some(n)) == size_text(n as nat) + "\n"@,
        size_output(true, None) == "0\n"@,
        size_output(false, None) == "Trash is empty (0 B)\n"@,
{
}

} // verus!
