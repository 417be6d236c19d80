//! Natural ordering of strings that contain numbers, so that `R2` comes
//! before `R10`.

use vstd::prelude::*;
use crate::scan::is_digit;
use crate::text::{
    all_digits, chars_of, digits_value, lemma_digits_value_bound, lemma_digits_value_leading_zero,
    lemma_digits_value_lex, lemma_digits_value_lower, lemma_pow10_mono,
};

verus! {

/// The outcome of comparing two values.
#[derive(Debug, Clone, Copy, PartialEq, Eq, Structural)]
pub enum Comparison {
    Less,
    Equal,
    Greater,
}

/// The comparison of two numbers.
pub open spec fn compare_nat(x: nat, y: nat) -> Comparison {
    if x < y {
        Comparison::Less
    } else if x > y {
        Comparison::Greater
    } else {
        Comparison::Equal
    }
}

/// The comparison read the other way round.
pub open spec fn flip(c: Comparison) -> Comparison {
    match c {
        Comparison::Less => Comparison::Greater,
        Comparison::Equal => Comparison::Equal,
        Comparison::Greater => Comparison::Less,
    }
}

/// The number of digits in the run of digits that starts at `i`.
pub open spec fn digit_run_len(s: Seq<char>, i: int) -> nat
    decreases s.len() - i,
{
    if 0 <= i < s.len() && is_digit(s[i]) {
        1 + digit_run_len(s, i + 1)
    } else {
        0
    }
}

/// The run of digits at `i` stays within the string, holds only digits, and
/// is not followed by a digit.
pub proof fn lemma_digit_run(s: Seq<char>, i: int)
    requires
        0 <= i <= s.len(),
    ensures
        i + digit_run_len(s, i) <= s.len(),
        forall|k: int| i <= k < i + digit_run_len(s, i) ==> is_digit(#[trigger] s[k]),
        i + digit_run_len(s, i) < s.len() ==> !is_digit(s[i + digit_run_len(s, i)]),
    decreases s.len() - i,
{
    if i < s.len() && is_digit(s[i]) {
        lemma_digit_run(s, i + 1);
    }
}

/// Natural order of `a[i..]` and `b[j..]`: runs of digits compare by the
/// numbers they spell, other characters one by one by code point, and a
/// string that ends first comes first.
pub open spec fn natural_order_from(a: Seq<char>, i: int, b: Seq<char>, j: int) -> Comparison
    decreases (a.len() - i) + (b.len() - j),
{
    if !(0 <= i <= a.len() && 0 <= j <= b.len()) {
        Comparison::Equal
    } else if i == a.len() && j == b.len() {
        Comparison::Equal
    } else if i == a.len() {
        Comparison::Less
    } else if j == b.len() {
        Comparison::Greater
    } else if is_digit(a[i]) && is_digit(b[j]) {
        let ra = digit_run_len(a, i);
        let rb = digit_run_len(b, j);
        proof {
            lemma_digit_run(a, i);
            lemma_digit_run(b, j);
        }
        let c = compare_nat(digits_value(a.subrange(i, i + ra)), digits_value(b.subrange(j, j + rb)));
        if c == Comparison::Equal {
            natural_order_from(a, i + ra, b, j + rb)
        } else {
            c
        }
    } else if a[i] < b[j] {
        Comparison::Less
    } else if a[i] > b[j] {
        Comparison::Greater
    } else {
        natural_order_from(a, i + 1, b, j + 1)
    }
}

/// Natural order of two strings.
pub open spec fn natural_order(a: Seq<char>, b: Seq<char>) -> Comparison {
    natural_order_from(a, 0, b, 0)
}

fn digit_run_end(v: &Vec<char>, i: usize) -> (e: usize)
    requires
        i <= v.len(),
    ensures
        e == i + digit_run_len(v@, i as int),
        e <= v.len(),
{
    proof { lemma_digit_run(v@, i as int); }
    let mut e = i;
    while e < v.len() && '0' <= v[e] && v[e] <= '9'
        invariant
            i <= e <= v.len(),
            digit_run_len(v@, i as int) == (e - i) + digit_run_len(v@, e as int),
        decreases v.len() - e,
    {
        e = e + 1;
    }
    e
}

proof fn lemma_run_digits(s: Seq<char>, from: int, to: int)
    requires
        0 <= from <= to <= s.len(),
        forall|k: int| from <= k < to ==> is_digit(#[trigger] s[k]),
    ensures
        all_digits(s.subrange(from, to)),
{
    assert forall|k: int| 0 <= k < to - from implies '0' <= #[trigger] s.subrange(from, to)[k] <= '9' by {
        assert(s.subrange(from, to)[k] == s[from + k]);
        assert(is_digit(s[from + k]));
    }
}

fn skip_zeros(v: &Vec<char>, from: usize, to: usize) -> (z: usize)
    requires
        from <= to <= v.len(),
        all_digits(v@.subrange(from as int, to as int)),
    ensures
        from <= z <= to,
        digits_value(v@.subrange(from as int, to as int)) == digits_value(v@.subrange(z as int, to as int)),
        z < to ==> v@[z as int] != '0',
        all_digits(v@.subrange(z as int, to as int)),
{
    let mut z = from;
    while z < to && v[z] == '0'
        invariant
            from <= z <= to <= v.len(),
            all_digits(v@.subrange(from as int, to as int)),
            digits_value(v@.subrange(from as int, to as int)) == digits_value(v@.subrange(z as int, to as int)),
        decreases to - z,
    {
        proof {
            let s = v@.subrange(z as int, to as int);
            lemma_digits_value_leading_zero(s);
            assert(s.drop_first() =~= v@.subrange(z + 1, to as int));
        }
        z = z + 1;
    }
    proof {
        assert forall|k: int| 0 <= k < to - z implies '0' <= #[trigger] v@.subrange(z as int, to as int)[k] <= '9' by {
            assert(v@.subrange(z as int, to as int)[k] == v@.subrange(from as int, to as int)[k + (z - from)]);
        }
    }
    z
}

/// Compares the numbers spelled by the digits `v[i..ea]` and `w[j..eb]`.
fn compare_runs(v: &Vec<char>, i: usize, ea: usize, w: &Vec<char>, j: usize, eb: usize) -> (r: Comparison)
    requires
        i <= ea <= v.len(),
        j <= eb <= w.len(),
        all_digits(v@.subrange(i as int, ea as int)),
        all_digits(w@.subrange(j as int, eb as int)),
    ensures
        r == compare_nat(digits_value(v@.subrange(i as int, ea as int)), digits_value(w@.subrange(j as int, eb as int))),
{
    let za = skip_zeros(v, i, ea);
    let zb = skip_zeros(w, j, eb);
    let ghost sa = v@.subrange(za as int, ea as int);
    let ghost sb = w@.subrange(zb as int, eb as int);
    let la = ea - za;
    let lb = eb - zb;
    if la < lb {
        proof {
            lemma_digits_value_bound(sa);
            lemma_digits_value_lower(sb);
            lemma_pow10_mono(la as nat, (lb - 1) as nat);
        }
        return Comparison::Less;
    }
    if la > lb {
        proof {
            lemma_digits_value_bound(sb);
            lemma_digits_value_lower(sa);
            lemma_pow10_mono(lb as nat, (la - 1) as nat);
        }
        return Comparison::Greater;
    }
    let mut k: usize = 0;
    while k < la
        invariant
            la == lb,
            la == ea - za,
            lb == eb - zb,
            za <= ea <= v.len(),
            zb <= eb <= w.len(),
            sa == v@.subrange(za as int, ea as int),
            sb == w@.subrange(zb as int, eb as int),
            all_digits(sa),
            all_digits(sb),
            i <= ea <= v.len(),
            j <= eb <= w.len(),
            digits_value(v@.subrange(i as int, ea as int)) == digits_value(sa),
            digits_value(w@.subrange(j as int, eb as int)) == digits_value(sb),
            k <= la,
            forall|t: int| 0 <= t < k ==> sa[t] == sb[t],
        decreases la - k,
    {
        let x = v[za + k];
        let y = w[zb + k];
        assert(x == sa[k as int] && y == sb[k as int]);
        if x < y {
            proof { lemma_digits_value_lex(sa, sb, k as int); }
            return Comparison::Less;
        }
        if x > y {
            proof { lemma_digits_value_lex(sb, sa, k as int); }
            return Comparison::Greater;
        }
        k = k + 1;
    }
    assert(sa =~= sb);
    Comparison::Equal
}

/// Natural order of two character sequences.
pub fn natural_compare(v: &Vec<char>, w: &Vec<char>) -> (r: Comparison)
    ensures
        r == natural_order(v@, w@),
{
    let mut i: usize = 0;
    let mut j: usize = 0;
    loop
        invariant
            i <= v.len(),
            j <= w.len(),
            natural_order_from(v@, i as int, w@, j as int) == natural_order(v@, w@),
        decreases (v.len() - i) + (w.len() - j),
    {
        if i == v.len() && j == w.len() {
            return Comparison::Equal;
        }
        if i == v.len() {
            return Comparison::Less;
        }
        if j == w.len() {
            return Comparison::Greater;
        }
        let ac = v[i];
        let bc = w[j];
        if '0' <= ac && ac <= '9' && '0' <= bc && bc <= '9' {
            let ea = digit_run_end(v, i);
            let eb = digit_run_end(w, j);
            proof {
                lemma_digit_run(v@, i as int);
                lemma_digit_run(w@, j as int);
                lemma_run_digits(v@, i as int, ea as int);
                lemma_run_digits(w@, j as int, eb as int);
            }
            let c = compare_runs(v, i, ea, w, j, eb);
            if c != Comparison::Equal {
                return c;
            }
            i = ea;
            j = eb;
        } else if ac < bc {
            return Comparison::Less;
        } else if ac > bc {
            return Comparison::Greater;
        } else {
            i = i + 1;
            j = j + 1;
        }
    }
}

/// Natural order of two strings.
pub fn natural_compare_str(a: &str, b: &str) -> (r: Comparison)
    ensures
        r == natural_order(a@, b@),
{
    natural_compare(&chars_of(a), &chars_of(b))
}

/// The standard ordering value of a comparison.
pub open spec fn to_ordering(c: Comparison) -> std::cmp::Ordering {
    match c {
        Comparison::Less => std::cmp::Ordering::Less,
        Comparison::Equal => std::cmp::Ordering::Equal,
        Comparison::Greater => std::cmp::Ordering::Greater,
    }
}

/// Natural-order comparison of two strings: runs of digits compare by the
/// numbers they spell, so that `R2` comes before `R10`.
pub fn natord_cmp(a: &str, b: &str) -> (r: std::cmp::Ordering)
    ensures
        r == to_ordering(natural_order(a@, b@)),
{
    match natural_compare_str(a, b) {
        Comparison::Less => std::cmp::Ordering::Less,
        Comparison::Equal => std::cmp::Ordering::Equal,
        Comparison::Greater => std::cmp::Ordering::Greater,
    }
}

/// Natural order reads the same either way round: comparing `b` with `a`
/// gives the opposite of comparing `a` with `b`.
pub proof fn lemma_natural_order_flip(a: Seq<char>, i: int, b: Seq<char>, j: int)
    requires
        0 <= i <= a.len(),
        0 <= j <= b.len(),
    ensures
        natural_order_from(b, j, a, i) == flip(natural_order_from(a, i, b, j)),
    decreases (a.len() - i) + (b.len() - j),
{
    if i == a.len() || j == b.len() {
    } else if is_digit(a[i]) && is_digit(b[j]) {
        lemma_digit_run(a, i);
        lemma_digit_run(b, j);
        let ra = digit_run_len(a, i);
        let rb = digit_run_len(b, j);
        lemma_natural_order_flip(a, i + ra, b, j + rb);
    } else if a[i] == b[j] {
        lemma_natural_order_flip(a, i + 1, b, j + 1);
    }
}

/// Every string is naturally equal to itself.
pub proof fn lemma_natural_order_refl(a: Seq<char>, i: int)
    requires
        0 <= i <= a.len(),
    ensures
        natural_order_from(a, i, a, i) == Comparison::Equal,
    decreases a.len() - i,
{
    if i < a.len() {
        if is_digit(a[i]) {
            lemma_digit_run(a, i);
            lemma_natural_order_refl(a, i + digit_run_len(a, i));
        } else {
            lemma_natural_order_refl(a, i + 1);
        }
    }
}

} // verus!
