//! Small verified text utilities shared by the lexer, parser and exporters.

use vstd::prelude::*;
use vstd::string::StrSliceExecFns;

verus! {

/// Calls `String::push`: the string afterwards holds its old characters
/// followed by `c`.
#[verifier::external_body]
pub(crate) fn push_char(s: &mut String, c: char)
    ensures
        final(s)@ == old(s)@.push(c),
{
    s.push(c)
}

/// The characters of a string slice, in order.
pub fn chars_of(s: &str) -> (v: Vec<char>)
    ensures
        v@ == s@,
{
    let mut v: Vec<char> = Vec::new();
    for c in it: s.chars()
        invariant
            it.seq() == s@,
            v@ == it.seq().take(it.index() as int),
    {
        v.push(c);
    }
    v
}

/// Appends the characters `v[from..to]` to `out`.
pub fn push_chars(out: &mut String, v: &Vec<char>, from: usize, to: usize)
    requires
        from <= to <= v.len(),
    ensures
        final(out)@ == old(out)@ + v@.subrange(from as int, to as int),
{
    let mut i = from;
    while i < to
        invariant
            from <= i <= to <= v.len(),
            out@ == old(out)@ + v@.subrange(from as int, i as int),
        decreases to - i,
    {
        push_char(out, v[i]);
        assert(v@.subrange(from as int, i + 1) == v@.subrange(from as int, i as int).push(v@[i as int]));
        i = i + 1;
    }
}

/// A new string holding `v[from..to]`.
pub fn string_from_chars(v: &Vec<char>, from: usize, to: usize) -> (s: String)
    requires
        from <= to <= v.len(),
    ensures
        s@ == v@.subrange(from as int, to as int),
{
    let mut s = String::new();
    push_chars(&mut s, v, from, to);
    s
}

/// Appends a string slice to `out`.
pub fn push_str(out: &mut String, s: &str)
    ensures
        final(out)@ == old(out)@ + s@,
{
    out.append(s);
}

/// A new string with the contents of a string slice.
pub fn to_string(s: &str) -> (r: String)
    ensures
        r@ == s@,
{
    s.to_owned()
}


/// The character of a decimal digit `d` (for `d < 10`).
pub open spec fn digit_char(d: nat) -> char {
    ((d + 48) as u32) as char
}

/// The decimal representation of `n`, without leading zeros.
pub open spec fn dec_digits(n: nat) -> Seq<char>
    decreases n,
{
    if n < 10 {
        seq![digit_char(n)]
    } else {
        dec_digits(n / 10).push(digit_char(n % 10))
    }
}

/// The character of the digit `d`.
pub fn digit_of(d: u64) -> (c: char)
    requires
        d < 10,
    ensures
        c == digit_char(d as nat),
{
    let b: u8 = 48u8 + (d as u8);
    assert(b as u32 == d + 48);
    b as char
}

/// Appends the decimal representation of `n` to `out`.
pub fn push_decimal(out: &mut String, n: u64)
    ensures
        final(out)@ == old(out)@ + dec_digits(n as nat),
    decreases n,
{
    if n >= 10 {
        push_decimal(out, n / 10);
    }
    push_char(out, digit_of(n % 10));
    assert(out@ == old(out)@ + dec_digits(n as nat));
}

/// The decimal representation of `n`.
pub fn decimal(n: u64) -> (s: String)
    ensures
        s@ == dec_digits(n as nat),
{
    let mut s = String::new();
    push_decimal(&mut s, n);
    s
}

/// Whether `needle` occurs in `hay` at position `i`.
pub open spec fn occurs_at(hay: Seq<char>, needle: Seq<char>, i: int) -> bool {
    0 <= i && i + needle.len() <= hay.len() && hay.subrange(i, i + needle.len()) == needle
}

/// Whether `needle` occurs anywhere in `hay`.
pub open spec fn contains_seq(hay: Seq<char>, needle: Seq<char>) -> bool {
    exists|i: int| #[trigger] occurs_at(hay, needle, i)
}

/// Whether `w` occurs in `v` at position `i`.
pub fn occurs_at_exec(v: &Vec<char>, w: &Vec<char>, i: usize) -> (b: bool)
    ensures
        b == occurs_at(v@, w@, i as int),
{
    if i > v.len() || w.len() > v.len() - i {
        return false;
    }
    let mut k: usize = 0;
    while k < w.len()
        invariant
            i + w.len() <= v.len(),
            k <= w.len(),
            forall|j: int| 0 <= j < k ==> v@[i + j] == w@[j],
        decreases w.len() - k,
    {
        if v[i + k] != w[k] {
            assert(v@.subrange(i as int, i + w.len())[k as int] != w@[k as int]);
            return false;
        }
        k = k + 1;
    }
    assert(v@.subrange(i as int, i + w.len()) =~= w@);
    true
}

/// Whether `needle` occurs in `hay`.
pub fn contains_chars(hay: &Vec<char>, needle: &Vec<char>) -> (b: bool)
    ensures
        b == contains_seq(hay@, needle@),
{
    if needle.len() > hay.len() {
        assert forall|i: int| !occurs_at(hay@, needle@, i) by {}
        return false;
    }
    let last = hay.len() - needle.len();
    let mut i: usize = 0;
    loop
        invariant
            last == hay.len() - needle.len(),
            i <= last,
            forall|j: int| 0 <= j < i ==> !occurs_at(hay@, needle@, j),
        ensures
            forall|j: int| 0 <= j <= last ==> !occurs_at(hay@, needle@, j),
        decreases last - i,
    {
        if occurs_at_exec(hay, needle, i) {
            return true;
        }
        if i == last {
            break;
        }
        i = i + 1;
    }
    assert forall|j: int| !occurs_at(hay@, needle@, j) by {}
    false
}

/// Whether the string `needle` occurs in the string `hay`.
pub fn contains_str(hay: &str, needle: &str) -> (b: bool)
    ensures
        b == contains_seq(hay@, needle@),
{
    contains_chars(&chars_of(hay), &chars_of(needle))
}

/// Whether a string is empty.
pub fn is_empty_text(s: &str) -> (b: bool)
    ensures
        b == (s@.len() == 0),
{
    s.unicode_len() == 0
}

/// Whether two strings hold the same characters.
pub fn str_eq(a: &str, b: &str) -> (r: bool)
    ensures
        r == (a@ == b@),
{
    a.to_owned() == b.to_owned()
}

/// `s` with every `from` replaced by `to`.
pub open spec fn replace_char_seq(s: Seq<char>, from: char, to: char) -> Seq<char> {
    s.map_values(|c: char| if c == from { to } else { c })
}

/// A copy of `s` with every occurrence of `from` replaced by `to`.
pub fn replace_char(s: &str, from: char, to: char) -> (r: String)
    ensures
        r@ == replace_char_seq(s@, from, to),
{
    let v = chars_of(s);
    let mut r = String::new();
    let mut i: usize = 0;
    while i < v.len()
        invariant
            i <= v.len(),
            r@ == replace_char_seq(v@.take(i as int), from, to),
        decreases v.len() - i,
    {
        let c = v[i];
        push_char(&mut r, if c == from { to } else { c });
        assert(v@.take(i + 1) == v@.take(i as int).push(c));
        assert(replace_char_seq(v@.take(i + 1), from, to) =~= replace_char_seq(v@.take(i as int), from, to).push(if c == from { to } else { c }));
        i = i + 1;
    }
    assert(v@.take(v.len() as int) == v@);
    r
}

/// Whether every character of `s` is an ASCII digit.
pub open spec fn all_digits(s: Seq<char>) -> bool {
    forall|i: int| 0 <= i < s.len() ==> '0' <= #[trigger] s[i] <= '9'
}


/// The value of a decimal digit character.
pub open spec fn digit_value(c: char) -> nat {
    ((c as u32) - 48) as nat
}

/// Ten to the power `n`.
pub open spec fn pow10(n: nat) -> nat
    decreases n,
{
    if n == 0 {
        1
    } else {
        10 * pow10((n - 1) as nat)
    }
}

/// The number a string of decimal digits spells, most significant first.
pub open spec fn digits_value(s: Seq<char>) -> nat
    decreases s.len(),
{
    if s.len() == 0 {
        0
    } else {
        digit_value(s[0]) * pow10((s.len() - 1) as nat) + digits_value(s.drop_first())
    }
}

/// Powers of ten are positive and grow with the exponent.
pub proof fn lemma_pow10_mono(a: nat, b: nat)
    requires
        a <= b,
    ensures
        1 <= pow10(a) <= pow10(b),
    decreases b,
{
    if b > a {
        lemma_pow10_mono(a, (b - 1) as nat);
    } else if b > 0 {
        lemma_pow10_mono(0, (b - 1) as nat);
    }
}

/// A string of `n` digits spells a number below `10^n`.
pub proof fn lemma_digits_value_bound(s: Seq<char>)
    requires
        all_digits(s),
    ensures
        digits_value(s) < pow10(s.len()),
    decreases s.len(),
{
    if s.len() > 0 {
        let t = s.drop_first();
        assert(all_digits(t)) by {
            assert forall|i: int| 0 <= i < t.len() implies '0' <= #[trigger] t[i] <= '9' by {
                assert(t[i] == s[i + 1]);
            }
        }
        lemma_digits_value_bound(t);
        let p = pow10((s.len() - 1) as nat);
        let d = digit_value(s[0]);
        assert(d <= 9);
        assert(d * p <= 9 * p) by (nonlinear_arith)
            requires
                d <= 9,
        ;
    }
}

/// A string of `n` digits that does not start with `0` spells at least `10^(n-1)`.
pub proof fn lemma_digits_value_lower(s: Seq<char>)
    requires
        all_digits(s),
        s.len() > 0,
        s[0] != '0',
    ensures
        digits_value(s) >= pow10((s.len() - 1) as nat),
{
    let p = pow10((s.len() - 1) as nat);
    let d = digit_value(s[0]);
    assert(d >= 1);
    assert(d * p >= p) by (nonlinear_arith)
        requires
            d >= 1,
    ;
}

/// Leading zeros do not change the number a digit string spells.
pub proof fn lemma_digits_value_leading_zero(s: Seq<char>)
    requires
        s.len() > 0,
        s[0] == '0',
    ensures
        digits_value(s) == digits_value(s.drop_first()),
{
    assert(digit_value(s[0]) == 0);
}

/// Digit strings of equal length compare by their first difference.
pub proof fn lemma_digits_value_lex(s: Seq<char>, t: Seq<char>, k: int)
    requires
        all_digits(s),
        all_digits(t),
        s.len() == t.len(),
        0 <= k < s.len(),
        forall|j: int| 0 <= j < k ==> s[j] == t[j],
        s[k] < t[k],
    ensures
        digits_value(s) < digits_value(t),
    decreases k,
{
    let s1 = s.drop_first();
    let t1 = t.drop_first();
    assert(all_digits(s1)) by {
        assert forall|i: int| 0 <= i < s1.len() implies '0' <= #[trigger] s1[i] <= '9' by {
            assert(s1[i] == s[i + 1]);
        }
    }
    assert(all_digits(t1)) by {
        assert forall|i: int| 0 <= i < t1.len() implies '0' <= #[trigger] t1[i] <= '9' by {
            assert(t1[i] == t[i + 1]);
        }
    }
    if k > 0 {
        assert(s[0] == t[0]);
        lemma_digits_value_lex(s1, t1, k - 1);
    } else {
        let p = pow10((s.len() - 1) as nat);
        lemma_digits_value_bound(s1);
        let ds = digit_value(s[0]);
        let dt = digit_value(t[0]);
        assert(ds + 1 <= dt);
        assert(ds * p + p <= dt * p) by (nonlinear_arith)
            requires
                ds + 1 <= dt,
        ;
    }
}


/// Appending a digit multiplies the number by ten and adds the digit.
pub proof fn lemma_digits_value_push(s: Seq<char>, c: char)
    ensures
        digits_value(s.push(c)) == digits_value(s) * 10 + digit_value(c),
    decreases s.len(),
{
    let t = s.push(c);
    if s.len() == 0 {
        assert(t.drop_first() =~= Seq::<char>::empty());
        assert(digits_value(t) == digit_value(c) * pow10(0) + digits_value(t.drop_first()));
        assert(pow10(0) == 1);
        let dc = digit_value(c);
        let p0 = pow10(0);
        assert(dc * p0 == dc) by (nonlinear_arith)
            requires
                p0 == 1,
        ;
        assert(t[0] == c);
        assert(digits_value(s) == 0);
        assert(digits_value(t.drop_first()) == 0);
        assert(digits_value(t) == digits_value(s) * 10 + digit_value(c));
    } else {
        assert(t.drop_first() =~= s.drop_first().push(c));
        lemma_digits_value_push(s.drop_first(), c);
        let d = digit_value(s[0]);
        let p = pow10((s.len() - 1) as nat);
        let r = digits_value(s.drop_first());
        assert(pow10(s.len()) == 10 * p);
        assert(t[0] == s[0]);
        assert(digits_value(t) == d * pow10(s.len()) + digits_value(t.drop_first()));
        assert(digits_value(s) == d * p + r);
        assert(d * (10 * p) + (r * 10 + digit_value(c)) == (d * p + r) * 10 + digit_value(c)) by (nonlinear_arith);
        assert(digits_value(t.drop_first()) == r * 10 + digit_value(c));
        assert(digits_value(t) == digits_value(s) * 10 + digit_value(c));
    }
}

/// A prefix of a digit string never spells a larger number than the whole.
pub proof fn lemma_digits_value_prefix_mono(s: Seq<char>, k: int)
    requires
        0 <= k <= s.len(),
    ensures
        digits_value(s.take(k)) <= digits_value(s),
    decreases s.len() - k,
{
    if k < s.len() {
        lemma_digits_value_prefix_mono(s, k + 1);
        assert(s.take(k + 1) =~= s.take(k).push(s[k]));
        lemma_digits_value_push(s.take(k), s[k]);
    } else {
        assert(s.take(k) =~= s);
    }
}


/// The first position at or after `i` where `sep` occurs in `s`, or a
/// position past the end of `s` when there is none.
pub open spec fn first_occurrence_from(s: Seq<char>, sep: Seq<char>, i: int) -> int
    decreases s.len() + 1 - i,
{
    if i < 0 || i > s.len() {
        s.len() + 1int
    } else if occurs_at(s, sep, i) {
        i
    } else {
        first_occurrence_from(s, sep, i + 1)
    }
}

/// Where the search for `sep` from `i` ends: at an occurrence with none
/// between `i` and it, or past the end with none at all from `i`.
pub proof fn lemma_first_occurrence(s: Seq<char>, sep: Seq<char>, i: int)
    requires
        0 <= i <= s.len(),
    ensures
        ({
            let k = first_occurrence_from(s, sep, i);
            &&& i <= k
            &&& (k <= s.len() ==> occurs_at(s, sep, k))
            &&& (k > s.len() ==> k == s.len() + 1)
            &&& forall|j: int| i <= j < k && j <= s.len() ==> !occurs_at(s, sep, j)
        }),
    decreases s.len() + 1 - i,
{
    if !occurs_at(s, sep, i) {
        if i < s.len() {
            lemma_first_occurrence(s, sep, i + 1);
        } else {
            assert(first_occurrence_from(s, sep, i + 1) == s.len() + 1);
        }
    }
}

/// The pieces of `s` between the occurrences of a non-empty separator
/// `sep`, found from the left; there is always at least one piece.
pub open spec fn split_on(s: Seq<char>, sep: Seq<char>) -> Seq<Seq<char>>
    decreases s.len(),
{
    let k = first_occurrence_from(s, sep, 0);
    if sep.len() == 0 || k > s.len() {
        seq![s]
    } else {
        proof {
            lemma_first_occurrence(s, sep, 0);
        }
        seq![s.take(k)] + split_on(s.skip(k + sep.len()), sep)
    }
}

proof fn lemma_occurs_skip(s: Seq<char>, sep: Seq<char>, a: int, i: int)
    requires
        0 <= a <= s.len(),
        0 <= i,
    ensures
        occurs_at(s.skip(a), sep, i) == occurs_at(s, sep, a + i),
{
    if occurs_at(s, sep, a + i) {
        assert(s.skip(a).subrange(i, i + sep.len()) =~= s.subrange(a + i, a + i + sep.len()));
    }
    if occurs_at(s.skip(a), sep, i) {
        assert(s.skip(a).subrange(i, i + sep.len()) =~= s.subrange(a + i, a + i + sep.len()));
    }
}

proof fn lemma_first_occurrence_skip(s: Seq<char>, sep: Seq<char>, a: int, i: int)
    requires
        0 <= a <= s.len(),
        a <= i <= s.len() + 1,
        forall|j: int| a <= j < i && j <= s.len() ==> !occurs_at(s, sep, j),
    ensures
        first_occurrence_from(s.skip(a), sep, 0) == first_occurrence_from(s.skip(a), sep, i - a),
    decreases i - a,
{
    if i > a {
        lemma_first_occurrence_skip(s, sep, a, i - 1);
        lemma_occurs_skip(s, sep, a, i - 1 - a);
    }
}

/// Splits `s` at every occurrence of a non-empty separator `sep`.
pub fn split_str(s: &str, sep: &str) -> (r: Vec<String>)
    requires
        sep@.len() > 0,
    ensures
        crate::ids::strings_view(r@) == split_on(s@, sep@),
{
    let v = chars_of(s);
    let w = chars_of(sep);
    let mut pieces: Vec<String> = Vec::new();
    let mut start: usize = 0;
    let mut i: usize = 0;
    proof {
        assert(v@.skip(0) =~= v@);
        assert(pieces@.map_values(|p: String| p@) =~= Seq::<Seq<char>>::empty());
        assert(Seq::<Seq<char>>::empty() + split_on(v@, w@) =~= split_on(v@, w@));
    }
    while i < v.len()
        invariant
            w@ == sep@,
            w@.len() > 0,
            start <= i <= v.len(),
            pieces@.map_values(|p: String| p@) + split_on(v@.skip(start as int), w@) == split_on(v@, w@),
            forall|j: int| start <= j < i ==> !occurs_at(v@, w@, j),
        decreases v.len() - i,
    {
        if occurs_at_exec(&v, &w, i) {
            let piece = string_from_chars(&v, start, i);
            proof {
                let t = v@.skip(start as int);
                lemma_first_occurrence_skip(v@, w@, start as int, i as int);
                lemma_occurs_skip(v@, w@, start as int, i - start);
                assert(first_occurrence_from(t, w@, (i - start) as int) == i - start);
                assert(t.take(i - start) =~= v@.subrange(start as int, i as int));
                assert(t.skip(i - start + w@.len()) =~= v@.skip(i + w@.len()));
                assert(split_on(t, w@) == seq![t.take(i - start)] + split_on(t.skip(i - start + w@.len()), w@));
            }
            pieces.push(piece);
            proof {
                let m = pieces@.map_values(|p: String| p@);
                assert(m =~= old_pieces_map(pieces@.drop_last()).push(v@.subrange(start as int, i as int))) by {
                    assert(m.drop_last() =~= old_pieces_map(pieces@.drop_last()));
                }
            }
            start = i + w.len();
            i = start;
            proof {
                assert forall|j: int| start <= j < i implies !occurs_at(v@, w@, j) by {}
            }
        } else {
            i = i + 1;
        }
    }
    proof {
        let t = v@.skip(start as int);
        lemma_first_occurrence_skip(v@, w@, start as int, v.len() as int);
        lemma_occurs_skip(v@, w@, start as int, v.len() - start);
        assert(!occurs_at(v@, w@, v.len() as int));
        lemma_first_occurrence(t, w@, t.len() as int);
        assert(first_occurrence_from(t, w@, (v.len() - start) as int) == t.len() + 1);
        assert(split_on(t, w@) == seq![t]);
        assert(t =~= v@.subrange(start as int, v.len() as int));
    }
    let last = string_from_chars(&v, start, v.len());
    pieces.push(last);
    proof {
        let m = pieces@.map_values(|p: String| p@);
        assert(m.drop_last() =~= old_pieces_map(pieces@.drop_last()));
        assert(m =~= old_pieces_map(pieces@.drop_last()).push(v@.subrange(start as int, v.len() as int)));
        assert(crate::ids::strings_view(pieces@) =~= m);
    }
    pieces
}

spec fn old_pieces_map(s: Seq<String>) -> Seq<Seq<char>> {
    s.map_values(|p: String| p@)
}

} // verus!
