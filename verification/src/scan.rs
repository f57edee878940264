//! Byte-level scanning primitives shared by the decoders: locating a byte,
//! classifying ASCII digits and whitespace, measuring runs, and reading the
//! value of a run of decimal digits.
use vstd::prelude::*;

verus! {

/// `b` is an ASCII decimal digit.
pub open spec fn is_digit(b: u8) -> bool {
    48 <= b && b <= 57
}

/// `b` is an ASCII whitespace byte: space, tab, line feed, vertical tab,
/// form feed or carriage return.
pub open spec fn is_space(b: u8) -> bool {
    b == 32 || b == 9 || b == 10 || b == 11 || b == 12 || b == 13
}

/// Index of the first occurrence of `b` in `s` at or after `i`, or `s.len()`
/// when there is none.
pub open spec fn find_from(s: Seq<u8>, i: int, b: u8) -> int
    decreases s.len() - i,
{
    if i < 0 || i >= s.len() {
        s.len() as int
    } else if s[i] == b {
        i
    } else {
        find_from(s, i + 1, b)
    }
}

pub proof fn lemma_find_from(s: Seq<u8>, i: int, b: u8)
    requires
        0 <= i <= s.len(),
    ensures
        i <= find_from(s, i, b) <= s.len(),
        find_from(s, i, b) < s.len() ==> s[find_from(s, i, b)] == b,
        forall|k: int| i <= k < find_from(s, i, b) ==> s[k] != b,
    decreases s.len() - i,
{
    if i < s.len() && s[i] != b {
        lemma_find_from(s, i + 1, b);
    }
}

/// Index of the first non-digit byte in `s` at or after `i`, or `s.len()`.
pub open spec fn digits_end(s: Seq<u8>, i: int) -> int
    decreases s.len() - i,
{
    if i < 0 || i >= s.len() {
        s.len() as int
    } else if !is_digit(s[i]) {
        i
    } else {
        digits_end(s, i + 1)
    }
}

pub proof fn lemma_digits_end(s: Seq<u8>, i: int)
    requires
        0 <= i <= s.len(),
    ensures
        i <= digits_end(s, i) <= s.len(),
        digits_end(s, i) < s.len() ==> !is_digit(s[digits_end(s, i)]),
        forall|k: int| i <= k < digits_end(s, i) ==> is_digit(s[k]),
    decreases s.len() - i,
{
    if i < s.len() && is_digit(s[i]) {
        lemma_digits_end(s, i + 1);
    }
}

/// Index of the first non-whitespace byte in `s` at or after `i`, or `s.len()`.
pub open spec fn space_end(s: Seq<u8>, i: int) -> int
    decreases s.len() - i,
{
    if i < 0 || i >= s.len() {
        s.len() as int
    } else if !is_space(s[i]) {
        i
    } else {
        space_end(s, i + 1)
    }
}

pub proof fn lemma_space_end(s: Seq<u8>, i: int)
    requires
        0 <= i <= s.len(),
    ensures
        i <= space_end(s, i) <= s.len(),
        space_end(s, i) < s.len() ==> !is_space(s[space_end(s, i)]),
        forall|k: int| i <= k < space_end(s, i) ==> is_space(s[k]),
    decreases s.len() - i,
{
    if i < s.len() && is_space(s[i]) {
        lemma_space_end(s, i + 1);
    }
}

/// Index of the first whitespace byte in `s` at or after `i`, or `s.len()`.
pub open spec fn nonspace_end(s: Seq<u8>, i: int) -> int
    decreases s.len() - i,
{
    if i < 0 || i >= s.len() {
        s.len() as int
    } else if is_space(s[i]) {
        i
    } else {
        nonspace_end(s, i + 1)
    }
}

pub proof fn lemma_nonspace_end(s: Seq<u8>, i: int)
    requires
        0 <= i <= s.len(),
    ensures
        i <= nonspace_end(s, i) <= s.len(),
        nonspace_end(s, i) < s.len() ==> is_space(s[nonspace_end(s, i)]),
        forall|k: int| i <= k < nonspace_end(s, i) ==> !is_space(s[k]),
    decreases s.len() - i,
{
    if i < s.len() && !is_space(s[i]) {
        lemma_nonspace_end(s, i + 1);
    }
}

pub fn scan_find(v: &Vec<u8>, i: usize, b: u8) -> (r: usize)
    requires
        i <= v@.len(),
    ensures
        r == find_from(v@, i as int, b),
        i <= r <= v@.len(),
{
    let mut j = i;
    while j < v.len()
        invariant
            i <= j <= v@.len(),
            find_from(v@, i as int, b) == find_from(v@, j as int, b),
        decreases v@.len() - j,
    {
        if v[j] == b {
            return j;
        }
        j = j + 1;
    }
    j
}

pub fn scan_digits_end(v: &Vec<u8>, i: usize) -> (r: usize)
    requires
        i <= v@.len(),
    ensures
        r == digits_end(v@, i as int),
        i <= r <= v@.len(),
{
    let mut j = i;
    while j < v.len()
        invariant
            i <= j <= v@.len(),
            digits_end(v@, i as int) == digits_end(v@, j as int),
        decreases v@.len() - j,
    {
        if v[j] < 48 || v[j] > 57 {
            return j;
        }
        j = j + 1;
    }
    j
}

pub fn is_space_byte(b: u8) -> (r: bool)
    ensures
        r == is_space(b),
{
    b == 32 || b == 9 || b == 10 || b == 11 || b == 12 || b == 13
}

pub fn scan_space_end(v: &Vec<u8>, i: usize) -> (r: usize)
    requires
        i <= v@.len(),
    ensures
        r == space_end(v@, i as int),
        i <= r <= v@.len(),
{
    let mut j = i;
    while j < v.len()
        invariant
            i <= j <= v@.len(),
            space_end(v@, i as int) == space_end(v@, j as int),
        decreases v@.len() - j,
    {
        if !is_space_byte(v[j]) {
            return j;
        }
        j = j + 1;
    }
    j
}

pub fn scan_nonspace_end(v: &Vec<u8>, i: usize) -> (r: usize)
    requires
        i <= v@.len(),
    ensures
        r == nonspace_end(v@, i as int),
        i <= r <= v@.len(),
{
    let mut j = i;
    while j < v.len()
        invariant
            i <= j <= v@.len(),
            nonspace_end(v@, i as int) == nonspace_end(v@, j as int),
        decreases v@.len() - j,
    {
        if is_space_byte(v[j]) {
            return j;
        }
        j = j + 1;
    }
    j
}

/// Ten raised to `n`.
pub open spec fn pow10(n: nat) -> int
    decreases n,
{
    if n == 0 {
        1
    } else {
        10 * pow10((n - 1) as nat)
    }
}

pub proof fn lemma_pow10_mono(m: nat, n: nat)
    requires
        m <= n,
    ensures
        1 <= pow10(m) <= pow10(n),
    decreases n,
{
    if n > 0 {
        if m < n {
            lemma_pow10_mono(m, (n - 1) as nat);
        } else {
            lemma_pow10_mono((n - 1) as nat, (n - 1) as nat);
        }
    }
}

/// Numeric value of the decimal digit run `s[a..b]`, most significant digit
/// first.
pub open spec fn digits_val(s: Seq<u8>, a: int, b: int) -> int
    decreases b - a,
{
    if b <= a {
        0
    } else {
        digits_val(s, a, b - 1) * 10 + (s[b - 1] - 48)
    }
}

pub proof fn lemma_digits_val_bound(s: Seq<u8>, a: int, b: int)
    requires
        0 <= a <= b <= s.len(),
        forall|k: int| a <= k < b ==> is_digit(s[k]),
    ensures
        0 <= digits_val(s, a, b) < pow10((b - a) as nat),
    decreases b - a,
{
    if b > a {
        lemma_digits_val_bound(s, a, b - 1);
        assert(digits_val(s, a, b - 1) <= pow10((b - a - 1) as nat) - 1);
        assert(pow10((b - a) as nat) == 10 * pow10((b - a - 1) as nat));
    }
}

/// Reads the value of the digit run `v[a..b]`; the run is at most 13 digits,
/// so the value fits comfortably in a `u64`.
pub fn parse_digits(v: &Vec<u8>, a: usize, b: usize) -> (r: u64)
    requires
        a <= b <= v@.len(),
        b - a <= 13,
        forall|k: int| a <= k < b ==> is_digit(v@[k]),
    ensures
        r == digits_val(v@, a as int, b as int),
        r < pow10((b - a) as nat),
{
    proof {
        lemma_digits_val_bound(v@, a as int, b as int);
    }
    let mut acc: u64 = 0;
    let mut k = a;
    while k < b
        invariant
            a <= k <= b <= v@.len(),
            b - a <= 13,
            forall|j: int| a <= j < b ==> is_digit(v@[j]),
            acc == digits_val(v@, a as int, k as int),
        decreases b - k,
    {
        proof {
            lemma_digits_val_bound(v@, a as int, k as int);
            lemma_pow10_mono((k - a) as nat, 12);
            assert(pow10(12) == 1000000000000) by {
                reveal_with_fuel(pow10, 13);
            }
        }
        acc = acc * 10 + (v[k] - 48) as u64;
        k = k + 1;
    }
    acc
}

/// Copies the byte range `v[a..b]` into a fresh vector.
pub fn copy_range(v: &Vec<u8>, a: usize, b: usize) -> (r: Vec<u8>)
    requires
        a <= b <= v@.len(),
    ensures
        r@ == v@.subrange(a as int, b as int),
{
    let mut r: Vec<u8> = Vec::new();
    proof {
        assert(r@ =~= v@.subrange(a as int, a as int));
    }
    let mut k = a;
    while k < b
        invariant
            a <= k <= b <= v@.len(),
            r@ == v@.subrange(a as int, k as int),
        decreases b - k,
    {
        r.push(v[k]);
        proof {
            assert(v@.subrange(a as int, k + 1) =~= v@.subrange(a as int, k as int).push(
                v@[k as int],
            ));
        }
        k = k + 1;
    }
    r
}

} // verus!
