//! Character-level text utilities: whitespace and digit predicates, trimming,
//! literal scanning, substring search, and decimal rendering.
//!
//! Labels and attribute values arrive as `String`s; the library processes them
//! as `Vec<char>` so that every step is plain verified code over `Seq<char>`.

use vstd::prelude::*;

verus! {

/// Whether `c` has the Unicode `White_Space` property, the set `str::trim`
/// strips.
pub open spec fn is_space(c: char) -> bool {
    let u = c as u32;
    (0x9 <= u && u <= 0xD) || u == 0x20 || u == 0x85 || u == 0xA0 || u == 0x1680 || (0x2000 <= u
        && u <= 0x200A) || u == 0x2028 || u == 0x2029 || u == 0x202F || u == 0x205F || u == 0x3000
}

/// Whether `c` is an ASCII decimal digit.
pub open spec fn is_digit(c: char) -> bool {
    let u = c as u32;
    0x30 <= u && u <= 0x39
}

/// A non-empty run of decimal digits: what `<N>` stands for in the label
/// patterns.
pub open spec fn is_count(s: Seq<char>) -> bool {
    s.len() >= 1 && forall|i: int| 0 <= i < s.len() ==> is_digit(s[i])
}

/// `s` with its leading whitespace removed.
pub open spec fn trim_start_spec(s: Seq<char>) -> Seq<char>
    decreases s.len(),
{
    if s.len() > 0 && is_space(s[0]) {
        trim_start_spec(s.drop_first())
    } else {
        s
    }
}

/// `s` with its trailing whitespace removed.
pub open spec fn trim_end_spec(s: Seq<char>) -> Seq<char>
    decreases s.len(),
{
    if s.len() > 0 && is_space(s.last()) {
        trim_end_spec(s.drop_last())
    } else {
        s
    }
}

/// `s` with leading and trailing whitespace removed: what `str::trim` returns.
pub open spec fn trim_spec(s: Seq<char>) -> Seq<char> {
    trim_end_spec(trim_start_spec(s))
}

/// Relies on `String::push`: appends the given character to the end of the
/// string.
pub assume_specification[ String::push ](s: &mut String, ch: char)
    ensures
        final(s)@ == old(s)@.push(ch),
;

/// Whether `c` has the Unicode `White_Space` property (executable form).
pub fn is_space_char(c: char) -> (r: bool)
    ensures
        r == is_space(c),
{
    let u = c as u32;
    (0x9 <= u && u <= 0xD) || u == 0x20 || u == 0x85 || u == 0xA0 || u == 0x1680 || (0x2000 <= u
        && u <= 0x200A) || u == 0x2028 || u == 0x2029 || u == 0x202F || u == 0x205F || u == 0x3000
}

/// Whether `c` is an ASCII decimal digit (executable form).
pub fn is_digit_char(c: char) -> (r: bool)
    ensures
        r == is_digit(c),
{
    let u = c as u32;
    0x30 <= u && u <= 0x39
}

/// The characters of `s`, in order.
pub fn chars_of(s: &str) -> (r: Vec<char>)
    ensures
        r@ == s@,
{
    let n = s.unicode_len();
    let mut r: Vec<char> = Vec::new();
    let mut i: usize = 0;
    while i < n
        invariant
            i <= n,
            n == s@.len(),
            r@ == s@.subrange(0, i as int),
        decreases n - i,
    {
        r.push(s.get_char(i));
        i = i + 1;
        assert(r@ =~= s@.subrange(0, i as int));
    }
    assert(r@ =~= s@);
    r
}

/// The string holding exactly the characters of `v`.
pub fn string_of(v: &Vec<char>) -> (r: String)
    ensures
        r@ == v@,
{
    let mut r = String::new();
    let mut i: usize = 0;
    while i < v.len()
        invariant
            i <= v.len(),
            r@ == v@.subrange(0, i as int),
        decreases v.len() - i,
    {
        r.push(v[i]);
        i = i + 1;
        assert(r@ =~= v@.subrange(0, i as int));
    }
    assert(r@ =~= v@);
    r
}

/// If the first `k` characters of `s` are whitespace and the one at `k` (if
/// any) is not, trimming from the start drops exactly those `k`.
proof fn lemma_trim_start_at(s: Seq<char>, k: int)
    requires
        0 <= k <= s.len(),
        forall|j: int| 0 <= j < k ==> is_space(s[j]),
        k < s.len() ==> !is_space(s[k]),
    ensures
        trim_start_spec(s) == s.subrange(k, s.len() as int),
    decreases k,
{
    if k == 0 {
        assert(s.subrange(0, s.len() as int) =~= s);
    } else {
        let d = s.drop_first();
        lemma_trim_start_at(d, k - 1);
        assert(d.subrange(k - 1, d.len() as int) =~= s.subrange(k, s.len() as int));
    }
}

/// If the characters of `s` from `k` on are whitespace and the one before `k`
/// (if any) is not, trimming from the end keeps exactly the first `k`.
proof fn lemma_trim_end_at(s: Seq<char>, k: int)
    requires
        0 <= k <= s.len(),
        forall|j: int| k <= j < s.len() ==> is_space(s[j]),
        k > 0 ==> !is_space(s[k - 1]),
    ensures
        trim_end_spec(s) == s.subrange(0, k),
    decreases s.len(),
{
    if k == s.len() {
        assert(s.subrange(0, k) =~= s);
    } else {
        let d = s.drop_last();
        lemma_trim_end_at(d, k);
        assert(d.subrange(0, k) =~= s.subrange(0, k));
    }
}

/// A trimmed string neither starts nor ends with whitespace.
pub proof fn lemma_trim_clean_ends(s: Seq<char>)
    ensures
        trim_spec(s).len() > 0 ==> !is_space(trim_spec(s)[0]),
        trim_spec(s).len() > 0 ==> !is_space(trim_spec(s).last()),
{
    lemma_trim_start_no_leading(s);
    lemma_trim_end_no_trailing(trim_start_spec(s));
    lemma_trim_end_keeps_first(trim_start_spec(s));
}

proof fn lemma_trim_start_no_leading(s: Seq<char>)
    ensures
        trim_start_spec(s).len() > 0 ==> !is_space(trim_start_spec(s)[0]),
    decreases s.len(),
{
    if s.len() > 0 && is_space(s[0]) {
        lemma_trim_start_no_leading(s.drop_first());
    }
}

proof fn lemma_trim_end_no_trailing(s: Seq<char>)
    ensures
        trim_end_spec(s).len() > 0 ==> !is_space(trim_end_spec(s).last()),
    decreases s.len(),
{
    if s.len() > 0 && is_space(s.last()) {
        lemma_trim_end_no_trailing(s.drop_last());
    }
}

proof fn lemma_trim_end_keeps_first(s: Seq<char>)
    ensures
        trim_end_spec(s).len() > 0 ==> trim_end_spec(s)[0] == s[0],
    decreases s.len(),
{
    if s.len() > 0 && is_space(s.last()) {
        lemma_trim_end_keeps_first(s.drop_last());
    }
}

/// Trimming a string that neither starts nor ends with whitespace returns it
/// unchanged.
pub proof fn lemma_trim_of_clean(s: Seq<char>)
    requires
        s.len() > 0 ==> !is_space(s[0]),
        s.len() > 0 ==> !is_space(s.last()),
    ensures
        trim_spec(s) == s,
{
}

/// Trimming is idempotent.
pub proof fn lemma_trim_idempotent(s: Seq<char>)
    ensures
        trim_spec(trim_spec(s)) == trim_spec(s),
{
    lemma_trim_clean_ends(s);
    lemma_trim_of_clean(trim_spec(s));
}

/// `v` with leading and trailing whitespace removed.
pub fn trim_chars(v: &Vec<char>) -> (r: Vec<char>)
    ensures
        r@ == trim_spec(v@),
{
    let n = v.len();
    let mut lo: usize = 0;
    while lo < n && is_space_char(v[lo])
        invariant
            lo <= n,
            n == v.len(),
            forall|j: int| 0 <= j < lo ==> is_space(v@[j]),
        decreases n - lo,
    {
        lo = lo + 1;
    }
    proof {
        lemma_trim_start_at(v@, lo as int);
    }
    let ghost t = trim_start_spec(v@);
    let mut hi: usize = n;
    while hi > lo && is_space_char(v[hi - 1])
        invariant
            lo <= hi <= n,
            n == v.len(),
            forall|j: int| hi <= j < n ==> is_space(v@[j]),
        decreases hi,
    {
        hi = hi - 1;
    }
    proof {
        assert(forall|j: int| hi - lo <= j < t.len() ==> is_space(#[trigger] t[j]));
        lemma_trim_end_at(t, hi - lo);
        assert(t.subrange(0, hi - lo) =~= v@.subrange(lo as int, hi as int));
    }
    let mut r: Vec<char> = Vec::new();
    let mut i: usize = lo;
    while i < hi
        invariant
            lo <= i <= hi <= n,
            n == v.len(),
            r@ == v@.subrange(lo as int, i as int),
        decreases hi - i,
    {
        r.push(v[i]);
        i = i + 1;
        assert(r@ =~= v@.subrange(lo as int, i as int));
    }
    r
}

/// `s` with leading and trailing whitespace removed, as a fresh string.
pub fn trimmed(s: &str) -> (r: String)
    ensures
        r@ == trim_spec(s@),
{
    let v = chars_of(s);
    let t = trim_chars(&v);
    string_of(&t)
}

/// Whether `lit` occurs in `s` starting at position `pos`.
pub open spec fn lit_at(s: Seq<char>, pos: int, lit: Seq<char>) -> bool {
    0 <= pos && pos + lit.len() <= s.len() && s.subrange(pos, pos + lit.len() as int) == lit
}

/// Whether `lit` occurs anywhere in `s`.
pub open spec fn contains_seq(s: Seq<char>, lit: Seq<char>) -> bool {
    exists|i: int| #[trigger] lit_at(s, i, lit)
}

/// Whether `lit` occurs in `v` starting at position `pos` (executable form).
pub fn has_lit_at(v: &Vec<char>, pos: usize, lit: &str) -> (b: bool)
    requires
        pos <= v@.len(),
    ensures
        b == lit_at(v@, pos as int, lit@),
{
    let n = lit.unicode_len();
    if n > v.len() - pos {
        return false;
    }
    let mut j: usize = 0;
    while j < n
        invariant
            j <= n,
            n == lit@.len(),
            pos + n <= v.len(),
            forall|k: int| 0 <= k < j ==> v@[pos + k] == lit@[k],
        decreases n - j,
    {
        if v[pos + j] != lit.get_char(j) {
            assert(v@.subrange(pos as int, pos + lit@.len() as int)[j as int] != lit@[j as int]);
            return false;
        }
        j = j + 1;
    }
    assert(v@.subrange(pos as int, pos + lit@.len() as int) =~= lit@);
    true
}

/// Whether `lit` occurs anywhere in `v` (executable form).
pub fn contains_lit(v: &Vec<char>, lit: &str) -> (b: bool)
    ensures
        b == contains_seq(v@, lit@),
{
    let n = lit.unicode_len();
    if n == 0 {
        assert(lit_at(v@, 0, lit@)) by {
            assert(v@.subrange(0, 0) =~= lit@);
        }
        return true;
    }
    if n > v.len() {
        assert(forall|i: int| !lit_at(v@, i, lit@));
        return false;
    }
    let last = v.len() - n;
    let mut i: usize = 0;
    while i <= last
        invariant
            i <= last + 1,
            last + n == v.len(),
            1 <= n == lit@.len(),
            forall|j: int| 0 <= j < i ==> !lit_at(v@, j, lit@),
        decreases last - i + 1,
    {
        if has_lit_at(v, i, lit) {
            return true;
        }
        i = i + 1;
    }
    assert(forall|j: int| !lit_at(v@, j, lit@)) by {
        assert(forall|j: int| j > last ==> !lit_at(v@, j, lit@));
    }
    false
}

/// Whether `lit` occurs anywhere in `s` (executable form over `&str`).
pub fn contains_str(s: &str, lit: &str) -> (b: bool)
    ensures
        b == contains_seq(s@, lit@),
{
    let v = chars_of(s);
    contains_lit(&v, lit)
}

/// The end of the run of decimal digits of `s` that starts at `i`: the first
/// position at or after `i` holding no digit.
pub open spec fn digits_run_end(s: Seq<char>, i: int) -> int
    decreases s.len() - i when 0 <= i <= s.len()
{
    if i < s.len() && is_digit(s[i]) {
        digits_run_end(s, i + 1)
    } else {
        i
    }
}

/// What `digits_run_end` returns: the positions up to it hold digits and the
/// one at it (if any) does not.
pub proof fn lemma_digits_run_end_props(s: Seq<char>, i: int)
    requires
        0 <= i <= s.len(),
    ensures
        i <= digits_run_end(s, i) <= s.len(),
        forall|j: int| i <= j < digits_run_end(s, i) ==> is_digit(s[j]),
        digits_run_end(s, i) < s.len() ==> !is_digit(s[digits_run_end(s, i)]),
    decreases s.len() - i,
{
    if i < s.len() && is_digit(s[i]) {
        lemma_digits_run_end_props(s, i + 1);
    }
}

/// If the characters of `s` in `[i, k)` are digits and the one at `k` (if
/// any) is not, the digit run that starts at `i` ends exactly at `k`.
pub proof fn lemma_digits_run_end_is(s: Seq<char>, i: int, k: int)
    requires
        0 <= i <= k <= s.len(),
        forall|j: int| i <= j < k ==> is_digit(s[j]),
        k < s.len() ==> !is_digit(s[k]),
    ensures
        digits_run_end(s, i) == k,
    decreases k - i,
{
    if i < k {
        lemma_digits_run_end_is(s, i + 1, k);
    }
}

/// The end of the digit run of `v` that starts at `pos` (executable form).
pub fn scan_digits(v: &Vec<char>, pos: usize) -> (end: usize)
    requires
        pos <= v@.len(),
    ensures
        end == digits_run_end(v@, pos as int),
{
    let mut i: usize = pos;
    while i < v.len() && is_digit_char(v[i])
        invariant
            pos <= i <= v@.len(),
            digits_run_end(v@, pos as int) == digits_run_end(v@, i as int),
        decreases v@.len() - i,
    {
        i = i + 1;
    }
    i
}

/// The character for the decimal digit `d`.
pub open spec fn digit_char(d: int) -> char {
    if d == 0 {
        '0'
    } else if d == 1 {
        '1'
    } else if d == 2 {
        '2'
    } else if d == 3 {
        '3'
    } else if d == 4 {
        '4'
    } else if d == 5 {
        '5'
    } else if d == 6 {
        '6'
    } else if d == 7 {
        '7'
    } else if d == 8 {
        '8'
    } else {
        '9'
    }
}

/// The decimal rendering of `n`, without leading zeros (a single `0` for 0).
pub open spec fn dec_digits(n: int) -> Seq<char>
    decreases n when n >= 0
{
    if n < 10 {
        seq![digit_char(n)]
    } else {
        dec_digits(n / 10).push(digit_char(n % 10))
    }
}

/// The decimal rendering of `n` padded with zeros to two characters.
pub open spec fn two_digits(n: int) -> Seq<char> {
    seq![digit_char(n / 10), digit_char(n % 10)]
}

/// The character for the decimal digit `d` (executable form).
pub fn digit_to_char(d: u8) -> (c: char)
    requires
        d <= 9,
    ensures
        c == digit_char(d as int),
{
    if d == 0 {
        '0'
    } else if d == 1 {
        '1'
    } else if d == 2 {
        '2'
    } else if d == 3 {
        '3'
    } else if d == 4 {
        '4'
    } else if d == 5 {
        '5'
    } else if d == 6 {
        '6'
    } else if d == 7 {
        '7'
    } else if d == 8 {
        '8'
    } else {
        '9'
    }
}

/// Appends the decimal rendering of `n` to `out`.
pub fn push_dec_u16(out: &mut String, n: u16)
    ensures
        final(out)@ == old(out)@ + dec_digits(n as int),
    decreases n,
{
    if n < 10 {
        out.push(digit_to_char(n as u8));
        assert(final(out)@ =~= old(out)@ + dec_digits(n as int));
    } else {
        push_dec_u16(out, n / 10);
        out.push(digit_to_char((n % 10) as u8));
        assert(final(out)@ =~= old(out)@ + dec_digits(n as int));
    }
}

/// Appends the two-digit zero-padded rendering of `n` to `out`.
pub fn push_two_digits(out: &mut String, n: u8)
    requires
        n <= 99,
    ensures
        final(out)@ == old(out)@ + two_digits(n as int),
{
    out.push(digit_to_char(n / 10));
    out.push(digit_to_char(n % 10));
    assert(final(out)@ =~= old(out)@ + two_digits(n as int));
}

} // verus!
