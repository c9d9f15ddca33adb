//! Byte-level text utilities for the wire protocol: ASCII whitespace,
//! trimming, token extraction, case-insensitive comparison, substring
//! search, and decimal / hexadecimal numerals.

use vstd::prelude::*;

verus! {

/// ASCII whitespace, as the protocol's trimming and token splitting see it.
pub open spec fn is_ws(b: u8) -> bool {
    b == 32 || (9 <= b && b <= 13)
}

/// The bytes of an ASCII character sequence, character by character.
pub open spec fn ascii_seq(s: Seq<char>) -> Seq<u8> {
    Seq::new(s.len(), |i: int| s[i] as u8)
}

/// The bytes of an ASCII string slice.
pub fn ascii_bytes(s: &str) -> (r: Vec<u8>)
    requires
        vstd::string::is_ascii(s),
    ensures
        r@ == ascii_seq(s@),
{
    let v = s.as_bytes_vec();
    proof {
        vstd::utf8::is_ascii_chars_encode_utf8(s@);
        assert(v@ =~= ascii_seq(s@));
    }
    v
}

/// A fresh copy of `data[from..to]`.
pub fn subvec(data: &Vec<u8>, from: usize, to: usize) -> (r: Vec<u8>)
    requires
        from <= to <= data@.len(),
    ensures
        r@ == data@.subrange(from as int, to as int),
{
    vstd::slice::slice_to_vec(vstd::slice::slice_subrange(data.as_slice(), from, to))
}

// ---------------------------------------------------------------------------
// Searching
// ---------------------------------------------------------------------------

/// Index of the first occurrence of `t` in `s`, or `s.len()` if absent.
pub open spec fn find_byte(s: Seq<u8>, t: u8) -> nat
    decreases s.len(),
{
    if s.len() == 0 {
        0
    } else if s[0] == t {
        0
    } else {
        1 + find_byte(s.drop_first(), t)
    }
}

pub proof fn lemma_find_byte(s: Seq<u8>, t: u8)
    ensures
        find_byte(s, t) <= s.len(),
        find_byte(s, t) < s.len() ==> s[find_byte(s, t) as int] == t,
        forall|i: int| 0 <= i < find_byte(s, t) ==> s[i] != t,
    decreases s.len(),
{
    if s.len() > 0 && s[0] != t {
        lemma_find_byte(s.drop_first(), t);
        assert forall|i: int| 0 <= i < find_byte(s, t) implies s[i] != t by {
            if i > 0 {
                assert(s.drop_first()[i - 1] == s[i]);
            }
        }
    }
}

/// Pin `find_byte` from a scan: `t` stands at `k` and nowhere before.
pub proof fn lemma_find_byte_at(s: Seq<u8>, t: u8, k: int)
    requires
        0 <= k < s.len(),
        s[k] == t,
        forall|i: int| 0 <= i < k ==> s[i] != t,
    ensures
        find_byte(s, t) == k,
{
    lemma_find_byte(s, t);
    if find_byte(s, t) < k {
        assert(s[find_byte(s, t) as int] == t);
    }
}

/// Pin `find_byte` when `t` does not occur at all.
pub proof fn lemma_find_byte_absent(s: Seq<u8>, t: u8)
    requires
        forall|i: int| 0 <= i < s.len() ==> s[i] != t,
    ensures
        find_byte(s, t) == s.len(),
{
    lemma_find_byte(s, t);
    if find_byte(s, t) < s.len() {
        assert(s[find_byte(s, t) as int] == t);
    }
}

/// `find_byte` looks only at the prefix that contains the byte.
pub proof fn lemma_find_byte_concat(s: Seq<u8>, u: Seq<u8>, t: u8)
    requires
        find_byte(s, t) < s.len(),
    ensures
        find_byte(s + u, t) == find_byte(s, t),
    decreases s.len(),
{
    if s.len() > 0 && s[0] != t {
        assert((s + u).drop_first() =~= s.drop_first() + u);
        lemma_find_byte_concat(s.drop_first(), u, t);
    }
}

/// Index of the first occurrence of `t` at or after `from`, or `data.len()`.
pub fn find_byte_from(data: &Vec<u8>, t: u8, from: usize) -> (r: usize)
    requires
        from <= data@.len(),
    ensures
        from + find_byte(data@.skip(from as int), t) == r,
        r <= data@.len(),
        r < data@.len() ==> data@[r as int] == t,
        forall|i: int| from <= i < r ==> data@[i] != t,
{
    let ghost tail = data@.skip(from as int);
    proof {
        lemma_find_byte(tail, t);
    }
    let mut i: usize = from;
    while i < data.len()
        invariant
            from <= i <= data@.len(),
            tail == data@.skip(from as int),
            forall|j: int| from <= j < i ==> data@[j] != t,
            find_byte(tail, t) >= i - from,
        decreases data@.len() - i,
    {
        if data[i] == t {
            proof {
                lemma_find_byte(tail, t);
                assert(tail[i - from] == t);
            }
            return i;
        }
        proof {
            lemma_find_byte(tail, t);
            if find_byte(tail, t) == i - from {
                assert(tail[i - from] == t);
            }
        }
        i = i + 1;
    }
    proof {
        lemma_find_byte(tail, t);
        if find_byte(tail, t) < tail.len() {
            assert(data@[from + find_byte(tail, t)] == t);
        }
    }
    i
}

// ---------------------------------------------------------------------------
// Trimming
// ---------------------------------------------------------------------------

/// `s` with leading ASCII whitespace removed.
pub open spec fn trim_front(s: Seq<u8>) -> Seq<u8>
    decreases s.len(),
{
    if s.len() > 0 && is_ws(s[0]) {
        trim_front(s.drop_first())
    } else {
        s
    }
}

/// `s` with trailing ASCII whitespace removed.
pub open spec fn trim_back(s: Seq<u8>) -> Seq<u8>
    decreases s.len(),
{
    if s.len() > 0 && is_ws(s.last()) {
        trim_back(s.drop_last())
    } else {
        s
    }
}

/// `s` with whitespace removed from both ends.
pub open spec fn trimmed(s: Seq<u8>) -> Seq<u8> {
    trim_back(trim_front(s))
}

pub proof fn lemma_trim_front_skip(s: Seq<u8>, k: int)
    requires
        0 <= k <= s.len(),
        forall|i: int| 0 <= i < k ==> is_ws(s[i]),
        k < s.len() ==> !is_ws(s[k]),
    ensures
        trim_front(s) == s.skip(k),
    decreases k,
{
    if k == 0 {
        if s.len() > 0 {
            assert(!is_ws(s[0]));
        }
        assert(s.skip(0) =~= s);
    } else {
        assert(is_ws(s[0]));
        assert(s.drop_first() =~= s.skip(1));
        lemma_trim_front_skip(s.skip(1), k - 1);
        assert(s.skip(1).skip(k - 1) =~= s.skip(k));
    }
}

pub proof fn lemma_trim_back_take(s: Seq<u8>, k: int)
    requires
        0 <= k <= s.len(),
        forall|i: int| k <= i < s.len() ==> is_ws(s[i]),
        k > 0 ==> !is_ws(s[k - 1]),
    ensures
        trim_back(s) == s.take(k),
    decreases s.len() - k,
{
    if k == s.len() {
        if s.len() > 0 {
            assert(!is_ws(s.last()));
        }
        assert(s.take(k) =~= s);
    } else {
        assert(is_ws(s.last()));
        assert(s.drop_last() =~= s.take(s.len() - 1));
        lemma_trim_back_take(s.take(s.len() - 1), k);
        assert(s.take(s.len() - 1).take(k) =~= s.take(k));
    }
}

/// If `s` neither starts nor ends with whitespace, trimming keeps it.
pub proof fn lemma_trimmed_id(s: Seq<u8>)
    requires
        s.len() > 0 ==> !is_ws(s[0]) && !is_ws(s.last()),
    ensures
        trimmed(s) == s,
{
    lemma_trim_front_skip(s, 0);
    lemma_trim_back_take(s, s.len() as int);
}

/// A fresh copy of `s` with whitespace removed from both ends.
pub fn trimmed_vec(s: &Vec<u8>) -> (r: Vec<u8>)
    ensures
        r@ == trimmed(s@),
{
    let mut a: usize = 0;
    while a < s.len() && is_ws_exec(s[a])
        invariant
            0 <= a <= s@.len(),
            forall|i: int| 0 <= i < a ==> is_ws(s@[i]),
        decreases s@.len() - a,
    {
        a = a + 1;
    }
    proof {
        lemma_trim_front_skip(s@, a as int);
    }
    let mut b: usize = s.len();
    while b > a && is_ws_exec(s[b - 1])
        invariant
            a <= b <= s@.len(),
            forall|i: int| b <= i < s@.len() ==> is_ws(s@[i]),
            trim_front(s@) == s@.skip(a as int),
            a < s@.len() ==> !is_ws(s@[a as int]),
        decreases b,
    {
        b = b - 1;
    }
    proof {
        if b == a {
            lemma_trim_back_take(s@.skip(a as int), 0);
        } else {
            lemma_trim_back_take(s@.skip(a as int), b - a);
        }
        assert(s@.skip(a as int).take(b - a) =~= s@.subrange(a as int, b as int));
    }
    subvec(s, a, b)
}

/// Executable test for ASCII whitespace.
pub fn is_ws_exec(b: u8) -> (r: bool)
    ensures
        r == is_ws(b),
{
    b == 32 || (9 <= b && b <= 13)
}

// ---------------------------------------------------------------------------
// Case-insensitive comparison and substring search
// ---------------------------------------------------------------------------

/// ASCII lower-casing of one byte.
pub open spec fn lower(b: u8) -> u8 {
    if 65 <= b && b <= 90 {
        (b + 32) as u8
    } else {
        b
    }
}

/// ASCII lower-casing of a byte sequence.
pub open spec fn lower_seq(s: Seq<u8>) -> Seq<u8> {
    Seq::new(s.len(), |i: int| lower(s[i]))
}

/// ASCII case-insensitive equality.
pub open spec fn eq_ci(a: Seq<u8>, b: Seq<u8>) -> bool {
    lower_seq(a) == lower_seq(b)
}

/// Executable ASCII case-insensitive equality.
pub fn eq_ignore_case(a: &Vec<u8>, b: &Vec<u8>) -> (r: bool)
    ensures
        r == eq_ci(a@, b@),
{
    if a.len() != b.len() {
        proof {
            assert(lower_seq(a@).len() != lower_seq(b@).len());
        }
        return false;
    }
    let mut i: usize = 0;
    while i < a.len()
        invariant
            a@.len() == b@.len(),
            0 <= i <= a@.len(),
            forall|j: int| 0 <= j < i ==> lower(a@[j]) == lower(b@[j]),
        decreases a@.len() - i,
    {
        let x = a[i];
        let y = b[i];
        let lx = if 65 <= x && x <= 90 { x + 32 } else { x };
        let ly = if 65 <= y && y <= 90 { y + 32 } else { y };
        if lx != ly {
            proof {
                assert(lower_seq(a@)[i as int] != lower_seq(b@)[i as int]);
            }
            return false;
        }
        i = i + 1;
    }
    proof {
        assert(lower_seq(a@) =~= lower_seq(b@));
    }
    true
}

/// `needle` occurs as a contiguous subsequence of `hay`.
pub open spec fn contains_seq(hay: Seq<u8>, needle: Seq<u8>) -> bool {
    exists|i: int|
        0 <= i && i + needle.len() <= hay.len() && #[trigger] hay.subrange(i, i + needle.len())
            == needle
}

/// Executable substring search.
pub fn contains_bytes(hay: &Vec<u8>, needle: &Vec<u8>) -> (r: bool)
    ensures
        r == contains_seq(hay@, needle@),
{
    if needle.len() > hay.len() {
        return false;
    }
    if needle.len() == 0 {
        proof {
            assert(hay@.subrange(0, 0 + needle@.len() as int) =~= needle@);
            assert(contains_seq(hay@, needle@));
        }
        return true;
    }
    let bound = hay.len() - needle.len();
    let mut i: usize = 0;
    while i <= bound
        invariant
            0 < needle@.len() <= hay@.len(),
            hay@.len() <= usize::MAX,
            bound == hay@.len() - needle@.len(),
            0 <= i <= bound + 1,
            forall|k: int|
                0 <= k < i ==> #[trigger] hay@.subrange(k, k + needle@.len() as int) != needle@,
        decreases bound + 1 - i,
    {
        let mut j: usize = 0;
        let mut matched = true;
        while j < needle.len()
            invariant
                0 <= j <= needle@.len(),
                i + needle@.len() <= hay@.len(),
                hay@.len() <= usize::MAX,
                matched == (forall|k: int| 0 <= k < j ==> hay@[i + k] == needle@[k]),
            decreases needle@.len() - j,
        {
            if hay[i + j] != needle[j] {
                matched = false;
                proof {
                    assert(hay@[i + j as int] != needle@[j as int]);
                }
                j = needle.len();
            } else {
                proof {
                    assert(hay@[i + j as int] == needle@[j as int]);
                }
                j = j + 1;
            }
        }
        if matched {
            proof {
                assert(hay@.subrange(i as int, i + needle@.len() as int) =~= needle@);
            }
            return true;
        }
        proof {
            if hay@.subrange(i as int, i + needle@.len() as int) == needle@ {
                assert(forall|k: int|
                    0 <= k < needle@.len() ==> #[trigger] hay@.subrange(
                        i as int,
                        i + needle@.len() as int,
                    )[k] == hay@[i + k]);
            }
        }
        i = i + 1;
    }
    false
}

// ---------------------------------------------------------------------------
// Decimal numerals
// ---------------------------------------------------------------------------

pub open spec fn is_digit(b: u8) -> bool {
    48 <= b && b <= 57
}

pub open spec fn digit_val(b: u8) -> nat {
    (b - 48) as nat
}

pub open spec fn all_digits(s: Seq<u8>) -> bool {
    forall|i: int| 0 <= i < s.len() ==> is_digit(#[trigger] s[i])
}

/// The value of a digit string, most significant digit first.
pub open spec fn dec_val(s: Seq<u8>) -> nat
    decreases s.len(),
{
    if s.len() == 0 {
        0
    } else {
        dec_val(s.drop_last()) * 10 + digit_val(s.last())
    }
}

/// What `s` parses to as a decimal number: the digits' value, bounded so
/// that it fits the widest machine integer; anything else is rejected.
pub open spec fn parse_dec(s: Seq<u8>) -> Option<u64> {
    if s.len() > 0 && all_digits(s) && dec_val(s) <= u64::MAX {
        Some(dec_val(s) as u64)
    } else {
        None
    }
}

pub proof fn lemma_dec_val_take_le(s: Seq<u8>, j: int)
    requires
        0 <= j <= s.len(),
    ensures
        dec_val(s.take(j)) <= dec_val(s),
    decreases s.len() - j,
{
    if j == s.len() {
        assert(s.take(j) =~= s);
    } else {
        assert(s.take(j + 1).drop_last() =~= s.take(j));
        assert(dec_val(s.take(j + 1)) == dec_val(s.take(j)) * 10 + digit_val(s.take(j + 1).last()));
        lemma_dec_val_take_le(s, j + 1);
    }
}

/// Executable decimal parse.
pub fn parse_dec_u64(s: &Vec<u8>) -> (r: Option<u64>)
    ensures
        r == parse_dec(s@),
{
    if s.len() == 0 {
        return None;
    }
    let mut acc: u64 = 0;
    let mut i: usize = 0;
    while i < s.len()
        invariant
            0 <= i <= s@.len(),
            s@.len() > 0,
            all_digits(s@.take(i as int)),
            acc == dec_val(s@.take(i as int)),
        decreases s@.len() - i,
    {
        let b = s[i];
        if !(48 <= b && b <= 57) {
            proof {
                assert(!is_digit(s@[i as int]));
            }
            return None;
        }
        let d = b - 48;
        if acc > (u64::MAX - d as u64) / 10 {
            proof {
                assert(s@.take(i + 1).drop_last() =~= s@.take(i as int));
                assert(dec_val(s@.take(i + 1)) == acc * 10 + d);
                assert(acc >= (u64::MAX - d as u64) / 10 + 1);
                assert(acc * 10 >= ((u64::MAX - d as u64) / 10 + 1) * 10) by (nonlinear_arith)
                    requires
                        acc >= (u64::MAX - d as u64) / 10 + 1,
                ;
                assert(((u64::MAX - d as u64) / 10) * 10 + 10 > u64::MAX - d as u64);
                lemma_dec_val_take_le(s@, i + 1);
                assert(dec_val(s@) > u64::MAX);
            }
            return None;
        }
        proof {
            assert(s@.take(i + 1).drop_last() =~= s@.take(i as int));
            assert(s@.take(i + 1).last() == s@[i as int]);
        }
        acc = acc * 10 + d as u64;
        i = i + 1;
        proof {
            assert(all_digits(s@.take(i as int)));
        }
    }
    proof {
        assert(s@.take(i as int) =~= s@);
    }
    Some(acc)
}

/// The shortest decimal rendering of `n`, most significant digit first.
pub open spec fn dec_digits(n: nat) -> Seq<u8>
    decreases n,
{
    if n < 10 {
        seq![(48 + n) as u8]
    } else {
        dec_digits(n / 10).push((48 + n % 10) as u8)
    }
}

pub proof fn lemma_dec_digits(n: nat)
    ensures
        dec_digits(n).len() >= 1,
        all_digits(dec_digits(n)),
        dec_val(dec_digits(n)) == n,
    decreases n,
{
    if n < 10 {
        let s0 = seq![(48 + n) as u8];
        assert(s0.drop_last() =~= Seq::<u8>::empty());
        assert(dec_val(Seq::<u8>::empty()) == 0);
        assert(s0.last() == (48 + n) as u8);
        assert(dec_val(s0) == dec_val(s0.drop_last()) * 10 + digit_val(s0.last()));
    } else {
        lemma_dec_digits(n / 10);
        let d = dec_digits(n / 10);
        let w = d.push((48 + n % 10) as u8);
        assert(w.drop_last() =~= d);
        assert(w.last() == (48 + n % 10) as u8);
        assert(dec_val(w) == dec_val(d) * 10 + digit_val(w.last()));
        assert((n / 10) * 10 + n % 10 == n);
        assert(forall|i: int|
            0 <= i < dec_digits(n).len() ==> is_digit(#[trigger] dec_digits(n)[i]));
    }
}

/// Executable decimal rendering.
pub fn u64_to_dec(n: u64) -> (r: Vec<u8>)
    ensures
        r@ == dec_digits(n as nat),
    decreases n,
{
    if n < 10 {
        let mut v: Vec<u8> = Vec::new();
        v.push(48 + n as u8);
        proof {
            assert(v@ =~= dec_digits(n as nat));
        }
        v
    } else {
        let mut v = u64_to_dec(n / 10);
        v.push(48 + (n % 10) as u8);
        v
    }
}

// ---------------------------------------------------------------------------
// Hexadecimal numerals
// ---------------------------------------------------------------------------

pub open spec fn is_hex_digit(b: u8) -> bool {
    (48 <= b && b <= 57) || (97 <= b && b <= 102) || (65 <= b && b <= 70)
}

pub open spec fn hex_digit_val(b: u8) -> nat {
    if 48 <= b && b <= 57 {
        (b - 48) as nat
    } else if 97 <= b && b <= 102 {
        (b - 87) as nat
    } else {
        (b - 55) as nat
    }
}

pub open spec fn all_hex_digits(s: Seq<u8>) -> bool {
    forall|i: int| 0 <= i < s.len() ==> is_hex_digit(#[trigger] s[i])
}

/// The value of a hexadecimal digit string, most significant digit first.
pub open spec fn hex_val(s: Seq<u8>) -> nat
    decreases s.len(),
{
    if s.len() == 0 {
        0
    } else {
        hex_val(s.drop_last()) * 16 + hex_digit_val(s.last())
    }
}

/// What `s` parses to as a hexadecimal number, bounded as `parse_dec` is.
pub open spec fn parse_hex(s: Seq<u8>) -> Option<u64> {
    if s.len() > 0 && all_hex_digits(s) && hex_val(s) <= u64::MAX {
        Some(hex_val(s) as u64)
    } else {
        None
    }
}

pub proof fn lemma_hex_val_take_le(s: Seq<u8>, j: int)
    requires
        0 <= j <= s.len(),
    ensures
        hex_val(s.take(j)) <= hex_val(s),
    decreases s.len() - j,
{
    if j == s.len() {
        assert(s.take(j) =~= s);
    } else {
        assert(s.take(j + 1).drop_last() =~= s.take(j));
        assert(hex_val(s.take(j + 1)) == hex_val(s.take(j)) * 16 + hex_digit_val(
            s.take(j + 1).last(),
        ));
        lemma_hex_val_take_le(s, j + 1);
    }
}

/// Executable hexadecimal parse.
pub fn parse_hex_u64(s: &Vec<u8>) -> (r: Option<u64>)
    ensures
        r == parse_hex(s@),
{
    if s.len() == 0 {
        return None;
    }
    let mut acc: u64 = 0;
    let mut i: usize = 0;
    while i < s.len()
        invariant
            0 <= i <= s@.len(),
            s@.len() > 0,
            all_hex_digits(s@.take(i as int)),
            acc == hex_val(s@.take(i as int)),
        decreases s@.len() - i,
    {
        let b = s[i];
        let d: u8 = if 48 <= b && b <= 57 {
            b - 48
        } else if 97 <= b && b <= 102 {
            b - 87
        } else if 65 <= b && b <= 70 {
            b - 55
        } else {
            proof {
                assert(!is_hex_digit(s@[i as int]));
            }
            return None;
        };
        proof {
            assert(is_hex_digit(s@[i as int]));
            assert(d == hex_digit_val(s@[i as int]));
        }
        if acc > (u64::MAX - d as u64) / 16 {
            proof {
                assert(s@.take(i + 1).drop_last() =~= s@.take(i as int));
                assert(hex_val(s@.take(i + 1)) == acc * 16 + d);
                assert(acc >= (u64::MAX - d as u64) / 16 + 1);
                assert(acc * 16 >= ((u64::MAX - d as u64) / 16 + 1) * 16) by (nonlinear_arith)
                    requires
                        acc >= (u64::MAX - d as u64) / 16 + 1,
                ;
                assert(((u64::MAX - d as u64) / 16) * 16 + 16 > u64::MAX - d as u64);
                lemma_hex_val_take_le(s@, i + 1);
                assert(hex_val(s@) > u64::MAX);
            }
            return None;
        }
        proof {
            assert(s@.take(i + 1).drop_last() =~= s@.take(i as int));
            assert(s@.take(i + 1).last() == s@[i as int]);
        }
        acc = acc * 16 + d as u64;
        i = i + 1;
        proof {
            assert(all_hex_digits(s@.take(i as int)));
        }
    }
    proof {
        assert(s@.take(i as int) =~= s@);
    }
    Some(acc)
}

/// The shortest lower-case hexadecimal rendering of `n`.
pub open spec fn hex_digits(n: nat) -> Seq<u8>
    decreases n,
{
    if n < 16 {
        seq![hex_digit_of(n % 16)]
    } else {
        hex_digits(n / 16).push(hex_digit_of(n % 16))
    }
}

/// The lower-case hexadecimal digit for a value below 16.
pub open spec fn hex_digit_of(d: nat) -> u8 {
    if d < 10 {
        (48 + d) as u8
    } else {
        (87 + d) as u8
    }
}

pub proof fn lemma_hex_digits(n: nat)
    ensures
        hex_digits(n).len() >= 1,
        all_hex_digits(hex_digits(n)),
        hex_val(hex_digits(n)) == n,
    decreases n,
{
    if n < 16 {
        let s0 = seq![hex_digit_of(n % 16)];
        assert(s0.drop_last() =~= Seq::<u8>::empty());
        assert(hex_val(Seq::<u8>::empty()) == 0);
        assert(s0.last() == hex_digit_of(n % 16));
        assert(hex_val(s0) == hex_val(s0.drop_last()) * 16 + hex_digit_val(s0.last()));
        assert(hex_digit_val(hex_digit_of(n % 16)) == n);
    } else {
        lemma_hex_digits(n / 16);
        let d = hex_digits(n / 16);
        let w = d.push(hex_digit_of(n % 16));
        assert(w.drop_last() =~= d);
        assert(w.last() == hex_digit_of(n % 16));
        assert(hex_val(w) == hex_val(d) * 16 + hex_digit_val(w.last()));
        assert(hex_digit_val(hex_digit_of(n % 16)) == n % 16);
        assert((n / 16) * 16 + n % 16 == n);
        assert(forall|i: int|
            0 <= i < hex_digits(n).len() ==> is_hex_digit(#[trigger] hex_digits(n)[i]));
    }
}

/// Digits are never whitespace and never line breaks, so a numeral
/// travels intact through trimming and line splitting.
pub proof fn lemma_digits_not_ws(s: Seq<u8>)
    requires
        all_digits(s) || all_hex_digits(s),
    ensures
        forall|i: int| 0 <= i < s.len() ==> !is_ws(#[trigger] s[i]),
        forall|i: int| 0 <= i < s.len() ==> #[trigger] s[i] != 10 && s[i] != 13,
{
}

} // verus!
