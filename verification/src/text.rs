//! Character-level helpers shared by the endpoint parser, the SSRP response
//! parser, the type formatter and the reference extractor: ASCII
//! classification, case folding, decimal rendering and decimal parsing.
//!
//! Identifiers and keywords in this library are matched over ASCII word
//! characters, and case folding is ASCII case folding.

use vstd::prelude::*;

verus! {

/// A word character as the reference patterns understand it: ASCII letters,
/// ASCII digits and the underscore.
pub open spec fn is_word_char(c: char) -> bool {
    let u = c as u32;
    (48 <= u && u < 58) || (65 <= u && u < 91) || (97 <= u && u < 123) || u == 95
}

/// Executable test for [`is_word_char`].
pub fn word_char(c: char) -> (r: bool)
    ensures
        r == is_word_char(c),
{
    let u = c as u32;
    (48 <= u && u < 58) || (65 <= u && u < 91) || (97 <= u && u < 123) || u == 95
}

/// ASCII whitespace: space, tab, line feed, vertical tab, form feed,
/// carriage return.
pub open spec fn is_space_char(c: char) -> bool {
    let u = c as u32;
    u == 32 || u == 9 || u == 10 || u == 11 || u == 12 || u == 13
}

/// Executable test for [`is_space_char`].
pub fn space_char(c: char) -> (r: bool)
    ensures
        r == is_space_char(c),
{
    let u = c as u32;
    u == 32 || u == 9 || u == 10 || u == 11 || u == 12 || u == 13
}

/// An ASCII decimal digit.
pub open spec fn is_digit_char(c: char) -> bool {
    48 <= (c as u32) && (c as u32) < 58
}

/// The numeric value of an ASCII decimal digit.
pub open spec fn digit_val(c: char) -> nat {
    ((c as u32) - 48) as nat
}

/// The lower-case form of an ASCII upper-case letter; every other character
/// is left as it is.
pub open spec fn lower_char(c: char) -> char {
    if 65 <= c as u32 && (c as u32) < 91 {
        (((c as u32) + 32) as u8) as char
    } else {
        c
    }
}

/// Executable ASCII case folding of one character.
pub fn to_lower_char(c: char) -> (r: char)
    ensures
        r == lower_char(c),
{
    let u = c as u32;
    if 65 <= u && u < 91 {
        ((u + 32) as u8) as char
    } else {
        c
    }
}

/// ASCII case folding of a character sequence.
pub open spec fn fold_lower(s: Seq<char>) -> Seq<char> {
    s.map_values(|c: char| lower_char(c))
}

/// The characters of a string slice as a vector.
pub fn str_to_chars(s: &str) -> (v: Vec<char>)
    ensures
        v@ == s@,
{
    let n = s.unicode_len();
    let mut v: Vec<char> = Vec::new();
    let mut i: usize = 0;
    while i < n
        invariant
            i <= n,
            n as nat == s@.len(),
            v@ == s@.subrange(0, i as int),
        decreases n - i,
    {
        v.push(s.get_char(i));
        i = i + 1;
        proof {
            assert(v@ =~= s@.subrange(0, i as int));
        }
    }
    proof {
        assert(v@ =~= s@);
    }
    v
}

/// Character-wise equality of two string slices.
pub fn str_eq(a: &str, b: &str) -> (r: bool)
    ensures
        r == (a@ == b@),
{
    let na = a.unicode_len();
    let nb = b.unicode_len();
    if na != nb {
        return false;
    }
    let mut i: usize = 0;
    while i < na
        invariant
            i <= na,
            na as nat == a@.len(),
            na as nat == b@.len(),
            forall|j: int| 0 <= j < i ==> a@[j] == b@[j],
        decreases na - i,
    {
        if a.get_char(i) != b.get_char(i) {
            return false;
        }
        i = i + 1;
    }
    proof {
        assert(a@ =~= b@);
    }
    true
}

/// Equality of a string slice and a character slice under ASCII case
/// folding.
pub fn chars_eq_ci(a: &str, b: &[char]) -> (r: bool)
    ensures
        r == (fold_lower(a@) == fold_lower(b@)),
{
    let na = a.unicode_len();
    let nb = b.len();
    if na != nb {
        proof {
            assert(fold_lower(a@).len() != fold_lower(b@).len());
        }
        return false;
    }
    let mut i: usize = 0;
    while i < na
        invariant
            i <= na,
            na as nat == a@.len(),
            na as nat == b@.len(),
            forall|j: int| 0 <= j < i ==> lower_char(a@[j]) == lower_char(b@[j]),
        decreases na - i,
    {
        if to_lower_char(a.get_char(i)) != to_lower_char(b[i]) {
            proof {
                assert(fold_lower(a@)[i as int] != fold_lower(b@)[i as int]);
            }
            return false;
        }
        i = i + 1;
    }
    proof {
        assert(fold_lower(a@) =~= fold_lower(b@));
    }
    true
}

/// Equality of two string slices under ASCII case folding.
pub fn str_eq_ci(a: &str, b: &str) -> (r: bool)
    ensures
        r == (fold_lower(a@) == fold_lower(b@)),
{
    let na = a.unicode_len();
    let nb = b.unicode_len();
    if na != nb {
        proof {
            assert(fold_lower(a@).len() != fold_lower(b@).len());
        }
        return false;
    }
    let mut i: usize = 0;
    while i < na
        invariant
            i <= na,
            na as nat == a@.len(),
            na as nat == b@.len(),
            forall|j: int| 0 <= j < i ==> lower_char(a@[j]) == lower_char(b@[j]),
        decreases na - i,
    {
        if to_lower_char(a.get_char(i)) != to_lower_char(b.get_char(i)) {
            proof {
                assert(fold_lower(a@)[i as int] != fold_lower(b@)[i as int]);
            }
            return false;
        }
        i = i + 1;
    }
    proof {
        assert(fold_lower(a@) =~= fold_lower(b@));
    }
    true
}

/// The decimal digit with value `d`, for `d < 10`.
pub open spec fn digit_char(d: nat) -> char {
    if d == 0 {
        '0'
    } else if d == 1 {
        '1'
    } else if d == 2 {
        '2'
    } else if d == 3 {
        '3'
    } else if d == 4 {
        '4'
    } else if d == 5 {
        '5'
    } else if d == 6 {
        '6'
    } else if d == 7 {
        '7'
    } else if d == 8 {
        '8'
    } else {
        '9'
    }
}

/// The decimal rendering of a natural number, without sign or leading zeros.
pub open spec fn dec_str(n: nat) -> Seq<char>
    decreases n,
{
    if n < 10 {
        seq![digit_char(n)]
    } else {
        dec_str(n / 10).push(digit_char(n % 10))
    }
}

/// A decimal rendering is never empty, and two digits or more from ten up.
pub proof fn lemma_dec_str_len(n: nat)
    ensures
        dec_str(n).len() >= 1,
        n >= 10 ==> dec_str(n).len() >= 2,
    decreases n,
{
    if n >= 10 {
        lemma_dec_str_len(n / 10);
    }
}

/// Every character of a decimal rendering is a digit.
pub proof fn lemma_dec_str_digits(n: nat)
    ensures
        forall|i: int| 0 <= i < dec_str(n).len() ==> is_digit_char(#[trigger] dec_str(n)[i]),
    decreases n,
{
    if n < 10 {
        assert(is_digit_char(digit_char(n)));
    } else {
        lemma_dec_str_digits(n / 10);
        assert(is_digit_char(digit_char(n % 10)));
        assert forall|i: int| 0 <= i < dec_str(n).len() implies is_digit_char(
            #[trigger] dec_str(n)[i],
        ) by {
            if i < dec_str(n / 10).len() {
                assert(dec_str(n)[i] == dec_str(n / 10)[i]);
            } else {
                assert(dec_str(n)[i] == digit_char(n % 10));
            }
        }
    }
}

/// Decimal renderings of distinct numbers differ.
pub proof fn lemma_dec_str_injective(a: nat, b: nat)
    requires
        dec_str(a) == dec_str(b),
    ensures
        a == b,
    decreases a + b,
{
    lemma_dec_str_len(a);
    lemma_dec_str_len(b);
    if a < 10 && b < 10 {
        assert(dec_str(a)[0] == digit_char(a));
        assert(dec_str(b)[0] == digit_char(b));
    } else if a < 10 {
        assert(dec_str(a).len() == 1);
        assert(dec_str(b).len() >= 2);
    } else if b < 10 {
        assert(dec_str(a).len() >= 2);
        assert(dec_str(b).len() == 1);
    } else {
        let la = dec_str(a).len();
        assert(dec_str(a).last() == digit_char(a % 10));
        assert(dec_str(b).last() == digit_char(b % 10));
        assert(a % 10 == b % 10);
        assert(dec_str(a).drop_last() =~= dec_str(a / 10));
        assert(dec_str(b).drop_last() =~= dec_str(b / 10));
        lemma_dec_str_injective(a / 10, b / 10);
    }
}

/// The decimal digit with value `d` as a string slice, for `d < 10`.
fn digit_str(d: u64) -> (r: &'static str)
    requires
        d < 10,
    ensures
        r@ == seq![digit_char(d as nat)],
{
    proof {
        reveal_strlit("0");
        reveal_strlit("1");
        reveal_strlit("2");
        reveal_strlit("3");
        reveal_strlit("4");
        reveal_strlit("5");
        reveal_strlit("6");
        reveal_strlit("7");
        reveal_strlit("8");
        reveal_strlit("9");
    }
    let r = if d == 0 {
        "0"
    } else if d == 1 {
        "1"
    } else if d == 2 {
        "2"
    } else if d == 3 {
        "3"
    } else if d == 4 {
        "4"
    } else if d == 5 {
        "5"
    } else if d == 6 {
        "6"
    } else if d == 7 {
        "7"
    } else if d == 8 {
        "8"
    } else {
        "9"
    };
    proof {
        assert(r@ =~= seq![digit_char(d as nat)]);
    }
    r
}

/// Renders a number in decimal.
pub fn u64_to_string(n: u64) -> (s: String)
    ensures
        s@ == dec_str(n as nat),
    decreases n,
{
    if n < 10 {
        String::from_str(digit_str(n))
    } else {
        let mut s = u64_to_string(n / 10);
        s.append(digit_str(n % 10));
        proof {
            assert(s@ =~= dec_str(n as nat));
        }
        s
    }
}

/// The decimal rendering of an integer, with a leading minus sign when it
/// is negative.
pub open spec fn int_dec_str(v: int) -> Seq<char> {
    if v < 0 {
        seq!['-'] + dec_str((-v) as nat)
    } else {
        dec_str(v as nat)
    }
}

/// Renders a signed 16-bit number in decimal.
pub fn i16_to_string(v: i16) -> (s: String)
    ensures
        s@ == int_dec_str(v as int),
{
    if v < 0 {
        let mut s = String::from_str("-");
        let m: i32 = -(v as i32);
        s.append(u64_to_string(m as u64).as_str());
        proof {
            reveal_strlit("-");
            assert(s@ =~= int_dec_str(v as int));
        }
        s
    } else {
        u64_to_string(v as u64)
    }
}

/// Truncating division by two, as the machine division of a signed integer
/// behaves.
pub open spec fn halve_trunc(v: int) -> int {
    if v >= 0 {
        v / 2
    } else {
        -((-v) / 2)
    }
}

/// Halves a signed 16-bit number, rounding toward zero.
pub fn halve_i16(v: i16) -> (r: i16)
    ensures
        r as int == halve_trunc(v as int),
{
    v / 2
}

/// The numeric value of a digit sequence, read most significant first.
pub open spec fn digits_val(s: Seq<char>) -> nat
    decreases s.len(),
{
    if s.len() == 0 {
        0
    } else {
        digits_val(s.drop_last()) * 10 + digit_val(s.last())
    }
}

/// Whether a sequence is non-empty and all decimal digits.
pub open spec fn all_digits(s: Seq<char>) -> bool {
    forall|i: int| 0 <= i < s.len() ==> is_digit_char(#[trigger] s[i])
}

/// A sequence with an optional leading `+` stripped, as the standard
/// unsigned decimal parser reads it.
pub open spec fn strip_plus(s: Seq<char>) -> Seq<char> {
    if s.len() > 0 && s[0] == '+' {
        s.subrange(1, s.len() as int)
    } else {
        s
    }
}

/// Whether a sequence reads as an unsigned decimal number no larger than
/// `max`: an optional `+`, then one or more digits, with a value in range.
pub open spec fn is_uint_str(s: Seq<char>, max: nat) -> bool {
    let t = strip_plus(s);
    t.len() > 0 && all_digits(t) && digits_val(t) <= max
}

/// The value of an unsigned decimal string.
pub open spec fn uint_str_val(s: Seq<char>) -> nat {
    digits_val(strip_plus(s))
}

/// Parses an unsigned decimal number out of a character slice, as the
/// standard parser would: an optional leading `+`, then digits only, and a
/// value of at most `max`.
pub fn parse_uint_chars(s: &[char], max: u32) -> (r: Option<u32>)
    ensures
        r is Some <==> is_uint_str(s@, max as nat),
        r is Some ==> r->0 as nat == uint_str_val(s@) && r->0 <= max,
{
    let n = s.len();
    let start: usize = if n > 0 && s[0] == '+' {
        1
    } else {
        0
    };
    proof {
        assert(strip_plus(s@) =~= s@.subrange(start as int, n as int));
    }
    if start >= n {
        return None;
    }
    let ghost t = strip_plus(s@);
    let mut acc: u32 = 0;
    let mut i: usize = start;
    while i < n
        invariant
            start <= i <= n,
            n == s@.len(),
            t == strip_plus(s@),
            t =~= s@.subrange(start as int, n as int),
            t.len() > 0,
            all_digits(t.subrange(0, (i - start) as int)),
            acc as nat == digits_val(t.subrange(0, (i - start) as int)),
            acc <= max,
        decreases n - i,
    {
        let c = s[i];
        let u = c as u32;
        if !(48 <= u && u < 58) {
            proof {
                assert(t[(i - start) as int] == c);
                assert(!is_digit_char(c));
            }
            return None;
        }
        let d: u32 = u - 48;
        proof {
            assert(t.subrange(0, (i + 1 - start) as int).drop_last() =~= t.subrange(
                0,
                (i - start) as int,
            ));
            assert(t.subrange(0, (i + 1 - start) as int).last() == c);
        }
        if acc as u64 * 10 + d as u64 > max as u64 {
            proof {
                if all_digits(t) {
                    lemma_digits_val_monotonic(t, (i + 1 - start) as int);
                }
            }
            return None;
        }
        acc = acc * 10 + d;
        i = i + 1;
    }
    proof {
        assert(t.subrange(0, (n - start) as int) =~= t);
    }
    Some(acc)
}

/// Whether a sequence reads as a signed decimal number for a type with the
/// inclusive bounds `-neg_max ..= pos_max`: an optional sign, then one or
/// more digits, with a value in range.
pub open spec fn is_int_str(s: Seq<char>, neg_max: nat, pos_max: nat) -> bool {
    if s.len() > 0 && s[0] == '-' {
        let t = s.subrange(1, s.len() as int);
        t.len() > 0 && all_digits(t) && digits_val(t) <= neg_max
    } else {
        is_uint_str(s, pos_max)
    }
}

/// The value of a signed decimal string.
pub open spec fn int_str_val(s: Seq<char>) -> int {
    if s.len() > 0 && s[0] == '-' {
        -(digits_val(s.subrange(1, s.len() as int)) as int)
    } else {
        uint_str_val(s) as int
    }
}

/// Parses a signed 16-bit decimal number out of a character slice, as the
/// standard parser would.
pub fn parse_i16_chars(s: &[char]) -> (r: Option<i16>)
    ensures
        r is Some <==> is_int_str(s@, 32768, 32767),
        r is Some ==> r->0 as int == int_str_val(s@),
{
    let n = s.len();
    if n > 0 && s[0] == '-' {
        let mut rest: Vec<char> = Vec::new();
        let mut i: usize = 1;
        while i < n
            invariant
                1 <= i <= n,
                n == s@.len(),
                rest@ == s@.subrange(1, i as int),
            decreases n - i,
        {
            rest.push(s[i]);
            i = i + 1;
            proof {
                assert(rest@ =~= s@.subrange(1, i as int));
            }
        }
        let ghost t = s@.subrange(1, n as int);
        proof {
            assert(rest@ =~= t);
        }
        if rest.len() > 0 && rest[0] == '+' {
            // A sign may not follow a sign.
            return None;
        }
        proof {
            assert(strip_plus(t) =~= t);
        }
        match parse_uint_chars(rest.as_slice(), 32768) {
            Some(v) => Some((-(v as i32)) as i16),
            None => None,
        }
    } else {
        match parse_uint_chars(s, 32767) {
            Some(v) => Some(v as i16),
            None => None,
        }
    }
}

/// ASCII case folding of one byte.
pub open spec fn lower_byte(b: u8) -> u8 {
    if 65 <= b && b < 91 {
        (b + 32) as u8
    } else {
        b
    }
}

/// Executable ASCII case folding of one byte.
pub fn to_lower_byte(b: u8) -> (r: u8)
    ensures
        r == lower_byte(b),
{
    if 65 <= b && b < 91 {
        b + 32
    } else {
        b
    }
}

/// An ASCII decimal digit, as a byte.
pub open spec fn is_digit_byte(b: u8) -> bool {
    48 <= b && b < 58
}

/// Whether a byte sequence is all decimal digits.
pub open spec fn all_digit_bytes(s: Seq<u8>) -> bool {
    forall|i: int| 0 <= i < s.len() ==> is_digit_byte(#[trigger] s[i])
}

/// The numeric value of a digit-byte sequence, read most significant first.
pub open spec fn digit_bytes_val(s: Seq<u8>) -> nat
    decreases s.len(),
{
    if s.len() == 0 {
        0
    } else {
        digit_bytes_val(s.drop_last()) * 10 + (s.last() - 48) as nat
    }
}

/// A byte sequence with an optional leading `+` stripped.
pub open spec fn strip_plus_byte(s: Seq<u8>) -> Seq<u8> {
    if s.len() > 0 && s[0] == 43 {
        s.subrange(1, s.len() as int)
    } else {
        s
    }
}

/// Whether a byte sequence reads as an unsigned decimal number of value at
/// most `max`.
pub open spec fn is_uint_bytes(s: Seq<u8>, max: nat) -> bool {
    let t = strip_plus_byte(s);
    t.len() > 0 && all_digit_bytes(t) && digit_bytes_val(t) <= max
}

/// The value of an unsigned decimal byte string.
pub open spec fn uint_bytes_val(s: Seq<u8>) -> nat {
    digit_bytes_val(strip_plus_byte(s))
}

/// Parses an unsigned decimal number out of a byte slice, as the standard
/// parser reads the corresponding text.
pub fn parse_uint_bytes(s: &[u8], max: u32) -> (r: Option<u32>)
    ensures
        r is Some <==> is_uint_bytes(s@, max as nat),
        r is Some ==> r->0 as nat == uint_bytes_val(s@) && r->0 <= max,
{
    let n = s.len();
    let start: usize = if n > 0 && s[0] == 43 {
        1
    } else {
        0
    };
    proof {
        assert(strip_plus_byte(s@) =~= s@.subrange(start as int, n as int));
    }
    if start >= n {
        return None;
    }
    let ghost t = strip_plus_byte(s@);
    let mut acc: u32 = 0;
    let mut i: usize = start;
    while i < n
        invariant
            start <= i <= n,
            n == s@.len(),
            t == strip_plus_byte(s@),
            t =~= s@.subrange(start as int, n as int),
            t.len() > 0,
            all_digit_bytes(t.subrange(0, (i - start) as int)),
            acc as nat == digit_bytes_val(t.subrange(0, (i - start) as int)),
            acc <= max,
        decreases n - i,
    {
        let b = s[i];
        if !(48 <= b && b < 58) {
            proof {
                assert(t[(i - start) as int] == b);
            }
            return None;
        }
        let d: u32 = (b - 48) as u32;
        proof {
            assert(t.subrange(0, (i + 1 - start) as int).drop_last() =~= t.subrange(
                0,
                (i - start) as int,
            ));
            assert(t.subrange(0, (i + 1 - start) as int).last() == b);
        }
        if acc as u64 * 10 + d as u64 > max as u64 {
            proof {
                if all_digit_bytes(t) {
                    lemma_digit_bytes_val_monotonic(t, (i + 1 - start) as int);
                }
            }
            return None;
        }
        acc = acc * 10 + d;
        i = i + 1;
    }
    proof {
        assert(t.subrange(0, (n - start) as int) =~= t);
    }
    Some(acc)
}

/// A digit-byte prefix never exceeds the value of the whole string.
proof fn lemma_digit_bytes_val_monotonic(s: Seq<u8>, k: int)
    requires
        0 <= k <= s.len(),
        all_digit_bytes(s),
    ensures
        digit_bytes_val(s.subrange(0, k)) <= digit_bytes_val(s),
    decreases s.len() - k,
{
    if k < s.len() {
        let t = s.subrange(0, k + 1);
        assert(t.drop_last() =~= s.subrange(0, k));
        assert(digit_bytes_val(s.subrange(0, k)) <= digit_bytes_val(t));
        lemma_digit_bytes_val_monotonic(s, k + 1);
        assert(s.subrange(0, s.len() as int) =~= s);
    } else {
        assert(s.subrange(0, k) =~= s);
    }
}

/// A sequence with leading whitespace removed.
pub open spec fn trim_start(s: Seq<char>) -> Seq<char>
    decreases s.len(),
{
    if s.len() > 0 && is_space_char(s[0]) {
        trim_start(s.subrange(1, s.len() as int))
    } else {
        s
    }
}

/// A sequence with trailing whitespace removed.
pub open spec fn trim_end(s: Seq<char>) -> Seq<char>
    decreases s.len(),
{
    if s.len() > 0 && is_space_char(s.last()) {
        trim_end(s.drop_last())
    } else {
        s
    }
}

/// A sequence with whitespace removed from both ends.
pub open spec fn trim(s: Seq<char>) -> Seq<char> {
    trim_end(trim_start(s))
}

proof fn lemma_trim_start_subrange(s: Seq<char>, i: int)
    requires
        0 <= i <= s.len(),
        forall|j: int| 0 <= j < i ==> is_space_char(#[trigger] s[j]),
        i < s.len() ==> !is_space_char(s[i]),
    ensures
        trim_start(s) =~= s.subrange(i, s.len() as int),
    decreases i,
{
    if i == 0 {
        assert(s.subrange(0, s.len() as int) =~= s);
    } else {
        let rest = s.subrange(1, s.len() as int);
        lemma_trim_start_subrange(rest, i - 1);
        assert(rest.subrange(i - 1, rest.len() as int) =~= s.subrange(i, s.len() as int));
    }
}

proof fn lemma_trim_end_subrange(s: Seq<char>, j: int)
    requires
        0 <= j <= s.len(),
        forall|k: int| j <= k < s.len() ==> is_space_char(#[trigger] s[k]),
        j > 0 ==> !is_space_char(s[j - 1]),
    ensures
        trim_end(s) =~= s.subrange(0, j),
    decreases s.len() - j,
{
    if j == s.len() {
        assert(s.subrange(0, s.len() as int) =~= s);
    } else {
        lemma_trim_end_subrange(s.drop_last(), j);
    }
}

/// Finds, within the range `a..b` of a character slice, the bounds of the
/// same range with ASCII whitespace removed from both ends.
pub fn trim_indices(s: &[char], a: usize, b: usize) -> (r: (usize, usize))
    requires
        a <= b <= s@.len(),
    ensures
        a <= r.0 <= r.1 <= b,
        s@.subrange(r.0 as int, r.1 as int) == trim(s@.subrange(a as int, b as int)),
{
    let mut lo: usize = a;
    while lo < b && space_char(s[lo])
        invariant
            a <= lo <= b <= s@.len(),
            forall|j: int| a <= j < lo ==> is_space_char(#[trigger] s@[j]),
        decreases b - lo,
    {
        lo = lo + 1;
    }
    let mut hi: usize = b;
    while hi > lo && space_char(s[hi - 1])
        invariant
            lo <= hi <= b <= s@.len(),
            forall|j: int| a <= j < lo ==> is_space_char(#[trigger] s@[j]),
            forall|k: int| hi <= k < b ==> is_space_char(#[trigger] s@[k]),
        decreases hi,
    {
        hi = hi - 1;
    }
    proof {
        let t = s@.subrange(a as int, b as int);
        lemma_trim_start_subrange(t, lo - a);
        let t2 = t.subrange(lo - a, t.len() as int);
        assert(t2 =~= s@.subrange(lo as int, b as int));
        lemma_trim_end_subrange(t2, hi - lo);
        assert(t2.subrange(0, hi - lo) =~= s@.subrange(lo as int, hi as int));
    }
    (lo, hi)
}

/// Copies a range of a character slice.
pub fn copy_range_chars(s: &[char], a: usize, b: usize) -> (v: Vec<char>)
    requires
        a <= b <= s@.len(),
    ensures
        v@ == s@.subrange(a as int, b as int),
{
    let mut v: Vec<char> = Vec::new();
    let mut i: usize = a;
    while i < b
        invariant
            a <= i <= b <= s@.len(),
            v@ == s@.subrange(a as int, i as int),
        decreases b - i,
    {
        v.push(s[i]);
        i = i + 1;
        proof {
            assert(v@ =~= s@.subrange(a as int, i as int));
        }
    }
    v
}

/// The index of the first occurrence of `c` in `s`, or `-1` when there is
/// none.
pub open spec fn first_index_char(s: Seq<char>, c: char) -> int
    decreases s.len(),
{
    if s.len() == 0 {
        -1
    } else if s[0] == c {
        0
    } else {
        let r = first_index_char(s.subrange(1, s.len() as int), c);
        if r < 0 {
            -1
        } else {
            r + 1
        }
    }
}

/// Whether `c` occurs in `s`.
pub open spec fn has_char(s: Seq<char>, c: char) -> bool {
    first_index_char(s, c) >= 0
}

/// Characterises [`first_index_char`]: a scan that saw no `c` before `i`,
/// and `c` at `i` unless it ran off the end, has found the first index.
pub proof fn lemma_first_index_char_at(s: Seq<char>, c: char, i: int)
    requires
        0 <= i <= s.len(),
        forall|j: int| 0 <= j < i ==> s[j] != c,
        i < s.len() ==> s[i] == c,
    ensures
        i == s.len() ==> first_index_char(s, c) == -1,
        i < s.len() ==> first_index_char(s, c) == i,
    decreases i,
{
    if i > 0 {
        lemma_first_index_char_at(s.subrange(1, s.len() as int), c, i - 1);
    }
}

/// The index of the last occurrence of `c` in `s`, or `-1` when there is
/// none.
pub open spec fn last_index_char(s: Seq<char>, c: char) -> int
    decreases s.len(),
{
    if s.len() == 0 {
        -1
    } else if s.last() == c {
        s.len() - 1
    } else {
        last_index_char(s.drop_last(), c)
    }
}

/// Characterises [`last_index_char`]: nothing equals `c` after `i`, and
/// `s[i]` is `c` unless `i` is `-1`.
pub proof fn lemma_last_index_char_at(s: Seq<char>, c: char, i: int)
    requires
        -1 <= i < s.len() || (i == -1 && s.len() == 0),
        forall|j: int| i < j < s.len() ==> s[j] != c,
        i >= 0 ==> s[i] == c,
    ensures
        last_index_char(s, c) == i,
    decreases s.len(),
{
    if s.len() > 0 {
        if s.last() == c {
        } else {
            lemma_last_index_char_at(s.drop_last(), c, i);
        }
    }
}

/// A digit-string prefix never exceeds the value of the whole string.
proof fn lemma_digits_val_monotonic(s: Seq<char>, k: int)
    requires
        0 <= k <= s.len(),
        all_digits(s),
    ensures
        digits_val(s.subrange(0, k)) <= digits_val(s),
    decreases s.len() - k,
{
    if k < s.len() {
        let t = s.subrange(0, k + 1);
        assert(t.drop_last() =~= s.subrange(0, k));
        assert(digits_val(s.subrange(0, k)) <= digits_val(t));
        lemma_digits_val_monotonic(s, k + 1);
        assert(s.subrange(0, s.len() as int) =~= s);
    } else {
        assert(s.subrange(0, k) =~= s);
    }
}

} // verus!
