//! Byte and string helpers shared across the library.
//!
//! Strings are modelled through their UTF-8 byte sequences
//! (`str::spec_bytes`, i.e. `encode_utf8` of the character view), which lets
//! the library compare, search and build strings with exact contracts.

use vstd::prelude::*;
use vstd::string::StringSliceAdditionalSpecFns;
use vstd::utf8::{decode_utf8, encode_utf8, encode_utf8_decode_utf8, valid_utf8};

verus! {

/// Equal UTF-8 encodings come from equal character sequences.
pub proof fn lemma_utf8_injective(a: Seq<char>, b: Seq<char>)
    requires
        encode_utf8(a) == encode_utf8(b),
    ensures
        a == b,
{
    encode_utf8_decode_utf8(a);
    encode_utf8_decode_utf8(b);
}

/// Relies on std's str::from_utf8, which succeeds exactly on valid UTF-8
/// input and returns the string those bytes encode; the result is copied
/// into an owned String.
#[verifier::external_body]
pub fn bytes_to_string(v: &[u8]) -> (r: Option<String>)
    ensures
        r is Some <==> valid_utf8(v@),
        (match r {
            Some(s) => s@ == decode_utf8(v@),
            None => true,
        }),
{
    std::str::from_utf8(v).ok().map(|s| s.to_string())
}

/// Byte-wise slice equality.
pub fn bytes_eq(a: &[u8], b: &[u8]) -> (r: bool)
    ensures
        r == (a@ == b@),
{
    if a.len() != b.len() {
        assert(a@ != b@);
        return false;
    }
    let n = a.len();
    let mut i: usize = 0;
    while i < n
        invariant
            n == a@.len(),
            n == b@.len(),
            i <= n,
            forall|j: int| 0 <= j < i ==> a@[j] == b@[j],
        decreases n - i,
    {
        if a[i] != b[i] {
            return false;
        }
        i += 1;
    }
    proof {
        assert(a@ =~= b@);
    }
    true
}

/// String equality, decided on the UTF-8 encodings.
pub fn str_eq(a: &str, b: &str) -> (r: bool)
    ensures
        r == (a@ == b@),
{
    let r = bytes_eq(a.as_bytes(), b.as_bytes());
    proof {
        if a.spec_bytes() == b.spec_bytes() {
            lemma_utf8_injective(a@, b@);
        }
    }
    r
}

/// True when `p` is a prefix of `s`.
pub open spec fn seq_starts_with(s: Seq<u8>, p: Seq<u8>) -> bool {
    p.len() <= s.len() && s.take(p.len() as int) == p
}

/// True when `p` is a suffix of `s`.
pub open spec fn seq_ends_with(s: Seq<u8>, p: Seq<u8>) -> bool {
    p.len() <= s.len() && s.skip(s.len() - p.len()) == p
}

/// True when `needle` occurs as a contiguous subrange of `hay`.
pub open spec fn seq_contains_sub(hay: Seq<u8>, needle: Seq<u8>) -> bool {
    exists|k: int|
        0 <= k <= hay.len() - needle.len() && #[trigger] hay.subrange(k, k + needle.len())
            == needle
}

/// Whether the bytes of `s` start with the bytes of `p`.
pub fn str_starts_with(s: &str, p: &str) -> (r: bool)
    ensures
        r == seq_starts_with(s.spec_bytes(), p.spec_bytes()),
{
    let sb = s.as_bytes();
    let pb = p.as_bytes();
    if pb.len() > sb.len() {
        return false;
    }
    let n = pb.len();
    let mut i: usize = 0;
    while i < n
        invariant
            n == pb@.len(),
            n <= sb@.len(),
            i <= n,
            forall|j: int| 0 <= j < i ==> sb@[j] == pb@[j],
        decreases n - i,
    {
        if sb[i] != pb[i] {
            assert(sb@.take(n as int)[i as int] != pb@[i as int]);
            return false;
        }
        i += 1;
    }
    proof {
        assert(sb@.take(n as int) =~= pb@);
    }
    true
}

/// Whether the bytes of `s` end with the bytes of `p`.
pub fn str_ends_with(s: &str, p: &str) -> (r: bool)
    ensures
        r == seq_ends_with(s.spec_bytes(), p.spec_bytes()),
{
    let sb = s.as_bytes();
    let pb = p.as_bytes();
    if pb.len() > sb.len() {
        return false;
    }
    let n = pb.len();
    let off = sb.len() - n;
    let mut i: usize = 0;
    while i < n
        invariant
            n == pb@.len(),
            off == sb@.len() - n,
            n <= sb@.len(),
            i <= n,
            forall|j: int| 0 <= j < i ==> sb@[off + j] == pb@[j],
        decreases n - i,
    {
        if sb[off + i] != pb[i] {
            assert(sb@.skip(off as int)[i as int] != pb@[i as int]);
            return false;
        }
        i += 1;
    }
    proof {
        assert(sb@.skip(off as int) =~= pb@);
    }
    true
}

/// Index of the first zero byte in `b`, or `b.len()` when none occurs.
pub open spec fn first_zero(b: Seq<u8>) -> int
    decreases b.len(),
{
    if b.len() == 0 {
        0
    } else if b[0] == 0 {
        0
    } else {
        1 + first_zero(b.drop_first())
    }
}

/// A position before which no zero byte occurs, and which holds a zero byte
/// or ends the sequence, is the first zero.
pub proof fn lemma_first_zero_at(b: Seq<u8>, i: int)
    requires
        0 <= i <= b.len(),
        forall|j: int| 0 <= j < i ==> b[j] != 0,
        i == b.len() || b[i] == 0,
    ensures
        first_zero(b) == i,
    decreases i,
{
    if b.len() == 0 {
    } else if b[0] == 0 {
        assert(i == 0);
    } else {
        assert(i >= 1);
        let rest = b.drop_first();
        assert forall|j: int| 0 <= j < i - 1 implies rest[j] != 0 by {
            assert(rest[j] == b[j + 1]);
        }
        lemma_first_zero_at(rest, i - 1);
    }
}

/// A vector of `n` zero bytes.
pub fn zero_bytes(n: usize) -> (v: Vec<u8>)
    ensures
        v@ =~= Seq::new(n as nat, |i: int| 0u8),
{
    let mut v: Vec<u8> = Vec::new();
    while v.len() < n
        invariant
            v@.len() <= n,
            forall|j: int| 0 <= j < v@.len() ==> v@[j] == 0u8,
        decreases n - v@.len(),
    {
        v.push(0u8);
    }
    v
}


/// The decimal digit character for a value below ten.
pub open spec fn digit_char(d: int) -> char {
    if d == 0 {
        '0'
    } else if d == 1 {
        '1'
    } else if d == 2 {
        '2'
    } else if d == 3 {
        '3'
    } else if d == 4 {
        '4'
    } else if d == 5 {
        '5'
    } else if d == 6 {
        '6'
    } else if d == 7 {
        '7'
    } else if d == 8 {
        '8'
    } else {
        '9'
    }
}

/// The decimal digit characters of a non-negative value, most significant
/// first.
pub open spec fn dec_digits(n: int) -> Seq<char>
    decreases (if n >= 0 {
        n
    } else {
        0
    }),
{
    if n < 10 {
        seq![digit_char(n)]
    } else {
        dec_digits(n / 10).push(digit_char(n % 10))
    }
}

fn digit_str(d: u64) -> (r: &'static str)
    requires
        d < 10,
    ensures
        r@ == seq![digit_char(d as int)],
{
    proof {
        reveal_strlit("0");
        reveal_strlit("1");
        reveal_strlit("2");
        reveal_strlit("3");
        reveal_strlit("4");
        reveal_strlit("5");
        reveal_strlit("6");
        reveal_strlit("7");
        reveal_strlit("8");
        reveal_strlit("9");
    }
    let r = match d {
        0 => "0",
        1 => "1",
        2 => "2",
        3 => "3",
        4 => "4",
        5 => "5",
        6 => "6",
        7 => "7",
        8 => "8",
        _ => "9",
    };
    proof {
        assert(r@ =~= seq![digit_char(d as int)]);
    }
    r
}

/// Render a value in decimal.
pub fn u64_to_string(n: u64) -> (r: String)
    ensures
        r@ == dec_digits(n as int),
    decreases n,
{
    if n < 10 {
        digit_str(n).to_owned()
    } else {
        let prefix = u64_to_string(n / 10);
        let r = prefix.concat(digit_str(n % 10));
        proof {
            assert(r@ =~= dec_digits(n as int));
        }
        r
    }
}

/// True when every byte is a decimal digit.
pub open spec fn all_digits(b: Seq<u8>) -> bool {
    forall|j: int| 0 <= j < b.len() ==> 48 <= #[trigger] b[j] <= 57
}

/// The value of a decimal digit string, most significant digit first.
pub open spec fn dec_value(b: Seq<u8>) -> int
    decreases b.len(),
{
    if b.len() == 0 {
        0
    } else {
        dec_value(b.drop_last()) * 10 + (b.last() - 48)
    }
}

/// A longer digit string never has a smaller value.
proof fn lemma_dec_value_prefix(b: Seq<u8>, i: int)
    requires
        all_digits(b),
        0 <= i <= b.len(),
    ensures
        dec_value(b.take(i)) <= dec_value(b),
    decreases b.len() - i,
{
    if i < b.len() {
        lemma_dec_value_prefix(b, i + 1);
        let t = b.take(i + 1);
        assert(t.drop_last() =~= b.take(i));
        assert(dec_value(b.take(i)) * 10 + (t.last() - 48) == dec_value(b.take(i + 1)));
        assert(dec_value_nonneg(b.take(i))) by {
            lemma_dec_value_nonneg(b.take(i));
        }
    } else {
        assert(b.take(i) =~= b);
    }
}

spec fn dec_value_nonneg(b: Seq<u8>) -> bool {
    dec_value(b) >= 0
}

proof fn lemma_dec_value_nonneg(b: Seq<u8>)
    requires
        all_digits(b),
    ensures
        dec_value_nonneg(b),
    decreases b.len(),
{
    if b.len() > 0 {
        assert(all_digits(b.drop_last()));
        lemma_dec_value_nonneg(b.drop_last());
    }
}

/// When one more digit overflows the accumulator, the whole string's value
/// is too big for a `u64`.
proof fn overflow_means_too_big(b: Seq<u8>, i: int)
    requires
        0 <= i < b.len(),
        forall|j: int| 0 <= j <= i ==> 48 <= #[trigger] b[j] <= 57,
        dec_value(b.take(i)) * 10 + (b[i] - 48) > u64::MAX,
    ensures
        !all_digits(b) || dec_value(b) > u64::MAX,
{
    if all_digits(b) {
        let t = b.take(i + 1);
        assert(t.drop_last() =~= b.take(i));
        assert(dec_value(b.take(i + 1)) == dec_value(b.take(i)) * 10 + (b[i] - 48));
        lemma_dec_value_prefix(b, i + 1);
    }
}


/// Render a signed value in decimal, with a leading minus sign when
/// negative.
pub fn i64_to_string(n: i64) -> (r: String)
    ensures
        n >= 0 ==> r@ == dec_digits(n as int),
        n < 0 ==> r@ == seq!['-'] + dec_digits(-(n as int)),
{
    if n >= 0 {
        u64_to_string(n as u64)
    } else {
        let mag = (-(n as i128)) as u64;
        let r = "-".to_owned().concat(u64_to_string(mag).as_str());
        proof {
            reveal_strlit("-");
            assert(r@ =~= seq!['-'] + dec_digits(-(n as int)));
        }
        r
    }
}

/// First position at or after `from` holding byte `c`, or `b.len()` when
/// none occurs there.
pub open spec fn index_of_from(b: Seq<u8>, c: u8, from: int) -> int
    decreases (if from < b.len() {
        b.len() - from
    } else {
        0
    }),
{
    if from < 0 || from >= b.len() {
        b.len() as int
    } else if b[from] == c {
        from
    } else {
        index_of_from(b, c, from + 1)
    }
}

pub proof fn lemma_index_of_from_at(b: Seq<u8>, c: u8, from: int, i: int)
    requires
        0 <= from <= i <= b.len(),
        forall|j: int| from <= j < i ==> b[j] != c,
        i == b.len() || b[i] == c,
    ensures
        index_of_from(b, c, from) == i,
    decreases i - from,
{
    if from < i {
        lemma_index_of_from_at(b, c, from + 1, i);
    }
}

/// Find the first occurrence of byte `c` at or after `from`.
pub fn find_byte(b: &[u8], c: u8, from: usize) -> (r: usize)
    requires
        from <= b@.len(),
    ensures
        r == index_of_from(b@, c, from as int),
        from <= r <= b@.len(),
        r < b@.len() ==> b@[r as int] == c,
{
    let mut i: usize = from;
    while i < b.len() && b[i] != c
        invariant
            from <= i <= b@.len(),
            forall|j: int| from <= j < i ==> b@[j] != c,
        decreases b@.len() - i,
    {
        i += 1;
    }
    proof {
        lemma_index_of_from_at(b@, c, from as int, i as int);
    }
    i
}

/// ASCII whitespace, as a byte.
pub open spec fn is_ws_byte(x: u8) -> bool {
    x == 32 || (9 <= x <= 13)
}

/// First position at or after `from` holding a whitespace byte, or
/// `b.len()`.
pub open spec fn first_ws_from(b: Seq<u8>, from: int) -> int
    decreases (if from < b.len() {
        b.len() - from
    } else {
        0
    }),
{
    if from < 0 || from >= b.len() {
        b.len() as int
    } else if is_ws_byte(b[from]) {
        from
    } else {
        first_ws_from(b, from + 1)
    }
}

/// First position at or after `from` holding a non-whitespace byte, or
/// `b.len()`.
pub open spec fn first_non_ws_from(b: Seq<u8>, from: int) -> int
    decreases (if from < b.len() {
        b.len() - from
    } else {
        0
    }),
{
    if from < 0 || from >= b.len() {
        b.len() as int
    } else if !is_ws_byte(b[from]) {
        from
    } else {
        first_non_ws_from(b, from + 1)
    }
}

fn is_ws(x: u8) -> (r: bool)
    ensures
        r == is_ws_byte(x),
{
    x == 32 || (9 <= x && x <= 13)
}

/// Find the first whitespace byte at or after `from`.
pub fn find_ws(b: &[u8], from: usize) -> (r: usize)
    requires
        from <= b@.len(),
    ensures
        r == first_ws_from(b@, from as int),
        from <= r <= b@.len(),
{
    let mut i: usize = from;
    while i < b.len() && !is_ws(b[i])
        invariant
            from <= i <= b@.len(),
            forall|j: int| from <= j < i ==> !is_ws_byte(b@[j]),
        decreases b@.len() - i,
    {
        i += 1;
    }
    proof {
        lemma_first_ws_from_at(b@, from as int, i as int);
    }
    i
}

/// Find the first non-whitespace byte at or after `from`.
pub fn find_non_ws(b: &[u8], from: usize) -> (r: usize)
    requires
        from <= b@.len(),
    ensures
        r == first_non_ws_from(b@, from as int),
        from <= r <= b@.len(),
{
    let mut i: usize = from;
    while i < b.len() && is_ws(b[i])
        invariant
            from <= i <= b@.len(),
            forall|j: int| from <= j < i ==> is_ws_byte(b@[j]),
        decreases b@.len() - i,
    {
        i += 1;
    }
    proof {
        lemma_first_non_ws_from_at(b@, from as int, i as int);
    }
    i
}

proof fn lemma_first_ws_from_at(b: Seq<u8>, from: int, i: int)
    requires
        0 <= from <= i <= b.len(),
        forall|j: int| from <= j < i ==> !is_ws_byte(b[j]),
        i == b.len() || is_ws_byte(b[i]),
    ensures
        first_ws_from(b, from) == i,
    decreases i - from,
{
    if from < i {
        lemma_first_ws_from_at(b, from + 1, i);
    }
}

proof fn lemma_first_non_ws_from_at(b: Seq<u8>, from: int, i: int)
    requires
        0 <= from <= i <= b.len(),
        forall|j: int| from <= j < i ==> is_ws_byte(b[j]),
        i == b.len() || !is_ws_byte(b[i]),
    ensures
        first_non_ws_from(b, from) == i,
    decreases i - from,
{
    if from < i {
        lemma_first_non_ws_from_at(b, from + 1, i);
    }
}

/// Copy a byte range into an owned vector.
pub fn bytes_range(b: &[u8], from: usize, to: usize) -> (r: Vec<u8>)
    requires
        from <= to <= b@.len(),
    ensures
        r@ == b@.subrange(from as int, to as int),
{
    let mut out: Vec<u8> = Vec::new();
    let mut i: usize = from;
    while i < to
        invariant
            from <= i <= to,
            out@ =~= b@.subrange(from as int, i as int),
        decreases to - i,
    {
        out.push(b[i]);
        i += 1;
    }
    proof {
        assert(out@ =~= b@.subrange(from as int, to as int));
    }
    out
}


/// An index at or before the end of a valid UTF-8 sequence that holds an
/// ASCII byte, or ends the sequence, is a character boundary.
pub proof fn lemma_ascii_boundary(b: Seq<u8>, i: int)
    requires
        valid_utf8(b),
        0 <= i <= b.len(),
        i == 0 || i == b.len() || b[i] < 128,
    ensures
        vstd::utf8::is_char_boundary(b, i),
{
    if i == 0 || i == b.len() {
        vstd::utf8::is_char_boundary_start_end_of_seq(b);
    } else {
        vstd::utf8::is_char_boundary_iff_not_is_continuation_byte(b, i);
    }
}

/// Cut a substring out of valid UTF-8 bytes, between character boundaries.
pub fn utf8_sub(b: &[u8], from: usize, to: usize) -> (r: String)
    requires
        valid_utf8(b@),
        from <= to <= b@.len(),
        vstd::utf8::is_char_boundary(b@, from as int),
        vstd::utf8::is_char_boundary(b@, to as int),
    ensures
        encode_utf8(r@) == b@.subrange(from as int, to as int),
        r@ == decode_utf8(b@.subrange(from as int, to as int)),
{
    let piece = bytes_range(b, from, to);
    proof {
        vstd::utf8::valid_utf8_split(b@, to as int);
        let pre = b@.subrange(0, to as int);
        if from < to {
            vstd::utf8::is_char_boundary_iff_not_is_continuation_byte(b@, from as int);
            vstd::utf8::is_char_boundary_iff_not_is_continuation_byte(pre, from as int);
        } else {
            vstd::utf8::is_char_boundary_start_end_of_seq(pre);
        }
        vstd::utf8::valid_utf8_split(pre, from as int);
        assert(pre.subrange(from as int, pre.len() as int) =~= piece@);
    }
    match bytes_to_string(piece.as_slice()) {
        Some(s) => {
            proof {
                vstd::utf8::decode_utf8_encode_utf8(piece@);
            }
            s
        },
        None => String::new(),
    }
}

/// Parse an unsigned decimal number from bytes. Succeeds exactly on
/// non-empty all-digit strings whose value fits in a `u64`.
pub fn parse_u64_bytes(b: &[u8]) -> (r: Option<u64>)
    ensures
        (match r {
            Some(v) => {
                &&& b@.len() > 0
                &&& all_digits(b@)
                &&& v as int == dec_value(b@)
            },
            None => b@.len() == 0 || !all_digits(b@) || dec_value(b@) > u64::MAX,
        }),
{
    if b.len() == 0 {
        return None;
    }
    let mut acc: u64 = 0;
    let mut i: usize = 0;
    while i < b.len()
        invariant
            i <= b@.len(),
            forall|j: int| 0 <= j < i ==> 48 <= #[trigger] b@[j] <= 57,
            acc as int == dec_value(b@.take(i as int)),
        decreases b@.len() - i,
    {
        let c = b[i];
        if c < 48 || c > 57 {
            assert(!all_digits(b@));
            return None;
        }
        let d = (c - 48) as u64;
        let shifted = match acc.checked_mul(10) {
            Some(x) => x,
            None => {
                proof {
                    overflow_means_too_big(b@, i as int);
                }
                return None;
            },
        };
        let next = match shifted.checked_add(d) {
            Some(x) => x,
            None => {
                proof {
                    overflow_means_too_big(b@, i as int);
                }
                return None;
            },
        };
        proof {
            assert(b@.take(i + 1).drop_last() =~= b@.take(i as int));
        }
        acc = next;
        i += 1;
    }
    proof {
        assert(b@.take(i as int) =~= b@);
    }
    Some(acc)
}


/// In a valid UTF-8 sequence, an index whose prefix is itself valid UTF-8
/// is a character boundary.
pub proof fn lemma_valid_prefix_boundary(b: Seq<u8>, i: int)
    requires
        valid_utf8(b),
        0 <= i <= b.len(),
        valid_utf8(b.take(i)),
    ensures
        vstd::utf8::is_char_boundary(b, i),
    decreases i,
{
    if i > 0 {
        let t = b.take(i);
        assert(t[0] == b[0]);
        let lb = vstd::utf8::length_of_first_scalar(b);
        assert(vstd::utf8::length_of_first_scalar(t) == lb);
        assert(i >= lb);
        assert(vstd::utf8::pop_first_scalar(t) =~= vstd::utf8::pop_first_scalar(b).take(i - lb));
        lemma_valid_prefix_boundary(vstd::utf8::pop_first_scalar(b), i - lb);
    }
}


/// Whether the byte slice `s` starts with the bytes `p`.
pub fn slice_starts_with(s: &[u8], p: &[u8]) -> (r: bool)
    ensures
        r == seq_starts_with(s@, p@),
{
    if p.len() > s.len() {
        return false;
    }
    let n = p.len();
    let mut i: usize = 0;
    while i < n
        invariant
            n == p@.len(),
            n <= s@.len(),
            i <= n,
            forall|j: int| 0 <= j < i ==> s@[j] == p@[j],
        decreases n - i,
    {
        if s[i] != p[i] {
            assert(s@.take(n as int)[i as int] != p@[i as int]);
            return false;
        }
        i += 1;
    }
    proof {
        assert(s@.take(n as int) =~= p@);
    }
    true
}


/// An equal copy of a vector of strings.
pub fn clone_string_vec(v: &Vec<String>) -> (r: Vec<String>)
    ensures
        r@ == v@,
{
    let mut out: Vec<String> = Vec::new();
    let mut i: usize = 0;
    while i < v.len()
        invariant
            i <= v@.len(),
            out@ =~= v@.take(i as int),
        decreases v@.len() - i,
    {
        out.push(v[i].clone());
        i += 1;
    }
    proof {
        assert(out@ =~= v@);
    }
    out
}

/// An equal copy of an optional string.
pub fn clone_opt_string(v: &Option<String>) -> (r: Option<String>)
    ensures
        r == *v,
{
    match v {
        Some(s) => Some(s.clone()),
        None => None,
    }
}

/// An equal copy of a vector of string pairs.
pub fn clone_string_pairs(v: &Vec<(String, String)>) -> (r: Vec<(String, String)>)
    ensures
        r@ == v@,
{
    let mut out: Vec<(String, String)> = Vec::new();
    let mut i: usize = 0;
    while i < v.len()
        invariant
            i <= v@.len(),
            out@ =~= v@.take(i as int),
        decreases v@.len() - i,
    {
        let pair = &v[i];
        out.push((pair.0.clone(), pair.1.clone()));
        i += 1;
    }
    proof {
        assert(out@ =~= v@);
    }
    out
}


/// `n` copies of a piece, concatenated.
pub open spec fn spec_repeat(piece: Seq<char>, n: int) -> Seq<char>
    decreases (if n >= 0 {
        n
    } else {
        0
    }),
{
    if n <= 0 {
        Seq::empty()
    } else {
        spec_repeat(piece, n - 1) + piece
    }
}

/// A string of `n` copies of the piece.
pub fn repeat_str(piece: &str, n: usize) -> (r: String)
    ensures
        r@ == spec_repeat(piece@, n as int),
{
    let mut out = String::new();
    let mut k: usize = 0;
    while k < n
        invariant
            k <= n,
            out@ == spec_repeat(piece@, k as int),
        decreases n - k,
    {
        out.append(piece);
        k += 1;
    }
    out
}

/// The string, padded on the right with spaces to at least `w` bytes of
/// UTF-8. Widths count bytes, which for ASCII text is the printed width.
pub open spec fn spec_pad(s: Seq<char>, w: int) -> Seq<char> {
    s + spec_repeat(" "@, w - encode_utf8(s).len())
}

/// Pad a string on the right with spaces to at least `w` bytes.
pub fn pad_str(s: String, w: usize) -> (r: String)
    ensures
        r@ == spec_pad(s@, w as int),
{
    let ghost orig = s@;
    let n = s.as_str().as_bytes().len();
    let mut out = s;
    proof {
        assert(out@ =~= orig + spec_repeat(" "@, 0));
    }
    let mut k = n;
    while k < w
        invariant
            n <= k,
            k <= w || k == n,
            n as int == encode_utf8(orig).len(),
            out@ == orig + spec_repeat(" "@, k - n),
        decreases w - k,
    {
        out.append(" ");
        k += 1;
    }
    proof {
        if n >= w {
            assert(out@ =~= spec_pad(orig, w as int));
        }
    }
    out
}


/// The given prefix, removed from the start as often as it occurs there.
pub open spec fn spec_trim_prefix(b: Seq<u8>, p: Seq<u8>) -> Seq<u8>
    decreases b.len(),
{
    if p.len() > 0 && seq_starts_with(b, p) && b.len() >= p.len() {
        spec_trim_prefix(b.skip(p.len() as int), p)
    } else {
        b
    }
}

/// Remove a prefix from the start of a byte window as often as it occurs:
/// returns the first index after the removed copies.
pub fn trim_prefix_len(b: &[u8], p: &[u8]) -> (r: usize)
    ensures
        r <= b@.len(),
        b@.skip(r as int) == spec_trim_prefix(b@, p@),
{
    if p.len() == 0 {
        proof {
            assert(b@.skip(0) =~= b@);
        }
        return 0;
    }
    let mut start: usize = 0;
    proof {
        assert(b@.skip(0) =~= b@);
    }
    while b.len() - start >= p.len() && starts_with_at(b, p, start)
        invariant
            start <= b@.len(),
            spec_trim_prefix(b@.skip(start as int), p@) == spec_trim_prefix(b@, p@),
        decreases b@.len() - start,
    {
        proof {
            assert((b@.skip(start as int)).skip(p@.len() as int) =~= b@.skip(
                start + p@.len(),
            ));
        }
        start = start + p.len();
    }
    proof {
        assert(!(p@.len() > 0 && seq_starts_with(b@.skip(start as int), p@) && b@.skip(
            start as int,
        ).len() >= p@.len()));
        assert(b@.skip(start as int) == spec_trim_prefix(b@.skip(start as int), p@));
    }
    start
}

/// Whether the window of `b` beginning at `from` starts with `p`.
fn starts_with_at(b: &[u8], p: &[u8], from: usize) -> (r: bool)
    requires
        from <= b@.len(),
        p@.len() <= b@.len() - from,
    ensures
        r == seq_starts_with(b@.skip(from as int), p@),
{
    let total = b.len();
    let n = p.len();
    let mut i: usize = 0;
    while i < n
        invariant
            i <= n,
            forall|j: int| 0 <= j < i ==> b@[from + j] == p@[j],
        decreases n - i,
    {
        if b[from + i] != p[i] {
            proof {
                assert(b@.skip(from as int).take(n as int)[i as int] != p@[i as int]);
            }
            return false;
        }
        i += 1;
    }
    proof {
        assert(b@.skip(from as int).take(n as int) =~= p@);
    }
    true
}

/// The index of the last occurrence of byte `c`, or -1 when none occurs.
pub open spec fn last_index_of(b: Seq<u8>, c: u8) -> int
    decreases b.len(),
{
    if b.len() == 0 {
        -1
    } else if b.last() == c {
        b.len() - 1
    } else {
        last_index_of(b.drop_last(), c)
    }
}

pub proof fn lemma_last_index_of_at(b: Seq<u8>, c: u8, i: int)
    requires
        -1 <= i < b.len(),
        i >= 0 ==> b[i] == c,
        forall|j: int| i < j < b.len() ==> b[j] != c,
    ensures
        last_index_of(b, c) == i,
    decreases b.len(),
{
    if b.len() > 0 {
        if b.last() == c {
            assert(i == b.len() - 1);
        } else {
            assert(i < b.len() - 1);
            lemma_last_index_of_at(b.drop_last(), c, i);
        }
    }
}

/// Find the last occurrence of byte `c`, reported one past its index, or
/// zero when none occurs.
pub fn rfind_byte(b: &[u8], c: u8) -> (r: usize)
    ensures
        r as int == last_index_of(b@, c) + 1,
        r <= b@.len(),
        r >= 1 ==> b@[r - 1] == c,
{
    let mut i = b.len();
    while i > 0
        invariant
            i <= b@.len(),
            forall|j: int| i <= j < b@.len() ==> b@[j] != c,
        decreases i,
    {
        if b[i - 1] == c {
            proof {
                lemma_last_index_of_at(b@, c, i - 1);
            }
            return i;
        }
        i -= 1;
    }
    proof {
        lemma_last_index_of_at(b@, c, -1);
    }
    0
}


/// Whether the bytes of `needle` occur contiguously in `hay`.
pub fn bytes_contains_sub(hay: &[u8], needle: &[u8]) -> (r: bool)
    ensures
        r == seq_contains_sub(hay@, needle@),
{
    let hb = hay;
    let nb = needle;
    if nb.len() > hb.len() {
        return false;
    }
    if nb.len() == 0 {
        proof {
            assert(hb@.subrange(0, 0 + nb@.len() as int) =~= nb@);
            assert(seq_contains_sub(hb@, nb@));
        }
        return true;
    }
    let last = hb.len() - nb.len();
    let mut k: usize = 0;
    while k <= last
        invariant
            last == hb@.len() - nb@.len(),
            nb@.len() <= hb@.len(),
            k <= last + 1,
            forall|k2: int|
                0 <= k2 < k ==> #[trigger] hb@.subrange(k2, k2 + nb@.len()) != nb@,
        decreases last + 1 - k,
    {
        let mut i: usize = 0;
        let mut matches = true;
        while i < nb.len()
            invariant
                k <= last,
                last == hb@.len() - nb@.len(),
                nb@.len() <= hb@.len(),
                i <= nb@.len(),
                matches == (forall|j: int| 0 <= j < i ==> hb@[k + j] == nb@[j]),
            decreases nb@.len() - i,
        {
            if hb[k + i] != nb[i] {
                matches = false;
                proof {
                    assert(hb@.subrange(k as int, k + nb@.len())[i as int] != nb@[i as int]);
                }
                i = nb.len();
            } else {
                i += 1;
            }
        }
        if matches {
            proof {
                assert(hb@.subrange(k as int, k + nb@.len()) =~= nb@);
            }
            return true;
        }
        proof {
            if !matches {
                let j = choose|j: int| 0 <= j < nb@.len() && hb@[k + j] != nb@[j];
                assert(hb@.subrange(k as int, k + nb@.len())[j] != nb@[j]);
            }
        }
        k += 1;
    }
    false
}

/// The given suffix, removed from the end as often as it occurs there.
pub open spec fn spec_trim_suffix(b: Seq<u8>, p: Seq<u8>) -> Seq<u8>
    decreases b.len(),
{
    if p.len() > 0 && seq_ends_with(b, p) && b.len() >= p.len() {
        spec_trim_suffix(b.take(b.len() - p.len()), p)
    } else {
        b
    }
}

/// Remove a suffix from the end of a byte window as often as it occurs:
/// returns the new window length.
pub fn trim_suffix_len(b: &[u8], p: &[u8]) -> (r: usize)
    ensures
        r <= b@.len(),
        b@.take(r as int) == spec_trim_suffix(b@, p@),
{
    if p.len() == 0 {
        proof {
            assert(b@.take(b@.len() as int) =~= b@);
        }
        return b.len();
    }
    let mut end = b.len();
    proof {
        assert(b@.take(b@.len() as int) =~= b@);
    }
    while end >= p.len() && ends_with_at(b, p, end)
        invariant
            end <= b@.len(),
            spec_trim_suffix(b@.take(end as int), p@) == spec_trim_suffix(b@, p@),
        decreases end,
    {
        end = end - p.len();
        proof {
            assert((b@.take(end + p@.len())).take(end as int) =~= b@.take(end as int));
        }
    }
    proof {
        assert(!(p@.len() > 0 && seq_ends_with(b@.take(end as int), p@) && end >= p@.len()));
        assert(b@.take(end as int) == spec_trim_suffix(b@.take(end as int), p@));
    }
    end
}

/// Whether the window `b[..end]` ends with `p`.
fn ends_with_at(b: &[u8], p: &[u8], end: usize) -> (r: bool)
    requires
        end <= b@.len(),
        p@.len() <= end,
    ensures
        r == seq_ends_with(b@.take(end as int), p@),
{
    let off = end - p.len();
    let n = p.len();
    let mut i: usize = 0;
    while i < n
        invariant
            i <= n,
            forall|j: int| 0 <= j < i ==> b@[off + j] == p@[j],
        decreases n - i,
    {
        if b[off + i] != p[i] {
            proof {
                assert(b@.take(end as int).skip(off as int)[i as int] != p@[i as int]);
            }
            return false;
        }
        i += 1;
    }
    proof {
        assert(b@.take(end as int).skip(off as int) =~= p@);
    }
    true
}


} // verus!
