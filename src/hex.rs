use vstd::prelude::*;
use vstd::string::*;

verus! {

/// `s` starts with the two-character marker `0x` or `0X`.
pub open spec fn has_hex_prefix(s: Seq<char>) -> bool {
    s.len() >= 2 && s[0] == '0' && (s[1] == 'x' || s[1] == 'X')
}

/// `s` without its leading hex marker, if it has one.
pub open spec fn strip_0x(s: Seq<char>) -> Seq<char> {
    if has_hex_prefix(s) {
        s.subrange(2, s.len() as int)
    } else {
        s
    }
}

pub open spec fn msg_too_short() -> Seq<char> {
    "Must be a hexadecimal string"@
}

pub open spec fn msg_no_prefix() -> Seq<char> {
    "Must hex string"@
}

/// The UTF-8 encoding of `s` has fewer than two bytes: `s` is empty or one
/// ASCII character.
pub open spec fn under_two_bytes(s: Seq<char>) -> bool {
    s.len() == 0 || (s.len() == 1 && (s[0] as u32) < 0x80)
}

/// Checks only the hex marker; the characters after it are not looked at.
pub fn is_hex(hex: &str) -> (r: Result<(), String>)
    ensures
        r.is_ok() == has_hex_prefix(hex@),
        r matches Err(e) ==> e@ == is_hex_error(hex@),
{
    proof {
        reveal_strlit("Must be a hexadecimal string");
        reveal_strlit("Must hex string");
    }
    let n = hex.unicode_len();
    if n == 0 || (n == 1 && (hex.get_char(0) as u32) < 0x80) {
        Err(String::from_str("Must be a hexadecimal string"))
    } else if n < 2 {
        Err(String::from_str("Must hex string"))
    } else {
        let c0 = hex.get_char(0);
        let c1 = hex.get_char(1);
        if c0 == '0' && (c1 == 'x' || c1 == 'X') {
            Ok(())
        } else {
            Err(String::from_str("Must hex string"))
        }
    }
}

/// `s` without all of its leading hex markers.
pub open spec fn strip_all_0x(s: Seq<char>) -> Seq<char>
    decreases s.len(),
{
    if has_hex_prefix(s) {
        strip_all_0x(s.subrange(2, s.len() as int))
    } else {
        s
    }
}

/// Strips one leading `0x` / `0X` marker; other strings come back unchanged.
pub fn strip_marker(hex: &str) -> (r: &str)
    ensures
        r@ == strip_0x(hex@),
{
    let n = hex.unicode_len();
    if n >= 2 {
        let c0 = hex.get_char(0);
        let c1 = hex.get_char(1);
        if c0 == '0' && (c1 == 'x' || c1 == 'X') {
            return hex.substring_char(2, n);
        }
    }
    proof {
        assert(hex@.subrange(0, hex@.len() as int) =~= hex@);
    }
    hex.substring_char(0, n)
}

/// Strips every leading `0x` / `0X` marker; other strings come back unchanged.
pub fn remove_0x(hex: &str) -> (r: &str)
    ensures
        r@ == strip_all_0x(hex@),
        !has_hex_prefix(r@),
{
    let mut cur = hex;
    while cur.unicode_len() >= 2 && cur.get_char(0) == '0' && (cur.get_char(1) == 'x'
        || cur.get_char(1) == 'X')
        invariant
            strip_all_0x(cur@) == strip_all_0x(hex@),
        decreases cur@.len(),
    {
        let n = cur.unicode_len();
        cur = cur.substring_char(2, n);
    }
    cur
}

/// Stripping all markers leaves none.
pub proof fn lemma_strip_all_no_prefix(s: Seq<char>)
    ensures
        !has_hex_prefix(strip_all_0x(s)),
    decreases s.len(),
{
    if has_hex_prefix(s) {
        lemma_strip_all_no_prefix(s.subrange(2, s.len() as int));
    }
}

/// A string shorter than two characters is never a hex string.
pub proof fn lemma_short_is_not_hex(s: Seq<char>)
    requires
        s.len() < 2,
    ensures
        !has_hex_prefix(s),
{
}

/// Any string that starts with the marker is a hex string, whatever follows.
pub proof fn lemma_prefix_is_hex(rest: Seq<char>, upper: bool)
    ensures
        has_hex_prefix(seq!['0', if upper { 'X' } else { 'x' }] + rest),
{
}

/// Removing the markers twice is removing them once.
pub proof fn lemma_remove_0x_idempotent(s: Seq<char>)
    ensures
        strip_all_0x(strip_all_0x(s)) == strip_all_0x(s),
{
    lemma_strip_all_no_prefix(s);
}

/// Value of a hexadecimal digit, if `c` is one.
pub open spec fn hex_digit(c: char) -> Option<nat> {
    if '0' <= c && c <= '9' {
        Some((c as nat - '0' as nat) as nat)
    } else if 'a' <= c && c <= 'f' {
        Some((c as nat - 'a' as nat + 10) as nat)
    } else if 'A' <= c && c <= 'F' {
        Some((c as nat - 'A' as nat + 10) as nat)
    } else {
        None
    }
}

pub open spec fn all_hex_digits(s: Seq<char>) -> bool {
    forall|i: int| 0 <= i < s.len() ==> (#[trigger] hex_digit(s[i])) is Some
}

/// The bytes that the hex digits `s` (two per byte, high nibble first) encode.
pub open spec fn hex_bytes(s: Seq<char>) -> Seq<u8> {
    Seq::new(
        s.len() / 2,
        |i: int| (hex_digit(s[2 * i]).unwrap() * 16 + hex_digit(s[2 * i + 1]).unwrap()) as u8,
    )
}

/// Why a fixed-width hex decode failed.
#[derive(Clone, Copy, Debug, PartialEq, Eq, Structural)]
pub enum HexError {
    /// The character at this position is no hex digit.
    InvalidCharacter(usize),
    /// Every character is a hex digit, but there are not as many as the width needs.
    InvalidLength,
}

pub open spec fn hex_error_text(e: HexError) -> Seq<char> {
    match e {
        HexError::InvalidCharacter(_) => "Invalid character"@,
        HexError::InvalidLength => "Invalid input length"@,
    }
}

/// The error text of a failed decode of the digits `s`.
pub open spec fn decode_error_text(s: Seq<char>) -> Seq<char> {
    if all_hex_digits(s) {
        "Invalid input length"@
    } else {
        "Invalid character"@
    }
}

/// The error text of `is_hex` on `s`.
pub open spec fn is_hex_error(s: Seq<char>) -> Seq<char> {
    if under_two_bytes(s) {
        msg_too_short()
    } else {
        msg_no_prefix()
    }
}

impl HexError {
    pub fn message(&self) -> (r: String)
        ensures
            r@ == hex_error_text(*self),
    {
        match self {
            HexError::InvalidCharacter(_) => String::from_str("Invalid character"),
            HexError::InvalidLength => String::from_str("Invalid input length"),
        }
    }
}

/// `i` is the first position of `s` that holds no hex digit.
pub open spec fn first_non_hex(s: Seq<char>, i: int) -> bool {
    0 <= i < s.len() && hex_digit(s[i]) is None && all_hex_digits(s.subrange(0, i))
}

fn hex_digit_value(c: char) -> (r: Option<u8>)
    ensures
        r is Some == hex_digit(c) is Some,
        r matches Some(v) ==> v as nat == hex_digit(c).unwrap() && v < 16,
{
    if '0' <= c && c <= '9' {
        Some((c as u32 - '0' as u32) as u8)
    } else if 'a' <= c && c <= 'f' {
        Some((c as u32 - 'a' as u32 + 10) as u8)
    } else if 'A' <= c && c <= 'F' {
        Some((c as u32 - 'A' as u32 + 10) as u8)
    } else {
        None
    }
}

/// Decodes exactly `width` bytes written as `2 * width` hex digits, without marker.
pub fn decode_fixed_hex(s: &str, width: usize) -> (r: Result<Vec<u8>, HexError>)
    ensures
        r matches Ok(v) ==> all_hex_digits(s@) && s@.len() == 2 * width && v@ == hex_bytes(s@),
        r matches Err(HexError::InvalidCharacter(i)) ==> first_non_hex(s@, i as int),
        r == Err::<Vec<u8>, HexError>(HexError::InvalidLength) ==> all_hex_digits(s@)
            && s@.len() != 2 * width,
        r matches Err(e) ==> hex_error_text(e) == decode_error_text(s@),
{
    let n = s.unicode_len();
    let mut i: usize = 0;
    while i < n
        invariant
            n == s@.len(),
            i <= n,
            all_hex_digits(s@.subrange(0, i as int)),
        decreases n - i,
    {
        let c = s.get_char(i);
        if hex_digit_value(c).is_none() {
            assert(!all_hex_digits(s@) && hex_digit(s@[i as int]) is None);
            return Err(HexError::InvalidCharacter(i));
        }
        proof {
            assert forall|j: int| 0 <= j < i + 1 implies (#[trigger] hex_digit(
                s@.subrange(0, i + 1)[j],
            )) is Some by {
                if j < i {
                    assert(s@.subrange(0, i + 1)[j] == s@.subrange(0, i as int)[j]);
                }
            }
        }
        i = i + 1;
    }
    assert(s@.subrange(0, n as int) =~= s@);
    if width > n / 2 || n != 2 * width {
        return Err(HexError::InvalidLength);
    }
    let mut out: Vec<u8> = Vec::new();
    let mut k: usize = 0;
    while k < width
        invariant
            n == s@.len(),
            n == 2 * width,
            k <= width,
            all_hex_digits(s@),
            out@ =~= hex_bytes(s@).subrange(0, k as int),
        decreases width - k,
    {
        let hi = hex_digit_value(s.get_char(2 * k)).unwrap();
        let lo = hex_digit_value(s.get_char(2 * k + 1)).unwrap();
        proof {
            assert(hex_digit(s@[2 * k as int]) is Some);
            assert(hex_digit(s@[2 * k as int + 1]) is Some);
        }
        out.push(hi * 16 + lo);
        k = k + 1;
    }
    Ok(out)
}

} // verus!
