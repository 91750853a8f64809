use vstd::prelude::*;
use vstd::string::*;

use crate::hex::{has_hex_prefix, is_hex, strip_marker, strip_0x};

verus! {

/// Value of `c` as a digit in base 10 or base 16, if it is one.
pub open spec fn digit_value(c: char, radix: nat) -> Option<nat> {
    let v: int = if '0' <= c && c <= '9' {
        c as int - '0' as int
    } else if 'a' <= c && c <= 'z' {
        c as int - 'a' as int + 10
    } else if 'A' <= c && c <= 'Z' {
        c as int - 'A' as int + 10
    } else {
        radix as int
    };
    if v < radix {
        Some(v as nat)
    } else {
        None
    }
}

pub open spec fn all_digits(s: Seq<char>, radix: nat) -> bool {
    forall|i: int| 0 <= i < s.len() ==> (#[trigger] digit_value(s[i], radix)) is Some
}

/// The number that the digits `s` denote, most significant first.
pub open spec fn digits_value(s: Seq<char>, radix: nat) -> nat
    decreases s.len(),
{
    if s.len() == 0 {
        0
    } else {
        digits_value(s.drop_last(), radix) * radix + digit_value(s.last(), radix).unwrap()
    }
}

/// The digits of an unsigned integer literal: an optional leading `+` is dropped.
pub open spec fn unsigned_digits(s: Seq<char>) -> Seq<char> {
    if s.len() > 0 && s[0] == '+' {
        s.drop_first()
    } else {
        s
    }
}

/// `s` is an unsigned integer in base `radix` whose value is at most `max`.
pub open spec fn parses_unsigned(s: Seq<char>, radix: nat, max: nat) -> bool {
    let d = unsigned_digits(s);
    d.len() > 0 && all_digits(d, radix) && digits_value(d, radix) <= max
}

pub open spec fn unsigned_value(s: Seq<char>, radix: nat) -> nat {
    digits_value(unsigned_digits(s), radix)
}

/// `s` is accepted as a 64-bit integer: hex after a marker, decimal otherwise.
pub open spec fn u64_accepts(s: Seq<char>) -> bool {
    if has_hex_prefix(s) {
        parses_unsigned(strip_0x(s), 16, u64::MAX as nat)
    } else {
        parses_unsigned(s, 10, u64::MAX as nat)
    }
}

pub open spec fn u64_value(s: Seq<char>) -> nat {
    if has_hex_prefix(s) {
        unsigned_value(strip_0x(s), 16)
    } else {
        unsigned_value(s, 10)
    }
}

/// `s` is a block height: a tag or a 64-bit integer.
pub open spec fn height_accepts(s: Seq<char>) -> bool {
    s == "latest"@ || s == "earliest"@ || u64_accepts(s)
}

/// Why an integer could not be read.
#[derive(Clone, Copy, Debug, PartialEq, Eq, Structural)]
pub enum IntError {
    Empty,
    InvalidDigit,
    PosOverflow,
}

/// The first error met reading the digits `d` from position `i` on, with
/// `acc` the value read so far; `None` if none is met.
pub open spec fn scan_error(d: Seq<char>, radix: nat, max: nat, i: int, acc: nat) -> Option<IntError>
    decreases d.len() - i,
{
    if i < 0 || i >= d.len() {
        None
    } else {
        match digit_value(d[i], radix) {
            None => Some(IntError::InvalidDigit),
            Some(v) => if acc * radix + v > max {
                Some(IntError::PosOverflow)
            } else {
                scan_error(d, radix, max, i + 1, acc * radix + v)
            },
        }
    }
}

/// The error that reading `s` as an unsigned integer reports.
pub open spec fn unsigned_error(s: Seq<char>, radix: nat, max: nat) -> IntError {
    if s.len() == 0 {
        IntError::Empty
    } else if s.len() == 1 && s[0] == '+' {
        IntError::InvalidDigit
    } else {
        match scan_error(unsigned_digits(s), radix, max, 0, 0) {
            Some(e) => e,
            None => IntError::InvalidDigit,
        }
    }
}

pub open spec fn describe_text(e: IntError) -> Seq<char> {
    match e {
        IntError::Empty => "cannot parse integer from empty string"@,
        IntError::InvalidDigit => "invalid digit found in string"@,
        IntError::PosOverflow => "number too large to fit in target type"@,
    }
}

pub open spec fn debug_text_of(e: IntError) -> Seq<char> {
    match e {
        IntError::Empty => "ParseIntError { kind: Empty }"@,
        IntError::InvalidDigit => "ParseIntError { kind: InvalidDigit }"@,
        IntError::PosOverflow => "ParseIntError { kind: PosOverflow }"@,
    }
}

/// The error text of `parse_u64` on `s`.
pub open spec fn u64_error_text(s: Seq<char>) -> Seq<char> {
    if has_hex_prefix(s) {
        describe_text(unsigned_error(strip_0x(s), 16, u64::MAX as nat))
    } else {
        debug_text_of(unsigned_error(s, 10, u64::MAX as nat))
    }
}

proof fn lemma_error_texts_nonempty(e: IntError)
    ensures
        describe_text(e).len() > 0,
        debug_text_of(e).len() > 0,
{
    reveal_strlit("cannot parse integer from empty string");
    reveal_strlit("invalid digit found in string");
    reveal_strlit("number too large to fit in target type");
    reveal_strlit("ParseIntError { kind: Empty }");
    reveal_strlit("ParseIntError { kind: InvalidDigit }");
    reveal_strlit("ParseIntError { kind: PosOverflow }");
}

impl IntError {
    /// The text that describes the error to a user.
    pub fn describe(&self) -> (r: String)
        ensures
            r@ == describe_text(*self),
    {
        match self {
            IntError::Empty => String::from_str("cannot parse integer from empty string"),
            IntError::InvalidDigit => String::from_str("invalid digit found in string"),
            IntError::PosOverflow => String::from_str("number too large to fit in target type"),
        }
    }

    /// The error written out as a structure.
    pub fn debug_text(&self) -> (r: String)
        ensures
            r@ == debug_text_of(*self),
    {
        match self {
            IntError::Empty => String::from_str("ParseIntError { kind: Empty }"),
            IntError::InvalidDigit => String::from_str("ParseIntError { kind: InvalidDigit }"),
            IntError::PosOverflow => String::from_str("ParseIntError { kind: PosOverflow }"),
        }
    }
}

pub(crate) proof fn lemma_digits_value_push(s: Seq<char>, c: char, radix: nat)
    ensures
        digits_value(s.push(c), radix) == digits_value(s, radix) * radix + digit_value(
            c,
            radix,
        ).unwrap(),
{
    assert(s.push(c).drop_last() =~= s);
}

/// Appending digits never makes a number smaller.
pub(crate) proof fn lemma_digits_value_grows(s: Seq<char>, k: int, radix: nat)
    requires
        0 <= k <= s.len(),
        radix >= 1,
    ensures
        digits_value(s.subrange(0, k), radix) <= digits_value(s, radix),
    decreases s.len() - k,
{
    if k < s.len() {
        lemma_digits_value_grows(s, k + 1, radix);
        let p = s.subrange(0, k);
        assert(s.subrange(0, k + 1) =~= p.push(s[k]));
        lemma_digits_value_push(p, s[k], radix);
        let v = digits_value(p, radix);
        assert(v * radix >= v) by (nonlinear_arith)
            requires
                radix >= 1,
        ;
    } else {
        assert(s.subrange(0, k) =~= s);
    }
}

pub(crate) fn char_digit(c: char, radix: u32) -> (r: Option<u64>)
    requires
        radix == 10 || radix == 16,
    ensures
        r is Some == digit_value(c, radix as nat) is Some,
        r matches Some(v) ==> v as nat == digit_value(c, radix as nat).unwrap() && v < radix,
{
    let v: u32 = if '0' <= c && c <= '9' {
        c as u32 - '0' as u32
    } else if 'a' <= c && c <= 'z' {
        c as u32 - 'a' as u32 + 10
    } else if 'A' <= c && c <= 'Z' {
        c as u32 - 'A' as u32 + 10
    } else {
        radix
    };
    if v < radix {
        Some(v as u64)
    } else {
        None
    }
}

/// Reads an unsigned integer in base 10 or 16 that must not exceed `max`,
/// with an optional leading `+`, reporting errors as std's integer parser does.
pub fn parse_unsigned(s: &str, radix: u32, max: u64) -> (r: Result<u64, IntError>)
    requires
        radix == 10 || radix == 16,
    ensures
        r is Ok == parses_unsigned(s@, radix as nat, max as nat),
        r matches Ok(v) ==> v as nat == unsigned_value(s@, radix as nat),
        r matches Err(e) ==> e == unsigned_error(s@, radix as nat, max as nat),
{
    let n = s.unicode_len();
    if n == 0 {
        return Err(IntError::Empty);
    }
    let mut start: usize = 0;
    if s.get_char(0) == '+' {
        if n == 1 {
            return Err(IntError::InvalidDigit);
        }
        start = 1;
    }
    let ghost d = unsigned_digits(s@);
    assert(d =~= s@.subrange(start as int, n as int));
    assert(d.len() > 0);
    let mut acc: u64 = 0;
    let mut i: usize = start;
    while i < n
        invariant
            n == s@.len(),
            start <= i <= n,
            d == s@.subrange(start as int, n as int),
            d == unsigned_digits(s@),
            radix == 10 || radix == 16,
            all_digits(d.subrange(0, i - start), radix as nat),
            acc as nat == digits_value(d.subrange(0, i - start), radix as nat),
            acc <= max,
            scan_error(d, radix as nat, max as nat, 0, 0) == scan_error(
                d,
                radix as nat,
                max as nat,
                i - start,
                acc as nat,
            ),
            n > 1 || start == 0,
        decreases n - i,
    {
        let c = s.get_char(i);
        let ghost p = d.subrange(0, i - start);
        assert(d.subrange(0, i - start + 1) =~= p.push(c));
        proof {
            lemma_digits_value_push(p, c, radix as nat);
        }
        match char_digit(c, radix) {
            None => {
                proof {
                    assert(d[i - start] == s@[i as int]);
                    assert(digit_value(d[i - start], radix as nat) is None);
                    assert(d[i - start] == c);
                }
                return Err(IntError::InvalidDigit);
            },
            Some(dv) => {
                let next = acc.checked_mul(radix as u64);
                let over = match next {
                    None => true,
                    Some(m) => m > max || dv > max - m,
                };
                if over {
                    proof {
                        assert(all_digits(p.push(c), radix as nat)) by {
                            assert forall|j: int| 0 <= j < p.len() + 1 implies (#[trigger] digit_value(
                                p.push(c)[j],
                                radix as nat,
                            )) is Some by {
                                if j < p.len() {
                                    assert(p.push(c)[j] == p[j]);
                                }
                            }
                        }
                        assert(acc as nat * radix as nat + dv as nat > max as nat);
                        assert(d[i - start] == c);
                        if all_digits(d, radix as nat) {
                            lemma_digits_value_grows(d, i - start + 1, radix as nat);
                        }
                    }
                    return Err(IntError::PosOverflow);
                }
                let m = next.unwrap();
                assert(d[i - start] == c);
                proof {
                    assert forall|j: int| 0 <= j < p.len() + 1 implies (#[trigger] digit_value(
                        p.push(c)[j],
                        radix as nat,
                    )) is Some by {
                        if j < p.len() {
                            assert(p.push(c)[j] == p[j]);
                        }
                    }
                }
                acc = m + dv;
            },
        }
        i = i + 1;
    }
    assert(d.subrange(0, n - start) =~= d);
    Ok(acc)
}

/// The hexadecimal (after a marker) or decimal string as a 64-bit integer.
pub fn parse_u64(height: &str) -> (r: Result<u64, String>)
    ensures
        r is Ok == u64_accepts(height@),
        r matches Ok(v) ==> v as nat == u64_value(height@),
        r matches Err(e) ==> e@ == u64_error_text(height@) && e@.len() > 0,
{
    proof {
        lemma_error_texts_nonempty(unsigned_error(strip_0x(height@), 16, u64::MAX as nat));
        lemma_error_texts_nonempty(unsigned_error(height@, 10, u64::MAX as nat));
    }
    match is_hex(height) {
        Ok(()) => match parse_unsigned(strip_marker(height), 16, u64::MAX) {
            Ok(v) => Ok(v),
            Err(e) => Err(e.describe()),
        },
        Err(_) => match parse_unsigned(height, 10, u64::MAX) {
            Ok(v) => Ok(v),
            Err(e) => Err(e.debug_text()),
        },
    }
}

/// A decimal chain id that fits in 32 bits.
pub fn parse_chain_id(s: &str) -> (r: Result<u32, String>)
    ensures
        r is Ok == parses_unsigned(s@, 10, u32::MAX as nat),
        r matches Ok(v) ==> v as nat == unsigned_value(s@, 10),
        r matches Err(e) ==> e@ == debug_text_of(unsigned_error(s@, 10, u32::MAX as nat)),
{
    match parse_unsigned(s, 10, u32::MAX as u64) {
        Ok(v) => Ok(v as u32),
        Err(e) => Err(e.debug_text()),
    }
}

/// Accepts the tags `latest` and `earliest`, and any 64-bit integer.
pub fn parse_height(height: &str) -> (r: Result<(), String>)
    ensures
        r is Ok == height_accepts(height@),
        r matches Err(e) ==> e@ == seq!['"'] + u64_error_text(height@) + seq!['"'],
{
    proof {
        reveal_strlit("latest");
        reveal_strlit("earliest");
        reveal_strlit("\"");
    }
    if str_eq(height, "latest") || str_eq(height, "earliest") {
        return Ok(());
    }
    match parse_u64(height) {
        Ok(_) => Ok(()),
        Err(e) => {
            let mut quoted = String::from_str("\"");
            quoted.append(e.as_str());
            quoted.append("\"");
            Err(quoted)
        },
    }
}

/// Character-wise string equality.
pub fn str_eq(a: &str, b: &str) -> (r: bool)
    ensures
        r == (a@ == b@),
{
    let n = a.unicode_len();
    if n != b.unicode_len() {
        return false;
    }
    let mut i: usize = 0;
    while i < n
        invariant
            n == a@.len(),
            n == b@.len(),
            i <= n,
            a@.subrange(0, i as int) == b@.subrange(0, i as int),
        decreases n - i,
    {
        if a.get_char(i) != b.get_char(i) {
            return false;
        }
        assert(a@.subrange(0, i + 1) =~= a@.subrange(0, i as int).push(a@[i as int]));
        assert(b@.subrange(0, i + 1) =~= b@.subrange(0, i as int).push(b@[i as int]));
        i = i + 1;
    }
    assert(a@.subrange(0, n as int) =~= a@);
    assert(b@.subrange(0, n as int) =~= b@);
    true
}

} // verus!
