use vstd::prelude::*;
use vstd::string::*;

use crate::hex::{decode_error_text, is_hex_error, decode_fixed_hex, has_hex_prefix, hex_bytes, is_hex, strip_marker, strip_0x, all_hex_digits};
use crate::number::{all_digits, char_digit, digits_value, lemma_digits_value_grows, lemma_digits_value_push};

verus! {

pub open spec fn limb_base() -> nat {
    0x1_0000_0000_0000_0000
}

/// Every 256-bit value is below this bound.
pub open spec fn u256_bound() -> nat {
    limb_base() * limb_base() * limb_base() * limb_base()
}

/// A 256-bit unsigned integer, as four 64-bit limbs, least significant first.
#[derive(Clone, Copy, Debug, PartialEq, Eq, Structural)]
pub struct U256 {
    pub l0: u64,
    pub l1: u64,
    pub l2: u64,
    pub l3: u64,
}

fn mul_add_limb(a: u64, m: u64, carry: u64) -> (r: (u64, u64))
    requires
        m <= 16,
        carry < 16,
    ensures
        r.0 as nat + r.1 as nat * limb_base() == a as nat * m as nat + carry as nat,
        r.1 < 16,
{
    proof {
        assert((a as nat) * (m as nat) + (carry as nat) < 16 * limb_base()) by (nonlinear_arith)
            requires
                a < limb_base(),
                m <= 16,
                carry < 16,
        ;
    }
    let t: u128 = (a as u128) * (m as u128) + (carry as u128);
    let lo = (t % 0x1_0000_0000_0000_0000u128) as u64;
    let hi = (t / 0x1_0000_0000_0000_0000u128) as u64;
    (lo, hi)
}

proof fn lemma_carry_chain(
    b: int,
    x0: int,
    x1: int,
    x2: int,
    x3: int,
    y0: int,
    y1: int,
    y2: int,
    y3: int,
    k0: int,
    k1: int,
    k2: int,
    k3: int,
    m: int,
    d: int,
)
    requires
        y0 + k0 * b == x0 * m + d,
        y1 + k1 * b == x1 * m + k0,
        y2 + k2 * b == x2 * m + k1,
        y3 + k3 * b == x3 * m + k2,
    ensures
        y0 + y1 * b + y2 * b * b + y3 * b * b * b + k3 * (b * b * b * b) == (x0 + x1 * b + x2 * b * b
            + x3 * b * b * b) * m + d,
{
    let (t0, t1, t2, t3) = (x0 * m, x1 * m, x2 * m, x3 * m);
    assert((x0 + x1 * b + x2 * b * b + x3 * b * b * b) * m == t0 + t1 * b + t2 * (b * b) + t3 * (b
        * b * b)) by (nonlinear_arith)
        requires
            t0 == x0 * m,
            t1 == x1 * m,
            t2 == x2 * m,
            t3 == x3 * m,
    ;
    assert(t0 + t1 * b + t2 * (b * b) + t3 * (b * b * b) + d == y0 + y1 * b + y2 * b * b + y3 * b * b
        * b + k3 * (b * b * b * b)) by (nonlinear_arith)
        requires
            t0 == y0 + k0 * b - d,
            t1 == y1 + k1 * b - k0,
            t2 == y2 + k2 * b - k1,
            t3 == y3 + k3 * b - k2,
    ;
}

impl U256 {
    pub open spec fn value(&self) -> nat {
        self.l0 as nat + self.l1 as nat * limb_base() + self.l2 as nat * limb_base() * limb_base()
            + self.l3 as nat * limb_base() * limb_base() * limb_base()
    }

    pub fn zero() -> (r: U256)
        ensures
            r.value() == 0,
    {
        U256 { l0: 0, l1: 0, l2: 0, l3: 0 }
    }

    pub fn from_u64(v: u64) -> (r: U256)
        ensures
            r.value() == v as nat,
    {
        U256 { l0: v, l1: 0, l2: 0, l3: 0 }
    }

    proof fn lemma_value_bound(&self)
        ensures
            self.value() < u256_bound(),
    {
        let b = limb_base();
        let (x0, x1, x2, x3) = (self.l0 as nat, self.l1 as nat, self.l2 as nat, self.l3 as nat);
        assert(x0 + x1 * b + x2 * b * b + x3 * b * b * b < b * b * b * b) by (nonlinear_arith)
            requires
                x0 < b,
                x1 < b,
                x2 < b,
                x3 < b,
        ;
    }

    /// `self * m + d`, unless that leaves 256 bits.
    pub fn mul_add(&self, m: u64, d: u64) -> (r: Option<U256>)
        requires
            1 <= m <= 16,
            d < m,
        ensures
            r is Some == (self.value() * m + d < u256_bound()),
            r matches Some(x) ==> x.value() == self.value() * m + d,
    {
        let (r0, c0) = mul_add_limb(self.l0, m, d);
        let (r1, c1) = mul_add_limb(self.l1, m, c0);
        let (r2, c2) = mul_add_limb(self.l2, m, c1);
        let (r3, c3) = mul_add_limb(self.l3, m, c2);
        let x = U256 { l0: r0, l1: r1, l2: r2, l3: r3 };
        proof {
            let b = limb_base();
            let (x0, x1, x2, x3) = (self.l0 as nat, self.l1 as nat, self.l2 as nat, self.l3 as nat);
            let (y0, y1, y2, y3) = (r0 as nat, r1 as nat, r2 as nat, r3 as nat);
            let (k0, k1, k2, k3) = (c0 as nat, c1 as nat, c2 as nat, c3 as nat);
            let mm = m as nat;
            let dd = d as nat;
            lemma_carry_chain(b as int, x0 as int, x1 as int, x2 as int, x3 as int, y0 as int, y1 as int,
                y2 as int, y3 as int, k0 as int, k1 as int, k2 as int, k3 as int, mm as int, dd as int);
            x.lemma_value_bound();
            assert(k3 == 0 || k3 * (b * b * b * b) >= b * b * b * b) by (nonlinear_arith);
            assert(x.value() + k3 * (b * b * b * b) == self.value() * mm + dd);
        }
        if c3 == 0 {
            Some(x)
        } else {
            None
        }
    }
}

/// The digits of a 256-bit number: hex after a marker, decimal otherwise.
pub open spec fn u256_digits(s: Seq<char>) -> Seq<char> {
    strip_0x(s)
}

pub open spec fn u256_radix(s: Seq<char>) -> nat {
    if has_hex_prefix(s) {
        16
    } else {
        10
    }
}

/// `s` denotes a 256-bit unsigned integer.
pub open spec fn u256_accepts(s: Seq<char>) -> bool {
    let d = u256_digits(s);
    d.len() > 0 && all_digits(d, u256_radix(s)) && digits_value(d, u256_radix(s)) < u256_bound()
}

pub open spec fn u256_value(s: Seq<char>) -> nat {
    digits_value(u256_digits(s), u256_radix(s))
}

fn parse_digits_u256(d: &str, radix: u32) -> (r: Option<U256>)
    requires
        radix == 10 || radix == 16,
    ensures
        r is Some == (d@.len() > 0 && all_digits(d@, radix as nat) && digits_value(
            d@,
            radix as nat,
        ) < u256_bound()),
        r matches Some(x) ==> x.value() == digits_value(d@, radix as nat),
{
    let n = d.unicode_len();
    if n == 0 {
        return None;
    }
    let mut acc = U256::zero();
    let mut i: usize = 0;
    while i < n
        invariant
            n == d@.len(),
            i <= n,
            radix == 10 || radix == 16,
            all_digits(d@.subrange(0, i as int), radix as nat),
            acc.value() == digits_value(d@.subrange(0, i as int), radix as nat),
        decreases n - i,
    {
        let c = d.get_char(i);
        let ghost p = d@.subrange(0, i as int);
        assert(d@.subrange(0, i + 1) =~= p.push(c));
        proof {
            lemma_digits_value_push(p, c, radix as nat);
        }
        match char_digit(c, radix) {
            None => {
                return None;
            },
            Some(dv) => {
                proof {
                    assert forall|j: int| 0 <= j < p.len() + 1 implies (#[trigger] crate::number::digit_value(
                        p.push(c)[j],
                        radix as nat,
                    )) is Some by {
                        if j < p.len() {
                            assert(p.push(c)[j] == p[j]);
                        }
                    }
                }
                match acc.mul_add(radix as u64, dv) {
                    None => {
                        proof {
                            if all_digits(d@, radix as nat) {
                                lemma_digits_value_grows(d@, i + 1, radix as nat);
                            }
                        }
                        return None;
                    },
                    Some(x) => {
                        acc = x;
                    },
                }
            },
        }
        i = i + 1;
    }
    assert(d@.subrange(0, n as int) =~= d@);
    Some(acc)
}

/// A 256-bit integer, in hex after a marker or in decimal.
pub fn parse_u256(value: &str) -> (r: Result<U256, String>)
    ensures
        r is Ok == u256_accepts(value@),
        r matches Ok(x) ==> x.value() == u256_value(value@),
        r matches Err(e) ==> e@ == "Value can't parse into u256"@,
{
    let radix: u32 = if is_hex(value).is_ok() {
        16
    } else {
        10
    };
    match parse_digits_u256(strip_marker(value), radix) {
        Some(x) => Ok(x),
        None => Err(String::from_str("Value can't parse into u256")),
    }
}

/// A 160-bit account or contract address.
#[derive(Clone, Debug)]
pub struct Address {
    pub bytes: Vec<u8>,
}

/// A 256-bit key or value of the key/value storage.
#[derive(Clone, Debug)]
pub struct H256 {
    pub bytes: Vec<u8>,
}

/// The signature scheme under which private keys are read.
#[derive(Clone, Copy, Debug, PartialEq, Eq, Structural)]
pub enum Encryption {
    Secp256k1,
    Ed25519,
    Sm2,
}

/// Bytes in a private key of the scheme.
pub open spec fn key_width(e: Encryption) -> nat {
    match e {
        Encryption::Ed25519 => 64,
        _ => 32,
    }
}

/// The private key material of one scheme.
#[derive(Clone, Debug)]
pub struct PrivateKey {
    pub encryption: Encryption,
    pub bytes: Vec<u8>,
}

/// A hex string with marker whose remainder is exactly `width` bytes.
pub open spec fn fixed_hex_accepts(s: Seq<char>, width: nat) -> bool {
    has_hex_prefix(s) && all_hex_digits(strip_0x(s)) && strip_0x(s).len() == 2 * width
}

pub open spec fn fixed_hex_value(s: Seq<char>) -> Seq<u8> {
    hex_bytes(strip_0x(s))
}

/// The error text of a failed fixed-width decode of the marked hex string `s`.
pub open spec fn marked_hex_error(s: Seq<char>) -> Seq<char> {
    if has_hex_prefix(s) {
        decode_error_text(strip_0x(s))
    } else {
        is_hex_error(s)
    }
}

fn decode_marked_hex(value: &str, width: usize) -> (r: Result<Vec<u8>, String>)
    ensures
        r is Ok == fixed_hex_accepts(value@, width as nat),
        r matches Ok(v) ==> v@ == fixed_hex_value(value@),
        r matches Err(e) ==> e@ == marked_hex_error(value@),
{
    is_hex(value)?;
    match decode_fixed_hex(strip_marker(value), width) {
        Ok(v) => Ok(v),
        Err(e) => Err(e.message()),
    }
}

/// Reads a 160-bit address written as hex with marker.
pub fn decode_address(value: &str) -> (r: Result<Address, String>)
    ensures
        r is Ok == fixed_hex_accepts(value@, 20),
        r matches Ok(a) ==> a.bytes@ == fixed_hex_value(value@),
        r matches Err(e) ==> e@ == marked_hex_error(value@),
{
    let bytes = decode_marked_hex(value, 20)?;
    Ok(Address { bytes })
}

/// Validates a 160-bit address written as hex with marker.
pub fn parse_address(value: &str) -> (r: Result<(), String>)
    ensures
        r is Ok == fixed_hex_accepts(value@, 20),
        r matches Err(e) ==> e@ == marked_hex_error(value@),
{
    decode_address(value)?;
    Ok(())
}

/// Reads a 256-bit key written as hex with marker.
pub fn decode_h256(value: &str) -> (r: Result<H256, String>)
    ensures
        r is Ok == fixed_hex_accepts(value@, 32),
        r matches Ok(h) ==> h.bytes@ == fixed_hex_value(value@),
        r matches Err(e) ==> e@ == marked_hex_error(value@),
{
    match decode_marked_hex(value, 32) {
        Ok(bytes) => Ok(H256 { bytes }),
        Err(e) => Err(e),
    }
}

/// Validates a 256-bit key written as hex with marker; a decode failure names
/// its cause after `Invalid H256: `.
pub fn h256_validator(value: &str) -> (r: Result<(), String>)
    ensures
        r is Ok == fixed_hex_accepts(value@, 32),
        r matches Err(e) ==> e@ == (if has_hex_prefix(value@) {
            "Invalid H256: "@ + decode_error_text(strip_0x(value@))
        } else {
            is_hex_error(value@)
        }),
{
    is_hex(value)?;
    match decode_h256(value) {
        Ok(_) => Ok(()),
        Err(cause) => {
            let mut msg = String::from_str("Invalid H256: ");
            msg.append(cause.as_str());
            Err(msg)
        },
    }
}

/// Reads a private key of the scheme `encryption`, written as hex with marker.
pub fn parse_privkey(hash: &str, encryption: Encryption) -> (r: Result<PrivateKey, String>)
    ensures
        r is Ok == fixed_hex_accepts(hash@, key_width(encryption)),
        r matches Ok(k) ==> k.bytes@ == fixed_hex_value(hash@) && k.encryption == encryption,
        r matches Err(e) ==> e@ == marked_hex_error(hash@),
{
    let width: usize = match encryption {
        Encryption::Ed25519 => 64,
        _ => 32,
    };
    let bytes = decode_marked_hex(hash, width)?;
    Ok(PrivateKey { encryption, bytes })
}

/// Validates a private key of any scheme.
pub fn privkey_validator(hash: &str) -> (r: Result<(), String>)
    ensures
        r is Ok == (fixed_hex_accepts(hash@, 32) || fixed_hex_accepts(hash@, 64)),
{
    match decode_marked_hex(hash, 32) {
        Ok(_) => Ok(()),
        Err(_) => {
            decode_marked_hex(hash, 64)?;
            Ok(())
        },
    }
}

} // verus!
