//! Client addresses as plain numbers, and their coarse privacy class.
use vstd::prelude::*;
use crate::text::push_char;

verus! {

/// A client address: IPv4 as its 32-bit value, IPv6 as its 128-bit value.
#[derive(Clone, Copy, Debug, PartialEq, Eq, Hash, Structural)]
pub enum IpAddress {
    V4(u32),
    V6(u128),
}

/// The character of a digit below 16, lower-case for 10 to 15.
pub open spec fn digit_char(d: nat) -> char {
    if d < 10 {
        (48 + d) as char
    } else {
        (87 + d) as char
    }
}

/// The digits of `n` in `base`, most significant first, without leading
/// zeros (`0` is the single digit `0`).
pub open spec fn digits(n: nat, base: nat) -> Seq<char>
    decreases n,
{
    if base < 2 || n < base {
        seq![digit_char(n)]
    } else {
        proof {
            assert(n / base < n) by (nonlinear_arith)
                requires
                    base >= 2,
                    n >= base,
            ;
        }
        digits(n / base, base).push(digit_char(n % base))
    }
}

fn digit_of(d: u64) -> (c: char)
    requires
        d < 16,
    ensures
        c == digit_char(d as nat),
{
    if d < 10 {
        let b: u8 = 48 + (d as u8);
        b as char
    } else {
        let b: u8 = 87 + (d as u8);
        b as char
    }
}

/// Appends the digits of `n` in `base` (10 or 16).
pub fn push_digits(s: &mut String, n: u64, base: u64)
    requires
        base == 10 || base == 16,
    ensures
        final(s)@ == old(s)@ + digits(n as nat, base as nat),
    decreases n,
{
    if n >= base {
        push_digits(s, n / base, base);
        push_char(s, digit_of(n % base));
    } else {
        push_char(s, digit_of(n));
    }
}

/// First two octets of an IPv4 address in decimal, joined by a dot; first
/// group of an IPv6 address in lower-case hexadecimal.
pub open spec fn ip_class_of(ip: IpAddress) -> Seq<char> {
    match ip {
        IpAddress::V4(x) => digits((x as nat) / 0x100_0000, 10) + seq!['.'] + digits(
            ((x as nat) / 0x1_0000) % 0x100,
            10,
        ),
        IpAddress::V6(x) => digits((x as nat) / 0x1_0000_0000_0000_0000_0000_0000_0000, 16),
    }
}

/// The privacy-preserving class of an address, used as a metrics label.
pub fn ip_class(ip: &IpAddress) -> (r: String)
    ensures
        r@ == ip_class_of(*ip),
{
    let mut r = String::new();
    match ip {
        IpAddress::V4(x) => {
            let a: u64 = (*x / 0x100_0000) as u64;
            let b: u64 = ((*x / 0x1_0000) % 0x100) as u64;
            push_digits(&mut r, a, 10);
            push_char(&mut r, '.');
            push_digits(&mut r, b, 10);
            assert(r@ =~= ip_class_of(*ip));
        },
        IpAddress::V6(x) => {
            let g: u64 = (*x / 0x1_0000_0000_0000_0000_0000_0000_0000) as u64;
            push_digits(&mut r, g, 16);
            assert(r@ =~= ip_class_of(*ip));
        },
    }
    r
}

} // verus!
