//! IPv4 addresses and subnets: addresses are plain `u32` values; a subnet
//! is an aligned base address plus a prefix length. Dotted-quad and CIDR
//! text is parsed and rendered here, and the deterministic selection of a
//! free address from a subnet's range lives here too.

use crate::hash::{hex_char_s, nibble_str};
use vstd::arithmetic::div_mod::{
    lemma_fundamental_div_mod, lemma_mod_bound, lemma_mod_multiples_basic,
};
use vstd::arithmetic::power2::{lemma2_to64, lemma_pow2_adds, lemma_pow2_pos, pow2};
use vstd::bits::lemma_u64_shl_is_mul;
use vstd::prelude::*;
use vstd::string::*;

verus! {

/// Number of addresses in a subnet with the given prefix length.
pub open spec fn subnet_size_s(prefix: u8) -> int {
    pow2((32 - prefix) as nat) as int
}

/// An IPv4 subnet: an aligned base address and a prefix length.
#[derive(Clone, Copy, Debug, PartialEq, Eq, Structural)]
pub struct Subnet {
    pub base: u32,
    pub prefix: u8,
}

impl Subnet {
    pub open spec fn size(self) -> int {
        subnet_size_s(self.prefix)
    }

    /// Well-formed: the base is aligned to the subnet size, so the range
    /// never wraps past the end of the address space.
    pub open spec fn wf(self) -> bool {
        &&& self.prefix <= 32
        &&& self.base as int % self.size() == 0
        &&& self.base as int + self.size() <= 0x1_0000_0000
    }

    /// Membership: `a` lies inside this subnet's range.
    pub open spec fn contains_s(self, a: u32) -> bool {
        self.base <= a && (a as int) < self.base as int + self.size()
    }

    /// The number of addresses in this subnet, as an executable value.
    pub fn size_u64(&self) -> (r: u64)
        requires
            self.prefix <= 32,
        ensures
            r as int == self.size(),
    {
        let e: u64 = (32 - self.prefix) as u64;
        proof {
            lemma2_to64();
            vstd::arithmetic::power2::lemma_pow2_strictly_increases(e as nat, 33);
            lemma_u64_shl_is_mul(1u64, e);
        }
        1u64 << e
    }

    /// Tests membership of `a` in this subnet.
    pub fn contains(&self, a: u32) -> (r: bool)
        requires
            self.wf(),
        ensures
            r == self.contains_s(a),
    {
        let sz = self.size_u64();
        a >= self.base && ((a - self.base) as u64) < sz
    }
}

pub open spec fn is_digit_s(c: u8) -> bool {
    48 <= c && c <= 57
}

pub open spec fn digit_val_s(c: u8) -> int {
    c as int - 48
}

/// Grammar of one decimal octet starting at position `i`: one to three
/// digits, value at most 255, no leading zero. Yields the value and the
/// position just past the digits.
pub open spec fn parse_octet_s(b: Seq<u8>, i: int) -> Option<(u32, int)> {
    if 0 <= i && i < b.len() && is_digit_s(b[i]) {
        let d0 = digit_val_s(b[i]);
        if i + 1 < b.len() && is_digit_s(b[i + 1]) {
            if d0 == 0 {
                None
            } else {
                let d1 = digit_val_s(b[i + 1]);
                if i + 2 < b.len() && is_digit_s(b[i + 2]) {
                    let v = d0 * 100 + d1 * 10 + digit_val_s(b[i + 2]);
                    if v <= 255 {
                        Some((v as u32, i + 3))
                    } else {
                        None
                    }
                } else {
                    Some(((d0 * 10 + d1) as u32, i + 2))
                }
            }
        } else {
            Some((d0 as u32, i + 1))
        }
    } else {
        None
    }
}

/// Grammar of a dotted quad starting at position `i`: four octets joined
/// by '.' (byte 46). Yields the 32-bit address and the next position.
pub open spec fn parse_ipv4_from_s(b: Seq<u8>, i: int) -> Option<(u32, int)> {
    match parse_octet_s(b, i) {
        None => None,
        Some((v0, i1)) => if i1 < b.len() && b[i1] == 46 {
            match parse_octet_s(b, i1 + 1) {
                None => None,
                Some((v1, i2)) => if i2 < b.len() && b[i2] == 46 {
                    match parse_octet_s(b, i2 + 1) {
                        None => None,
                        Some((v2, i3)) => if i3 < b.len() && b[i3] == 46 {
                            match parse_octet_s(b, i3 + 1) {
                                None => None,
                                Some((v3, i4)) => Some(
                                    (
                                        (v0 * 16777216 + v1 * 65536 + v2 * 256 + v3) as u32,
                                        i4,
                                    ),
                                ),
                            }
                        } else {
                            None
                        },
                    }
                } else {
                    None
                },
            }
        } else {
            None
        },
    }
}

/// A whole string is a dotted quad exactly when the grammar consumes it.
pub open spec fn parse_ipv4_s(b: Seq<u8>) -> Option<u32> {
    match parse_ipv4_from_s(b, 0) {
        Some((v, i)) => if i == b.len() {
            Some(v)
        } else {
            None
        },
        None => None,
    }
}

/// Grammar of a prefix length: one or two digits, value at most 32, no
/// leading zero.
pub open spec fn parse_prefix_s(b: Seq<u8>, i: int) -> Option<(u8, int)> {
    if 0 <= i && i < b.len() && is_digit_s(b[i]) {
        let d0 = digit_val_s(b[i]);
        if i + 1 < b.len() && is_digit_s(b[i + 1]) {
            if d0 == 0 {
                None
            } else {
                let v = d0 * 10 + digit_val_s(b[i + 1]);
                if v <= 32 {
                    Some((v as u8, i + 2))
                } else {
                    None
                }
            }
        } else {
            Some((d0 as u8, i + 1))
        }
    } else {
        None
    }
}

/// The subnet base: the address with its host bits cleared.
pub open spec fn mask_base_s(v: u32, p: u8) -> u32 {
    (v as int - v as int % subnet_size_s(p)) as u32
}

/// A CIDR string: a dotted quad, '/' (byte 47), and a prefix length,
/// consuming the whole string. Host bits of the address are cleared.
pub open spec fn parse_cidr_s(b: Seq<u8>) -> Option<Subnet> {
    match parse_ipv4_from_s(b, 0) {
        None => None,
        Some((v, i)) => if i < b.len() && b[i] == 47 {
            match parse_prefix_s(b, i + 1) {
                None => None,
                Some((p, j)) => if j == b.len() {
                    Some(Subnet { base: mask_base_s(v, p), prefix: p })
                } else {
                    None
                },
            }
        } else {
            None
        },
    }
}

fn is_digit(c: u8) -> (r: bool)
    ensures
        r == is_digit_s(c),
{
    48 <= c && c <= 57
}

/// Parses one decimal octet of the dotted-quad grammar.
fn parse_octet(b: &[u8], i: usize) -> (r: Option<(u32, usize)>)
    requires
        i <= b@.len(),
    ensures
        r is None <==> parse_octet_s(b@, i as int) is None,
        r matches Some(p) ==> parse_octet_s(b@, i as int) == Some((p.0, p.1 as int)) && p.1 <= b@.len(),
{
    if i < b.len() && is_digit(b[i]) {
        let d0: u32 = (b[i] - 48) as u32;
        if i + 1 < b.len() && is_digit(b[i + 1]) {
            if d0 == 0 {
                None
            } else {
                let d1: u32 = (b[i + 1] - 48) as u32;
                if i + 2 < b.len() && is_digit(b[i + 2]) {
                    let v: u32 = d0 * 100 + d1 * 10 + (b[i + 2] - 48) as u32;
                    if v <= 255 {
                        Some((v, i + 3))
                    } else {
                        None
                    }
                } else {
                    Some((d0 * 10 + d1, i + 2))
                }
            }
        } else {
            Some((d0, i + 1))
        }
    } else {
        None
    }
}

/// Parses a dotted quad starting at `i`.
fn parse_ipv4_from(b: &[u8], i: usize) -> (r: Option<(u32, usize)>)
    requires
        i <= b@.len(),
    ensures
        r is None <==> parse_ipv4_from_s(b@, i as int) is None,
        r matches Some(p) ==> parse_ipv4_from_s(b@, i as int) == Some((p.0, p.1 as int)) && p.1
            <= b@.len(),
{
    match parse_octet(b, i) {
        None => None,
        Some((v0, i1)) => {
            if i1 < b.len() && b[i1] == 46 {
                match parse_octet(b, i1 + 1) {
                    None => None,
                    Some((v1, i2)) => {
                        if i2 < b.len() && b[i2] == 46 {
                            match parse_octet(b, i2 + 1) {
                                None => None,
                                Some((v2, i3)) => {
                                    if i3 < b.len() && b[i3] == 46 {
                                        match parse_octet(b, i3 + 1) {
                                            None => None,
                                            Some((v3, i4)) => Some(
                                                (v0 * 16777216 + v1 * 65536 + v2 * 256 + v3, i4),
                                            ),
                                        }
                                    } else {
                                        None
                                    }
                                },
                            }
                        } else {
                            None
                        }
                    },
                }
            } else {
                None
            }
        },
    }
}

/// Parses a dotted-quad IPv4 address; `Some` exactly when the whole
/// string matches the grammar.
pub fn parse_ipv4(s: &str) -> (r: Option<u32>)
    ensures
        r == parse_ipv4_s(s.spec_bytes()),
{
    let b = s.as_bytes();
    match parse_ipv4_from(b, 0) {
        Some((v, j)) => {
            if j == b.len() {
                Some(v)
            } else {
                None
            }
        },
        None => None,
    }
}

fn parse_prefix(b: &[u8], i: usize) -> (r: Option<(u8, usize)>)
    requires
        i <= b@.len(),
    ensures
        r is None <==> parse_prefix_s(b@, i as int) is None,
        r matches Some(p) ==> parse_prefix_s(b@, i as int) == Some((p.0, p.1 as int)) && p.1
            <= b@.len() && p.0 <= 32,
{
    if i < b.len() && is_digit(b[i]) {
        let d0: u8 = b[i] - 48;
        if i + 1 < b.len() && is_digit(b[i + 1]) {
            if d0 == 0 {
                None
            } else {
                let v: u8 = d0 * 10 + (b[i + 1] - 48);
                if v <= 32 {
                    Some((v, i + 2))
                } else {
                    None
                }
            }
        } else {
            Some((d0, i + 1))
        }
    } else {
        None
    }
}

/// An aligned base plus the subnet size never passes the end of the
/// address space.
proof fn lemma_aligned_end(v: int, p: nat)
    requires
        p <= 32,
        0 <= v < 0x1_0000_0000,
    ensures
        v as int % (pow2((32 - p) as nat) as int) <= v,
        (v - v % (pow2((32 - p) as nat) as int)) + pow2((32 - p) as nat) as int <= 0x1_0000_0000,
        (v - v % (pow2((32 - p) as nat) as int)) % (pow2((32 - p) as nat) as int) == 0,
{
    let s = pow2((32 - p) as nat) as int;
    lemma_pow2_pos((32 - p) as nat);
    lemma_pow2_adds(p, (32 - p) as nat);
    lemma2_to64();
    assert(pow2(p) as int * s == 0x1_0000_0000);
    lemma_fundamental_div_mod(v, s);
    lemma_mod_bound(v, s);
    let q = v / s;
    assert(v - v % s == s * q);
    assert(q >= 0) by (nonlinear_arith)
        requires
            s * q + v % s == v,
            0 <= v % s < s,
            0 <= v,
            s > 0,
    ;
    assert(q < pow2(p) as int) by (nonlinear_arith)
        requires
            s * q <= v,
            v < pow2(p) as int * s,
            s > 0,
            q >= 0,
    ;
    assert(s * q + s <= pow2(p) as int * s) by (nonlinear_arith)
        requires
            q + 1 <= pow2(p) as int,
            s > 0,
    ;
    lemma_mod_multiples_basic(q, s);
    assert((s * q) % s == 0);
}

/// Parses CIDR notation; `Some` exactly when the whole string matches the
/// grammar, and the result is a well-formed subnet.
pub fn parse_cidr(s: &str) -> (r: Option<Subnet>)
    ensures
        r == parse_cidr_s(s.spec_bytes()),
        r matches Some(sub) ==> sub.wf(),
{
    let b = s.as_bytes();
    match parse_ipv4_from(b, 0) {
        None => None,
        Some((v, i)) => {
            if i < b.len() && b[i] == 47 {
                match parse_prefix(b, i + 1) {
                    None => None,
                    Some((p, j)) => {
                        if j == b.len() {
                            let e: u64 = (32 - p) as u64;
                            proof {
                                lemma2_to64();
                                vstd::arithmetic::power2::lemma_pow2_strictly_increases(
                                    e as nat,
                                    33,
                                );
                                lemma_u64_shl_is_mul(1u64, e);
                                lemma_aligned_end(v as int, p as nat);
                            }
                            let sz: u64 = 1u64 << e;
                            let rem: u64 = (v as u64) % sz;
                            let base: u32 = (v as u64 - rem) as u32;
                            let sub = Subnet { base, prefix: p };
                            assert(sub.wf());
                            assert(sub == mask_base_spec_helper(v, p));
                            Some(sub)
                        } else {
                            None
                        }
                    },
                }
            } else {
                None
            }
        },
    }
}

/// The subnet that `parse_cidr_s` builds from an address and prefix.
pub open spec fn mask_base_spec_helper(v: u32, p: u8) -> Subnet {
    Subnet { base: mask_base_s(v, p), prefix: p }
}

/// Deterministic address selection: the first address after `cur` (itself
/// included) that lies strictly inside the host range of `sub` — network
/// base and broadcast excluded — and is neither the gateway nor already
/// in use.
pub open spec fn pick_addr_s(sub: Subnet, gw: u32, used: Seq<u32>, cur: int) -> Option<u32>
    decreases sub.base as int + sub.size() - cur,
{
    if cur < sub.base as int + 1 || cur >= sub.base as int + sub.size() - 1 {
        None
    } else if cur != gw && !used.contains(cur as u32) {
        Some(cur as u32)
    } else {
        pick_addr_s(sub, gw, used, cur + 1)
    }
}

/// Law: a selected address lies in the subnet, is not the network base,
/// not the broadcast address, not the gateway, and not already in use.
pub proof fn lemma_pick_addr_free(sub: Subnet, gw: u32, used: Seq<u32>, cur: int, a: u32)
    requires
        sub.wf(),
        pick_addr_s(sub, gw, used, cur) == Some(a),
    ensures
        sub.contains_s(a),
        a != gw,
        !used.contains(a),
        a != sub.base,
        a as int != sub.base as int + sub.size() - 1,
    decreases sub.base as int + sub.size() - cur,
{
    if cur < sub.base as int + 1 || cur >= sub.base as int + sub.size() - 1 {
        // contradicts the requires: the spec yields None here
    } else if cur != gw && !used.contains(cur as u32) {
    } else {
        lemma_pick_addr_free(sub, gw, used, cur + 1, a);
    }
}

/// Membership test in a vector of addresses.
pub fn contains_u32(v: &Vec<u32>, x: u32) -> (r: bool)
    ensures
        r == v@.contains(x),
{
    let mut i: usize = 0;
    while i < v.len()
        invariant
            i <= v@.len(),
            forall|k: int| 0 <= k < i ==> v@[k] != x,
        decreases v@.len() - i,
    {
        if v[i] == x {
            return true;
        }
        i = i + 1;
    }
    false
}

/// Selects the first free host address of `sub`, skipping the gateway and
/// every address in `used`; `None` when the range is exhausted.
pub fn pick_addr(sub: &Subnet, gw: u32, used: &Vec<u32>) -> (r: Option<u32>)
    requires
        sub.wf(),
    ensures
        r == pick_addr_s(*sub, gw, used@, sub.base as int + 1),
{
    let sz = sub.size_u64();
    if sz < 3 {
        return None;
    }
    let mut cur: u64 = sub.base as u64 + 1;
    let last: u64 = sub.base as u64 + (sz - 1);
    while cur < last
        invariant
            sub.wf(),
            sub.base as int + 1 <= cur as int <= last as int,
            last as int == sub.base as int + sub.size() - 1,
            pick_addr_s(*sub, gw, used@, sub.base as int + 1) == pick_addr_s(
                *sub,
                gw,
                used@,
                cur as int,
            ),
        decreases last - cur,
    {
        let a: u32 = cur as u32;
        if a != gw && !contains_u32(used, a) {
            return Some(a);
        }
        cur = cur + 1;
    }
    None
}

/// Validity of a static address request: every address lies in the
/// subnet, is not the gateway, and is not already in use.
pub open spec fn ips_ok_s(addrs: Seq<u32>, sub: Subnet, gw: u32, used: Seq<u32>) -> bool {
    forall|i: int|
        0 <= i < addrs.len() ==> sub.contains_s(#[trigger] addrs[i]) && addrs[i] != gw
            && !used.contains(addrs[i])
}

/// Checks a static address request against the subnet, the gateway and
/// the addresses already in use.
pub fn check_ips(addrs: &Vec<u32>, sub: &Subnet, gw: u32, used: &Vec<u32>) -> (r: bool)
    requires
        sub.wf(),
    ensures
        r == ips_ok_s(addrs@, *sub, gw, used@),
{
    let n = addrs.len();
    let mut i: usize = 0;
    while i < n
        invariant
            i <= n == addrs@.len(),
            sub.wf(),
            forall|k: int|
                0 <= k < i ==> sub.contains_s(#[trigger] addrs@[k]) && addrs@[k] != gw
                    && !used@.contains(addrs@[k]),
        decreases n - i,
    {
        let a = addrs[i];
        if !sub.contains(a) || a == gw || contains_u32(used, a) {
            assert(!ips_ok_s(addrs@, *sub, gw, used@));
            return false;
        }
        i = i + 1;
    }
    true
}

/// Decimal rendering of a value up to 255: one to three digits, no
/// leading zero.
pub open spec fn dec_s(n: int) -> Seq<char> {
    if n < 10 {
        seq![hex_char_s(n)]
    } else if n < 100 {
        seq![hex_char_s(n / 10), hex_char_s(n % 10)]
    } else {
        seq![hex_char_s(n / 100), hex_char_s((n / 10) % 10), hex_char_s(n % 10)]
    }
}

/// Appends the decimal rendering of `n` to `out`.
pub fn push_dec(out: &mut String, n: u8)
    ensures
        final(out)@ == old(out)@ + dec_s(n as int),
{
    if n < 10 {
        out.append(nibble_str(n));
    } else if n < 100 {
        out.append(nibble_str(n / 10));
        out.append(nibble_str(n % 10));
    } else {
        out.append(nibble_str(n / 100));
        out.append(nibble_str((n / 10) % 10));
        out.append(nibble_str(n % 10));
    }
    assert(final(out)@ =~= old(out)@ + dec_s(n as int));
}

/// The four bytes of an address, most significant first.
pub open spec fn addr_bytes_s(a: u32) -> Seq<u8> {
    seq![
        (a as int / 16777216) as u8,
        ((a as int / 65536) % 256) as u8,
        ((a as int / 256) % 256) as u8,
        (a as int % 256) as u8,
    ]
}

/// The four bytes of `a`, most significant first.
pub fn addr_bytes(a: u32) -> (r: Vec<u8>)
    ensures
        r@ == addr_bytes_s(a),
        r@.len() == 4,
{
    let mut r: Vec<u8> = Vec::new();
    r.push((a / 16777216) as u8);
    r.push(((a / 65536) % 256) as u8);
    r.push(((a / 256) % 256) as u8);
    r.push((a % 256) as u8);
    assert(r@ =~= addr_bytes_s(a));
    r
}

/// Dotted-quad rendering of an address.
pub open spec fn fmt_ipv4_s(a: u32) -> Seq<char> {
    dec_s(addr_bytes_s(a)[0] as int) + seq!['.'] + dec_s(addr_bytes_s(a)[1] as int) + seq!['.']
        + dec_s(addr_bytes_s(a)[2] as int) + seq!['.'] + dec_s(addr_bytes_s(a)[3] as int)
}

/// Renders an address as a dotted quad.
pub fn fmt_ipv4(a: u32) -> (r: String)
    ensures
        r@ == fmt_ipv4_s(a),
{
    proof {
        reveal_strlit(".");
    }
    let b = addr_bytes(a);
    let mut out = String::new();
    push_dec(&mut out, b[0]);
    out.append(".");
    push_dec(&mut out, b[1]);
    out.append(".");
    push_dec(&mut out, b[2]);
    out.append(".");
    push_dec(&mut out, b[3]);
    assert(out@ =~= fmt_ipv4_s(a));
    out
}

/// CIDR rendering of an address and prefix.
pub open spec fn fmt_cidr_s(a: u32, p: u8) -> Seq<char> {
    fmt_ipv4_s(a) + seq!['/'] + dec_s(p as int)
}

/// Renders an address and prefix in CIDR notation.
pub fn fmt_cidr(a: u32, p: u8) -> (r: String)
    ensures
        r@ == fmt_cidr_s(a, p),
{
    proof {
        reveal_strlit("/");
    }
    let mut out = fmt_ipv4(a);
    out.append("/");
    push_dec(&mut out, p);
    assert(out@ =~= fmt_cidr_s(a, p));
    out
}

} // verus!
