//! Identity hashing: every kernel device and firewall rule a logical
//! network owns is named after a short token derived deterministically
//! from the network's name, so that a later teardown can locate the same
//! objects from the name alone, without a side database.

use sha2::Digest;
use vstd::prelude::*;
use vstd::string::*;

verus! {

/// Number of digest bytes whose hex expansion forms a token.
pub const TOKEN_BYTES: usize = 6;

/// Maximum length, in characters, of an identity token. Kernel interface
/// names are limited to 15 bytes, so a 12-character token leaves room for
/// a 3-character device-name prefix.
pub const MAX_TOKEN_LEN: usize = 12;

/// The SHA-512 digest of a byte sequence, named but not written out;
/// the trusted wrapper `sha512_bytes` states that it returns it.
pub uninterp spec fn digest_of(b: Seq<u8>) -> Seq<u8>;

/// Relies on sha2's `Sha512::digest`: a pure function of the input bytes
/// alone, producing a 64-byte digest.
#[verifier::external_body]
fn sha512_bytes(b: &[u8]) -> (r: Vec<u8>)
    ensures
        r@ == digest_of(b@),
        r@.len() == 64,
{
    sha2::Sha512::digest(b).to_vec()
}

/// The sixteen lower-case hex digits; out-of-range nibbles map to '0'.
pub open spec fn hex_char_s(n: int) -> char {
    if n == 0 {
        '0'
    } else if n == 1 {
        '1'
    } else if n == 2 {
        '2'
    } else if n == 3 {
        '3'
    } else if n == 4 {
        '4'
    } else if n == 5 {
        '5'
    } else if n == 6 {
        '6'
    } else if n == 7 {
        '7'
    } else if n == 8 {
        '8'
    } else if n == 9 {
        '9'
    } else if n == 10 {
        'a'
    } else if n == 11 {
        'b'
    } else if n == 12 {
        'c'
    } else if n == 13 {
        'd'
    } else if n == 14 {
        'e'
    } else if n == 15 {
        'f'
    } else {
        '0'
    }
}

/// The two hex digits of one byte.
pub open spec fn hex_pair_s(x: u8) -> Seq<char> {
    seq![hex_char_s(x as int / 16), hex_char_s(x as int % 16)]
}

/// Lower-case hex expansion of a byte sequence, two digits per byte.
pub open spec fn hex_of(b: Seq<u8>) -> Seq<char>
    decreases b.len(),
{
    if b.len() == 0 {
        Seq::empty()
    } else {
        hex_pair_s(b[0]) + hex_of(b.drop_first())
    }
}

pub proof fn lemma_hex_of_len(b: Seq<u8>)
    ensures
        hex_of(b).len() == 2 * b.len(),
    decreases b.len(),
{
    if b.len() > 0 {
        lemma_hex_of_len(b.drop_first());
    }
}

pub proof fn lemma_hex_of_push(b: Seq<u8>, x: u8)
    ensures
        hex_of(b.push(x)) == hex_of(b) + hex_pair_s(x),
    decreases b.len(),
{
    reveal_with_fuel(hex_of, 3);
    if b.len() == 0 {
        assert(b.push(x).drop_first() =~= Seq::<u8>::empty());
        assert(b.push(x)[0] == x);
        assert(hex_of(b.push(x)) == hex_pair_s(x) + hex_of(Seq::<u8>::empty()));
        assert(hex_of(b.push(x)) =~= hex_of(b) + hex_pair_s(x));
    } else {
        lemma_hex_of_push(b.drop_first(), x);
        assert(b.push(x).drop_first() =~= b.drop_first().push(x));
        assert(b.push(x)[0] == b[0]);
        assert(hex_of(b.push(x)) == hex_pair_s(b[0]) + hex_of(b.drop_first().push(x)));
        assert(hex_of(b.push(x)) =~= hex_of(b) + hex_pair_s(x));
    }
}

/// One hex digit as a string slice.
pub(crate) fn nibble_str(n: u8) -> (r: &'static str)
    requires
        n < 16,
    ensures
        r@ =~= seq![hex_char_s(n as int)],
{
    proof {
        reveal_strlit("0");
        reveal_strlit("1");
        reveal_strlit("2");
        reveal_strlit("3");
        reveal_strlit("4");
        reveal_strlit("5");
        reveal_strlit("6");
        reveal_strlit("7");
        reveal_strlit("8");
        reveal_strlit("9");
        reveal_strlit("a");
        reveal_strlit("b");
        reveal_strlit("c");
        reveal_strlit("d");
        reveal_strlit("e");
        reveal_strlit("f");
    }
    if n == 0 {
        "0"
    } else if n == 1 {
        "1"
    } else if n == 2 {
        "2"
    } else if n == 3 {
        "3"
    } else if n == 4 {
        "4"
    } else if n == 5 {
        "5"
    } else if n == 6 {
        "6"
    } else if n == 7 {
        "7"
    } else if n == 8 {
        "8"
    } else if n == 9 {
        "9"
    } else if n == 10 {
        "a"
    } else if n == 11 {
        "b"
    } else if n == 12 {
        "c"
    } else if n == 13 {
        "d"
    } else if n == 14 {
        "e"
    } else {
        "f"
    }
}

/// Appends the two hex digits of `x` to `out`.
pub fn push_hex_pair(out: &mut String, x: u8)
    ensures
        final(out)@ == old(out)@ + hex_pair_s(x),
{
    let hi: u8 = x / 16;
    let lo: u8 = x % 16;
    out.append(nibble_str(hi));
    out.append(nibble_str(lo));
    assert(final(out)@ =~= old(out)@ + hex_pair_s(x));
}

/// Hex-encodes the first `k` bytes of `b`.
pub fn hex_prefix(b: &Vec<u8>, k: usize) -> (r: String)
    requires
        k <= b@.len(),
    ensures
        r@ == hex_of(b@.take(k as int)),
        r@.len() == 2 * k,
{
    let mut out = String::new();
    let mut i: usize = 0;
    while i < k
        invariant
            i <= k <= b@.len(),
            out@ == hex_of(b@.take(i as int)),
            out@.len() == 2 * i,
        decreases k - i,
    {
        push_hex_pair(&mut out, b[i]);
        proof {
            assert(b@.take(i + 1) =~= b@.take(i as int).push(b@[i as int]));
            lemma_hex_of_push(b@.take(i as int), b@[i as int]);
            lemma_hex_of_len(b@.take(i + 1));
        }
        i = i + 1;
    }
    out
}

/// The identity token of a network name: the hex expansion of the first
/// `TOKEN_BYTES` bytes of the name's SHA-512 digest.
pub open spec fn token_of(name: Seq<u8>) -> Seq<char> {
    hex_of(digest_of(name).take(TOKEN_BYTES as int))
}

/// Derives the identity token embedded in every device name and firewall
/// rule owned by the logical network called `name`.
pub fn token(name: &str) -> (r: String)
    ensures
        r@ == token_of(name.spec_bytes()),
        r@.len() <= MAX_TOKEN_LEN,
{
    let d = sha512_bytes(name.as_bytes());
    hex_prefix(&d, TOKEN_BYTES)
}

/// Law: the token is a pure function of the network name — any two
/// results derived from the same name are identical, across independent
/// invocations.
pub proof fn lemma_token_deterministic(name: Seq<u8>, r1: Seq<char>, r2: Seq<char>)
    requires
        r1 == token_of(name),
        r2 == token_of(name),
    ensures
        r1 == r2,
{
}

/// The bytes hashed to name a container's host-side veth end: container
/// id and network name, joined by a slash (byte 47).
pub open spec fn pair_bytes_of(cid: Seq<u8>, name: Seq<u8>) -> Seq<u8> {
    cid + seq![47u8] + name
}

/// SHA-512 digest of the (container id, network name) pair.
pub fn pair_digest(cid: &str, name: &str) -> (r: Vec<u8>)
    ensures
        r@ == digest_of(pair_bytes_of(cid.spec_bytes(), name.spec_bytes())),
        r@.len() == 64,
{
    let cb = cid.as_bytes();
    let nb = name.as_bytes();
    let mut buf: Vec<u8> = Vec::new();
    let mut i: usize = 0;
    while i < cb.len()
        invariant
            i <= cb@.len(),
            buf@ == cb@.take(i as int),
        decreases cb@.len() - i,
    {
        buf.push(cb[i]);
        assert(buf@ =~= cb@.take(i + 1));
        i = i + 1;
    }
    buf.push(47);
    let mut j: usize = 0;
    while j < nb.len()
        invariant
            j <= nb@.len(),
            buf@ == cb@ + seq![47u8] + nb@.take(j as int),
        decreases nb@.len() - j,
    {
        buf.push(nb[j]);
        assert(buf@ =~= cb@ + seq![47u8] + nb@.take(j + 1));
        j = j + 1;
    }
    assert(cb@.take(cb@.len() as int) =~= cb@);
    assert(nb@.take(nb@.len() as int) =~= nb@);
    assert(buf@ =~= pair_bytes_of(cid.spec_bytes(), name.spec_bytes()));
    sha512_bytes(buf.as_slice())
}

/// The token that names a container's host-side veth end.
pub open spec fn pair_token_of(cid: Seq<u8>, name: Seq<u8>) -> Seq<char> {
    hex_of(digest_of(pair_bytes_of(cid, name)).take(TOKEN_BYTES as int))
}

/// Derives the per-(container, network) token used for the host-side
/// veth device name.
pub fn pair_token(cid: &str, name: &str) -> (r: String)
    ensures
        r@ == pair_token_of(cid.spec_bytes(), name.spec_bytes()),
        r@.len() <= MAX_TOKEN_LEN,
{
    let d = pair_digest(cid, name);
    hex_prefix(&d, TOKEN_BYTES)
}

/// A MAC address rendered from the first six bytes of `b`.
pub open spec fn mac_of(b: Seq<u8>) -> Seq<char> {
    hex_pair_s(b[0]) + seq![':'] + hex_pair_s(b[1]) + seq![':'] + hex_pair_s(b[2]) + seq![':']
        + hex_pair_s(b[3]) + seq![':'] + hex_pair_s(b[4]) + seq![':'] + hex_pair_s(b[5])
}

/// Formats the first six bytes of `b` as a colon-separated MAC address.
pub fn format_mac(b: &Vec<u8>) -> (r: String)
    requires
        b@.len() >= 6,
    ensures
        r@ == mac_of(b@),
{
    proof {
        reveal_strlit(":");
    }
    let mut out = String::new();
    push_hex_pair(&mut out, b[0]);
    out.append(":");
    push_hex_pair(&mut out, b[1]);
    out.append(":");
    push_hex_pair(&mut out, b[2]);
    out.append(":");
    push_hex_pair(&mut out, b[3]);
    out.append(":");
    push_hex_pair(&mut out, b[4]);
    out.append(":");
    push_hex_pair(&mut out, b[5]);
    assert(out@ =~= mac_of(b@));
    out
}

} // verus!
