//! SHA-256 digests, and the lowercase hex they are written in.

use sha2::Digest;
use vstd::prelude::*;

verus! {

/// The SHA-256 digest of some bytes.
pub uninterp spec fn sha256(data: Seq<u8>) -> Seq<u8>;

/// `sha2::Sha256::digest`. Trusted to give back `sha256` of the bytes it is
/// handed, and 32 bytes of it, which is the output size `sha2` declares for
/// SHA-256. What the digest is, beyond that, is left to `sha2`.
#[verifier::external_body]
fn sha256_of(data: &[u8]) -> (r: Vec<u8>)
    ensures
        r@ == sha256(data@),
        r@.len() == 32,
{
    sha2::Sha256::digest(data).to_vec()
}

/// The character for a value below sixteen, in lowercase hex.
pub open spec fn hex_digit(n: u8) -> char {
    if n < 10 {
        (n + 48) as char
    } else {
        (n + 87) as char
    }
}

/// Bytes written as `{:02x}` writes each of them, one after another.
pub open spec fn hex(bytes: Seq<u8>) -> Seq<char>
    decreases bytes.len(),
{
    if bytes.len() == 0 {
        seq![]
    } else {
        seq![hex_digit(bytes[0] / 16), hex_digit(bytes[0] % 16)] + hex(bytes.drop_first())
    }
}

/// Whether a character is one a lowercase hex encoding writes.
pub open spec fn is_hex_char(c: char) -> bool {
    ('0' <= c <= '9') || ('a' <= c <= 'f')
}

fn digit(n: u8) -> (c: char)
    requires
        n < 16,
    ensures
        c == hex_digit(n),
        is_hex_char(c),
{
    if n < 10 {
        (n + 48) as char
    } else {
        (n + 87) as char
    }
}

pub proof fn lemma_hex_len_of(bytes: Seq<u8>)
    ensures
        hex(bytes).len() == 2 * bytes.len(),
        forall|i: int| 0 <= i < hex(bytes).len() ==> is_hex_char(#[trigger] hex(bytes)[i]),
    decreases bytes.len(),
{
    if bytes.len() > 0 {
        lemma_hex_len_of(bytes.drop_first());
        let b = bytes[0];
        assert(b / 16 < 16 && b % 16 < 16);
        assert(is_hex_char(hex_digit(b / 16)) && is_hex_char(hex_digit(b % 16))) by {
            assert(b / 16 < 10 ==> '0' <= ((b / 16) + 48) as char <= '9');
        }
        let tail = hex(bytes.drop_first());
        assert forall|i: int| 0 <= i < hex(bytes).len() implies is_hex_char(#[trigger] hex(bytes)[i]) by {
            if i >= 2 {
                assert(hex(bytes)[i] == tail[i - 2]);
            }
        }
    }
}

/// The first `n` bytes, in lowercase hex.
pub fn hex_of(bytes: &[u8], n: usize) -> (r: Vec<char>)
    requires
        n <= bytes@.len(),
    ensures
        r@ == hex(bytes@.take(n as int)),
        r@.len() == 2 * n,
        forall|i: int| 0 <= i < r@.len() ==> is_hex_char(#[trigger] r@[i]),
{
    let mut out: Vec<char> = Vec::new();
    let mut i: usize = 0;
    assert(bytes@.take(n as int).skip(0) =~= bytes@.take(n as int));
    while i < n
        invariant
            i <= n <= bytes@.len(),
            hex(bytes@.take(n as int)) == out@ + hex(bytes@.take(n as int).skip(i as int)),
        decreases n - i,
    {
        let b = bytes[i];
        let ghost rest = bytes@.take(n as int).skip(i as int);
        assert(rest[0] == b);
        assert(rest.drop_first() =~= bytes@.take(n as int).skip(i + 1));
        out.push(digit(b / 16));
        out.push(digit(b % 16));
        i = i + 1;
    }
    assert(bytes@.take(n as int).skip(n as int).len() == 0);
    assert(out@ =~= hex(bytes@.take(n as int)));
    proof {
        lemma_hex_len_of(bytes@.take(n as int));
    }
    out
}

/// The first `n` bytes of the SHA-256 digest of `data`, in lowercase hex.
pub fn digest_hex(data: &[u8], n: usize) -> (r: Vec<char>)
    requires
        n <= 32,
    ensures
        r@ == hex(sha256(data@).take(n as int)),
        sha256(data@).len() == 32,
        r@.len() == 2 * n,
        forall|i: int| 0 <= i < r@.len() ==> is_hex_char(#[trigger] r@[i]),
{
    let d = sha256_of(data);
    hex_of(&d, n)
}

} // verus!
