use sha2::Digest;
use vstd::prelude::*;

verus! {

/// The SHA-256 digest of a byte sequence.
pub uninterp spec fn sha256_digest(data: Seq<u8>) -> Seq<u8>;

/// Calls `sha2::Sha256::digest`.  Trusted: the result is the SHA-256 digest
/// of `data` (named, not written out) and, as the crate documents for its
/// 256-bit output, it is 32 bytes long.
#[verifier::external_body]
fn sha256(data: &[u8]) -> (r: Vec<u8>)
    ensures
        r@ == sha256_digest(data@),
        r@.len() == 32,
{
    sha2::Sha256::digest(data).to_vec()
}

/// Lower-case hexadecimal digit for a value below sixteen.
pub open spec fn hex_digit(n: nat) -> char {
    if n < 10 {
        crate::text::digit_char(n)
    } else if n == 10 { 'a' }
    else if n == 11 { 'b' }
    else if n == 12 { 'c' }
    else if n == 13 { 'd' }
    else if n == 14 { 'e' }
    else { 'f' }
}

/// Lower-case hexadecimal encoding: two digits per byte, high nibble first.
pub open spec fn hex_lower(bs: Seq<u8>) -> Seq<char>
    decreases bs.len(),
{
    if bs.len() == 0 {
        Seq::empty()
    } else {
        seq![hex_digit((bs[0] / 16) as nat), hex_digit((bs[0] % 16) as nat)]
            + hex_lower(bs.drop_first())
    }
}

/// The hash text that the coherence engine stores for a value: the
/// lower-case hex encoding of the SHA-256 digest of its UTF-8 bytes.
pub open spec fn content_hash(value: Seq<char>) -> Seq<char> {
    hex_lower(sha256_digest(vstd::utf8::encode_utf8(value)))
}

fn hex_char(n: u8) -> (c: char)
    requires
        n < 16,
    ensures
        c == hex_digit(n as nat),
{
    if n < 10 {
        crate::text::digit(n as u64)
    } else if n == 10 { 'a' }
    else if n == 11 { 'b' }
    else if n == 12 { 'c' }
    else if n == 13 { 'd' }
    else if n == 14 { 'e' }
    else { 'f' }
}

proof fn lemma_hex_lower_split(bs: Seq<u8>, i: int)
    requires
        0 <= i < bs.len(),
    ensures
        hex_lower(bs.subrange(0, i + 1)) == hex_lower(bs.subrange(0, i))
            + seq![hex_digit((bs[i] / 16) as nat), hex_digit((bs[i] % 16) as nat)],
    decreases i,
{
    let a = bs.subrange(0, i + 1);
    if i == 0 {
        assert(a.drop_first() =~= Seq::<u8>::empty());
        assert(hex_lower(a.drop_first()) =~= Seq::<char>::empty());
        assert(bs.subrange(0, 0) =~= Seq::<u8>::empty());
        assert(hex_lower(a) =~= hex_lower(bs.subrange(0, 0))
            + seq![hex_digit((bs[i] / 16) as nat), hex_digit((bs[i] % 16) as nat)]);
    } else {
        let t = bs.drop_first();
        lemma_hex_lower_split(t, i - 1);
        assert(a.drop_first() =~= t.subrange(0, i));
        assert(bs.subrange(0, i).drop_first() =~= t.subrange(0, i - 1));
        assert(t[i - 1] == bs[i]);
        assert(hex_lower(a) =~= hex_lower(bs.subrange(0, i))
            + seq![hex_digit((bs[i] / 16) as nat), hex_digit((bs[i] % 16) as nat)]);
    }
}

/// Lower-case hexadecimal encoding of a byte sequence.
pub fn hex_encode(bs: &[u8]) -> (r: String)
    ensures
        r@ == hex_lower(bs@),
{
    let mut r = String::new();
    let mut i: usize = 0;
    while i < bs.len()
        invariant
            i <= bs@.len(),
            r@ == hex_lower(bs@.subrange(0, i as int)),
        decreases bs@.len() - i,
    {
        let b = bs[i];
        r.push(hex_char(b / 16));
        r.push(hex_char(b % 16));
        proof {
            lemma_hex_lower_split(bs@, i as int);
        }
        i = i + 1;
        assert(r@ =~= hex_lower(bs@.subrange(0, i as int)));
    }
    assert(bs@.subrange(0, bs@.len() as int) =~= bs@);
    r
}

/// SHA-256 digest of the UTF-8 bytes of `value`, as lower-case hex.
pub fn compute_hash(value: &str) -> (r: String)
    ensures
        r@ == content_hash(value@),
        r@.len() == 64,
{
    let digest = sha256(value.as_bytes());
    let r = hex_encode(digest.as_slice());
    proof {
        lemma_hex_lower_len(digest@);
    }
    r
}

pub proof fn lemma_hex_lower_len(bs: Seq<u8>)
    ensures
        hex_lower(bs).len() == 2 * bs.len(),
    decreases bs.len(),
{
    if bs.len() > 0 {
        lemma_hex_lower_len(bs.drop_first());
    }
}

} // verus!
