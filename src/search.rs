use vstd::prelude::*;

use rayon::iter::{IntoParallelIterator, ParallelIterator};
use sha2::Digest;

use crate::text::{decimal, is_space, no_space, push_decimal};

verus! {

/// The SHA-256 digest of `data`.
pub uninterp spec fn sha256_of(data: Seq<u8>) -> Seq<u8>;

/// Relies on `sha2::Sha256::digest` (the `digest::Digest` trait): the
/// 32-byte SHA-256 digest of `data`, which depends on `data` alone.
#[verifier::external_body]
fn sha256(data: &[u8]) -> (r: Vec<u8>)
    ensures
        r@ == sha256_of(data@),
        r@.len() == 32,
{
    sha2::Sha256::digest(data).to_vec()
}

/// The lower-case hex digit of `v < 16`.
pub open spec fn hex_digit(v: nat) -> u8 {
    if v < 10 {
        (48 + v) as u8
    } else {
        (87 + v) as u8
    }
}

/// Two lower-case hex digits per byte, high nibble first.
pub open spec fn hex_of(b: Seq<u8>) -> Seq<u8>
    decreases b.len(),
{
    if b.len() == 0 {
        seq![]
    } else {
        hex_of(b.drop_last()) + seq![hex_digit(b.last() as nat / 16), hex_digit(b.last() as nat % 16)]
    }
}

/// `h` starts with `k` zero digits.
pub open spec fn has_zero_prefix(h: Seq<u8>, k: nat) -> bool {
    k <= h.len() && forall|i: int| 0 <= i < k ==> h[i] == 48
}

/// What a worker hashes for candidate `n`: the seed followed by the digits
/// of `n`.
pub open spec fn combined(seed: Seq<u8>, n: u128) -> Seq<u8> {
    seed + decimal(n as nat)
}

/// The hex digest of `n`'s combined text starts with `zeros` zero digits.
pub open spec fn is_solution(seed: Seq<u8>, n: u128, zeros: nat) -> bool {
    has_zero_prefix(hex_of(sha256_of(combined(seed, n))), zeros)
}

/// Hex text is two digits per byte, none of them whitespace.
pub proof fn lemma_hex_shape(b: Seq<u8>)
    ensures
        hex_of(b).len() == 2 * b.len(),
        no_space(hex_of(b)),
    decreases b.len(),
{
    if b.len() > 0 {
        lemma_hex_shape(b.drop_last());
        let h = hex_of(b);
        let h0 = hex_of(b.drop_last());
        assert forall|i: int| 0 <= i < h.len() implies !is_space(#[trigger] h[i]) by {
            if i < h0.len() {
                assert(h[i] == h0[i]);
            }
        }
    }
}

fn hex_char(v: u8) -> (r: u8)
    requires
        v < 16,
    ensures
        r == hex_digit(v as nat),
{
    if v < 10 {
        48 + v
    } else {
        87 + v
    }
}

/// Lower-case hex text of `b`.
pub fn hex_encode(b: &[u8]) -> (r: Vec<u8>)
    ensures
        r@ == hex_of(b@),
{
    let mut out: Vec<u8> = Vec::new();
    let mut i: usize = 0;
    while i < b.len()
        invariant
            i <= b@.len(),
            out@ == hex_of(b@.take(i as int)),
        decreases b@.len() - i,
    {
        assert(b@.take(i + 1).drop_last() =~= b@.take(i as int));
        let x = b[i];
        out.push(hex_char(x / 16));
        out.push(hex_char(x % 16));
        assert(out@ =~= hex_of(b@.take(i + 1)));
        i = i + 1;
    }
    assert(b@.take(b@.len() as int) =~= b@);
    out
}

/// Whether the hex text of `digest` starts with `zeros` zero digits.
pub fn digest_meets_target(digest: &[u8], zeros: usize) -> (r: bool)
    ensures
        r == has_zero_prefix(hex_of(digest@), zeros as nat),
{
    let h = hex_encode(digest);
    if zeros > h.len() {
        return false;
    }
    let mut i: usize = 0;
    while i < zeros
        invariant
            h@ == hex_of(digest@),
            zeros <= h@.len(),
            i <= zeros,
            forall|k: int| 0 <= k < i ==> h@[k] == 48,
        decreases zeros - i,
    {
        if h[i] != 48 {
            assert(h@[i as int] != 48);
            return false;
        }
        i = i + 1;
    }
    true
}

/// The text hashed for candidate `n`.
pub fn combined_text(seed: &[u8], n: u128) -> (r: Vec<u8>)
    ensures
        r@ == combined(seed@, n),
{
    let mut out: Vec<u8> = Vec::new();
    let mut i: usize = 0;
    while i < seed.len()
        invariant
            i <= seed@.len(),
            out@ == seed@.take(i as int),
        decreases seed@.len() - i,
    {
        out.push(seed[i]);
        assert(out@ =~= seed@.take(i + 1));
        i = i + 1;
    }
    assert(seed@.take(seed@.len() as int) =~= seed@);
    push_decimal(n, &mut out);
    out
}

/// The hex digest of candidate `n`'s combined text.
pub fn candidate_hash(seed: &[u8], n: u128) -> (r: Vec<u8>)
    ensures
        r@ == hex_of(sha256_of(combined(seed@, n))),
{
    let text = combined_text(seed, n);
    let digest = sha256(text.as_slice());
    hex_encode(digest.as_slice())
}

/// Whether candidate `n` solves the search for `seed` and `zeros`.
pub fn check_candidate(seed: &[u8], n: u128, zeros: usize) -> (r: bool)
    ensures
        r == is_solution(seed@, n, zeros as nat),
{
    let text = combined_text(seed, n);
    let digest = sha256(text.as_slice());
    digest_meets_target(digest.as_slice(), zeros)
}

/// Relies on rayon's `ParallelIterator::find_any` over a `u128` range: it
/// returns some item of the range for which the predicate holds, or `None`
/// when the predicate holds for none of them.
#[verifier::external_body]
fn par_find_any(range_start: u128, range_end: u128, seed: &[u8], zeros: usize) -> (r: Option<u128>)
    ensures
        r matches Some(c) ==> range_start <= c < range_end && is_solution(seed@, c, zeros as nat),
        r is None ==> forall|c: u128|
            range_start <= c < range_end ==> !is_solution(seed@, c, zeros as nat),
{
    (range_start..range_end).into_par_iter().find_any(|c| check_candidate(seed, *c, zeros))
}

/// Scans `[range_start, range_end)` in parallel for a solution. Any one of
/// several solutions may come back; `None` means no value of the range is
/// one.
pub fn search(range_start: u128, range_end: u128, seed: &[u8], zeros: usize) -> (r: Option<u128>)
    ensures
        r matches Some(c) ==> range_start <= c < range_end && is_solution(seed@, c, zeros as nat),
        r is None ==> forall|c: u128|
            range_start <= c < range_end ==> !is_solution(seed@, c, zeros as nat),
{
    if range_start >= range_end {
        return None;
    }
    par_find_any(range_start, range_end, seed, zeros)
}

} // verus!
