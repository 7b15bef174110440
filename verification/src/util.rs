//! The fingerprint of a text.

use std::collections::hash_map::DefaultHasher;
use std::hash::{Hash, Hasher};
use vstd::prelude::*;
use vstd::std_specs::hash::DefaultHasherAdditionalSpecFns;

verus! {

/// What hashing a string feeds to a hasher: the byte runs that `Hash::hash`
/// writes for a `str` with these characters.
pub uninterp spec fn hashed(s: Seq<char>) -> Seq<Seq<u8>>;

/// The fingerprint of a text: what the standard library's default hasher,
/// freshly made, gives after the text was hashed into it.
pub open spec fn fingerprint(s: Seq<char>) -> u64 {
    DefaultHasher::spec_finish(hashed(s))
}

/// `Hash::hash` of a `str`: the hasher takes in what hashing this string
/// writes, after what it had taken in before. What is written depends on the
/// characters of the string alone.
#[verifier::external_body]
fn hash_into(s: &str, hasher: &mut DefaultHasher)
    ensures
        final(hasher)@ == old(hasher)@ + hashed(s@),
{
    s.hash(hasher);
}

/// The fingerprint of `s`: a 64-bit hash that is the same for the same text in
/// every call and every process. It is no cryptographic hash: two texts may
/// share a fingerprint.
pub fn hash_string(s: &str) -> (h: u64)
    ensures
        h == fingerprint(s@),
{
    let mut hasher = DefaultHasher::new();
    hash_into(s, &mut hasher);
    assert(hasher@ =~= hashed(s@));
    hasher.finish()
}

/// Equal texts have equal fingerprints, whoever computes them and when.
pub proof fn lemma_fingerprint_is_stable(a: &str, b: &str)
    requires
        a@ == b@,
    ensures
        fingerprint(a@) == fingerprint(b@),
{
}

} // verus!
