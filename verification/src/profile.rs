//! What the videos of a run depend on besides their sources, and the identifier
//! by which that is compared.
use vstd::arithmetic::div_mod;
use vstd::arithmetic::mul;
use vstd::prelude::*;

use crate::cli::Seconds;
use crate::config::RenderConfig;
use crate::number;

verus! {

/// The revision of what frames look like.
pub const CURRENT_VISUAL_REVISION: u32 = 1;

/// What the videos of a run depend on besides their sources.
#[derive(Clone, Debug, PartialEq, Eq)]
pub struct RunProfile {
    pub visual_revision: u32,
    pub render: RenderConfig,
    pub max_duration_millis: Option<u64>,
}

/// The FNV-1a offset basis for 64 bits.
pub const HASH_BASIS: u64 = 0xcbf2_9ce4_8422_2325;

/// The FNV-1a prime for 64 bits.
pub const HASH_PRIME: u64 = 0x0000_0100_0000_01b3;

/// The 64-bit FNV-1a hash of bytes.
pub open spec fn fnv1a(bytes: Seq<u8>) -> u64
    decreases bytes.len(),
{
    if bytes.len() == 0 {
        HASH_BASIS
    } else {
        (fnv1a(bytes.drop_last()) ^ (bytes.last() as u64)).wrapping_mul(HASH_PRIME)
    }
}

/// The identifier of an encoded profile: its hash in hexadecimal.
pub open spec fn profile_id(encoded: Seq<u8>) -> Seq<char> {
    number::hex(fnv1a(encoded) as nat, 16)
}

impl RunProfile {
    /// The profile of a run with the given settings.
    pub fn new(render: RenderConfig, max_duration: Option<Seconds>) -> (r: RunProfile)
        ensures
            r.visual_revision == CURRENT_VISUAL_REVISION,
            r.render == render,
            r.max_duration_millis == (match max_duration {
                Some(seconds) => Some(seconds.millis),
                None => None,
            }),
    {
        RunProfile {
            visual_revision: CURRENT_VISUAL_REVISION,
            render,
            max_duration_millis: match max_duration {
                Some(seconds) => Some(seconds.millis),
                None => None,
            },
        }
    }

    /// The identifier of a profile, given the profile as compact JSON.
    pub fn id(encoded: &[u8]) -> (r: String)
        ensures
            r@ == profile_id(encoded@),
    {
        let mut hash: u64 = HASH_BASIS;
        for i in 0..encoded.len()
            invariant
                hash == fnv1a(encoded@.take(i as int)),
        {
            proof {
                assert(encoded@.take(i + 1).drop_last() =~= encoded@.take(i as int));
            }
            hash = (hash ^ (encoded[i] as u64)).wrapping_mul(HASH_PRIME);
        }
        proof {
            assert(encoded@.take(encoded@.len() as int) =~= encoded@);
        }
        number::hex_text(hash, 16)
    }
}

/// The visual revision of profiles that were stored without one.
pub fn current_visual_revision() -> (r: u32)
    ensures
        r == CURRENT_VISUAL_REVISION,
{
    CURRENT_VISUAL_REVISION
}

// ---------------------------------------------------------------------------
// Laws
// ---------------------------------------------------------------------------

/// The inverse of the FNV-1a prime modulo 2^64.
const PRIME_INVERSE: u64 = 0xce96_5057_aff6_957b;

/// Multiplying by the prime can be undone.
proof fn lemma_prime_undone(x: u64)
    ensures
        x.wrapping_mul(HASH_PRIME).wrapping_mul(PRIME_INVERSE) == x,
{
    let m: int = 0x1_0000_0000_0000_0000;
    let (p, q) = (HASH_PRIME as int, PRIME_INVERSE as int);
    assert(x.wrapping_mul(HASH_PRIME) == (x * p) % m);
    div_mod::lemma_mul_mod_noop_left(x * p, q, m);
    mul::lemma_mul_is_associative(x as int, p, q);
    assert(p * q == 887285111055 * m + 1);
    assert(x * (p * q) == m * (887285111055 * x) + x) by (nonlinear_arith)
        requires
            p * q == 887285111055 * m + 1,
    ;
    div_mod::lemma_mod_multiples_vanish(887285111055 * x as int, x as int, m);
}

/// A step of the hash loses nothing: different hashes, or different bytes, stay
/// different.
proof fn lemma_step_injective(a: u64, b: u64, x: u8, y: u8)
    ensures
        (a ^ (x as u64)).wrapping_mul(HASH_PRIME) == (b ^ (y as u64)).wrapping_mul(HASH_PRIME)
            ==> (a ^ (x as u64)) == (b ^ (y as u64)),
        x == y && a != b ==> (a ^ (x as u64)) != (b ^ (y as u64)),
        a == b && x != y ==> (a ^ (x as u64)) != (b ^ (y as u64)),
{
    lemma_prime_undone(a ^ (x as u64));
    lemma_prime_undone(b ^ (y as u64));
    let (u, v) = (x as u64, y as u64);
    assert(u == v && a != b ==> (a ^ u) != (b ^ v)) by (bit_vector);
    assert(a == b && u != v ==> (a ^ u) != (b ^ v)) by (bit_vector);
}

/// Different hashes stay different when the same bytes follow.
proof fn lemma_same_tail(a: Seq<u8>, b: Seq<u8>, count: int)
    requires
        a.len() == b.len(),
        0 <= count <= a.len(),
        fnv1a(a.take(count)) != fnv1a(b.take(count)),
        forall|i: int| count <= i < a.len() ==> a[i] == b[i],
    ensures
        fnv1a(a) != fnv1a(b),
    decreases a.len(),
{
    if count == a.len() {
        assert(a.take(count) =~= a);
        assert(b.take(count) =~= b);
    } else {
        assert(a.drop_last().take(count) =~= a.take(count));
        assert(b.drop_last().take(count) =~= b.take(count));
        lemma_same_tail(a.drop_last(), b.drop_last(), count);
        lemma_step_injective(
            fnv1a(a.drop_last()),
            fnv1a(b.drop_last()),
            a.last(),
            b.last(),
        );
    }
}

/// An identifier is 16 characters long.
pub proof fn law_id_length(encoded: Seq<u8>)
    ensures
        profile_id(encoded).len() == 16,
{
    number::lemma_hex_length(fnv1a(encoded) as nat, 16);
}

/// Two identifiers are equal only where the hashes are.
pub proof fn law_id_tells_hashes_apart(a: Seq<u8>, b: Seq<u8>)
    ensures
        profile_id(a) == profile_id(b) ==> fnv1a(a) == fnv1a(b),
{
    if profile_id(a) == profile_id(b) {
        reveal_with_fuel(number::hex_range, 17);
        assert(number::hex_range(16) == 0x1_0000_0000_0000_0000);
        number::lemma_hex_injective(fnv1a(a) as nat, fnv1a(b) as nat, 16);
    }
}

/// A profile whose encoding differs in a single byte has another identifier.
pub proof fn law_id_changes_with_one_byte(a: Seq<u8>, b: Seq<u8>, position: int)
    requires
        a.len() == b.len(),
        0 <= position < a.len(),
        a[position] != b[position],
        forall|i: int| 0 <= i < a.len() && i != position ==> a[i] == b[i],
    ensures
        profile_id(a) != profile_id(b),
{
    assert(a.take(position) =~= b.take(position));
    assert(a.take(position + 1).drop_last() =~= a.take(position));
    assert(b.take(position + 1).drop_last() =~= b.take(position));
    lemma_step_injective(
        fnv1a(a.take(position)),
        fnv1a(b.take(position)),
        a[position],
        b[position],
    );
    lemma_same_tail(a, b, position + 1);
    law_id_tells_hashes_apart(a, b);
}

/// A profile holds the settings of the run, its time limit and the first revision.
pub proof fn law_profile_holds_what_videos_depend_on(
    render: RenderConfig,
    max_duration: Option<Seconds>,
    r: RunProfile,
    revision: u32,
)
    requires
        call_ensures(RunProfile::new, (render, max_duration), r),
        call_ensures(current_visual_revision, (), revision),
    ensures
        r.render == render,
        max_duration is None ==> r.max_duration_millis is None,
        max_duration matches Some(limit) ==> r.max_duration_millis == Some(limit.millis),
        r.visual_revision == revision,
        revision == 1,
{
}

/// Runs whose limits differ have different profiles.
pub proof fn law_profiles_tell_limits_apart(
    a: RenderConfig,
    b: RenderConfig,
    limit: Option<Seconds>,
    other: Option<Seconds>,
    r: RunProfile,
    s: RunProfile,
)
    requires
        call_ensures(RunProfile::new, (a, limit), r),
        call_ensures(RunProfile::new, (b, other), s),
        r == s,
    ensures
        a == b,
        limit is Some <==> other is Some,
        limit is Some && other is Some ==> limit->0.millis == other->0.millis,
{
}

/// An identifier is written in sixteen hexadecimal digits.
proof fn lemma_id_read(encoded: Seq<u8>)
    ensures
        profile_id(encoded).len() == 16,
        number::read_hex(profile_id(encoded)) == fnv1a(encoded),
        forall|i: int|
            0 <= i < 16 ==> ('0' <= #[trigger] profile_id(encoded)[i] <= '9' || 'a' <= profile_id(
                encoded,
            )[i] <= 'f'),
{
    assert(number::hex_range(16) == 0x1_0000_0000_0000_0000) by {
        reveal_with_fuel(number::hex_range, 17);
    }
    law_id_length(encoded);
    number::lemma_hex_read(fnv1a(encoded) as nat, 16);
}

/// Read as a number, the identifier of nothing is the offset basis of FNV-1a. With one
/// more byte it is that number with the byte exclusively or-ed into it, times the prime
/// of FNV-1a, modulo 2 to the power of 64. These two tell every identifier.
pub proof fn law_id_follows_byte_by_byte(
    nothing: &[u8],
    bytes: &[u8],
    longer: &[u8],
    byte: u8,
    first: String,
    r: String,
    s: String,
    hash: u64,
)
    requires
        nothing@.len() == 0,
        longer@ == bytes@.push(byte),
        call_ensures(RunProfile::id, (nothing,), first),
        call_ensures(RunProfile::id, (bytes,), r),
        call_ensures(RunProfile::id, (longer,), s),
        number::read_hex(r@) == hash,
    ensures
        number::read_hex(first@) == 0xcbf2_9ce4_8422_2325,
        number::read_hex(s@) == ((hash ^ (byte as u64)) * 0x0000_0100_0000_01b3)
            % 0x1_0000_0000_0000_0000,
        r@.len() == 16,
        forall|i: int| 0 <= i < 16 ==> ('0' <= #[trigger] r@[i] <= '9' || 'a' <= r@[i] <= 'f'),
{
    lemma_id_read(nothing@);
    lemma_id_read(bytes@);
    lemma_id_read(longer@);
    assert(longer@.drop_last() =~= bytes@);
}

} // verus!
