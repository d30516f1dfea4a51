//! Names of shared-memory objects: the POSIX form with its leading slash,
//! and the shortened form for platforms with a small limit on the length,
//! which ends in the FNV-1a digest of the full name.

use vstd::prelude::*;
use vstd::string::StringExecFns;
use vstd::string::StrSliceExecFns;

verus! {

/// The FNV-1a 64-bit offset basis.
pub const FNV_OFFSET: u64 = 0xcbf29ce484222325;

/// The FNV-1a 64-bit prime.
pub const FNV_PRIME: u64 = 0x100000001b3;

/// No limit on the length of a name, as on Linux.
pub const SHM_NAME_UNLIMITED: usize = 0;

/// The limit on the length of a name on macOS.
pub const SHM_NAME_MAX_MACOS: usize = 31;

/// Bytes that the shortened form spends on the underscore and the digest.
pub const HASH_SUFFIX_LEN: usize = 17;

/// The FNV-1a 64-bit hash of `data`: from the offset basis, each byte is
/// xored in and the result multiplied by the prime, modulo 2^64.
pub open spec fn spec_fnv1a_64(data: Seq<u8>) -> u64
    decreases data.len(),
{
    if data.len() == 0 {
        FNV_OFFSET
    } else {
        (spec_fnv1a_64(data.drop_last()) ^ (data.last() as u64)).wrapping_mul(FNV_PRIME)
    }
}

/// Computes the FNV-1a 64-bit hash of `data`.
pub fn fnv1a_64(data: &[u8]) -> (hash: u64)
    ensures
        hash == spec_fnv1a_64(data@),
{
    let mut hash: u64 = FNV_OFFSET;
    let n: usize = data.len();
    let mut i: usize = 0;
    while i < n
        invariant
            i <= n,
            n == data@.len(),
            hash == spec_fnv1a_64(data@.subrange(0, i as int)),
        decreases n - i,
    {
        proof {
            assert(data@.subrange(0, i + 1).drop_last() =~= data@.subrange(0, i as int));
        }
        hash = (hash ^ (data[i] as u64)).wrapping_mul(FNV_PRIME);
        i = i + 1;
    }
    assert(data@.subrange(0, n as int) =~= data@);
    hash
}

/// The lower-case hexadecimal digit for a value below 16.
pub open spec fn spec_hex_digit(d: u64) -> u8 {
    if d < 10 {
        (48 + d) as u8
    } else {
        (87 + d) as u8
    }
}

/// The last `n` hexadecimal digits of `val`, most significant first.
pub open spec fn spec_hex_digits(val: u64, n: nat) -> Seq<u8>
    decreases n,
{
    if n == 0 {
        Seq::<u8>::empty()
    } else {
        spec_hex_digits(val / 16, (n - 1) as nat).push(spec_hex_digit(val % 16))
    }
}

/// `val` as 16 lower-case hexadecimal digits.
pub open spec fn spec_to_hex(val: u64) -> Seq<u8> {
    spec_hex_digits(val, 16)
}

proof fn lemma_hex_digits_len(val: u64, n: nat)
    ensures
        spec_hex_digits(val, n).len() == n,
    decreases n,
{
    if n > 0 {
        lemma_hex_digits_len(val / 16, (n - 1) as nat);
    }
}

/// Writes `val` as 16 lower-case hexadecimal digits.
pub fn to_hex(val: u64) -> (hex: [u8; 16])
    ensures
        hex@ == spec_to_hex(val),
{
    let mut buf: [u8; 16] = [0u8; 16];
    let mut v: u64 = val;
    let mut k: usize = 0;
    while k < 16
        invariant
            k <= 16,
            spec_to_hex(val) == spec_hex_digits(v, (16 - k) as nat) + buf@.subrange(16 - k, 16),
        decreases 16 - k,
    {
        let d: u64 = v % 16;
        let c: u8 = if d < 10 {
            (48 + d) as u8
        } else {
            (87 + d) as u8
        };
        let ghost prev = buf@;
        buf[15 - k] = c;
        proof {
            lemma_hex_digits_len(v / 16, (15 - k) as nat);
            assert(buf@.subrange(15 - k, 16) =~= seq![c] + prev.subrange(16 - k, 16));
            assert(spec_hex_digits(v, (16 - k) as nat) + prev.subrange(16 - k, 16) =~= spec_hex_digits(
                v / 16,
                (15 - k) as nat,
            ) + buf@.subrange(15 - k, 16));
        }
        v = v / 16;
        k = k + 1;
    }
    assert(buf@.subrange(0, 16) =~= buf@);
    buf
}

/// A name with its leading slash: the name itself where it has one, else a
/// slash and the name.
pub open spec fn spec_posix_name<T>(name: Seq<T>, slash: T) -> Seq<T> {
    if name.len() > 0 && name[0] == slash {
        name
    } else {
        seq![slash] + name
    }
}

/// The name under which an object is opened where names are limited to `max`
/// bytes (0: no limit). A POSIX form within the limit stands as it is. A
/// longer one becomes a slash, as much of the name as the limit leaves room
/// for, an underscore and the 16 digits of the FNV-1a hash of the whole POSIX
/// form.
pub open spec fn spec_shm_name(name: Seq<u8>, max: nat) -> Seq<u8> {
    let full = spec_posix_name(name, 47u8);
    if max == 0 || full.len() <= max {
        full
    } else {
        let room: int = if max > 18 {
            max - 18
        } else {
            0
        };
        let take: int = if room < full.len() - 1 {
            room
        } else {
            full.len() - 1
        };
        seq![47u8] + full.subrange(1, 1 + take) + seq![95u8] + spec_to_hex(spec_fnv1a_64(full))
    }
}

/// Builds the name under which an object is opened where names are limited
/// to `max` bytes; see [`spec_shm_name`].
pub fn make_shm_name_bounded(name: &[u8], max: usize) -> (out: Vec<u8>)
    ensures
        out@ == spec_shm_name(name@, max as nat),
        max >= 18 ==> out@.len() <= max,
{
    let mut full: Vec<u8> = Vec::new();
    if !(name.len() > 0 && name[0] == 47u8) {
        full.push(47u8);
    }
    full.extend_from_slice(name);
    assert(full@ =~= spec_posix_name(name@, 47u8));
    if max == 0 || full.len() <= max {
        return full;
    }
    let room: usize = if max > HASH_SUFFIX_LEN + 1 {
        max - HASH_SUFFIX_LEN - 1
    } else {
        0
    };
    let take: usize = if room < full.len() - 1 {
        room
    } else {
        full.len() - 1
    };
    let hash: u64 = fnv1a_64(full.as_slice());
    let hex: [u8; 16] = to_hex(hash);
    let mut out: Vec<u8> = Vec::new();
    out.push(47u8);
    let mut i: usize = 0;
    while i < take
        invariant
            i <= take,
            take < full@.len(),
            out@ == seq![47u8] + full@.subrange(1, 1 + i),
        decreases take - i,
    {
        out.push(full[1 + i]);
        assert(out@ =~= seq![47u8] + full@.subrange(1, 1 + i + 1));
        i = i + 1;
    }
    out.push(95u8);
    let mut k: usize = 0;
    while k < 16
        invariant
            k <= 16,
            hex@.len() == 16,
            out@ == seq![47u8] + full@.subrange(1, 1 + take) + seq![95u8] + hex@.subrange(0, k as int),
        decreases 16 - k,
    {
        out.push(hex[k]);
        assert(out@ =~= seq![47u8] + full@.subrange(1, 1 + take) + seq![95u8] + hex@.subrange(
            0,
            k + 1,
        ));
        k = k + 1;
    }
    assert(hex@.subrange(0, 16) =~= hex@);
    proof {
        lemma_hex_digits_len(hash, 16);
    }
    out
}

/// Builds the POSIX form of a name: the name with a leading slash. This is
/// the name under which an object is opened where names have no limit; where
/// they have one, [`make_shm_name_bounded`] gives the name.
pub fn make_shm_name(name: &str) -> (out: String)
    ensures
        out@ == spec_posix_name(name@, '/'),
{
    if !name.is_empty() && name.get_char(0) == '/' {
        return String::from_str(name);
    }
    let mut out = String::from_str("/");
    out.append(name);
    proof {
        reveal_strlit("/");
        assert(out@ =~= seq!['/'] + name@);
    }
    out
}

} // verus!
