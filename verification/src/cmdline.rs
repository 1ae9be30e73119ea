//! Configuration values and the seed hash.
//!
//! The generation core is configured by plain values: a random seed (text,
//! hashed into a 128-bit numeric seed by MurmurHash3), two detail levels, a
//! step count and a plate count.  The surrounding command-line layer hands
//! the raw option strings to [`Args::from_options`]; everything here is
//! exact integer and byte work.

use vstd::prelude::*;

use crate::WorldError;
use vstd::string::StringSliceAdditionalSpecFns;

verus! {

/// Wrapping 32-bit product.
pub open spec fn w_mul(a: u32, b: u32) -> u32 {
    ((a * b) % 0x1_0000_0000) as u32
}

/// Wrapping 32-bit sum.
pub open spec fn w_add(a: u32, b: u32) -> u32 {
    ((a + b) % 0x1_0000_0000) as u32
}

/// Left rotation of a 32-bit word.
pub open spec fn spec_rotl(num: u32, by: u32) -> u32 {
    (num << by) | (num >> ((32 - by) as u32))
}

/// One 4-byte word of the input, big-endian.
pub open spec fn spec_get_block(data: Seq<u8>, block_index: int) -> u32 {
    ((data[block_index * 4] as u32) << 24) | ((data[block_index * 4 + 1] as u32) << 16) | ((
    data[block_index * 4 + 2] as u32) << 8) | (data[block_index * 4 + 3] as u32)
}

/// One MurmurHash3 mixing step: the mixed key and the updated hash lane.
pub open spec fn spec_murmur_step(
    key1: u32,
    c1: u32,
    c2: u32,
    hash1: u32,
    hash2: u32,
    rot1: u32,
    rot2: u32,
    magic: u32,
) -> (u32, u32) {
    let k = w_mul(spec_rotl(w_mul(key1, c1), rot1), c2);
    let h = w_add(w_mul(w_add(spec_rotl(hash1 ^ k, rot2), hash2), 5), magic);
    (k, h)
}

/// Wrapping 32-bit product of two words.
fn wrap_mul(a: u32, b: u32) -> (r: u32)
    ensures
        r == w_mul(a, b),
{
    proof {
        crate::fixed::lemma_mul_le(a as int, b as int, 0xffff_ffff, 0xffff_ffff);
    }
    ((a as u64 * b as u64) % 0x1_0000_0000) as u32
}

/// Wrapping 32-bit sum of two words.
fn wrap_add(a: u32, b: u32) -> (r: u32)
    ensures
        r == w_add(a, b),
{
    ((a as u64 + b as u64) % 0x1_0000_0000) as u32
}

/// One 4-byte word of the input, big-endian.
pub fn get_block(data: &[u8], block_index: usize) -> (r: u32)
    requires
        block_index * 4 + 3 < data@.len(),
    ensures
        r == spec_get_block(data@, block_index as int),
{
    let l = data.len();
    proof {
        assert(block_index * 4 + 3 < l);
    }
    let base = block_index * 4;
    ((data[base] as u32) << 24u32) | ((data[base + 1] as u32) << 16u32) | ((data[base + 2]
        as u32) << 8u32) | (data[base + 3] as u32)
}

/// Left rotation of a 32-bit word.
pub fn rotl(num: u32, by: u32) -> (r: u32)
    requires
        0 < by < 32,
    ensures
        r == spec_rotl(num, by),
{
    num << by | num >> (32 - by)
}

/// One MurmurHash3 mixing step, updating the key and one hash lane.
pub fn murmur_step(
    key1: &mut u32,
    c1: u32,
    c2: u32,
    hash1: &mut u32,
    hash2: u32,
    rot1: u32,
    rot2: u32,
    magic: u32,
)
    requires
        0 < rot1 < 32,
        0 < rot2 < 32,
    ensures
        (*final(key1), *final(hash1)) == spec_murmur_step(
            *old(key1),
            c1,
            c2,
            *old(hash1),
            hash2,
            rot1,
            rot2,
            magic,
        ),
{
    *key1 = wrap_mul(*key1, c1);
    *key1 = rotl(*key1, rot1);
    *key1 = wrap_mul(*key1, c2);
    *hash1 = *hash1 ^ *key1;
    *hash1 = rotl(*hash1, rot2);
    *hash1 = wrap_add(*hash1, hash2);
    *hash1 = wrap_add(wrap_mul(*hash1, 5), magic);
}

/// The tail key for lane 0 (input bytes 12 to 14, if present).
pub open spec fn spec_tail_key0(tl: Seq<u8>) -> u32 {
    (if tl.len() >= 15 {
        (tl[14] as u32) << 16
    } else {
        0
    }) | (if tl.len() >= 14 {
        (tl[13] as u32) << 8
    } else {
        0
    }) | (if tl.len() >= 13 {
        tl[12] as u32
    } else {
        0
    })
}

/// The tail key for lane 1 (input bytes 8 to 11, if present).
pub open spec fn spec_tail_key1(tl: Seq<u8>) -> u32 {
    (if tl.len() >= 12 {
        (tl[11] as u32) << 24
    } else {
        0
    }) | (if tl.len() >= 11 {
        (tl[10] as u32) << 16
    } else {
        0
    }) | (if tl.len() >= 10 {
        (tl[9] as u32) << 8
    } else {
        0
    }) | (if tl.len() >= 9 {
        tl[8] as u32
    } else {
        0
    })
}

/// The tail key for lane 2 (input bytes 4 to 7, if present).
pub open spec fn spec_tail_key2(tl: Seq<u8>) -> u32 {
    (if tl.len() >= 8 {
        (tl[7] as u32) << 24
    } else {
        0
    }) | (if tl.len() >= 7 {
        (tl[6] as u32) << 16
    } else {
        0
    }) | (if tl.len() >= 6 {
        (tl[5] as u32) << 8
    } else {
        0
    }) | (if tl.len() >= 5 {
        tl[4] as u32
    } else {
        0
    })
}

/// The tail key for lane 3 (input bytes 0 to 3, if present).
pub open spec fn spec_tail_key3(tl: Seq<u8>) -> u32 {
    (if tl.len() >= 4 {
        (tl[3] as u32) << 24
    } else {
        0
    }) | (if tl.len() >= 3 {
        (tl[2] as u32) << 16
    } else {
        0
    }) | (if tl.len() >= 2 {
        (tl[1] as u32) << 8
    } else {
        0
    }) | (if tl.len() >= 1 {
        tl[0] as u32
    } else {
        0
    })
}

/// Mix one nonzero tail key into its hash lane.
pub open spec fn spec_tail_lane(k: u32, h: u32, ci: u32, cn: u32, rot: u32) -> u32 {
    if k != 0 {
        h ^ w_mul(spec_rotl(w_mul(k, ci), rot), cn)
    } else {
        h
    }
}

/// Mix the remaining (under 16) bytes into the four hash lanes.
pub open spec fn spec_murmur_tail(tl: Seq<u8>, h: (u32, u32, u32, u32), c: Seq<u32>) -> (
    u32,
    u32,
    u32,
    u32,
) {
    (
        spec_tail_lane(spec_tail_key0(tl), h.0, c[0], c[1], 15),
        spec_tail_lane(spec_tail_key1(tl), h.1, c[1], c[2], 16),
        spec_tail_lane(spec_tail_key2(tl), h.2, c[2], c[3], 17),
        spec_tail_lane(spec_tail_key3(tl), h.3, c[3], c[0], 18),
    )
}

/// Mix the remaining (under 16) bytes of the input into the hash lanes.
pub fn murmur_tail(tail: &[u8], hash: &mut [u32; 4], c: &[u32; 4])
    requires
        tail@.len() < 16,
    ensures
        ({
            let r = spec_murmur_tail(
                tail@,
                (old(hash)@[0], old(hash)@[1], old(hash)@[2], old(hash)@[3]),
                c@,
            );
            final(hash)@ == seq![r.0, r.1, r.2, r.3]
        }),
{
    let n = tail.len();
    let k0: u32 = (if n >= 15 {
        (tail[14] as u32) << 16u32
    } else {
        0
    }) | (if n >= 14 {
        (tail[13] as u32) << 8u32
    } else {
        0
    }) | (if n >= 13 {
        tail[12] as u32
    } else {
        0
    });
    let k1: u32 = (if n >= 12 {
        (tail[11] as u32) << 24u32
    } else {
        0
    }) | (if n >= 11 {
        (tail[10] as u32) << 16u32
    } else {
        0
    }) | (if n >= 10 {
        (tail[9] as u32) << 8u32
    } else {
        0
    }) | (if n >= 9 {
        tail[8] as u32
    } else {
        0
    });
    let k2: u32 = (if n >= 8 {
        (tail[7] as u32) << 24u32
    } else {
        0
    }) | (if n >= 7 {
        (tail[6] as u32) << 16u32
    } else {
        0
    }) | (if n >= 6 {
        (tail[5] as u32) << 8u32
    } else {
        0
    }) | (if n >= 5 {
        tail[4] as u32
    } else {
        0
    });
    let k3: u32 = (if n >= 4 {
        (tail[3] as u32) << 24u32
    } else {
        0
    }) | (if n >= 3 {
        (tail[2] as u32) << 16u32
    } else {
        0
    }) | (if n >= 2 {
        (tail[1] as u32) << 8u32
    } else {
        0
    }) | (if n >= 1 {
        tail[0] as u32
    } else {
        0
    });
    let h0 = if k0 != 0 {
        hash[0] ^ wrap_mul(rotl(wrap_mul(k0, c[0]), 15), c[1])
    } else {
        hash[0]
    };
    let h1 = if k1 != 0 {
        hash[1] ^ wrap_mul(rotl(wrap_mul(k1, c[1]), 16), c[2])
    } else {
        hash[1]
    };
    let h2 = if k2 != 0 {
        hash[2] ^ wrap_mul(rotl(wrap_mul(k2, c[2]), 17), c[3])
    } else {
        hash[2]
    };
    let h3 = if k3 != 0 {
        hash[3] ^ wrap_mul(rotl(wrap_mul(k3, c[3]), 18), c[0])
    } else {
        hash[3]
    };
    *hash = [h0, h1, h2, h3];
}

/// Final avalanche of one hash lane.
pub open spec fn spec_fmix(x: u32) -> u32 {
    let a = x ^ (x >> 16u32);
    let b = w_mul(a, 0x85eb_ca6b);
    let c = b ^ (b >> 13u32);
    let d = w_mul(c, 0xc2b2_ae35);
    d ^ (d >> 16u32)
}

/// Final avalanche of one hash lane.
pub fn fmix(x: u32) -> (r: u32)
    ensures
        r == spec_fmix(x),
{
    let a = x ^ (x >> 16u32);
    let b = wrap_mul(a, 0x85eb_ca6b);
    let c = b ^ (b >> 13u32);
    let d = wrap_mul(c, 0xc2b2_ae35);
    d ^ (d >> 16u32)
}

/// One 16-byte block round: four chained mixing steps.
pub open spec fn spec_murmur_round(t: Seq<u8>, i: int, h: (u32, u32, u32, u32)) -> (
    u32,
    u32,
    u32,
    u32,
) {
    let h0 = spec_murmur_step(
        spec_get_block(t, 4 * i),
        0x239b_961b,
        0xab0e_9789,
        h.0,
        h.1,
        15,
        19,
        0x561c_cd1b,
    ).1;
    let h1 = spec_murmur_step(
        spec_get_block(t, 4 * i + 1),
        0xab0e_9789,
        0x38b3_4ae5,
        h.1,
        h.2,
        16,
        17,
        0x0bca_a747,
    ).1;
    let h2 = spec_murmur_step(
        spec_get_block(t, 4 * i + 2),
        0x38b3_4ae5,
        0xa1e3_8b93,
        h.2,
        h.3,
        17,
        15,
        0x96cd_1c35,
    ).1;
    let h3 = spec_murmur_step(
        spec_get_block(t, 4 * i + 3),
        0xa1e3_8b93,
        0x239b_961b,
        h.3,
        h0,
        18,
        13,
        0x32ac_3b17,
    ).1;
    (h0, h1, h2, h3)
}

/// The hash lanes after the first `i` full blocks.
pub open spec fn spec_murmur_rounds(t: Seq<u8>, i: nat) -> (u32, u32, u32, u32)
    decreases i,
{
    if i == 0 {
        (0, 0, 0, 0)
    } else {
        spec_murmur_round(t, i - 1, spec_murmur_rounds(t, (i - 1) as nat))
    }
}

/// The finalization: fold the length in, cross-add, avalanche, cross-add.
pub open spec fn spec_murmur_final(len: nat, h: (u32, u32, u32, u32)) -> (u32, u32, u32, u32) {
    let l = (len % 0x1_0000_0000) as u32;
    let a = (h.0 ^ l, h.1 ^ l, h.2 ^ l, h.3 ^ l);
    let b0 = w_add(a.0, w_add(a.1, w_add(a.2, a.3)));
    let b = (b0, w_add(a.1, b0), w_add(a.2, b0), w_add(a.3, b0));
    let f = (spec_fmix(b.0), spec_fmix(b.1), spec_fmix(b.2), spec_fmix(b.3));
    let g0 = w_add(f.0, w_add(f.1, w_add(f.2, f.3)));
    (g0, w_add(f.1, g0), w_add(f.2, g0), w_add(f.3, g0))
}

/// The full 128-bit MurmurHash3 of a byte string.
pub open spec fn spec_murmur_hash3(t: Seq<u8>) -> (u32, u32, u32, u32) {
    let nblocks = t.len() / 16;
    let rounds = spec_murmur_rounds(t, nblocks);
    let tail = spec_murmur_tail(
        t.skip(nblocks as int * 16),
        rounds,
        seq![0x239b_961bu32, 0xab0e_9789u32, 0x38b3_4ae5u32, 0xa1e3_8b93u32],
    );
    spec_murmur_final(t.len(), tail)
}

/// The 128-bit MurmurHash3 of a byte string, written into `hash`.
#[verifier::rlimit(100)]
pub fn murmur_hash3(text: &[u8], hash: &mut [u32; 4])
    ensures
        ({
            let r = spec_murmur_hash3(text@);
            final(hash)@ == seq![r.0, r.1, r.2, r.3]
        }),
{
    let tlen = text.len();
    let num_blocks = tlen / 16;
    proof {
        vstd::arithmetic::div_mod::lemma_fundamental_div_mod(tlen as int, 16);
        vstd::arithmetic::div_mod::lemma_mod_bound(tlen as int, 16);
    }
    let c: [u32; 4] = [0x239b_961b, 0xab0e_9789, 0x38b3_4ae5, 0xa1e3_8b93];
    let mut h0: u32 = 0;
    let mut h1: u32 = 0;
    let mut h2: u32 = 0;
    let mut h3: u32 = 0;
    let mut i: usize = 0;
    while i < num_blocks
        invariant
            tlen == text@.len(),
            num_blocks == text@.len() / 16,
            num_blocks * 16 <= tlen,
            i <= num_blocks,
            (h0, h1, h2, h3) == spec_murmur_rounds(text@, i as nat),
        decreases num_blocks - i,
    {
        let mut k0 = get_block(text, i * 4);
        let mut k1 = get_block(text, i * 4 + 1);
        let mut k2 = get_block(text, i * 4 + 2);
        let mut k3 = get_block(text, i * 4 + 3);
        let mut h_tmp: u32 = h1;
        murmur_step(&mut k0, 0x239b_961b, 0xab0e_9789, &mut h0, h_tmp, 15, 19, 0x561c_cd1b);
        h_tmp = h2;
        murmur_step(&mut k1, 0xab0e_9789, 0x38b3_4ae5, &mut h1, h_tmp, 16, 17, 0x0bca_a747);
        h_tmp = h3;
        murmur_step(&mut k2, 0x38b3_4ae5, 0xa1e3_8b93, &mut h2, h_tmp, 17, 15, 0x96cd_1c35);
        h_tmp = h0;
        murmur_step(&mut k3, 0xa1e3_8b93, 0x239b_961b, &mut h3, h_tmp, 18, 13, 0x32ac_3b17);
        i += 1;
        proof {
            assert((h0, h1, h2, h3) == spec_murmur_rounds(text@, i as nat));
        }
    }
    proof {
        vstd::arithmetic::div_mod::lemma_fundamental_div_mod(tlen as int, 16);
        vstd::arithmetic::div_mod::lemma_mod_bound(tlen as int, 16);
    }
    let tail = vstd::slice::slice_subrange(text, num_blocks * 16, tlen);
    let mut lanes: [u32; 4] = [h0, h1, h2, h3];
    murmur_tail(tail, &mut lanes, &c);
    let len_word: u32 = ((tlen as u64) % 0x1_0000_0000) as u32;
    let a0 = lanes[0] ^ len_word;
    let a1 = lanes[1] ^ len_word;
    let a2 = lanes[2] ^ len_word;
    let a3 = lanes[3] ^ len_word;
    let b0 = wrap_add(a0, wrap_add(a1, wrap_add(a2, a3)));
    let b1 = wrap_add(a1, b0);
    let b2 = wrap_add(a2, b0);
    let b3 = wrap_add(a3, b0);
    let f0 = fmix(b0);
    let f1 = fmix(b1);
    let f2 = fmix(b2);
    let f3 = fmix(b3);
    let g0 = wrap_add(f0, wrap_add(f1, wrap_add(f2, f3)));
    let g1 = wrap_add(f1, g0);
    let g2 = wrap_add(f2, g0);
    let g3 = wrap_add(f3, g0);
    *hash = [g0, g1, g2, g3];
}

/// Decimal value of a digit string, most significant digit first.
pub open spec fn spec_digits_val(t: Seq<u8>) -> int
    decreases t.len(),
{
    if t.len() == 0 {
        0
    } else {
        spec_digits_val(t.drop_last()) * 10 + (t.last() - 48)
    }
}

/// Every byte is an ASCII digit.
pub open spec fn all_digits(t: Seq<u8>) -> bool {
    forall|i: int| 0 <= i < t.len() ==> 48 <= #[trigger] t[i] <= 57
}

/// A nonempty all-digit string whose value fits a `u32`.
pub open spec fn valid_number(t: Seq<u8>) -> bool {
    t.len() > 0 && all_digits(t) && spec_digits_val(t) <= u32::MAX
}

/// A `WIDTH,HEIGHT` byte string: exactly one comma, with a valid number on
/// each side.
pub open spec fn valid_resolution(b: Seq<u8>) -> bool {
    exists|k: int|
        {
            &&& 0 <= k < b.len()
            &&& #[trigger] b[k] == 44
            &&& forall|j: int| 0 <= j < b.len() && j != k ==> b[j] != 44
            &&& valid_number(b.subrange(0, k))
            &&& valid_number(b.subrange(k + 1, b.len() as int))
        }
}

/// Digit strings have nonnegative values.
proof fn lemma_digits_nonneg(t: Seq<u8>)
    requires
        all_digits(t),
    ensures
        spec_digits_val(t) >= 0,
    decreases t.len(),
{
    if t.len() > 0 {
        assert(all_digits(t.drop_last())) by {
            assert(forall|i: int|
                0 <= i < t.drop_last().len() ==> #[trigger] t.drop_last()[i] == t[i]);
        }
        lemma_digits_nonneg(t.drop_last());
        assert(spec_digits_val(t) == spec_digits_val(t.drop_last()) * 10 + (t.last() - 48));
        assert(spec_digits_val(t.drop_last()) * 10 >= 0) by (nonlinear_arith)
            requires
                spec_digits_val(t.drop_last()) >= 0,
        ;
    }
}

/// On a digit string, every prefix value is at most the whole value.
proof fn lemma_digits_prefix(t: Seq<u8>, i: int)
    requires
        all_digits(t),
        0 <= i <= t.len(),
    ensures
        spec_digits_val(t.subrange(0, i)) <= spec_digits_val(t),
    decreases t.len() - i,
{
    if i == t.len() {
        assert(t.subrange(0, i) =~= t);
    } else {
        lemma_digits_prefix(t, i + 1);
        let pre = t.subrange(0, i);
        let nxt = t.subrange(0, i + 1);
        assert(nxt.drop_last() =~= pre);
        assert(nxt.last() == t[i]);
        assert(all_digits(pre)) by {
            assert(forall|k: int| 0 <= k < pre.len() ==> #[trigger] pre[k] == t[k]);
        }
        lemma_digits_nonneg(pre);
        assert(spec_digits_val(nxt) == spec_digits_val(pre) * 10 + (t[i] - 48));
        assert(spec_digits_val(pre) * 10 >= spec_digits_val(pre)) by (nonlinear_arith)
            requires
                spec_digits_val(pre) >= 0,
        ;
    }
}

/// Parse a nonempty ASCII decimal number into a `u32`.  Succeeds exactly on
/// nonempty all-digit input whose value fits; rejects everything else with
/// [`WorldError::ConfigurationError`].
pub fn parse_u32_digits(t: &[u8]) -> (r: Result<u32, WorldError>)
    ensures
        r is Ok <==> valid_number(t@),
        r is Ok ==> r->Ok_0 == spec_digits_val(t@),
        r is Err ==> r == Err::<u32, WorldError>(WorldError::ConfigurationError),
{
    let n = t.len();
    if n == 0 {
        return Err(WorldError::ConfigurationError);
    }
    let mut acc: u64 = 0;
    let mut i: usize = 0;
    while i < n
        invariant
            n == t@.len(),
            i <= n,
            all_digits(t@.subrange(0, i as int)),
            acc == spec_digits_val(t@.subrange(0, i as int)),
            acc <= 0xffff_ffff,
        decreases n - i,
    {
        let d = t[i];
        if d < 48 || d > 57 {
            return Err(WorldError::ConfigurationError);
        }
        let next: u64 = acc * 10 + (d - 48) as u64;
        if next > 0xffff_ffff {
            proof {
                assert(t@.subrange(0, i + 1).drop_last() =~= t@.subrange(0, i as int));
                assert(t@.subrange(0, i + 1).last() == t@[i as int]);
                assert(spec_digits_val(t@.subrange(0, i + 1)) == next);
                if all_digits(t@) {
                    lemma_digits_prefix(t@, i + 1);
                }
            }
            return Err(WorldError::ConfigurationError);
        }
        proof {
            assert(t@.subrange(0, i + 1).drop_last() =~= t@.subrange(0, i as int));
            assert(t@.subrange(0, i + 1).last() == t@[i as int]);
        }
        acc = next;
        i += 1;
    }
    proof {
        assert(t@.subrange(0, n as int) =~= t@);
    }
    Ok(acc as u32)
}

/// With a unique comma at `k`, any witness of [`valid_resolution`] is `k`
/// itself.
proof fn lemma_unique_comma_shape(b: Seq<u8>, k: int)
    requires
        0 <= k < b.len(),
        b[k] == 44,
        forall|j: int| 0 <= j < b.len() && j != k ==> #[trigger] b[j] != 44,
    ensures
        valid_resolution(b) <==> valid_number(b.subrange(0, k)) && valid_number(
            b.subrange(k + 1, b.len() as int),
        ),
{
    if valid_resolution(b) {
        let k2 = choose|k2: int|
            {
                &&& 0 <= k2 < b.len()
                &&& #[trigger] b[k2] == 44
                &&& forall|j: int| 0 <= j < b.len() && j != k2 ==> b[j] != 44
                &&& valid_number(b.subrange(0, k2))
                &&& valid_number(b.subrange(k2 + 1, b.len() as int))
            };
        assert(k2 == k);
    }
}

/// Parse a `WIDTH,HEIGHT` pair of decimal numbers; succeeds exactly on a
/// string with one comma and a `u32`-sized decimal number on each side;
/// anything else is a [`WorldError::ConfigurationError`].
pub fn parse_resolution(arg: &str) -> (r: Result<[u32; 2], WorldError>)
    ensures
        r is Ok <==> valid_resolution(arg.spec_bytes()),
        r is Ok ==> exists|k: int|
            {
                let b = arg.spec_bytes();
                &&& 0 <= k < b.len()
                &&& #[trigger] arg.spec_bytes()[k] == 44
                &&& all_digits(b.subrange(0, k))
                &&& all_digits(b.subrange(k + 1, b.len() as int))
                &&& r->Ok_0@[0] == spec_digits_val(b.subrange(0, k))
                &&& r->Ok_0@[1] == spec_digits_val(b.subrange(k + 1, b.len() as int))
            },
        r is Err ==> r == Err::<[u32; 2], WorldError>(WorldError::ConfigurationError),
{
    let b = arg.as_bytes();
    let n = b.len();
    let mut comma: usize = 0;
    let mut seen = false;
    let mut i: usize = 0;
    while i < n
        invariant
            n == b@.len(),
            b@ == arg.spec_bytes(),
            i <= n,
            seen ==> comma < i && b@[comma as int] == 44 && (forall|j: int|
                0 <= j < i && j != comma ==> #[trigger] b@[j] != 44),
            !seen ==> forall|j: int| 0 <= j < i ==> #[trigger] b@[j] != 44,
        decreases n - i,
    {
        if b[i] == 44 {
            if seen {
                // A second separator: not a WIDTH,HEIGHT pair.
                proof {
                    if valid_resolution(b@) {
                        let k2 = choose|k2: int|
                            {
                                &&& 0 <= k2 < b@.len()
                                &&& #[trigger] b@[k2] == 44
                                &&& forall|j: int| 0 <= j < b@.len() && j != k2 ==> b@[j] != 44
                                &&& valid_number(b@.subrange(0, k2))
                                &&& valid_number(b@.subrange(k2 + 1, b@.len() as int))
                            };
                        if k2 == comma as int {
                            assert(b@[i as int] == 44);
                        } else {
                            assert(b@[comma as int] == 44);
                        }
                        assert(false);
                    }
                    assert(!valid_resolution(b@));
                    assert(b@ == arg.spec_bytes());
                    assert(!valid_resolution(arg.spec_bytes()));
                }
                return Err(WorldError::ConfigurationError);
            }
            comma = i;
            seen = true;
        }
        i += 1;
    }
    if !seen {
        return Err(WorldError::ConfigurationError);
    }
    proof {
        assert(forall|j: int| 0 <= j < b@.len() && j != comma ==> #[trigger] b@[j] != 44);
    }
    let left = vstd::slice::slice_subrange(b, 0, comma);
    let right = vstd::slice::slice_subrange(b, comma + 1, n);
    let w = match parse_u32_digits(left) {
        Ok(v) => v,
        Err(_) => {
            proof {
                lemma_unique_comma_shape(b@, comma as int);
            }
            return Err(WorldError::ConfigurationError);
        },
    };
    let h = match parse_u32_digits(right) {
        Ok(v) => v,
        Err(_) => {
            proof {
                lemma_unique_comma_shape(b@, comma as int);
            }
            return Err(WorldError::ConfigurationError);
        },
    };
    proof {
        assert(arg.spec_bytes()[comma as int] == 44);
    }
    Ok([w, h])
}

/// The configuration of a generation run: the seed text and its hash, the
/// window resolution for the excluded presentation layer, the two detail
/// levels, and the simulation step and plate counts.
#[derive(Clone, Debug)]
pub struct Args {
    pub rng_seed: String,
    pub rng_seed_hash: [u32; 4],
    pub resolution: [u32; 2],
    pub world_detail_level: usize,
    pub plate_sim_detail_level: usize,
    pub plate_sim_steps: usize,
    pub plate_sim_plates: usize,
}

impl Args {
    /// Build the configuration from raw option strings, applying the
    /// defaults for absent options, hashing the seed text, and rejecting
    /// malformed numbers with [`WorldError::ConfigurationError`].
    pub fn from_options(
        rng_seed: Option<&str>,
        resolution: Option<&str>,
        world_detail: Option<&str>,
        plate_detail: Option<&str>,
        plate_steps: Option<&str>,
        plate_count: Option<&str>,
    ) -> (r: Result<Args, WorldError>)
        ensures
            r is Err ==> r == Err::<Args, WorldError>(WorldError::ConfigurationError),
            r is Ok <==> ((resolution is Some ==> valid_resolution(
                resolution->Some_0.spec_bytes(),
            )) && (world_detail is Some ==> valid_number(world_detail->Some_0.spec_bytes())) && (
            plate_detail is Some ==> valid_number(plate_detail->Some_0.spec_bytes())) && (
            plate_steps is Some ==> valid_number(plate_steps->Some_0.spec_bytes())) && (
            plate_count is Some ==> valid_number(plate_count->Some_0.spec_bytes()))),
            r is Ok ==> {
                let a = r->Ok_0;
                &&& (rng_seed is Some ==> a.rng_seed@ == rng_seed->Some_0@)
                &&& (rng_seed is Some ==> ({
                    let hh = spec_murmur_hash3(rng_seed->Some_0.spec_bytes());
                    a.rng_seed_hash@ == seq![hh.0, hh.1, hh.2, hh.3]
                }))
                &&& (rng_seed is None ==> a.rng_seed@ == "asd"@)
                &&& (rng_seed is None ==> ({
                    let hh = spec_murmur_hash3("asd".spec_bytes());
                    a.rng_seed_hash@ == seq![hh.0, hh.1, hh.2, hh.3]
                }))
                &&& (world_detail is None ==> a.world_detail_level == 4)
                &&& (plate_detail is None ==> a.plate_sim_detail_level == 2)
                &&& (plate_steps is None ==> a.plate_sim_steps == 10)
                &&& (plate_count is None ==> a.plate_sim_plates == 25)
                &&& (resolution is None ==> a.resolution@ == seq![1000u32, 1000u32])
                &&& (world_detail is Some ==> a.world_detail_level == spec_digits_val(
                    world_detail->Some_0.spec_bytes(),
                ))
                &&& (plate_detail is Some ==> a.plate_sim_detail_level == spec_digits_val(
                    plate_detail->Some_0.spec_bytes(),
                ))
                &&& (plate_steps is Some ==> a.plate_sim_steps == spec_digits_val(
                    plate_steps->Some_0.spec_bytes(),
                ))
                &&& (plate_count is Some ==> a.plate_sim_plates == spec_digits_val(
                    plate_count->Some_0.spec_bytes(),
                ))
            },
    {
        let seed: String = match rng_seed {
            Some(s) => s.to_owned(),
            None => "asd".to_owned(),
        };
        let mut hash: [u32; 4] = [1, 2, 3, 4];
        match rng_seed {
            Some(s) => murmur_hash3(s.as_bytes(), &mut hash),
            None => murmur_hash3("asd".as_bytes(), &mut hash),
        }
        let res: [u32; 2] = match resolution {
            Some(s) => match parse_resolution(s) {
                Ok(v) => v,
                Err(e) => {
                    return Err(WorldError::ConfigurationError);
                },
            },
            None => [1000, 1000],
        };
        let world_detail_level: usize = match world_detail {
            Some(s) => match parse_u32_digits(s.as_bytes()) {
                Ok(v) => v as usize,
                Err(e) => {
                    return Err(WorldError::ConfigurationError);
                },
            },
            None => 4,
        };
        let plate_sim_detail_level: usize = match plate_detail {
            Some(s) => match parse_u32_digits(s.as_bytes()) {
                Ok(v) => v as usize,
                Err(e) => {
                    return Err(WorldError::ConfigurationError);
                },
            },
            None => 2,
        };
        let plate_sim_steps: usize = match plate_steps {
            Some(s) => match parse_u32_digits(s.as_bytes()) {
                Ok(v) => v as usize,
                Err(e) => {
                    return Err(WorldError::ConfigurationError);
                },
            },
            None => 10,
        };
        let plate_sim_plates: usize = match plate_count {
            Some(s) => match parse_u32_digits(s.as_bytes()) {
                Ok(v) => v as usize,
                Err(e) => {
                    return Err(WorldError::ConfigurationError);
                },
            },
            None => 25,
        };
        Ok(
            Args {
                rng_seed: seed,
                rng_seed_hash: hash,
                resolution: res,
                world_detail_level,
                plate_sim_detail_level,
                plate_sim_steps,
                plate_sim_plates,
            },
        )
    }
}

} // verus!
