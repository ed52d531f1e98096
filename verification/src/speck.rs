//! The Speck core: key schedule and single-block encryption and decryption.
//!
//! A block is two big-endian words, left word first. A key of `m` words is
//! laid out big-endian as `l[m-2] .. l[0] k[0]`; the schedule expands it by
//! running the round function itself over the key words, with the step index
//! as round key, exactly as the cipher's definition prescribes.

use crate::bytes::{be_bytes, be_val, be_val_u128, be_bytes_vec, lemma_be_bytes_len,
    lemma_be_bytes_of_val, lemma_be_val_bound, lemma_be_val_of_bytes, lemma_pow256_le, pow256};
use crate::variant::{alpha, beta, block_bytes, key_bytes, key_words, lemma_variant_wf, mask,
    params, rounds, word_bits, word_bytes, Variant};
use crate::words::{dec_round_exec, dec_round_x, dec_round_y, enc_round_exec, enc_round_x,
    enc_round_y, in_range, lemma_in_range_bound, lemma_mask_idempotent, lemma_round_inverse};
use crate::SpeckError;
use vstd::prelude::*;

verus! {

/// The `i`-th word of a big-endian byte string of `word_bytes(v)`-wide
/// groups, counted from the left.
pub open spec fn word_at(v: Variant, s: Seq<u8>, i: int) -> u64 {
    be_val(s.subrange(i * word_bytes(v), (i + 1) * word_bytes(v))) as u64
}

/// The `l` and `k` sequences of the key schedule after `i` expansion steps.
/// Initially `l = (l[0], .., l[m-2])` and `k = (k[0])`, read off the key's
/// word groups from the right; step `i` extends them by one round-function
/// application keyed with `i` itself.
pub open spec fn sched(v: Variant, key: Seq<u8>, i: nat) -> (Seq<u64>, Seq<u64>)
    decreases i,
{
    if i == 0 {
        (
            Seq::new((key_words(v) - 1) as nat, |j: int| word_at(v, key, key_words(v) - 2 - j)),
            Seq::new(1, |j: int| word_at(v, key, key_words(v) as int - 1)),
        )
    } else {
        let prev = sched(v, key, (i - 1) as nat);
        let x1 = enc_round_x(
            prev.0[i - 1],
            prev.1[i - 1],
            (i - 1) as u64,
            alpha(v),
            word_bits(v),
            mask(v),
        );
        let y1 = enc_round_y(x1, prev.1[i - 1], beta(v), word_bits(v), mask(v));
        (prev.0.push(x1), prev.1.push(y1))
    }
}

/// The round-key schedule derived from a key: one word per round.
pub open spec fn schedule_of(v: Variant, key: Seq<u8>) -> Seq<u64> {
    sched(v, key, (rounds(v) - 1) as nat).1
}

/// A well-formed round-key schedule: one in-range word per round.
pub open spec fn ks_wf(v: Variant, ks: Seq<u64>) -> bool {
    &&& ks.len() == rounds(v)
    &&& forall|i: int| 0 <= i < ks.len() ==> in_range(#[trigger] ks[i], mask(v))
}

/// The two-word state after `r` encryption rounds.
pub open spec fn enc_words(v: Variant, ks: Seq<u64>, x: u64, y: u64, r: nat) -> (u64, u64)
    decreases r,
{
    if r == 0 {
        (x, y)
    } else {
        let prev = enc_words(v, ks, x, y, (r - 1) as nat);
        let x1 = enc_round_x(prev.0, prev.1, ks[r - 1], alpha(v), word_bits(v), mask(v));
        (x1, enc_round_y(x1, prev.1, beta(v), word_bits(v), mask(v)))
    }
}

/// The two-word state after undoing rounds `r-1` down to `0`.
pub open spec fn dec_words(v: Variant, ks: Seq<u64>, x: u64, y: u64, r: nat) -> (u64, u64)
    decreases r,
{
    if r == 0 {
        (x, y)
    } else {
        let y0 = dec_round_y(x, y, beta(v), word_bits(v), mask(v));
        let x0 = dec_round_x(x, y0, ks[r - 1], alpha(v), word_bits(v), mask(v));
        dec_words(v, ks, x0, y0, (r - 1) as nat)
    }
}

/// One-block encryption: split into two big-endian words, run every round,
/// and write the words back.
pub open spec fn encrypt_block_spec(v: Variant, ks: Seq<u64>, b: Seq<u8>) -> Seq<u8>
    recommends
        b.len() == block_bytes(v),
{
    let wb = word_bytes(v) as int;
    let x = be_val(b.take(wb)) as u64;
    let y = be_val(b.skip(wb)) as u64;
    let xy = enc_words(v, ks, x, y, rounds(v));
    be_bytes(xy.0 as nat, word_bytes(v)) + be_bytes(xy.1 as nat, word_bytes(v))
}

/// One-block decryption: the exact inverse rounds in reverse order.
pub open spec fn decrypt_block_spec(v: Variant, ks: Seq<u64>, b: Seq<u8>) -> Seq<u8>
    recommends
        b.len() == block_bytes(v),
{
    let wb = word_bytes(v) as int;
    let x = be_val(b.take(wb)) as u64;
    let y = be_val(b.skip(wb)) as u64;
    let xy = dec_words(v, ks, x, y, rounds(v));
    be_bytes(xy.0 as nat, word_bytes(v)) + be_bytes(xy.1 as nat, word_bytes(v))
}

/// Every intermediate word of the schedule is in range, and after `i` steps
/// the two sequences hold `m-1+i` and `1+i` words.
proof fn lemma_sched_wf(v: Variant, key: Seq<u8>, i: nat)
    requires
        key.len() == key_bytes(v),
    ensures
        sched(v, key, i).0.len() == key_words(v) - 1 + i,
        sched(v, key, i).1.len() == 1 + i,
        forall|j: int|
            0 <= j < sched(v, key, i).0.len() ==> in_range(
                #[trigger] sched(v, key, i).0[j],
                mask(v),
            ),
        forall|j: int|
            0 <= j < sched(v, key, i).1.len() ==> in_range(
                #[trigger] sched(v, key, i).1[j],
                mask(v),
            ),
    decreases i,
{
    lemma_variant_wf(v);
    if i == 0 {
        assert forall|j: int| 0 <= j < sched(v, key, 0).0.len() implies in_range(
            #[trigger] sched(v, key, 0).0[j],
            mask(v),
        ) by {
            assert((key_words(v) - 2 - j + 1) * word_bytes(v) <= key_words(v) * word_bytes(v))
                by (nonlinear_arith)
                requires
                    0 <= j,
                    word_bytes(v) >= 0,
            ;
            lemma_word_at_in_range(v, key, key_words(v) - 2 - j);
        }
        assert forall|j: int| 0 <= j < sched(v, key, 0).1.len() implies in_range(
            #[trigger] sched(v, key, 0).1[j],
            mask(v),
        ) by {
            lemma_word_at_in_range(v, key, key_words(v) as int - 1);
        }
    } else {
        lemma_sched_wf(v, key, (i - 1) as nat);
        let prev = sched(v, key, (i - 1) as nat);
        let x1 = enc_round_x(
            prev.0[i - 1],
            prev.1[i - 1],
            (i - 1) as u64,
            alpha(v),
            word_bits(v),
            mask(v),
        );
        lemma_mask_idempotent(
            (crate::words::w_add(
                crate::words::w_rotr(prev.0[i - 1], alpha(v), word_bits(v), mask(v)),
                prev.1[i - 1],
                mask(v),
            ) ^ ((i - 1) as u64)),
            mask(v),
        );
        lemma_mask_idempotent(
            (crate::words::w_rotl(prev.1[i - 1], beta(v), word_bits(v), mask(v)) ^ x1),
            mask(v),
        );
    }
}

/// A word group read from a byte string of whole word groups is in range.
proof fn lemma_word_at_in_range(v: Variant, s: Seq<u8>, i: int)
    requires
        0 <= i,
        (i + 1) * word_bytes(v) <= s.len(),
    ensures
        in_range(word_at(v, s, i), mask(v)),
        word_at(v, s, i) as nat == be_val(s.subrange(i * word_bytes(v), (i + 1) * word_bytes(v))),
{
    lemma_variant_wf(v);
    assert((i + 1) * word_bytes(v) == i * word_bytes(v) + word_bytes(v)) by (nonlinear_arith);
    assert(0 <= i * word_bytes(v)) by (nonlinear_arith)
        requires
            0 <= i,
    ;
    let g = s.subrange(i * word_bytes(v), (i + 1) * word_bytes(v));
    lemma_be_val_bound(g);
    assert(g.len() == word_bytes(v));
    assert(be_val(g) < pow256(word_bytes(v)));
    assert(pow256(word_bytes(v)) == mask(v) + 1);
    lemma_in_range_bound(word_at(v, s, i), word_bits(v), mask(v));
}

/// The schedule of a key of the right length is well-formed.
pub proof fn lemma_schedule_wf(v: Variant, key: Seq<u8>)
    requires
        key.len() == key_bytes(v),
    ensures
        ks_wf(v, schedule_of(v, key)),
{
    lemma_variant_wf(v);
    lemma_sched_wf(v, key, (rounds(v) - 1) as nat);
}

/// After `r` rounds both state words are in range.
proof fn lemma_enc_words_in_range(v: Variant, ks: Seq<u64>, x: u64, y: u64, r: nat)
    requires
        in_range(x, mask(v)),
        in_range(y, mask(v)),
    ensures
        in_range(enc_words(v, ks, x, y, r).0, mask(v)),
        in_range(enc_words(v, ks, x, y, r).1, mask(v)),
    decreases r,
{
    if r > 0 {
        lemma_enc_words_in_range(v, ks, x, y, (r - 1) as nat);
        let prev = enc_words(v, ks, x, y, (r - 1) as nat);
        let x1 = enc_round_x(prev.0, prev.1, ks[r - 1], alpha(v), word_bits(v), mask(v));
        lemma_mask_idempotent(
            (crate::words::w_add(
                crate::words::w_rotr(prev.0, alpha(v), word_bits(v), mask(v)),
                prev.1,
                mask(v),
            ) ^ ks[r - 1]),
            mask(v),
        );
        lemma_mask_idempotent(
            (crate::words::w_rotl(prev.1, beta(v), word_bits(v), mask(v)) ^ x1),
            mask(v),
        );
    }
}

/// The inverse rounds undo the rounds, word for word.
proof fn lemma_words_round_trip(v: Variant, ks: Seq<u64>, x: u64, y: u64, r: nat)
    requires
        ks_wf(v, ks),
        r <= ks.len(),
        in_range(x, mask(v)),
        in_range(y, mask(v)),
    ensures
        dec_words(v, ks, enc_words(v, ks, x, y, r).0, enc_words(v, ks, x, y, r).1, r) == (x, y),
    decreases r,
{
    lemma_variant_wf(v);
    if r > 0 {
        let prev = enc_words(v, ks, x, y, (r - 1) as nat);
        lemma_enc_words_in_range(v, ks, x, y, (r - 1) as nat);
        lemma_round_inverse(prev.0, prev.1, ks[r - 1], alpha(v), beta(v), word_bits(v), mask(v));
        lemma_words_round_trip(v, ks, x, y, (r - 1) as nat);
    }
}

/// Decrypting an encrypted block under the same well-formed schedule gives
/// the block back: the block-level round trip.
pub proof fn lemma_block_round_trip(v: Variant, ks: Seq<u64>, b: Seq<u8>)
    requires
        ks_wf(v, ks),
        b.len() == block_bytes(v),
    ensures
        decrypt_block_spec(v, ks, encrypt_block_spec(v, ks, b)) == b,
{
    lemma_variant_wf(v);
    let wb = word_bytes(v) as int;
    let bx = b.take(wb);
    let by = b.skip(wb);
    lemma_be_val_bound(bx);
    lemma_be_val_bound(by);
    let x = be_val(bx) as u64;
    let y = be_val(by) as u64;
    lemma_in_range_bound(x, word_bits(v), mask(v));
    lemma_in_range_bound(y, word_bits(v), mask(v));
    let xy = enc_words(v, ks, x, y, rounds(v));
    lemma_enc_words_in_range(v, ks, x, y, rounds(v));
    lemma_in_range_bound(xy.0, word_bits(v), mask(v));
    lemma_in_range_bound(xy.1, word_bits(v), mask(v));
    let c = encrypt_block_spec(v, ks, b);
    lemma_be_bytes_len(xy.0 as nat, word_bytes(v));
    lemma_be_bytes_len(xy.1 as nat, word_bytes(v));
    assert(c.take(wb) =~= be_bytes(xy.0 as nat, word_bytes(v)));
    assert(c.skip(wb) =~= be_bytes(xy.1 as nat, word_bytes(v)));
    lemma_be_val_of_bytes(xy.0 as nat, word_bytes(v));
    lemma_be_val_of_bytes(xy.1 as nat, word_bytes(v));
    lemma_words_round_trip(v, ks, x, y, rounds(v));
    lemma_be_bytes_of_val(bx);
    lemma_be_bytes_of_val(by);
    assert(decrypt_block_spec(v, ks, c) =~= b);
}

/// The round trip at the key level: for every variant, every key of the
/// variant's key size and every block of its block size, decrypting the
/// encryption under the schedule of that key gives the block back.
pub proof fn lemma_key_round_trip(v: Variant, key: Seq<u8>, b: Seq<u8>)
    requires
        key.len() == key_bytes(v),
        b.len() == block_bytes(v),
    ensures
        decrypt_block_spec(
            v,
            schedule_of(v, key),
            encrypt_block_spec(v, schedule_of(v, key), b),
        ) == b,
{
    lemma_schedule_wf(v, key);
    lemma_block_round_trip(v, schedule_of(v, key), b);
}

/// A cipher instance: one variant bound to its derived round-key schedule.
/// The raw key is not retained; the schedule is immutable after `init`.
pub struct SpeckCipher {
    variant: Variant,
    round_keys: Vec<u64>,
}

impl SpeckCipher {
    /// The variant this instance was initialized for.
    pub closed spec fn variant_spec(self) -> Variant {
        self.variant
    }

    /// The round-key schedule this instance holds.
    pub closed spec fn keys(self) -> Seq<u64> {
        self.round_keys@
    }

    /// A usable instance: one in-range round key per round.
    pub open spec fn wf(self) -> bool {
        ks_wf(self.variant_spec(), self.keys())
    }

    /// Derives a cipher instance from a raw key, or reports
    /// `InvalidKeyLength` when the key does not have the variant's key size.
    pub fn init(v: Variant, key: &[u8]) -> (r: Result<SpeckCipher, SpeckError>)
        ensures
            key@.len() == key_bytes(v) ==> (r matches Ok(c) && c.wf() && c.variant_spec() == v
                && c.keys() == schedule_of(v, key@)),
            key@.len() != key_bytes(v) ==> r === Err(SpeckError::InvalidKeyLength),
    {
        let p = params(v);
        proof {
            lemma_variant_wf(v);
        }
        if key.len() != p.n_key_words * p.n_word_bytes {
            return Err(SpeckError::InvalidKeyLength);
        }
        let m = p.n_key_words;
        let wb = p.n_word_bytes;
        // Read the initial `l` words (from the right, skipping the last
        // group) and the seed round key `k[0]` (the last group).
        let mut l: Vec<u64> = Vec::new();
        let mut j: usize = 0;
        while j < m - 1
            invariant
                0 <= j <= m - 1,
                m == key_words(v),
                wb == word_bytes(v),
                key@.len() == key_bytes(v),
                1 <= wb <= 8,
                2 <= m <= 4,
                l@.len() == j,
                forall|t: int| 0 <= t < j ==> l@[t] == word_at(v, key@, m - 2 - t),
            decreases m - 1 - j,
        {
            proof {
                lemma_word_slot(m as int - 2 - j, m as int, word_bytes(v));
            }
            let lo = (m - 2 - j) * wb;
            let w = read_word(key, lo, wb);
            proof {
                assert(key@.subrange(lo as int, lo + wb as int) =~= key@.subrange(
                    (m - 2 - j) * word_bytes(v),
                    (m - 2 - j + 1) * word_bytes(v),
                ));
            }
            l.push(w);
            j = j + 1;
        }
        proof {
            lemma_word_slot(m as int - 1, m as int, word_bytes(v));
        }
        let k0 = read_word(key, (m - 1) * wb, wb);
        proof {
            assert(key@.subrange(((m - 1) * wb) as int, ((m - 1) * wb + wb) as int) =~= key@
                .subrange(
                (m - 1) as int * word_bytes(v),
                (m - 1) as int * word_bytes(v) + word_bytes(v),
            ));
        }
        let mut k: Vec<u64> = Vec::new();
        k.push(k0);
        proof {
            assert(l@ =~= sched(v, key@, 0).0);
            assert(k@ =~= sched(v, key@, 0).1);
        }
        // Expand: step i appends `l[i+m-1]` and `k[i+1]`.
        let mut i: usize = 0;
        while i < p.n_rounds - 1
            invariant
                0 <= i <= p.n_rounds - 1,
                p.n_rounds as nat == rounds(v),
                1 <= rounds(v) <= 34,
                p.alpha == alpha(v),
                p.beta == beta(v),
                p.wbits == word_bits(v),
                p.mask == mask(v),
                0 < p.beta < p.alpha < p.wbits <= 64,
                key@.len() == key_bytes(v),
                2 <= key_words(v),
                l@ == sched(v, key@, i as nat).0,
                k@ == sched(v, key@, i as nat).1,
            decreases p.n_rounds - 1 - i,
        {
            proof {
                lemma_sched_wf(v, key@, i as nat);
            }
            let xy = enc_round_exec(l[i], k[i], i as u64, p.alpha, p.beta, p.wbits, p.mask);
            l.push(xy.0);
            k.push(xy.1);
            i = i + 1;
            proof {
                assert(l@ =~= sched(v, key@, i as nat).0);
                assert(k@ =~= sched(v, key@, i as nat).1);
            }
        }
        proof {
            lemma_schedule_wf(v, key@);
        }
        Ok(SpeckCipher { variant: v, round_keys: k })
    }

    /// Encrypts one block, or reports `InvalidBlockLength` when the block
    /// does not have the variant's block size.
    pub fn encrypt_block(&self, block: &[u8]) -> (r: Result<Vec<u8>, SpeckError>)
        requires
            self.wf(),
        ensures
            block@.len() == block_bytes(self.variant_spec()) ==> (r matches Ok(out) && out@
                == encrypt_block_spec(self.variant_spec(), self.keys(), block@) && out@.len()
                == block@.len()),
            block@.len() != block_bytes(self.variant_spec()) ==> r === Err(
                SpeckError::InvalidBlockLength,
            ),
    {
        let v = self.variant;
        let p = params(v);
        proof {
            lemma_variant_wf(v);
        }
        if block.len() != 2 * p.n_word_bytes {
            return Err(SpeckError::InvalidBlockLength);
        }
        Ok(self.encrypt_block_raw(block))
    }

    /// Encrypts one block whose length is already known to be right.
    pub(crate) fn encrypt_block_raw(&self, block: &[u8]) -> (out: Vec<u8>)
        requires
            self.wf(),
            block@.len() == block_bytes(self.variant_spec()),
        ensures
            out@ == encrypt_block_spec(self.variant_spec(), self.keys(), block@),
            out@.len() == block_bytes(self.variant_spec()),
    {
        let v = self.variant;
        let p = params(v);
        proof {
            lemma_variant_wf(v);
        }
        let wb = p.n_word_bytes;
        let mut x = read_word(block, 0, wb);
        let mut y = read_word(block, wb, wb);
        proof {
            assert(block@.subrange(0, wb as int) =~= block@.take(wb as int));
            assert(block@.subrange(wb as int, 2 * wb as int) =~= block@.skip(wb as int));
        }
        let ghost x0 = x;
        let ghost y0 = y;
        let mut i: usize = 0;
        while i < p.n_rounds
            invariant
                0 <= i <= p.n_rounds,
                self.wf(),
                v == self.variant_spec(),
                p.n_rounds as nat == rounds(v),
                p.alpha == alpha(v),
                p.beta == beta(v),
                p.wbits == word_bits(v),
                p.mask == mask(v),
                0 < p.beta < p.alpha < p.wbits <= 64,
                (x, y) == enc_words(v, self.keys(), x0, y0, i as nat),
            decreases p.n_rounds - i,
        {
            let rk = *self.round_keys_at(i);
            let xy = enc_round_exec(x, y, rk, p.alpha, p.beta, p.wbits, p.mask);
            x = xy.0;
            y = xy.1;
            i = i + 1;
        }
        let mut out = be_bytes_vec(x as u128, wb);
        let mut out_y = be_bytes_vec(y as u128, wb);
        out.append(&mut out_y);
        proof {
            lemma_word_cast_roundtrip(v, x);
            lemma_word_cast_roundtrip(v, y);
            lemma_be_bytes_len(x as nat, word_bytes(v));
            lemma_be_bytes_len(y as nat, word_bytes(v));
            assert(out@ =~= encrypt_block_spec(v, self.keys(), block@));
        }
        out
    }

    /// Decrypts one block, or reports `InvalidBlockLength` when the block
    /// does not have the variant's block size.
    pub fn decrypt_block(&self, block: &[u8]) -> (r: Result<Vec<u8>, SpeckError>)
        requires
            self.wf(),
        ensures
            block@.len() == block_bytes(self.variant_spec()) ==> (r matches Ok(out) && out@
                == decrypt_block_spec(self.variant_spec(), self.keys(), block@) && out@.len()
                == block@.len()),
            block@.len() != block_bytes(self.variant_spec()) ==> r === Err(
                SpeckError::InvalidBlockLength,
            ),
    {
        let v = self.variant;
        let p = params(v);
        proof {
            lemma_variant_wf(v);
        }
        if block.len() != 2 * p.n_word_bytes {
            return Err(SpeckError::InvalidBlockLength);
        }
        let wb = p.n_word_bytes;
        let mut x = read_word(block, 0, wb);
        let mut y = read_word(block, wb, wb);
        proof {
            assert(block@.subrange(0, wb as int) =~= block@.take(wb as int));
            assert(block@.subrange(wb as int, 2 * wb as int) =~= block@.skip(wb as int));
        }
        let ghost x0 = x;
        let ghost y0 = y;
        let mut i: usize = p.n_rounds;
        while i > 0
            invariant
                0 <= i <= p.n_rounds,
                self.wf(),
                v == self.variant_spec(),
                p.n_rounds as nat == rounds(v),
                p.alpha == alpha(v),
                p.beta == beta(v),
                p.wbits == word_bits(v),
                p.mask == mask(v),
                0 < p.beta < p.alpha < p.wbits <= 64,
                dec_words(v, self.keys(), x, y, i as nat) == dec_words(
                    v,
                    self.keys(),
                    x0,
                    y0,
                    rounds(v),
                ),
            decreases i,
        {
            let rk = *self.round_keys_at(i - 1);
            let xy = dec_round_exec(x, y, rk, p.alpha, p.beta, p.wbits, p.mask);
            x = xy.0;
            y = xy.1;
            i = i - 1;
        }
        let mut out = be_bytes_vec(x as u128, wb);
        let mut out_y = be_bytes_vec(y as u128, wb);
        out.append(&mut out_y);
        proof {
            lemma_word_cast_roundtrip(v, x);
            lemma_word_cast_roundtrip(v, y);
            lemma_be_bytes_len(x as nat, word_bytes(v));
            lemma_be_bytes_len(y as nat, word_bytes(v));
            assert(out@ =~= decrypt_block_spec(v, self.keys(), block@));
        }
        Ok(out)
    }

    /// The variant this instance was initialized for.
    pub fn variant(&self) -> (v: Variant)
        ensures
            v == self.variant_spec(),
    {
        self.variant
    }

    /// One round key, by index.
    fn round_keys_at(&self, i: usize) -> (rk: &u64)
        requires
            i < self.keys().len(),
        ensures
            *rk == self.keys()[i as int],
    {
        &self.round_keys[i]
    }
}

/// Word group `i` of `n` occupies bytes `i*wb .. (i+1)*wb`, inside the
/// `n*wb` bytes of the whole string.
proof fn lemma_word_slot(i: int, n: int, wb: nat)
    requires
        0 <= i < n,
        n <= 4,
        wb <= 8,
    ensures
        0 <= i * wb <= 24,
        (i + 1) * wb == i * wb + wb,
        (i + 1) * wb <= n * wb,
{
    assert(0 <= i * wb <= 24 && (i + 1) * wb == i * wb + wb && (i + 1) * wb <= n * wb)
        by (nonlinear_arith)
        requires
            0 <= i < n,
            n <= 4,
            0 <= wb <= 8,
    ;
}

/// Casting a word through `u128` and back preserves it.
proof fn lemma_word_cast_roundtrip(v: Variant, x: u64)
    ensures
        (x as u128) as nat == x as nat,
{
}

/// Reads one big-endian word of `wb` bytes starting at `lo`.
fn read_word(s: &[u8], lo: usize, wb: usize) -> (w: u64)
    requires
        1 <= wb <= 8,
        lo + wb <= s@.len(),
    ensures
        w as nat == be_val(s@.subrange(lo as int, lo + wb as int)),
        (w as nat) < pow256(wb as nat),
{
    let n = s.len();
    let g = &s[lo..lo + wb];
    proof {
        lemma_be_val_bound(g@);
        lemma_pow256_le(wb as nat, 16);
        crate::bytes::lemma_pow256_16();
        lemma_pow256_le(wb as nat, 8);
        reveal_with_fuel(pow256, 9);
    }
    let w128 = be_val_u128(g);
    w128 as u64
}

} // verus!
