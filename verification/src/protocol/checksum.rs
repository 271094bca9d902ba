use vstd::prelude::*;

verus! {

/// The big-endian 16-bit value of two bytes.
pub open spec fn be16(hi: u8, lo: u8) -> nat {
    (hi as nat) * 256 + (lo as nat)
}

/// The plain (unfolded) sum of the big-endian 16-bit words of `data`; an odd
/// trailing byte counts as the high byte of a word whose low byte is zero.
pub open spec fn word_sum(data: Seq<u8>) -> nat
    decreases data.len(),
{
    if data.len() == 0 {
        0
    } else if data.len() == 1 {
        be16(data[0], 0)
    } else {
        be16(data[0], data[1]) + word_sum(data.subrange(2, data.len() as int))
    }
}

/// One's-complement folding of a sum into 16 bits: zero stays zero, every
/// other value becomes the member of `1..=0xffff` congruent to it modulo `0xffff`.
pub open spec fn fold16(sum: nat) -> nat {
    if sum == 0 {
        0
    } else {
        ((sum - 1) as nat) % 0xffff + 1
    }
}

/// The Internet checksum of `data`: the one's complement of the folded word sum.
pub open spec fn internet_checksum(data: Seq<u8>) -> u16 {
    (0xffff - fold16(word_sum(data))) as u16
}

proof fn lemma_fold16_shift(a: nat)
    requires
        a >= 1,
    ensures
        fold16(a + 0xffff) == fold16(a),
{
    assert(((a + 0xffff - 1) as nat) % 0xffff == ((a - 1) as nat) % 0xffff) by {
        vstd::arithmetic::div_mod::lemma_mod_add_multiples_vanish((a - 1) as int, 0xffff);
    }
}

proof fn lemma_fold16_small(a: nat)
    requires
        a <= 0xffff,
    ensures
        fold16(a) == a,
{
    if a > 0 {
        vstd::arithmetic::div_mod::lemma_small_mod((a - 1) as nat, 0xffff);
    }
}

/// Adding a word and folding the carry keeps the running sum within 16 bits
/// and congruent to the unfolded sum.
proof fn lemma_fold_step(x: u32, rest: nat)
    requires
        x <= 0x1fffe,
    ensures
        (x & 0xffff) + (x >> 16) <= 0xffff,
        fold16(((x & 0xffff) + (x >> 16)) as nat + rest) == fold16(x as nat + rest),
{
    assert(x >= 0x10000 ==> (x & 0xffff) + (x >> 16) == x - 0xffff) by (bit_vector)
        requires
            x <= 0x1fffe,
    ;
    assert(x < 0x10000 ==> (x & 0xffff) + (x >> 16) == x) by (bit_vector);
    if x >= 0x10000 {
        lemma_fold16_shift((x - 0xffff) as nat + rest);
    }
}

proof fn lemma_word_sum_step(data: Seq<u8>, i: int)
    requires
        0 <= i,
        i + 2 <= data.len(),
    ensures
        word_sum(data.subrange(i, data.len() as int)) == be16(data[i], data[i + 1]) + word_sum(
            data.subrange(i + 2, data.len() as int),
        ),
{
    let s = data.subrange(i, data.len() as int);
    assert(s.subrange(2, s.len() as int) =~= data.subrange(i + 2, data.len() as int));
}

/// Computes the Internet checksum (RFC 1071) of `data`.
pub fn checksum16(data: &[u8]) -> (r: u16)
    ensures
        r == internet_checksum(data@),
{
    let len = data.len();
    let mut sum: u32 = 0;
    let mut i: usize = 0;
    assert(data@.subrange(0, len as int) =~= data@);
    while i < len && len - i >= 2
        invariant
            len == data@.len(),
            i <= len,
            sum <= 0xffff,
            fold16(sum as nat + word_sum(data@.subrange(i as int, len as int))) == fold16(
                word_sum(data@),
            ),
        decreases len - i,
    {
        proof {
            lemma_word_sum_step(data@, i as int);
        }
        let raw: u32 = sum + (data[i] as u32) * 256 + data[i + 1] as u32;
        proof {
            lemma_fold_step(raw, word_sum(data@.subrange(i + 2, len as int)));
        }
        sum = (raw & 0xffff) + (raw >> 16);
        i = i + 2;
    }
    if i < len {
        let raw: u32 = sum + (data[i] as u32) * 256;
        proof {
            let s = data@.subrange(i as int, len as int);
            assert(s.len() == 1);
            assert(word_sum(data@.subrange(len as int, len as int)) == 0);
            lemma_fold_step(raw, 0);
        }
        sum = (raw & 0xffff) + (raw >> 16);
        i = len;
    }
    proof {
        assert(word_sum(data@.subrange(len as int, len as int)) == 0);
    }
    while sum >> 16 != 0
        invariant
            sum <= 0xffff,
            fold16(sum as nat) == fold16(word_sum(data@)),
        decreases sum,
    {
        assert(sum <= 0xffff ==> sum >> 16 == 0) by (bit_vector);
        sum = (sum & 0xffff) + (sum >> 16);
    }
    proof {
        lemma_fold16_small(sum as nat);
    }
    let folded: u16 = sum as u16;
    assert(!folded == 0xffff - folded) by (bit_vector);
    !folded
}

/// Replacing the word at even offset `k` changes the word sum by the
/// difference of the two words.
pub proof fn lemma_word_sum_replace(data: Seq<u8>, k: int, hi: u8, lo: u8)
    requires
        0 <= k,
        k % 2 == 0,
        k + 2 <= data.len(),
    ensures
        word_sum(data.update(k, hi).update(k + 1, lo)) + be16(data[k], data[k + 1]) == word_sum(
            data,
        ) + be16(hi, lo),
    decreases k,
{
    let d2 = data.update(k, hi).update(k + 1, lo);
    if k == 0 {
        assert(d2.subrange(2, d2.len() as int) =~= data.subrange(2, data.len() as int));
    } else {
        let rest = data.subrange(2, data.len() as int);
        lemma_word_sum_replace(rest, k - 2, hi, lo);
        assert(d2.subrange(2, d2.len() as int) =~= rest.update(k - 2, hi).update(k - 1, lo));
    }
}

/// Writing the checksum of a message into a zeroed, word-aligned field of
/// that message makes the message check: its checksum becomes zero.
pub proof fn lemma_checksum_fills_field(data: Seq<u8>, k: int)
    requires
        0 <= k,
        k % 2 == 0,
        k + 2 <= data.len(),
        data[k] == 0,
        data[k + 1] == 0,
    ensures
        ({
            let c = internet_checksum(data);
            internet_checksum(data.update(k, (c / 256) as u8).update(k + 1, (c % 256) as u8)) == 0
        }),
{
    let c = internet_checksum(data);
    let s = word_sum(data);
    lemma_word_sum_replace(data, k, (c / 256) as u8, (c % 256) as u8);
    let f = fold16(s);
    assert(be16((c / 256) as u8, (c % 256) as u8) == c);
    let t = s + 0xffff - f;
    assert(f <= s) by {
        if s > 0 {
            vstd::arithmetic::div_mod::lemma_mod_bound((s - 1) as int, 0xffff);
            vstd::arithmetic::div_mod::lemma_mod_is_mod_recursive((s - 1) as int, 0xffff);
            assert(((s - 1) as nat) % 0xffff <= (s - 1)) by {
                vstd::arithmetic::div_mod::lemma_mod_decreases((s - 1) as nat, 0xffff);
            }
        }
    }
    assert(fold16(t as nat) == 0xffff) by {
        if s == 0 {
            assert(t == 0xffff);
        } else {
            // s - 1 == q * 0xffff + (f - 1), so t - 1 == (q + 1) * 0xffff - 1
            let q = ((s - 1) as nat) / 0xffff;
            vstd::arithmetic::div_mod::lemma_fundamental_div_mod((s - 1) as int, 0xffff);
            assert(t - 1 == (q + 1) * 0xffff - 1);
            assert(((t - 1) as nat) % 0xffff == 0xfffe) by {
                vstd::arithmetic::div_mod::lemma_fundamental_div_mod_converse(
                    (t - 1) as int,
                    0xffff,
                    q as int,
                    0xfffe,
                );
            }
        }
    }
}

} // verus!
