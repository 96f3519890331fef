//! Building an ICMP echo-request packet: the 8-byte header and the
//! Internet checksum over 16-bit big-endian words with end-around carry.

use vstd::prelude::*;

verus! {

/// Sum of the big-endian 16-bit words of a byte string; an odd trailing
/// byte counts as the high byte of a final word.
pub open spec fn words_sum(data: Seq<u8>) -> int
    decreases data.len(),
{
    if data.len() == 0 {
        0
    } else if data.len() == 1 {
        data[0] * 256
    } else {
        data[0] * 256 + data[1] + words_sum(data.skip(2))
    }
}

pub proof fn lemma_words_sum_bounds(data: Seq<u8>)
    ensures
        0 <= words_sum(data) <= (data.len() + 1) / 2 * 65535,
    decreases data.len(),
{
    if data.len() >= 2 {
        lemma_words_sum_bounds(data.skip(2));
    }
}

/// Folds the carry bits of a word sum back in until it fits 16 bits.
pub open spec fn fold_carries(sum: nat) -> nat
    decreases sum,
{
    if sum < 0x10000 {
        sum
    } else {
        fold_carries((sum % 0x10000) + (sum / 0x10000))
    }
}

/// The Internet checksum: one's complement of the folded word sum.
pub open spec fn spec_checksum(data: Seq<u8>) -> u16 {
    (0xffff - fold_carries(words_sum(data) as nat)) as u16
}

/// Computes the Internet checksum of a byte string.
pub fn calculate_checksum(data: &[u8]) -> (r: u16)
    requires
        data@.len() <= 65536,
    ensures
        r == spec_checksum(data@),
{
    let n = data.len();
    let mut sum: u32 = 0;
    let mut i: usize = 0;
    proof {
        assert(data@.skip(0) =~= data@);
        lemma_words_sum_bounds(data@);
    }
    while i < n
        invariant
            0 <= i <= n,
            n == data@.len() <= 65536,
            sum + words_sum(data@.skip(i as int)) == words_sum(data@),
            0 <= words_sum(data@) <= 0x7fff_ffff,
            0 <= sum <= words_sum(data@),
        decreases n - i,
    {
        proof {
            lemma_words_sum_bounds(data@.skip(i as int));
        }
        if i + 1 < n {
            let word: u32 = (data[i] as u32) * 256 + (data[i + 1] as u32);
            proof {
                assert(data@.skip(i as int)[0] == data@[i as int]);
                assert(data@.skip(i as int)[1] == data@[i + 1]);
                assert(data@.skip(i as int).skip(2) =~= data@.skip(i + 2));
                lemma_words_sum_bounds(data@.skip(i + 2));
            }
            sum = sum + word;
            i = i + 2;
        } else {
            let word: u32 = (data[i] as u32) * 256;
            proof {
                assert(data@.skip(i as int).len() == 1);
                assert(data@.skip(i as int)[0] == data@[i as int]);
            }
            sum = sum + word;
            i = i + 1;
        }
    }
    proof {
        assert(data@.skip(n as int) =~= Seq::<u8>::empty());
    }
    let mut s: u32 = sum;
    while s >= 0x10000
        invariant
            fold_carries(s as nat) == fold_carries(sum as nat),
        decreases s,
    {
        let next = (s % 0x10000) + (s / 0x10000);
        proof {
            assert(s == 0x10000 * (s as int / 0x10000) + (s as int % 0x10000));
            assert(s / 0x10000 >= 1);
            assert(next < s);
        }
        s = next;
    }
    0xffff - (s as u16)
}

/// The echo-request header before its checksum is filled in: type 8,
/// code 0, a zero checksum, then identifier and sequence, each low byte
/// first.
pub open spec fn spec_icmp_base(ident: u16, sequence: u16) -> Seq<u8> {
    seq![
        8u8,
        0u8,
        0u8,
        0u8,
        (ident as int % 256) as u8,
        (ident as int / 256) as u8,
        (sequence as int % 256) as u8,
        (sequence as int / 256) as u8,
    ]
}

/// The finished packet: the base header with its own checksum written into
/// bytes 2 and 3, low byte first.
pub open spec fn spec_icmp_packet(ident: u16, sequence: u16) -> Seq<u8> {
    let ck = spec_checksum(spec_icmp_base(ident, sequence));
    spec_icmp_base(ident, sequence).update(2, (ck as int % 256) as u8).update(
        3,
        (ck as int / 256) as u8,
    )
}

/// Builds an ICMP echo-request packet for one identifier and sequence
/// number.
pub fn create_icmp_packet(ident: u16, sequence: u16) -> (r: Vec<u8>)
    ensures
        r@ == spec_icmp_packet(ident, sequence),
        r@.len() == 8,
{
    let mut packet: Vec<u8> = Vec::new();
    packet.push(8);
    packet.push(0);
    packet.push(0);
    packet.push(0);
    packet.push((ident % 256) as u8);
    packet.push((ident / 256) as u8);
    packet.push((sequence % 256) as u8);
    packet.push((sequence / 256) as u8);
    proof {
        assert(packet@ =~= spec_icmp_base(ident, sequence));
    }
    let ck = calculate_checksum(packet.as_slice());
    packet.set(2, (ck % 256) as u8);
    packet.set(3, (ck / 256) as u8);
    proof {
        assert(packet@ =~= spec_icmp_packet(ident, sequence));
    }
    packet
}

} // verus!
