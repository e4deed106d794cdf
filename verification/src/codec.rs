//! ICMPv4 Echo packet codec: builds Echo Request packets carrying an
//! RFC-792 one's-complement checksum and recognizes Echo Replies in raw
//! inbound buffers that may start with an IPv4 header.

use vstd::prelude::*;
use vstd::pervasive::VecAdditionalExecFns;

verus! {

use vstd::arithmetic::div_mod::{
    lemma_fundamental_div_mod,
    lemma_mod_multiples_vanish,
    lemma_add_mod_noop,
};

/// Sum of the 16-bit big-endian words of `data`. A trailing odd byte is
/// the high byte of a final word, so it contributes `byte * 256`.
pub open spec fn sum_words(data: Seq<u8>) -> nat
    decreases data.len(),
{
    if data.len() >= 2 {
        (data[0] as nat) * 256 + (data[1] as nat) + sum_words(data.skip(2))
    } else if data.len() == 1 {
        (data[0] as nat) * 256
    } else {
        0
    }
}

/// Folds the carries above bit 16 back into the low 16 bits, repeatedly,
/// until the value fits in 16 bits.
pub open spec fn fold_carries(x: nat) -> nat
    decreases x,
    via fold_carries_decreases
{
    if x < 0x10000 {
        x
    } else {
        fold_carries(x % 0x10000 + x / 0x10000)
    }
}

#[via_fn]
proof fn fold_carries_decreases(x: nat) {
    if x >= 0x10000 {
        lemma_fundamental_div_mod(x as int, 0x10000);
    }
}

/// RFC-792 checksum: the one's complement of the carry-folded sum of the
/// 16-bit big-endian words of `data`.
pub open spec fn checksum_spec(data: Seq<u8>) -> u16 {
    (0xFFFF - fold_carries(sum_words(data))) as u16
}

/// The folded sum stays within 16 bits and, for a positive argument, is
/// exactly the representative of `x` modulo `0xFFFF` drawn from
/// `1 ..= 0xFFFF` (one's-complement arithmetic identifies `0` and `0xFFFF`).
pub proof fn lemma_fold_carries_form(x: nat)
    ensures
        fold_carries(x) <= 0xFFFF,
        x == 0 ==> fold_carries(x) == 0,
        x > 0 ==> fold_carries(x) == (x - 1) % 0xFFFF + 1,
    decreases x,
{
    if x >= 0x10000 {
        let q = x / 0x10000;
        let r = x % 0x10000;
        lemma_fundamental_div_mod(x as int, 0x10000);
        assert(q >= 1);
        lemma_fold_carries_form((r + q) as nat);
        assert(x - 1 == 0xFFFF * q + (q + r - 1));
        lemma_mod_multiples_vanish(q as int, q + r - 1, 0xFFFF);
        assert((x - 1) % 0xFFFF == (q + r - 1) % 0xFFFF);
    }
}

/// Folding the left summand first does not change the folded sum.
pub proof fn lemma_fold_carries_add(a: nat, b: nat)
    ensures
        fold_carries(fold_carries(a) + b) == fold_carries(a + b),
{
    if a > 0 {
        lemma_fold_carries_form(a);
        let fa = fold_carries(a);
        lemma_fold_carries_form(fa + b);
        lemma_fold_carries_form(a + b);
        assert(fa >= 1);
        assert((fa + b - 1) % 0xFFFF == (a + b - 1) % 0xFFFF) by {
            assert(fa - 1 == (a - 1) % 0xFFFF);
            lemma_add_mod_noop((a - 1) as int, 1 + b - 1, 0xFFFF);
            lemma_add_mod_noop(((a - 1) % 0xFFFF) as int, 1 + b - 1, 0xFFFF);
        };
    }
}

/// Appending the next full word extends the word sum by that word.
proof fn lemma_sum_words_extend_pair(s: Seq<u8>, i: int)
    requires
        0 <= i,
        i % 2 == 0,
        i + 2 <= s.len(),
    ensures
        sum_words(s.take(i + 2)) == sum_words(s.take(i)) + (s[i] as nat) * 256 + (s[i + 1] as nat),
    decreases i,
{
    if i == 0 {
        assert(s.take(2).skip(2) =~= Seq::<u8>::empty());
        assert(s.take(0) =~= Seq::<u8>::empty());
    } else {
        assert(s.take(i + 2).skip(2) =~= s.skip(2).take(i));
        assert(s.take(i).skip(2) =~= s.skip(2).take(i - 2));
        lemma_sum_words_extend_pair(s.skip(2), i - 2);
    }
}

/// Appending a final odd byte extends the word sum by `byte * 256`.
proof fn lemma_sum_words_extend_byte(s: Seq<u8>, i: int)
    requires
        0 <= i,
        i % 2 == 0,
        i + 1 <= s.len(),
    ensures
        sum_words(s.take(i + 1)) == sum_words(s.take(i)) + (s[i] as nat) * 256,
    decreases i,
{
    if i == 0 {
        assert(s.take(0) =~= Seq::<u8>::empty());
        assert(s.take(1).len() == 1);
    } else {
        assert(s.take(i + 1).skip(2) =~= s.skip(2).take(i - 1));
        assert(s.take(i).skip(2) =~= s.skip(2).take(i - 2));
        lemma_sum_words_extend_byte(s.skip(2), i - 2);
    }
}

/// Computes the RFC-792 checksum of `data`: sums the 16-bit big-endian
/// words (a trailing odd byte is the high byte of a final word), folds
/// carries back into the low 16 bits and returns the one's complement.
pub fn checksum(data: &[u8]) -> (r: u16)
    ensures
        r == checksum_spec(data@),
{
    let n: usize = data.len();
    let mut i: usize = 0;
    let mut sum: u32 = 0;
    while i + 1 < n
        invariant
            i <= n,
            i % 2 == 0,
            n == data@.len(),
            sum <= 0xFFFF,
            sum as nat == fold_carries(sum_words(data@.take(i as int))),
        decreases n - i,
    {
        let w: u32 = (data[i] as u32) * 256 + (data[i + 1] as u32);
        let ghost prev = sum as nat;
        sum = sum + w;
        if sum > 0xFFFF {
            sum = sum - 0xFFFF;
        }
        proof {
            let total = prev + (w as nat);
            assert(fold_carries(total) == sum as nat) by {
                if total >= 0x10000 {
                    lemma_fundamental_div_mod(total as int, 0x10000);
                    assert(total / 0x10000 == 1 && total % 0x10000 == total - 0x10000);
                    assert(fold_carries((total - 0xFFFF) as nat) == total - 0xFFFF);
                }
            };
            lemma_sum_words_extend_pair(data@, i as int);
            lemma_fold_carries_add(sum_words(data@.take(i as int)), w as nat);
        }
        i = i + 2;
    }
    if i < n {
        let w: u32 = (data[i] as u32) * 256;
        let ghost prev = sum as nat;
        sum = sum + w;
        if sum > 0xFFFF {
            sum = sum - 0xFFFF;
        }
        proof {
            let total = prev + (w as nat);
            assert(fold_carries(total) == sum as nat) by {
                if total >= 0x10000 {
                    lemma_fundamental_div_mod(total as int, 0x10000);
                    assert(total / 0x10000 == 1 && total % 0x10000 == total - 0x10000);
                    assert(fold_carries((total - 0xFFFF) as nat) == total - 0xFFFF);
                }
            };
            lemma_sum_words_extend_byte(data@, i as int);
            lemma_fold_carries_add(sum_words(data@.take(i as int)), w as nat);
        }
        i = i + 1;
    }
    proof {
        assert(data@.take(n as int) =~= data@);
    }
    0xFFFFu16 - (sum as u16)
}

/// High byte of a 16-bit value in big-endian order.
pub open spec fn be_hi(x: u16) -> u8 {
    (x / 256) as u8
}

/// Low byte of a 16-bit value in big-endian order.
pub open spec fn be_lo(x: u16) -> u8 {
    (x % 256) as u8
}

/// The 8-byte ICMP Echo Request header: type 8, code 0, then checksum,
/// identifier and sequence number, each big-endian.
pub open spec fn echo_request_header(ident: u16, seq_no: u16, csum: u16) -> Seq<u8> {
    seq![8u8, 0u8, be_hi(csum), be_lo(csum), be_hi(ident), be_lo(ident), be_hi(seq_no), be_lo(seq_no)]
}

/// A complete Echo Request packet: the header whose checksum field holds
/// the checksum of the same packet with that field zeroed, then the payload.
pub open spec fn echo_request_spec(ident: u16, seq_no: u16, payload: Seq<u8>) -> Seq<u8> {
    echo_request_header(ident, seq_no, checksum_spec(echo_request_header(ident, seq_no, 0) + payload)) + payload
}

/// The word sum of an Echo Request header is `0x0800` (type and code)
/// plus the three big-endian fields read back as 16-bit values.
proof fn lemma_sum_words_header(ident: u16, seq_no: u16, csum: u16)
    ensures
        sum_words(echo_request_header(ident, seq_no, csum))
            == 0x0800 + csum + ident + seq_no,
{
    let h = echo_request_header(ident, seq_no, csum);
    reveal_with_fuel(sum_words, 6);
    lemma_fundamental_div_mod(csum as int, 256);
    lemma_fundamental_div_mod(ident as int, 256);
    lemma_fundamental_div_mod(seq_no as int, 256);
    assert(h.skip(2) =~= seq![be_hi(csum), be_lo(csum), be_hi(ident), be_lo(ident), be_hi(seq_no), be_lo(seq_no)]);
    assert(h.skip(2).skip(2) =~= seq![be_hi(ident), be_lo(ident), be_hi(seq_no), be_lo(seq_no)]);
    assert(h.skip(2).skip(2).skip(2) =~= seq![be_hi(seq_no), be_lo(seq_no)]);
    assert(h.skip(2).skip(2).skip(2).skip(2) =~= Seq::<u8>::empty());
    assert(sum_words(h.skip(2).skip(2).skip(2)) == (be_hi(seq_no) as nat) * 256 + (be_lo(seq_no) as nat));
    assert(sum_words(h.skip(2).skip(2)) == (be_hi(ident) as nat) * 256 + (be_lo(ident) as nat) + sum_words(h.skip(2).skip(2).skip(2)));
    assert(sum_words(h.skip(2)) == (be_hi(csum) as nat) * 256 + (be_lo(csum) as nat) + sum_words(h.skip(2).skip(2)));
}

/// The word sum of a concatenation splits at an even boundary.
proof fn lemma_sum_words_append_even(a: Seq<u8>, b: Seq<u8>)
    requires
        a.len() % 2 == 0,
    ensures
        sum_words(a + b) == sum_words(a) + sum_words(b),
    decreases a.len(),
{
    if a.len() == 0 {
        assert(a + b =~= b);
    } else {
        assert((a + b).skip(2) =~= a.skip(2) + b);
        lemma_sum_words_append_even(a.skip(2), b);
    }
}

/// Checksum self-verification: recomputing the checksum over a complete
/// Echo Request packet, checksum field included, yields zero.
pub proof fn lemma_echo_request_self_verifying(ident: u16, seq_no: u16, payload: Seq<u8>)
    ensures
        checksum_spec(echo_request_spec(ident, seq_no, payload)) == 0,
{
    let zeroed = echo_request_header(ident, seq_no, 0) + payload;
    let s0 = sum_words(zeroed);
    lemma_sum_words_header(ident, seq_no, 0);
    lemma_sum_words_append_even(echo_request_header(ident, seq_no, 0), payload);
    lemma_fold_carries_form(s0);
    assert(s0 >= 0x0800);
    let c = checksum_spec(zeroed);
    assert(c == 0xFFFF - fold_carries(s0));
    lemma_sum_words_header(ident, seq_no, c as u16);
    lemma_sum_words_append_even(echo_request_header(ident, seq_no, c as u16), payload);
    let sf = sum_words(echo_request_spec(ident, seq_no, payload));
    assert(sf == s0 + c);
    let m = (s0 - 1) % 0xFFFF;
    assert(fold_carries(s0) == m + 1);
    let k = (s0 - 1) / 0xFFFF;
    lemma_fundamental_div_mod(s0 - 1, 0xFFFF);
    assert(sf - 1 == 0xFFFF * k + 0xFFFE);
    lemma_mod_multiples_vanish(k, 0xFFFE, 0xFFFF);
    lemma_fold_carries_form(sf);
    assert(fold_carries(sf) == 0xFFFF);
}

/// Padding an odd-length buffer with a trailing zero byte leaves the
/// checksum unchanged: the implicit padding of the odd byte is explicit.
pub proof fn lemma_checksum_zero_pad(s: Seq<u8>)
    requires
        s.len() % 2 == 1,
    ensures
        checksum_spec(s.push(0)) == checksum_spec(s),
{
    lemma_sum_words_push_zero(s);
}

/// The word sum ignores a zero byte appended to an odd-length buffer.
proof fn lemma_sum_words_push_zero(s: Seq<u8>)
    requires
        s.len() % 2 == 1,
    ensures
        sum_words(s.push(0)) == sum_words(s),
    decreases s.len(),
{
    reveal_with_fuel(sum_words, 2);
    if s.len() == 1 {
        assert(s.push(0).skip(2) =~= Seq::<u8>::empty());
        assert(s.push(0)[0] == s[0] && s.push(0)[1] == 0);
    } else {
        assert(s.push(0).skip(2) =~= s.skip(2).push(0));
        assert(s.push(0)[0] == s[0] && s.push(0)[1] == s[1]);
        lemma_sum_words_push_zero(s.skip(2));
    }
}

/// Builds an ICMPv4 Echo Request: an 8-byte header (type 8, code 0,
/// checksum, identifier and sequence number in big-endian order) followed
/// by `payload`, with the checksum computed over the whole packet.
pub fn build_echo_request(ident: u16, seq_no: u16, payload: &[u8]) -> (pkt: Vec<u8>)
    requires
        payload@.len() + 8 <= usize::MAX,
    ensures
        pkt@ == echo_request_spec(ident, seq_no, payload@),
        pkt@.len() == 8 + payload@.len(),
{
    let mut pkt: Vec<u8> = Vec::new();
    pkt.push(8u8);
    pkt.push(0u8);
    pkt.push(0u8);
    pkt.push(0u8);
    pkt.push((ident / 256) as u8);
    pkt.push((ident % 256) as u8);
    pkt.push((seq_no / 256) as u8);
    pkt.push((seq_no % 256) as u8);
    proof {
        assert(pkt@ =~= echo_request_header(ident, seq_no, 0));
    }
    let mut k: usize = 0;
    while k < payload.len()
        invariant
            k <= payload@.len(),
            payload@.len() + 8 <= usize::MAX,
            pkt@ == echo_request_header(ident, seq_no, 0) + payload@.take(k as int),
        decreases payload@.len() - k,
    {
        pkt.push(payload[k]);
        proof {
            assert(pkt@ =~= echo_request_header(ident, seq_no, 0) + payload@.take(k + 1));
        }
        k = k + 1;
    }
    proof {
        assert(payload@.take(payload@.len() as int) =~= payload@);
    }
    let csum: u16 = checksum(pkt.as_slice());
    pkt.set(2, (csum / 256) as u8);
    pkt.set(3, (csum % 256) as u8);
    proof {
        assert(pkt@ =~= echo_request_spec(ident, seq_no, payload@));
    }
    pkt
}

/// The ICMP fields read out of an inbound datagram: message type, code,
/// identifier, sequence number, and the byte length of the ICMP portion.
#[derive(Clone, Copy, Debug, PartialEq, Eq, Structural)]
pub struct EchoReply {
    pub icmp_type: u8,
    pub code: u8,
    pub ident: u16,
    pub seq_no: u16,
    pub byte_len: usize,
}

/// How many leading bytes of an inbound buffer belong to an IPv4 header:
/// with at least 20 bytes received and a version nibble of 4, the header
/// is `IHL * 4` bytes long; otherwise the ICMP message starts at byte 0.
pub open spec fn ipv4_skip(buffer: Seq<u8>, n: int) -> int {
    if n >= 20 && buffer[0] / 16 == 4 {
        (buffer[0] % 16) * 4
    } else {
        0
    }
}

/// What `try_parse_echo_reply` returns: `None` when fewer than 8 ICMP
/// bytes remain after the IPv4 header, else the fields at the offsets the
/// header skip dictates, identifier and sequence number big-endian.
pub open spec fn parse_echo_reply_spec(buffer: Seq<u8>, n: int) -> Option<EchoReply> {
    let skip = ipv4_skip(buffer, n);
    if n < skip + 8 {
        None
    } else {
        Some(EchoReply {
            icmp_type: buffer[skip],
            code: buffer[skip + 1],
            ident: ((buffer[skip + 4] as nat) * 256 + (buffer[skip + 5] as nat)) as u16,
            seq_no: ((buffer[skip + 6] as nat) * 256 + (buffer[skip + 7] as nat)) as u16,
            byte_len: (n - skip) as usize,
        })
    }
}

/// Reads the ICMP fields out of the first `received_len` bytes of an
/// inbound buffer, skipping a leading IPv4 header when one is present.
/// A buffer too short to hold an ICMP header is not a reply, never an
/// error: the caller keeps polling.
pub fn try_parse_echo_reply(buffer: &[u8], received_len: usize) -> (r: Option<EchoReply>)
    requires
        received_len <= buffer@.len(),
    ensures
        r == parse_echo_reply_spec(buffer@, received_len as int),
{
    let skip: usize = if received_len >= 20 && buffer[0] / 16 == 4 {
        (buffer[0] % 16) as usize * 4
    } else {
        0
    };
    if received_len < skip + 8 {
        None
    } else {
        Some(EchoReply {
            icmp_type: buffer[skip],
            code: buffer[skip + 1],
            ident: (buffer[skip + 4] as u16) * 256 + (buffer[skip + 5] as u16),
            seq_no: (buffer[skip + 6] as u16) * 256 + (buffer[skip + 7] as u16),
            byte_len: received_len - skip,
        })
    }
}

/// Whether parsed ICMP fields are the Echo Reply that answers the probe
/// with this identifier and sequence number: type 0, code 0, both match.
pub open spec fn reply_matches(r: EchoReply, ident: u16, seq_no: u16) -> bool {
    r.icmp_type == 0 && r.code == 0 && r.ident == ident && r.seq_no == seq_no
}

/// Whether the inbound datagram in `buffer` is the Echo Reply awaited by
/// the probe with this identifier and sequence number. Anything else —
/// too short, a different ICMP type or code, someone else's identifier, a
/// stale sequence — is noise to keep polling through.
pub fn is_matching_reply(buffer: &[u8], received_len: usize, ident: u16, seq_no: u16) -> (m: Option<EchoReply>)
    requires
        received_len <= buffer@.len(),
    ensures
        m == matching_reply_spec(buffer@, received_len as int, ident, seq_no),
{
    match try_parse_echo_reply(buffer, received_len) {
        None => None,
        Some(r) => {
            if r.icmp_type == 0 && r.code == 0 && r.ident == ident && r.seq_no == seq_no {
                Some(r)
            } else {
                None
            }
        },
    }
}

/// The reply `is_matching_reply` accepts: the parsed fields when they
/// match the awaited probe, and nothing otherwise.
pub open spec fn matching_reply_spec(buffer: Seq<u8>, n: int, ident: u16, seq_no: u16) -> Option<EchoReply> {
    match parse_echo_reply_spec(buffer, n) {
        None => None,
        Some(r) => if reply_matches(r, ident, seq_no) {
            Some(r)
        } else {
            None
        },
    }
}

} // verus!
