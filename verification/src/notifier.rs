//! The readiness notifier's decision core.
//!
//! The primary path is a push channel on which an indexer publishes the
//! newest host-chain height as a decimal payload. A timeout, a channel
//! error or a malformed payload each fall back to a direct current-height
//! query, so the pipeline stays live without the channel.

use vstd::prelude::*;

verus! {

/// ASCII digit.
pub open spec fn is_digit(b: u8) -> bool {
    48 <= b <= 57
}

/// All bytes are ASCII digits.
pub open spec fn all_digits(s: Seq<u8>) -> bool {
    forall|i: int| 0 <= i < s.len() ==> is_digit(#[trigger] s[i])
}

/// The number a digit string denotes, most significant digit first.
pub open spec fn digits_value(s: Seq<u8>) -> nat
    decreases s.len(),
{
    if s.len() == 0 {
        0
    } else {
        (digits_value(s.drop_last()) * 10 + (s.last() - 48)) as nat
    }
}

/// The digit part of a payload: everything after one optional leading plus
/// sign.
pub open spec fn payload_digits(s: Seq<u8>) -> Seq<u8> {
    if s.len() > 0 && s[0] == 43 {
        s.drop_first()
    } else {
        s
    }
}

/// A payload that denotes a height: an optional plus sign, then at least
/// one digit, denoting a value that fits in 64 bits.
pub open spec fn valid_height_payload(s: Seq<u8>) -> bool {
    payload_digits(s).len() > 0 && all_digits(payload_digits(s)) && digits_value(payload_digits(s))
        <= u64::MAX
}

/// A digit string denotes at least what any of its prefixes denotes.
proof fn lemma_digits_value_extend(s: Seq<u8>, j: int)
    requires
        0 <= j <= s.len(),
        all_digits(s),
    ensures
        digits_value(s.take(j)) <= digits_value(s),
    decreases s.len() - j,
{
    if j < s.len() {
        assert(s.take(j + 1).drop_last() =~= s.take(j));
        assert(s.take(j + 1).last() == s[j]);
        assert(digits_value(s.take(j)) * 10 >= digits_value(s.take(j)));
        lemma_digits_value_extend(s, j + 1);
    } else {
        assert(s.take(j) =~= s);
    }
}

/// Parses a decimal height payload. Returns the denoted height exactly when
/// the payload is well formed and its value fits in 64 bits; any malformed
/// or overflowing payload parses to nothing.
pub fn parse_decimal_u64(s: &Vec<u8>) -> (r: Option<u64>)
    ensures
        (match r {
            Some(v) => valid_height_payload(s@) && v == digits_value(payload_digits(s@)),
            None => !valid_height_payload(s@),
        }),
{
    let mut i: usize = 0;
    if s.len() > 0 && s[0] == 43u8 {
        i = 1;
    }
    let ghost start = i as int;
    let ghost digits = s@.skip(start);
    proof {
        assert(payload_digits(s@) =~= digits);
    }
    if i >= s.len() {
        return None;
    }
    let mut acc: u64 = 0;
    while i < s.len()
        invariant
            0 <= start,
            start <= i <= s@.len(),
            start < s@.len(),
            digits == s@.skip(start),
            payload_digits(s@) == digits,
            all_digits(digits.take(i - start)),
            acc == digits_value(digits.take(i - start)),
        decreases s@.len() - i,
    {
        let c = s[i];
        proof {
            assert(digits.len() == s@.len() - start);
            assert(s@.skip(start)[i - start] == s@[i as int]);
            assert(digits[i - start] == s@[i as int]);
        }
        if c < 48 || c > 57 {
            proof {
                assert(!is_digit(digits[i - start]));
                assert(!all_digits(digits));
            }
            return None;
        }
        let d = (c - 48) as u64;
        // acc * 10 + d overflows exactly above this bound.
        if acc > 1844674407370955161u64 || (acc == 1844674407370955161u64 && d > 5) {
            proof {
                assert(digits.take(i - start + 1).drop_last() =~= digits.take(i - start));
                assert(digits.take(i - start + 1).last() == digits[i - start]);
                assert(digits_value(digits.take(i - start + 1)) == acc * 10 + d);
                assert(digits_value(digits.take(i - start + 1)) > u64::MAX);
                if valid_height_payload(s@) {
                    lemma_digits_value_extend(digits, i - start + 1);
                    assert(false);
                }
            }
            return None;
        }
        acc = acc * 10 + d;
        proof {
            assert(digits.take(i - start + 1).drop_last() =~= digits.take(i - start));
            assert(digits.take(i - start + 1).last() == digits[i - start]);
        }
        i += 1;
    }
    proof {
        assert(digits.take(s@.len() - start) =~= digits);
    }
    Some(acc)
}

/// What one wait on the notification channel produced.
pub enum NotifierEvent {
    /// A message arrived with this payload.
    Payload(Vec<u8>),
    /// Nothing arrived within the configured timeout.
    TimedOut,
    /// Subscribing to or reading the channel failed.
    ChannelError,
}

/// Where the pass takes its height from.
#[derive(Clone, Copy, PartialEq, Eq, Debug, Structural)]
pub enum HeightDecision {
    /// The channel delivered this height.
    Notified(u64),
    /// Fall back to a direct current-height query on the host chain.
    QueryChain,
}

/// The decision one channel event leads to: a well-formed payload is the
/// height; a timeout, a channel error or a malformed payload each fall back
/// to the direct query.
pub open spec fn height_decision(ev: NotifierEvent) -> HeightDecision {
    match ev {
        NotifierEvent::Payload(p) => if valid_height_payload(p@) {
            HeightDecision::Notified(digits_value(payload_digits(p@)) as u64)
        } else {
            HeightDecision::QueryChain
        },
        NotifierEvent::TimedOut => HeightDecision::QueryChain,
        NotifierEvent::ChannelError => HeightDecision::QueryChain,
    }
}

/// Decides where the pass takes its height from.
pub fn interpret_notification(ev: &NotifierEvent) -> (d: HeightDecision)
    ensures
        d == height_decision(*ev),
{
    match ev {
        NotifierEvent::Payload(p) => match parse_decimal_u64(p) {
            Some(v) => HeightDecision::Notified(v),
            None => HeightDecision::QueryChain,
        },
        NotifierEvent::TimedOut => HeightDecision::QueryChain,
        NotifierEvent::ChannelError => HeightDecision::QueryChain,
    }
}

/// The height threshold a pass works up to: the latest safe height minus
/// the configured finality delay.
pub fn safety_threshold(latest_height: u64, finality_delay: u64) -> (t: u64)
    requires
        finality_delay <= latest_height,
    ensures
        t == latest_height - finality_delay,
{
    latest_height - finality_delay
}

} // verus!
