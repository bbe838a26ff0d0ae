use vstd::prelude::*;

use crate::registry::ActiveSubscriptions;
use crate::topic::{channel_id_from_topic_url, strip_feed_url_prefix};

verus! {

/// An inbound hub confirmation callback, tagged by its mode.
#[derive(Debug)]
pub enum HubChallenge {
    Subscribe(HubSubscribeChallenge),
    Unsubscribe(HubUnsubscribeChallenge),
}

/// A subscribe confirmation: the topic, the challenge to echo, and the
/// lease duration in seconds as the hub sent it.
#[derive(Debug)]
pub struct HubSubscribeChallenge {
    pub topic: String,
    pub challenge: String,
    pub lease_seconds: String,
}

/// An unsubscribe confirmation: the topic and the challenge to echo.
#[derive(Debug)]
pub struct HubUnsubscribeChallenge {
    pub topic: String,
    pub challenge: String,
}

/// Why an inbound confirmation is rejected with a client error.
#[derive(Debug, Clone, Copy, PartialEq, Eq, Structural)]
pub enum ChallengeError {
    /// The lease duration is not a well-formed signed 64-bit decimal.
    MalformedLeaseSeconds,
}

/// Whether `c` is a decimal digit.
pub open spec fn is_digit(c: char) -> bool {
    '0' <= c <= '9'
}

/// The numeric value of a digit.
pub open spec fn digit_val(c: char) -> int {
    c as int - '0' as int
}

/// Whether every character of `s` is a decimal digit.
pub open spec fn all_digits(s: Seq<char>) -> bool {
    forall|i: int| 0 <= i < s.len() ==> is_digit(#[trigger] s[i])
}

/// The value of a digit string, most significant first.
pub open spec fn digits_val(s: Seq<char>) -> int
    decreases s.len(),
{
    if s.len() == 0 {
        0
    } else {
        digits_val(s.drop_last()) * 10 + digit_val(s.last())
    }
}

/// The digit part of a signed decimal literal: everything after one
/// optional leading `+` or `-`.
pub open spec fn digits_of(s: Seq<char>) -> Seq<char> {
    if s.len() > 0 && (s[0] == '+' || s[0] == '-') {
        s.skip(1)
    } else {
        s
    }
}

/// Whether the literal carries a leading minus sign.
pub open spec fn is_negative(s: Seq<char>) -> bool {
    s.len() > 0 && s[0] == '-'
}

/// The shape of a signed decimal integer: an optional sign, then at least
/// one digit and nothing else.
pub open spec fn int_shape_ok(s: Seq<char>) -> bool {
    digits_of(s).len() > 0 && all_digits(digits_of(s))
}

/// The value of a well-shaped signed decimal literal.
pub open spec fn int_value(s: Seq<char>) -> int {
    if is_negative(s) {
        -digits_val(digits_of(s))
    } else {
        digits_val(digits_of(s))
    }
}

/// Whether `s` is exactly what `i64::from_str` accepts: a well-shaped
/// signed decimal whose value fits in an `i64`.
pub open spec fn parses_to_i64(s: Seq<char>) -> bool {
    int_shape_ok(s) && i64::MIN <= int_value(s) <= i64::MAX
}

/// A digit string's value is never negative.
proof fn lemma_digits_val_nonneg(s: Seq<char>)
    requires
        all_digits(s),
    ensures
        digits_val(s) >= 0,
    decreases s.len(),
{
    if s.len() > 0 {
        assert(all_digits(s.drop_last()));
        lemma_digits_val_nonneg(s.drop_last());
        assert(is_digit(s.last()));
    }
}

/// Reading further digits never shrinks the value.
proof fn lemma_digits_val_monotone(s: Seq<char>, i: int)
    requires
        all_digits(s),
        0 <= i <= s.len(),
    ensures
        digits_val(s.take(i)) <= digits_val(s),
    decreases s.len() - i,
{
    if i < s.len() {
        assert(s.take(i + 1).drop_last() =~= s.take(i));
        assert(s.take(i + 1).last() == s[i]);
        assert(all_digits(s.take(i)));
        lemma_digits_val_nonneg(s.take(i));
        assert(is_digit(s[i]));
        assert(digits_val(s.take(i + 1)) == digits_val(s.take(i)) * 10 + digit_val(s[i]));
        lemma_digits_val_monotone(s, i + 1);
        assert(s.take(s.len() as int) =~= s);
    } else {
        assert(s.take(i) =~= s);
    }
}

/// Parse a signed 64-bit decimal exactly as `i64::from_str` does: an
/// optional `+` or `-`, then one or more digits, the value within the
/// `i64` range; anything else is `None`.
pub fn parse_i64(s: &str) -> (r: Option<i64>)
    ensures
        match r {
            Some(v) => parses_to_i64(s@) && v as int == int_value(s@),
            None => !parses_to_i64(s@),
        },
{
    let n = s.unicode_len();
    if n == 0 {
        return None;
    }
    let first = s.get_char(0);
    let neg = first == '-';
    let start: usize = if first == '-' || first == '+' {
        1
    } else {
        0
    };
    if n == start {
        return None;
    }
    let ghost digits = digits_of(s@);
    proof {
        assert(digits =~= s@.skip(start as int));
    }
    let mut i = start;
    let mut acc: i128 = 0;
    while i < n
        invariant
            start <= i <= n,
            n == s@.len(),
            start < n,
            start == (if s@[0] == '-' || s@[0] == '+' {
                1int
            } else {
                0int
            }),
            digits == s@.skip(start as int),
            all_digits(s@.subrange(start as int, i as int)),
            acc == digits_val(s@.subrange(start as int, i as int)),
            0 <= acc <= i64::MAX as i128 + 1,
        decreases n - i,
    {
        let c = s.get_char(i);
        let ghost seen = s@.subrange(start as int, i as int);
        if !('0' <= c && c <= '9') {
            proof {
                assert(digits =~= digits_of(s@));
                assert(digits[i - start] == s@[i as int]);
                assert(!all_digits(digits));
            }
            return None;
        }
        let d: i128 = (c as u32) as i128 - '0' as i128;
        acc = acc * 10 + d;
        proof {
            assert(s@.subrange(start as int, i + 1).drop_last() =~= seen);
            assert(s@.subrange(start as int, i + 1).last() == s@[i as int]);
            assert(digits_val(s@.subrange(start as int, i + 1)) == digits_val(seen) * 10
                + digit_val(s@[i as int]));
        }
        if acc > i64::MAX as i128 + 1 {
            proof {
                assert(digits =~= digits_of(s@));
                if int_shape_ok(s@) {
                    lemma_digits_val_monotone(digits, i + 1 - start as int);
                    assert(digits.take(i + 1 - start as int) =~= s@.subrange(
                        start as int,
                        i + 1,
                    ));
                    assert(digits_val(digits) > i64::MAX as i128 + 1);
                }
            }
            return None;
        }
        i += 1;
    }
    proof {
        assert(s@.subrange(start as int, n as int) =~= digits);
        assert(acc == digits_val(digits));
        assert(int_shape_ok(s@));
    }
    if neg {
        if acc == i64::MAX as i128 + 1 {
            Some(i64::MIN)
        } else {
            Some(-(acc as i64))
        }
    } else {
        if acc > i64::MAX as i128 {
            None
        } else {
            Some(acc as i64)
        }
    }
}

/// `now + lease * 1000` clamped into the instant range: when the lease the
/// hub granted, in seconds, starts at `now`, the instant it ends.
pub open spec fn spec_lease_expiry(now: i64, lease_seconds: int) -> int {
    let x = now + lease_seconds * 1000;
    if x > i64::MAX {
        i64::MAX as int
    } else if x < i64::MIN {
        i64::MIN as int
    } else {
        x
    }
}

/// The instant a lease of `lease_seconds` starting at `now` expires.
fn lease_expiry(now: i64, lease_seconds: i64) -> (r: i64)
    ensures
        r as int == spec_lease_expiry(now, lease_seconds as int),
{
    let x: i128 = now as i128 + lease_seconds as i128 * 1000;
    if x > i64::MAX as i128 {
        i64::MAX
    } else if x < i64::MIN as i128 {
        i64::MIN
    } else {
        x as i64
    }
}

/// Handle one inbound hub confirmation callback.  A subscribe confirmation
/// upserts the topic's channel into the registry, expiring `lease_seconds`
/// from `now`, and echoes the challenge; an unsubscribe confirmation
/// removes the channel and echoes the challenge; a subscribe whose lease is
/// not a well-formed number is rejected and touches nothing.  This is the
/// only path that writes the registry.
pub fn pubsub_subscription_validation(
    subs: &mut ActiveSubscriptions,
    challenge: HubChallenge,
    now: i64,
) -> (r: Result<String, ChallengeError>)
    ensures
        (challenge matches HubChallenge::Unsubscribe(c) ==> final(subs)@ == old(subs)@.remove(
            strip_feed_url_prefix(c.topic@),
        ) && r == Ok::<String, ChallengeError>(c.challenge)),
        (challenge matches HubChallenge::Subscribe(c) ==> {
            if parses_to_i64(c.lease_seconds@) {
                &&& final(subs)@ == old(subs)@.insert(
                    strip_feed_url_prefix(c.topic@),
                    spec_lease_expiry(now, int_value(c.lease_seconds@)) as i64,
                )
                &&& r == Ok::<String, ChallengeError>(c.challenge)
            } else {
                &&& final(subs)@ == old(subs)@
                &&& r == Err::<String, ChallengeError>(ChallengeError::MalformedLeaseSeconds)
            }
        }),
{
    match challenge {
        HubChallenge::Unsubscribe(c) => {
            let channel_id = channel_id_from_topic_url(c.topic.as_str()).to_owned();
            subs.remove_subscription(channel_id);
            Ok(c.challenge)
        },
        HubChallenge::Subscribe(c) => {
            let lease = match parse_i64(c.lease_seconds.as_str()) {
                Some(v) => v,
                None => {
                    return Err(ChallengeError::MalformedLeaseSeconds);
                },
            };
            let channel_id = channel_id_from_topic_url(c.topic.as_str()).to_owned();
            let expiration = lease_expiry(now, lease);
            subs.add_subscription(channel_id, expiration);
            Ok(c.challenge)
        },
    }
}

} // verus!
