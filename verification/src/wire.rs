//! The text framing shared by the websocket server and client: each frame is
//! the decimal channel number, a colon, and the message, `"<channel>:<message>"`.
//! Frames are handled as bytes; the colon is ASCII, so splitting a UTF-8 text
//! frame at its first colon leaves two UTF-8 halves.
use vstd::prelude::*;
use vstd::arithmetic::div_mod::lemma_fundamental_div_mod;

verus! {

/// The byte of the separator between channel number and message.
pub open spec fn colon() -> u8 {
    58u8
}

pub open spec fn is_digit(b: u8) -> bool {
    48u8 <= b <= 57u8
}

pub open spec fn all_digits(s: Seq<u8>) -> bool {
    forall|i: int| 0 <= i < s.len() ==> is_digit(#[trigger] s[i])
}

/// The value of a sequence of decimal digits, most significant first.
pub open spec fn digits_value(s: Seq<u8>) -> nat
    decreases s.len(),
{
    if s.len() == 0 {
        0
    } else {
        digits_value(s.drop_last()) * 10 + (s.last() - 48) as nat
    }
}

/// The canonical decimal spelling of `n`: no sign, no leading zeros.
pub open spec fn decimal(n: nat) -> Seq<u8>
    decreases n,
{
    if n < 10 {
        seq![(n + 48) as u8]
    } else {
        decimal(n / 10).push(((n % 10) + 48) as u8)
    }
}

/// What `str::parse::<u64>` accepts: an optional `+`, then one or more decimal
/// digits whose value fits in a `u64`.
pub open spec fn parse_u64(s: Seq<u8>) -> Option<u64> {
    let digits = if s.len() > 0 && s[0] == 43u8 {
        s.drop_first()
    } else {
        s
    };
    if digits.len() > 0 && all_digits(digits) && digits_value(digits) <= u64::MAX {
        Some(digits_value(digits) as u64)
    } else {
        None
    }
}

/// The index of the first colon in `s`, if there is one.
pub open spec fn first_colon(s: Seq<u8>) -> Option<nat>
    decreases s.len(),
{
    if s.len() == 0 {
        None
    } else if s[0] == colon() {
        Some(0)
    } else {
        match first_colon(s.drop_first()) {
            Some(i) => Some(i + 1),
            None => None,
        }
    }
}

/// A frame read from the wire: split at the first colon, and accepted when the
/// part before it is a channel number.
pub open spec fn decode(frame: Seq<u8>) -> Option<(u64, Seq<u8>)> {
    match first_colon(frame) {
        Some(i) => match parse_u64(frame.take(i as int)) {
            Some(channel) => Some((channel, frame.skip((i + 1) as int))),
            None => None,
        },
        None => None,
    }
}

/// The frame that carries `message` on `channel`.
pub open spec fn encode(channel: u64, message: Seq<u8>) -> Seq<u8> {
    decimal(channel as nat).push(colon()) + message
}

proof fn lemma_decimal_digits(n: nat)
    ensures
        decimal(n).len() > 0,
        all_digits(decimal(n)),
        digits_value(decimal(n)) == n,
    decreases n,
{
    if n < 10 {
        assert(decimal(n).drop_last() =~= Seq::<u8>::empty());
        assert(digits_value(Seq::<u8>::empty()) == 0);
        assert(decimal(n).last() == (n + 48) as u8);
    } else {
        lemma_decimal_digits(n / 10);
        let d = decimal(n);
        assert(d.drop_last() =~= decimal(n / 10));
        assert(d.last() == ((n % 10) + 48) as u8);
        assert((d.last() - 48) as nat == n % 10);
        lemma_fundamental_div_mod(n as int, 10);
        assert(digits_value(d) == (n / 10) * 10 + n % 10);
        assert forall|i: int| 0 <= i < d.len() implies is_digit(#[trigger] d[i]) by {
            if i < d.len() - 1 {
                assert(d[i] == decimal(n / 10)[i]);
            }
        }
    }
}

proof fn lemma_first_colon_after_digits(d: Seq<u8>, rest: Seq<u8>)
    requires
        all_digits(d),
    ensures
        first_colon(d.push(colon()) + rest) == Some(d.len()),
    decreases d.len(),
{
    let s = d.push(colon()) + rest;
    if d.len() == 0 {
        assert(s[0] == colon());
    } else {
        assert(is_digit(d[0]));
        assert(s.drop_first() =~= d.drop_first().push(colon()) + rest);
        lemma_first_colon_after_digits(d.drop_first(), rest);
    }
}

proof fn lemma_prefix_value_grows(s: Seq<u8>, i: int, j: int)
    requires
        0 <= i <= j <= s.len(),
        all_digits(s.take(j)),
    ensures
        digits_value(s.take(i)) <= digits_value(s.take(j)),
    decreases j - i,
{
    if i < j {
        assert(s.take(j).drop_last() =~= s.take(j - 1));
        assert(all_digits(s.take(j - 1))) by {
            assert forall|k: int| 0 <= k < s.take(j - 1).len() implies is_digit(
                #[trigger] s.take(j - 1)[k],
            ) by {
                assert(s.take(j - 1)[k] == s.take(j)[k]);
            }
        }
        lemma_prefix_value_grows(s, i, j - 1);
    }
}

/// Reading back a frame gives the channel and the message that were written.
pub proof fn lemma_decode_encode(channel: u64, message: Seq<u8>)
    ensures
        decode(encode(channel, message)) == Some((channel, message)),
{
    let d = decimal(channel as nat);
    lemma_decimal_digits(channel as nat);
    lemma_first_colon_after_digits(d, message);
    let f = encode(channel, message);
    assert(f.take(d.len() as int) =~= d);
    assert(f.skip(d.len() + 1 as int) =~= message);
    assert(d[0] != 43u8);
}

/// Appends the decimal spelling of `n` to `out`.
fn push_decimal(n: u64, out: &mut Vec<u8>)
    ensures
        final(out)@ == old(out)@ + decimal(n as nat),
    decreases n,
{
    if n >= 10 {
        push_decimal(n / 10, out);
    }
    let digit: u8 = (n % 10) as u8;
    out.push(48u8 + digit);
    proof {
        if n >= 10 {
            assert(decimal(n as nat) == decimal((n / 10) as nat).push(((n % 10) + 48) as u8));
        }
    }
    assert(final(out)@ =~= old(out)@ + decimal(n as nat));
}

/// Parses a channel number as `str::parse::<u64>` does.
pub fn parse_channel(s: &[u8]) -> (r: Option<u64>)
    ensures
        r == parse_u64(s@),
{
    let start: usize = if s.len() > 0 && s[0] == 43u8 {
        1
    } else {
        0
    };
    let ghost digits = if start == 1 {
        s@.drop_first()
    } else {
        s@
    };
    if start >= s.len() {
        return None;
    }
    assert(digits =~= s@.skip(start as int));
    assert(parse_u64(s@) == (if digits.len() > 0 && all_digits(digits) && digits_value(digits)
        <= u64::MAX {
        Some(digits_value(digits) as u64)
    } else {
        None
    }));
    let mut value: u64 = 0;
    let mut i: usize = start;
    while i < s.len()
        invariant
            start <= i <= s.len(),
            start < s.len(),
            digits == s@.skip(start as int),
            parse_u64(s@) == (if digits.len() > 0 && all_digits(digits) && digits_value(digits)
                <= u64::MAX {
                Some(digits_value(digits) as u64)
            } else {
                None
            }),
            all_digits(digits.take(i - start)),
            value == digits_value(digits.take(i - start)),
        decreases s.len() - i,
    {
        let b = s[i];
        let ghost k = i - start;
        assert(digits[k as int] == b);
        if b < 48u8 || b > 57u8 {
            assert(!is_digit(digits[k as int]));
            assert(!all_digits(digits));
            return None;
        }
        let d: u64 = (b - 48u8) as u64;
        assert(digits.take(k + 1).drop_last() =~= digits.take(k as int));
        assert(digits.take(k + 1).last() == b);
        assert(digits_value(digits.take(k + 1)) == value * 10 + d);
        assert(all_digits(digits.take(k + 1))) by {
            assert forall|j: int| 0 <= j < k + 1 implies is_digit(#[trigger] digits.take(k + 1)[j]) by {
                if j < k {
                    assert(digits.take(k + 1)[j] == digits.take(k as int)[j]);
                }
            }
        }
        if value > (u64::MAX - d) / 10 {
            proof {
                assert(value * 10 + d > u64::MAX) by (nonlinear_arith)
                    requires
                        value > (u64::MAX - d) / 10,
                        d <= 9,
                ;
                if all_digits(digits) {
                    lemma_prefix_value_grows(digits, k + 1, digits.len() as int);
                    assert(digits.take(digits.len() as int) =~= digits);
                }
            }
            return None;
        }
        value = value * 10 + d;
        i = i + 1;
    }
    assert(digits.take(s.len() - start) =~= digits);
    Some(value)
}

/// Splits a frame read from the wire into its channel and its message; `None`
/// when there is no colon or the part before it is no channel number.
pub fn decode_frame(frame: &[u8]) -> (r: Option<(u64, Vec<u8>)>)
    ensures
        match r {
            Some((channel, message)) => decode(frame@) == Some((channel, message@)),
            None => decode(frame@) is None,
        },
{
    let mut i: usize = 0;
    while i < frame.len()
        invariant
            i <= frame.len(),
            forall|j: int| 0 <= j < i ==> frame@[j] != colon(),
        ensures
            i <= frame.len(),
            forall|j: int| 0 <= j < i ==> frame@[j] != colon(),
            i < frame.len() ==> frame@[i as int] == colon(),
        decreases frame.len() - i,
    {
        if frame[i] == 58u8 {
            break;
        }
        i = i + 1;
    }
    proof {
        lemma_first_colon_is(frame@, i as int);
    }
    if i == frame.len() {
        return None;
    }
    let mut head: Vec<u8> = Vec::new();
    let mut j: usize = 0;
    while j < i
        invariant
            j <= i < frame.len(),
            head@ =~= frame@.take(j as int),
        decreases i - j,
    {
        head.push(frame[j]);
        j = j + 1;
    }
    let mut message: Vec<u8> = Vec::new();
    let mut k: usize = i + 1;
    while k < frame.len()
        invariant
            i < k <= frame.len(),
            message@ =~= frame@.subrange(i + 1, k as int),
        decreases frame.len() - k,
    {
        message.push(frame[k]);
        k = k + 1;
    }
    assert(message@ =~= frame@.skip(i + 1));
    match parse_channel(head.as_slice()) {
        Some(channel) => Some((channel, message)),
        None => None,
    }
}

proof fn lemma_first_colon_is(s: Seq<u8>, i: int)
    requires
        0 <= i <= s.len(),
        forall|j: int| 0 <= j < i ==> s[j] != colon(),
        i < s.len() ==> s[i] == colon(),
    ensures
        first_colon(s) == (if i < s.len() { Some(i as nat) } else { None::<nat> }),
    decreases i,
{
    if i > 0 {
        lemma_first_colon_is(s.drop_first(), i - 1);
    }
}

/// The frame that carries `message` on `channel`.
pub fn encode_frame(channel: u64, message: &[u8]) -> (r: Vec<u8>)
    ensures
        r@ == encode(channel, message@),
{
    let mut out: Vec<u8> = Vec::new();
    push_decimal(channel, &mut out);
    out.push(58u8);
    let ghost prefix = out@;
    let mut k: usize = 0;
    while k < message.len()
        invariant
            k <= message.len(),
            out@ =~= prefix + message@.take(k as int),
        decreases message.len() - k,
    {
        out.push(message[k]);
        k = k + 1;
    }
    assert(message@.take(message.len() as int) =~= message@);
    out
}

} // verus!
