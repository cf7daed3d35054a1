//! Identifiers of monitors, sessions and clients, and their text form: a
//! type prefix followed by the key in lowercase hexadecimal.
use vstd::prelude::*;
use vstd::string::{StrSliceExecFns, StringExecFns};

verus! {

/// Stable identifier of a physical monitor.
#[derive(Clone, Copy, Debug, PartialEq, Eq, Hash, Structural)]
pub struct MonitorId(pub u64);

/// Stable identifier of a session.
#[derive(Clone, Copy, Debug, PartialEq, Eq, Hash, Structural)]
pub struct SessionId(pub u64);

/// Identifier of a connected client.
#[derive(Clone, Copy, Debug, PartialEq, Eq, Hash, Structural)]
pub struct ClientId(pub u64);

/// Relies on `rand::random`: a value drawn from the thread-local generator,
/// of which nothing is promised.
pub assume_specification<T>[ rand::random::<T> ]() -> (r: T)
    where
        rand::distributions::Standard: rand::distributions::Distribution<T>,
;

/// Why an identifier could not be read.
#[derive(Clone, Copy, Debug, PartialEq, Eq, Structural)]
pub enum IdParseError {
    /// The text does not start with the type's prefix.
    InvalidPrefix,
    /// What follows the prefix is not a hexadecimal `u64`.
    InvalidHex,
}

pub const HEX_DIGITS: &'static str = "0123456789abcdef";

pub const SESSION_PREFIX: &'static str = "se_";

pub const MONITOR_PREFIX: &'static str = "mon_";

/// The value of a hexadecimal digit, in either case.
pub open spec fn hex_digit(c: char) -> Option<nat> {
    let v = c as int;
    if 48 <= v <= 57 {
        Some((v - 48) as nat)
    } else if 97 <= v <= 102 {
        Some((v - 87) as nat)
    } else if 65 <= v <= 70 {
        Some((v - 55) as nat)
    } else {
        None
    }
}

pub open spec fn is_hex(s: Seq<char>) -> bool {
    forall|i: int| 0 <= i < s.len() ==> #[trigger] hex_digit(s[i]) is Some
}

/// The number a string of hexadecimal digits stands for.
pub open spec fn hex_value(s: Seq<char>) -> nat
    decreases s.len(),
{
    if s.len() == 0 {
        0
    } else {
        hex_value(s.drop_last()) * 16 + match hex_digit(s.last()) {
            Some(d) => d,
            None => 0,
        }
    }
}

/// Reading a `u64` in base 16: an optional `+`, then at least one digit,
/// with a value that fits.
pub open spec fn parse_hex_u64(s: Seq<char>) -> Option<u64> {
    let body = if s.len() > 0 && s[0] == '+' {
        s.drop_first()
    } else {
        s
    };
    if body.len() > 0 && is_hex(body) && hex_value(body) <= u64::MAX {
        Some(hex_value(body) as u64)
    } else {
        None
    }
}

/// Lowercase hexadecimal without leading zeros.
pub open spec fn hex_text(n: nat) -> Seq<char>
    decreases n,
{
    if n < 16 {
        seq![HEX_DIGITS@[n as int]]
    } else {
        hex_text(n / 16) + seq![HEX_DIGITS@[(n % 16) as int]]
    }
}

/// Reading an identifier: the prefix, then a hexadecimal key.
pub open spec fn parse_id(prefix: Seq<char>, s: Seq<char>) -> Result<u64, IdParseError> {
    if s.len() >= prefix.len() && s.subrange(0, prefix.len() as int) == prefix {
        match parse_hex_u64(s.skip(prefix.len() as int)) {
            Some(v) => Ok(v),
            None => Err(IdParseError::InvalidHex),
        }
    } else {
        Err(IdParseError::InvalidPrefix)
    }
}

proof fn lemma_hex_value_prefix(s: Seq<char>, k: int)
    requires
        0 <= k <= s.len(),
    ensures
        hex_value(s.subrange(0, k)) <= hex_value(s),
    decreases s.len() - k,
{
    if k < s.len() {
        lemma_hex_value_prefix(s, k + 1);
        let t = s.subrange(0, k + 1);
        assert(t.drop_last() =~= s.subrange(0, k));
    } else {
        assert(s.subrange(0, k) =~= s);
    }
}

proof fn lemma_hex_digits()
    ensures
        HEX_DIGITS@.len() == 16,
        forall|k: int| 0 <= k < 16 ==> #[trigger] hex_digit(HEX_DIGITS@[k]) == Some(k as nat) && HEX_DIGITS@[k]
            != '+',
{
    reveal_strlit("0123456789abcdef");
    assert(hex_digit(HEX_DIGITS@[0]) == Some(0nat));
    assert(hex_digit(HEX_DIGITS@[1]) == Some(1nat));
    assert(hex_digit(HEX_DIGITS@[2]) == Some(2nat));
    assert(hex_digit(HEX_DIGITS@[3]) == Some(3nat));
    assert(hex_digit(HEX_DIGITS@[4]) == Some(4nat));
    assert(hex_digit(HEX_DIGITS@[5]) == Some(5nat));
    assert(hex_digit(HEX_DIGITS@[6]) == Some(6nat));
    assert(hex_digit(HEX_DIGITS@[7]) == Some(7nat));
    assert(hex_digit(HEX_DIGITS@[8]) == Some(8nat));
    assert(hex_digit(HEX_DIGITS@[9]) == Some(9nat));
    assert(hex_digit(HEX_DIGITS@[10]) == Some(10nat));
    assert(hex_digit(HEX_DIGITS@[11]) == Some(11nat));
    assert(hex_digit(HEX_DIGITS@[12]) == Some(12nat));
    assert(hex_digit(HEX_DIGITS@[13]) == Some(13nat));
    assert(hex_digit(HEX_DIGITS@[14]) == Some(14nat));
    assert(hex_digit(HEX_DIGITS@[15]) == Some(15nat));
}

proof fn lemma_hex_text(n: nat)
    ensures
        hex_text(n).len() > 0,
        is_hex(hex_text(n)),
        hex_value(hex_text(n)) == n,
        hex_text(n)[0] != '+',
    decreases n,
{
    lemma_hex_digits();
    let t0 = hex_text(n);
    if n < 16 {
        assert(t0.drop_last() =~= Seq::<char>::empty());
        assert(t0.last() == HEX_DIGITS@[n as int]);
        assert(hex_digit(t0.last()) == Some(n));
        assert(hex_value(t0.drop_last()) == 0);
        assert(hex_value(t0) == n);
    }
    if n >= 16 {
        lemma_hex_text(n / 16);
        assert((n / 16) * 16 + n % 16 == n);
        assert(t0.last() == HEX_DIGITS@[(n % 16) as int]);
        assert(hex_digit(t0.last()) == Some((n % 16) as nat));
        assert(t0.drop_last() =~= hex_text(n / 16));
        assert(hex_value(t0) == hex_value(hex_text(n / 16)) * 16 + n % 16);
        assert(hex_value(hex_text(n / 16)) == n / 16);
        assert(hex_value(t0) == n);
        let t = hex_text(n);
        assert(t.drop_last() =~= hex_text(n / 16));
        assert forall|i: int| 0 <= i < t.len() implies #[trigger] hex_digit(t[i]) is Some by {
            if i < t.len() - 1 {
                assert(t[i] == hex_text(n / 16)[i]);
            }
        }
    }
}

/// Reading back the text of a key gives the key.
pub proof fn lemma_hex_round_trip(n: u64)
    ensures
        parse_hex_u64(hex_text(n as nat)) == Some(n),
{
    lemma_hex_text(n as nat);
}

fn hex_digit_exec(c: char) -> (r: Option<u64>)
    ensures
        match hex_digit(c) {
            Some(d) => r == Some(d as u64),
            None => r is None,
        },
{
    let v = c as u32;
    if 48 <= v && v <= 57 {
        Some((v - 48) as u64)
    } else if 97 <= v && v <= 102 {
        Some((v - 87) as u64)
    } else if 65 <= v && v <= 70 {
        Some((v - 55) as u64)
    } else {
        None
    }
}

/// Reads a `u64` written in base 16.
pub fn parse_hex(s: &str) -> (r: Option<u64>)
    ensures
        r == parse_hex_u64(s@),
{
    let n = s.unicode_len();
    let mut start: usize = 0;
    if n > 0 && s.get_char(0) == '+' {
        start = 1;
    }
    let ghost body = if s@.len() > 0 && s@[0] == '+' {
        s@.drop_first()
    } else {
        s@
    };
    assert(body =~= s@.skip(start as int));
    if start == n {
        return None;
    }
    let mut v: u64 = 0;
    let mut i: usize = start;
    while i < n
        invariant
            start <= i <= n,
            n == s@.len(),
            body == s@.skip(start as int),
            body == (if s@.len() > 0 && s@[0] == '+' {
                s@.drop_first()
            } else {
                s@
            }),
            is_hex(body.subrange(0, i - start)),
            v as nat == hex_value(body.subrange(0, i - start)),
        decreases n - i,
    {
        let c = s.get_char(i);
        assert(body[i - start] == c);
        let d = match hex_digit_exec(c) {
            Some(d) => d,
            None => {
                assert(!is_hex(body)) by {
                    assert(hex_digit(body[i - start]) is None);
                }
                return None;
            },
        };
        let ghost pre = body.subrange(0, i - start);
        let ghost next = body.subrange(0, i - start + 1);
        assert(next.drop_last() =~= pre);
        assert forall|j: int| 0 <= j < next.len() implies #[trigger] hex_digit(next[j]) is Some by {
            if j < pre.len() {
                assert(next[j] == pre[j]);
            }
        }
        let w: u128 = v as u128 * 16 + d as u128;
        if w > u64::MAX as u128 {
            proof {
                if is_hex(body) {
                    lemma_hex_value_prefix(body, i - start + 1);
                }
            }
            return None;
        }
        v = w as u64;
        i = i + 1;
    }
    assert(body.subrange(0, n - start) =~= body);
    Some(v)
}

/// Appends the lowercase hexadecimal text of `n`.
fn append_hex(out: &mut String, n: u64)
    ensures
        final(out)@ == old(out)@ + hex_text(n as nat),
    decreases n,
{
    proof {
        reveal_strlit("0123456789abcdef");
    }
    if n >= 16 {
        append_hex(out, n / 16);
    }
    let k = (n % 16) as usize;
    out.append(HEX_DIGITS.substring_char(k, k + 1));
    proof {
        assert(HEX_DIGITS@.subrange(k as int, k + 1) =~= seq![HEX_DIGITS@[k as int]]);
        if n >= 16 {
            assert(old(out)@ + hex_text(n as nat) =~= old(out)@ + hex_text((n / 16) as nat) + seq![
                HEX_DIGITS@[k as int],
            ]);
        } else {
            assert(n % 16 == n);
        }
    }
}

/// `prefix` followed by the hexadecimal text of `n`.
fn id_text(prefix: &str, n: u64) -> (r: String)
    ensures
        r@ == prefix@ + hex_text(n as nat),
{
    let mut s = String::from_str(prefix);
    append_hex(&mut s, n);
    s
}

/// Reads `prefix` followed by a hexadecimal key.
fn parse_prefixed(prefix: &str, s: &str) -> (r: Result<u64, IdParseError>)
    ensures
        r == parse_id(prefix@, s@),
{
    let p = prefix.unicode_len();
    let n = s.unicode_len();
    if n < p {
        return Err(IdParseError::InvalidPrefix);
    }
    let mut i: usize = 0;
    while i < p
        invariant
            i <= p <= n,
            p == prefix@.len(),
            n == s@.len(),
            s@.subrange(0, i as int) == prefix@.subrange(0, i as int),
        decreases p - i,
    {
        if s.get_char(i) != prefix.get_char(i) {
            assert(s@.subrange(0, p as int)[i as int] != prefix@[i as int]);
            return Err(IdParseError::InvalidPrefix);
        }
        assert(s@.subrange(0, i + 1) =~= s@.subrange(0, i as int).push(s@[i as int]));
        assert(prefix@.subrange(0, i + 1) =~= prefix@.subrange(0, i as int).push(prefix@[i as int]));
        i = i + 1;
    }
    assert(prefix@.subrange(0, p as int) =~= prefix@);
    let rest = s.substring_char(p, n);
    assert(rest@ =~= s@.skip(p as int));
    match parse_hex(rest) {
        Some(v) => Ok(v),
        None => Err(IdParseError::InvalidHex),
    }
}

impl MonitorId {
    /// A fresh random identifier.
    pub fn random() -> (r: MonitorId) {
        MonitorId(rand::random::<u64>())
    }

    /// The raw 64-bit key.
    pub fn raw(self) -> (r: u64)
        ensures
            r == self.0,
    {
        self.0
    }

    /// The text form, `mon_` followed by the key in lowercase hex.
    pub fn to_text(&self) -> (r: String)
        ensures
            r@ == MONITOR_PREFIX@ + hex_text(self.0 as nat),
    {
        id_text(MONITOR_PREFIX, self.0)
    }

    /// Reads the text form.
    pub fn parse(s: &str) -> (r: Result<MonitorId, IdParseError>)
        ensures
            r == match parse_id(MONITOR_PREFIX@, s@) {
                Ok(v) => Ok::<MonitorId, IdParseError>(MonitorId(v)),
                Err(e) => Err(e),
            },
    {
        match parse_prefixed(MONITOR_PREFIX, s) {
            Ok(v) => Ok(MonitorId(v)),
            Err(e) => Err(e),
        }
    }
}

impl SessionId {
    /// A fresh random identifier.
    pub fn random() -> (r: SessionId) {
        SessionId(rand::random::<u64>())
    }

    /// The raw 64-bit key.
    pub fn raw(self) -> (r: u64)
        ensures
            r == self.0,
    {
        self.0
    }

    /// The text form, `se_` followed by the key in lowercase hex.
    pub fn to_text(&self) -> (r: String)
        ensures
            r@ == SESSION_PREFIX@ + hex_text(self.0 as nat),
    {
        id_text(SESSION_PREFIX, self.0)
    }

    /// Reads the text form.
    pub fn parse(s: &str) -> (r: Result<SessionId, IdParseError>)
        ensures
            r == match parse_id(SESSION_PREFIX@, s@) {
                Ok(v) => Ok::<SessionId, IdParseError>(SessionId(v)),
                Err(e) => Err(e),
            },
    {
        match parse_prefixed(SESSION_PREFIX, s) {
            Ok(v) => Ok(SessionId(v)),
            Err(e) => Err(e),
        }
    }
}

/// The text form of an identifier reads back as the same identifier.
pub proof fn lemma_id_text_round_trip(prefix: Seq<char>, n: u64)
    ensures
        parse_id(prefix, prefix + hex_text(n as nat)) == Ok::<u64, IdParseError>(n),
{
    let s = prefix + hex_text(n as nat);
    assert(s.subrange(0, prefix.len() as int) =~= prefix);
    assert(s.skip(prefix.len() as int) =~= hex_text(n as nat));
    lemma_hex_round_trip(n);
}

} // verus!
