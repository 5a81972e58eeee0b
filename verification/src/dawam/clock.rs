//! Punches and pings recorded while the phone was offline.
//!
//! The phone's wall clock is never trusted. It sends the last server time it
//! saw and the time-since-boot elapsed from that moment, plus the GPS fix's
//! own satellite time; the server rebuilds the real time from those. A phone
//! that restarted in between has lost its time-since-boot, so its punch is
//! marked "time unverified" for the manager.
//!
//! Every response the staff app gets carries an anchor: the server's time,
//! signed with HMAC-SHA256 for that phone's device row. The phone keeps the
//! latest one and sends it back inside its offline stamp. Only a valid anchor
//! for the same device dates a punch as verified; a missing, forged, altered or
//! another phone's anchor still dates it (from the time the phone claims) but
//! the punch is marked unverified for the manager.
//!
//! What the anchor bounds: the rebuilt time can never be before the last
//! moment the server actually spoke to that phone, nor after now.

use hmac::Mac;
use vstd::prelude::*;
use vstd::utf8::encode_utf8;

use crate::calendar::{
    hex_char, id_chars, id_text, max_of, min_of, valid_moment, Id, Moment,
    NANOS_PER_DAY, NANOS_PER_MINUTE,
};
use crate::errors::{coded_var, coded_var2, outcome, AppError, ErrorView, Var, VarView};
use crate::text::{
    chars_of, digit, digit_char, digits_value, int_chars, int_text, is_digit, join, join3,
    law_decimal_reads_back, nat_chars, same_text,
};

verus! {

/// The version every anchor starts with.
pub open spec fn anchor_version() -> Seq<char> {
    "v1"@
}

/// GPS and the rebuilt clock may disagree by this much before it is doubted.
pub const GPS_TOLERANCE_MIN: i64 = 5;

/// A queue older than this is refused rather than priced.
pub const MAX_AGE_DAYS: i64 = 7;

pub const NANOS_PER_MILLI: i128 = 1_000_000;

/// The key the server signs with.
pub struct JwtSecret(pub String);

/// The offline stamp, as the staff app sends it.
pub struct OfflineStamp {
    /// The last server time the phone says it saw.
    pub server_time: Moment,
    /// Time-since-boot elapsed from that moment.
    pub elapsed_ms: i64,
    /// The phone restarted in between.
    pub rebooted: bool,
    /// The GPS fix's own satellite time.
    pub gps_time: Option<Moment>,
    /// The last signed server time the phone kept.
    pub anchor: Option<String>,
}

/// When the event happened, and whether the manager should doubt it.
#[derive(Debug, Clone, Copy, PartialEq, Eq, Structural)]
pub struct Stamped {
    pub at: Moment,
    pub offline: bool,
    pub unverified: bool,
}

/// Who may vouch for an offline stamp: the phone's device row and the key.
#[derive(Clone, Copy)]
pub struct Verifier<'a> {
    pub secret: &'a JwtSecret,
    /// The staff device the request came from; `None` (a dashboard session)
    /// can never present a valid anchor.
    pub device: Option<Id>,
}

/// HMAC-SHA256 of a message under a key.
pub uninterp spec fn hmac_sha256(key: Seq<u8>, message: Seq<u8>) -> Seq<u8>;

/// The tag of a message under a key.
///
/// Calls `Mac::new_from_slice`, `update` and `finalize` of
/// `hmac::Hmac<sha2::Sha256>`: 32 bytes that depend on the key and the message
/// alone.
#[verifier::external_body]
fn hmac_tag(key: &[u8], message: &[u8]) -> (r: Vec<u8>)
    ensures
        r@ == hmac_sha256(key@, message@),
        r@.len() == 32,
{
    let mut m = hmac::Hmac::<sha2::Sha256>::new_from_slice(key).unwrap();
    m.update(message);
    m.finalize().into_bytes().to_vec()
}

/// Whether a tag is the tag of a message under a key.
///
/// Calls `Mac::verify_slice` of `hmac::Hmac<sha2::Sha256>`, which compares the
/// whole tag, in constant time.
#[verifier::external_body]
fn hmac_matches(key: &[u8], message: &[u8], tag: &[u8]) -> (r: bool)
    ensures
        r == (tag@ == hmac_sha256(key@, message@)),
{
    let mut m = hmac::Hmac::<sha2::Sha256>::new_from_slice(key).unwrap();
    m.update(message);
    m.verify_slice(tag).is_ok()
}

/// The signing key's bytes.
pub open spec fn anchor_key(secret: Seq<char>) -> Seq<u8> {
    encode_utf8("dawam-anchor:"@ + secret)
}

/// What is signed: the version, the device and the time.
pub open spec fn anchor_message(device: Id, ms: i64) -> Seq<u8> {
    encode_utf8(
        anchor_version() + "|"@ + id_chars(device) + "|"@ + int_chars(ms as int),
    )
}

/// The tag of a device's anchor for a time.
pub open spec fn anchor_tag(secret: Seq<char>, device: Id, ms: i64) -> Seq<u8> {
    hmac_sha256(anchor_key(secret), anchor_message(device, ms))
}

/// Bytes in lower-case hexadecimal, two digits each.
pub open spec fn hex_chars(bytes: Seq<u8>) -> Seq<char> {
    Seq::new(
        2 * bytes.len(),
        |i: int|
            hex_char(
                if i % 2 == 0 {
                    bytes[i / 2] as int / 16
                } else {
                    bytes[i / 2] as int % 16
                },
            ),
    )
}

/// `v1.<epoch ms>.<hex tag>`.
pub open spec fn anchor_chars(ms: i64, tag: Seq<u8>) -> Seq<char> {
    anchor_version() + "."@ + int_chars(ms as int) + "."@ + hex_chars(tag)
}

/// The milliseconds of an instant.
pub open spec fn millis(at: Moment) -> int {
    at as int / 1_000_000
}

/// The text is the server's anchor for that device and time.
pub open spec fn vouches(secret: Seq<char>, device: Id, anchor: Seq<char>, ms: i64) -> bool {
    anchor == anchor_chars(ms, anchor_tag(secret, device, ms))
}

/// The server time an anchor carries, if it was signed for the device.
pub open spec fn anchored(secret: Seq<char>, device: Id, anchor: Seq<char>) -> Option<int> {
    if exists|ms: i64|
        #[trigger] vouches(secret, device, anchor, ms) && valid_moment(
            (ms * 1_000_000) as Moment,
        ) {
        let ms = choose|ms: i64|
            #[trigger] vouches(secret, device, anchor, ms) && valid_moment(
                (ms * 1_000_000) as Moment,
            );
        Some(ms * 1_000_000)
    } else {
        None
    }
}

/// The hexadecimal digit of a value below sixteen.
fn hex_digit(v: u8) -> (c: char)
    requires
        v < 16,
    ensures
        c == hex_char(v as int),
{
    if v < 10 {
        digit(v)
    } else {
        (87 + v) as char
    }
}

/// Bytes in lower-case hexadecimal.
pub fn hex_text(bytes: &[u8]) -> (r: String)
    ensures
        r@ == hex_chars(bytes@),
{
    let mut out: String = String::new();
    let mut i: usize = 0;
    while i < bytes.len()
        invariant
            i <= bytes@.len(),
            out@ == hex_chars(bytes@.take(i as int)),
        decreases bytes@.len() - i,
    {
        out.push(hex_digit(bytes[i] / 16));
        out.push(hex_digit(bytes[i] % 16));
        i += 1;
        assert(out@ =~= hex_chars(bytes@.take(i as int)));
    }
    assert(bytes@.take(bytes@.len() as int) =~= bytes@);
    out
}

/// An anchor as text.
pub fn format_anchor(ms: i64, tag: &[u8]) -> (r: String)
    ensures
        r@ == anchor_chars(ms, tag@),
{
    let mut out: String = join3("v1", ".", int_text(ms).as_str());
    out.push_str(".");
    out.push_str(hex_text(tag).as_str());
    out
}

/// What an anchor carries.
pub struct Anchor {
    pub ms: i64,
    pub tag: Vec<u8>,
}

/// A run of digits is worth no less than its beginning.
proof fn lemma_longer_is_worth_more(s: Seq<char>, k: int)
    requires
        0 <= k <= s.len(),
        forall|i: int| 0 <= i < s.len() ==> is_digit(#[trigger] s[i]),
    ensures
        0 <= digits_value(s.take(k)) <= digits_value(s),
    decreases s.len() - k, s.len(),
{
    if k == 0 {
        assert(digits_value(s.take(0)) == 0);
        lemma_value_is_natural(s);
    } else if k == s.len() {
        assert(s.take(k) =~= s);
        lemma_value_is_natural(s);
    } else {
        let d = s.drop_last();
        assert forall|i: int| 0 <= i < d.len() implies is_digit(#[trigger] d[i]) by {
            assert(is_digit(s[i]));
        }
        lemma_longer_is_worth_more(d, k);
        assert(d.take(k) =~= s.take(k));
        assert(is_digit(s[s.len() - 1]));
        lemma_value_is_natural(d);
    }
}

/// A run of digits is worth nothing negative.
proof fn lemma_value_is_natural(s: Seq<char>)
    requires
        forall|i: int| 0 <= i < s.len() ==> is_digit(#[trigger] s[i]),
    ensures
        digits_value(s) >= 0,
    decreases s.len(),
{
    if s.len() > 0 {
        let d = s.drop_last();
        assert forall|i: int| 0 <= i < d.len() implies is_digit(#[trigger] d[i]) by {
            assert(is_digit(s[i]));
        }
        lemma_value_is_natural(d);
        assert(is_digit(s[s.len() - 1]));
    }
}

/// An integer in decimal holds no dot, and a minus sign only where negative.
proof fn lemma_int_chars(n: int)
    ensures
        int_chars(n).len() > 0,
        forall|i: int| 0 <= i < int_chars(n).len() ==> #[trigger] int_chars(n)[i] != '.',
        n < 0 <==> int_chars(n)[0] == '-',
        n < 0 ==> int_chars(n).subrange(1, int_chars(n).len() as int) == nat_chars((-n) as nat),
{
    if n < 0 {
        law_decimal_reads_back((-n) as nat);
        let s = int_chars(n);
        assert(s.subrange(1, s.len() as int) =~= nat_chars((-n) as nat));
        assert forall|i: int| 0 <= i < s.len() implies #[trigger] s[i] != '.' by {
            if i > 0 {
                assert(is_digit(nat_chars((-n) as nat)[i - 1]));
            }
        }
    } else {
        law_decimal_reads_back(n as nat);
        assert(is_digit(int_chars(n)[0]));
        assert forall|i: int| 0 <= i < int_chars(n).len() implies #[trigger] int_chars(n)[i]
            != '.' by {
            assert(is_digit(nat_chars(n as nat)[i]));
        }
    }
}

/// Two integers written alike are one.
proof fn lemma_int_chars_tell_apart(a: int, b: int)
    requires
        int_chars(a) == int_chars(b),
    ensures
        a == b,
{
    lemma_int_chars(a);
    lemma_int_chars(b);
    if a < 0 {
        law_decimal_reads_back((-a) as nat);
        law_decimal_reads_back((-b) as nat);
    } else {
        law_decimal_reads_back(a as nat);
        law_decimal_reads_back(b as nat);
    }
}

/// Two runs of bytes written alike are one.
proof fn lemma_hex_chars_tell_apart(a: Seq<u8>, b: Seq<u8>)
    requires
        hex_chars(a) == hex_chars(b),
    ensures
        a == b,
{
    assert(hex_chars(a).len() == 2 * a.len());
    assert forall|i: int| 0 <= i < a.len() implies a[i] == b[i] by {
        assert((2 * i) / 2 == i && (2 * i + 1) / 2 == i && (2 * i) % 2 == 0 && (2 * i + 1) % 2
            == 1);
        assert(hex_chars(a)[2 * i] == hex_char(a[i] as int / 16));
        assert(hex_chars(b)[2 * i] == hex_char(b[i] as int / 16));
        assert(hex_chars(a)[2 * i + 1] == hex_char(a[i] as int % 16));
        assert(hex_chars(b)[2 * i + 1] == hex_char(b[i] as int % 16));
        lemma_hex_char_tells_apart(a[i] as int / 16, b[i] as int / 16);
        lemma_hex_char_tells_apart(a[i] as int % 16, b[i] as int % 16);
    }
    assert(a =~= b);
}

proof fn lemma_hex_char_tells_apart(a: int, b: int)
    requires
        0 <= a < 16,
        0 <= b < 16,
        hex_char(a) == hex_char(b),
    ensures
        a == b,
{
    assert(digit_char(a) as int == 48 + a || a >= 10);
    assert(digit_char(b) as int == 48 + b || b >= 10);
}

/// The parts of an anchor as text.
proof fn lemma_anchor_parts(ms: i64, tag: Seq<u8>)
    ensures
        ({
            let s = anchor_chars(ms, tag);
            let n = int_chars(ms as int).len() as int;
            &&& s.len() == 4 + n + 2 * tag.len()
            &&& s[0] == 'v' && s[1] == '1' && s[2] == '.' && s[3 + n] == '.'
            &&& s.subrange(3, 3 + n) == int_chars(ms as int)
            &&& s.subrange(4 + n, s.len() as int) == hex_chars(tag)
            &&& forall|i: int| 3 <= i < 3 + n ==> #[trigger] s[i] != '.'
        }),
{
    reveal_strlit("v1");
    reveal_strlit(".");
    lemma_int_chars(ms as int);
    let s = anchor_chars(ms, tag);
    let n = int_chars(ms as int).len() as int;
    assert(s.subrange(3, 3 + n) =~= int_chars(ms as int));
    assert(s.subrange(4 + n, s.len() as int) =~= hex_chars(tag));
    assert forall|i: int| 3 <= i < 3 + n implies #[trigger] s[i] != '.' by {
        assert(s[i] == int_chars(ms as int)[i - 3]);
    }
}

/// A text is the anchor of one time and one tag at most.
pub proof fn law_anchors_tell_apart(a: i64, s: Seq<u8>, b: i64, t: Seq<u8>)
    requires
        anchor_chars(a, s) == anchor_chars(b, t),
    ensures
        a == b,
        s == t,
{
    lemma_anchor_parts(a, s);
    lemma_anchor_parts(b, t);
    let x = anchor_chars(a, s);
    let n = int_chars(a as int).len() as int;
    let m = int_chars(b as int).len() as int;
    if n < m {
        assert(x[3 + n] != '.');
    }
    if m < n {
        assert(x[3 + m] != '.');
    }
    lemma_int_chars_tell_apart(a as int, b as int);
    lemma_hex_chars_tell_apart(s, t);
}

/// The integer a run of characters spells in decimal, if it spells one.
fn read_int(cs: &Vec<char>, from: usize, to: usize) -> (r: Option<i64>)
    requires
        from <= to <= cs@.len(),
    ensures
        forall|n: i64|
            cs@.subrange(from as int, to as int) == #[trigger] int_chars(n as int) ==> r == Some(n),
{
    let ghost part = cs@.subrange(from as int, to as int);
    let minus: bool = from < to && cs[from] == '-';
    let start: usize = if minus {
        from + 1
    } else {
        from
    };
    let ghost digits = cs@.subrange(start as int, to as int);
    proof {
        assert forall|n: i64| part == #[trigger] int_chars(n as int) implies (minus <==> n < 0)
            && digits_value(digits) == (if n < 0 {
            -(n as int)
        } else {
            n as int
        }) && (forall|i: int| 0 <= i < digits.len() ==> is_digit(#[trigger] digits[i])) by {
            lemma_int_chars(n as int);
            assert(part[0] == cs@[from as int]);
            if n < 0 {
                law_decimal_reads_back((-(n as int)) as nat);
                assert(digits =~= part.subrange(1, part.len() as int));
            } else {
                law_decimal_reads_back(n as nat);
                assert(digits =~= part);
            }
        }
    }
    let mut value: i128 = 0;
    let mut i: usize = start;
    assert(digits.take(0) =~= Seq::empty());
    while i < to
        invariant
            start <= i <= to <= cs@.len(),
            digits == cs@.subrange(start as int, to as int),
            part == cs@.subrange(from as int, to as int),
            0 <= value <= 9_223_372_036_854_775_808,
            value == digits_value(digits.take(i - start)),
            forall|n: i64|
                part == #[trigger] int_chars(n as int) ==> (minus <==> n < 0) && digits_value(
                    digits,
                ) == (if n < 0 {
                    -(n as int)
                } else {
                    n as int
                }) && (forall|i: int| 0 <= i < digits.len() ==> is_digit(#[trigger] digits[i])),
        decreases to - i,
    {
        let c: char = cs[i];
        let ghost next = digits.take(i - start + 1);
        assert(next.drop_last() =~= digits.take(i - start));
        assert(next.last() == c);
        assert(c == digits[i - start]);
        if c < '0' || c > '9' {
            return None;
        }
        let code: u32 = c as u32;
        value = value * 10 + (code as i128 - 48);
        if value > 9_223_372_036_854_775_808 {
            proof {
                assert forall|n: i64| part == #[trigger] int_chars(n as int) implies false by {
                    lemma_longer_is_worth_more(digits, i - start + 1);
                }
            }
            return None;
        }
        i += 1;
    }
    assert(digits.take(to - start) =~= digits);
    if minus {
        if value == 9_223_372_036_854_775_808 {
            return Some(i64::MIN);
        }
        Some(-(value as i64))
    } else {
        if value == 9_223_372_036_854_775_808 {
            return None;
        }
        Some(value as i64)
    }
}

/// The value of a lower-case hexadecimal digit.
fn hex_value(c: char) -> (r: Option<u8>)
    ensures
        forall|v: int| 0 <= v < 16 && c == #[trigger] hex_char(v) ==> r is Some && r->0 == v,
        r is Some ==> r->0 < 16,
{
    let code: u32 = c as u32;
    let r: Option<u8> = if 48 <= code && code <= 57 {
        Some((code - 48) as u8)
    } else if 97 <= code && code <= 102 {
        Some((code - 87) as u8)
    } else {
        None
    };
    assert forall|v: int| 0 <= v < 16 && c == #[trigger] hex_char(v) implies r is Some && r->0
        == v by {
        assert(digit_char(v) as int == 48 + v || v >= 10);
    }
    r
}

/// The bytes a run of characters spells in hexadecimal, if it spells any.
fn read_hex(cs: &Vec<char>, from: usize) -> (r: Option<Vec<u8>>)
    requires
        from <= cs@.len(),
    ensures
        forall|bytes: Seq<u8>|
            cs@.subrange(from as int, cs@.len() as int) == #[trigger] hex_chars(bytes) ==> r is Some
                && r->0@ == bytes,
{
    let ghost part = cs@.subrange(from as int, cs@.len() as int);
    let n: usize = cs.len() - from;
    if n % 2 != 0 {
        assert forall|bytes: Seq<u8>| part == #[trigger] hex_chars(bytes) implies false by {
            assert(hex_chars(bytes).len() == 2 * bytes.len());
        }
        return None;
    }
    let mut out: Vec<u8> = Vec::new();
    let mut i: usize = 0;
    while i < n / 2
        invariant
            n == cs@.len() - from,
            from + n <= usize::MAX,
            part == cs@.subrange(from as int, cs@.len() as int),
            i <= n / 2,
            n % 2 == 0,
            out@.len() == i,
            forall|bytes: Seq<u8>|
                part == #[trigger] hex_chars(bytes) ==> out@ == bytes.take(i as int),
        decreases n / 2 - i,
    {
        let hi: Option<u8> = hex_value(cs[from + 2 * i]);
        let lo: Option<u8> = hex_value(cs[from + 2 * i + 1]);
        proof {
            assert forall|bytes: Seq<u8>| part == #[trigger] hex_chars(bytes) implies hi is Some
                && lo is Some && hi->0 == bytes[i as int] / 16 && lo->0 == bytes[i as int]
                % 16 by {
                assert(hex_chars(bytes).len() == 2 * bytes.len());
                assert(part[2 * i as int] == cs@[from + 2 * i]);
                assert(part[2 * i + 1] == cs@[from + 2 * i + 1]);
                assert((2 * i as int) / 2 == i && (2 * i + 1) / 2 == i as int && (2 * i as int) % 2
                    == 0 && (2 * i + 1) % 2 == 1);
                assert(cs@[from + 2 * i] == hex_char(bytes[i as int] as int / 16));
                assert(cs@[from + 2 * i + 1] == hex_char(bytes[i as int] as int % 16));
            }
        }
        match (hi, lo) {
            (Some(h), Some(l)) => {
                out.push(h * 16 + l);
                proof {
                    assert forall|bytes: Seq<u8>| part == #[trigger] hex_chars(bytes) implies out@
                        == bytes.take(i + 1) by {
                        assert(hex_chars(bytes).len() == 2 * bytes.len());
                        assert(out@ =~= bytes.take(i + 1));
                    }
                }
            },
            _ => {
                return None;
            },
        }
        i += 1;
    }
    proof {
        assert forall|bytes: Seq<u8>| part == #[trigger] hex_chars(bytes) implies out@ == bytes by {
            assert(hex_chars(bytes).len() == 2 * bytes.len());
            assert(bytes.take(bytes.len() as int) =~= bytes);
        }
    }
    Some(out)
}

/// A text that is an anchor's.
pub open spec fn is_anchor(s: Seq<char>) -> bool {
    exists|ms: i64, tag: Seq<u8>| s == #[trigger] anchor_chars(ms, tag)
}

/// What an anchor carries, if the text is one.
pub fn parse_anchor(anchor: &str) -> (r: Option<Anchor>)
    ensures
        r is Some <==> is_anchor(anchor@),
        r is Some ==> anchor@ == anchor_chars(r->0.ms, r->0.tag@),
{
    let cs: Vec<char> = chars_of(anchor);
    let ghost s = anchor@;
    let mut dot: usize = 3;
    while dot < cs.len() && cs[dot] != '.'
        invariant
            cs@ == s,
            dot >= 3,
            forall|i: int| 3 <= i < dot && i < s.len() ==> #[trigger] s[i] != '.',
            dot <= s.len() || dot == 3,
        decreases cs@.len() - dot,
    {
        dot += 1;
    }
    proof {
        assert forall|ms: i64, tag: Seq<u8>| s == #[trigger] anchor_chars(ms, tag) implies dot == 3
            + int_chars(ms as int).len() && dot < s.len() by {
            lemma_anchor_parts(ms, tag);
            let n = int_chars(ms as int).len() as int;
            if dot > 3 + n {
                assert(s[3 + n] != '.');
            }
        }
    }
    if dot >= cs.len() {
        return None;
    }
    let ms: Option<i64> = read_int(&cs, 3, dot);
    let tag: Option<Vec<u8>> = read_hex(&cs, dot + 1);
    proof {
        assert forall|m: i64, t: Seq<u8>| s == #[trigger] anchor_chars(m, t) implies ms == Some(m)
            && tag is Some && tag->0@ == t by {
            lemma_anchor_parts(m, t);
            assert(s.subrange(3, dot as int) == int_chars(m as int));
            assert(s.subrange(dot + 1, s.len() as int) == hex_chars(t));
        }
    }
    match (ms, tag) {
        (Some(ms), Some(tag)) => {
            if same_text(format_anchor(ms, tag.as_slice()).as_str(), anchor) {
                Some(Anchor { ms, tag })
            } else {
                None
            }
        },
        _ => None,
    }
}

/// The key's bytes.
fn key_bytes(secret: &JwtSecret) -> (r: Vec<u8>)
    ensures
        r@ == anchor_key(secret.0@),
{
    join("dawam-anchor:", secret.0.as_str()).as_str().as_bytes_vec()
}

/// The signed message's bytes.
fn message_bytes(device: Id, ms: i64) -> (r: Vec<u8>)
    ensures
        r@ == anchor_message(device, ms),
{
    let mut m: String = join3("v1", "|", id_text(device).as_str());
    m.push_str("|");
    m.push_str(int_text(ms).as_str());
    m.as_str().as_bytes_vec()
}

/// The signed server time for `device` at `at`: `v1.<epoch ms>.<hex hmac>`.
pub fn sign_anchor(secret: &JwtSecret, device: Id, at: Moment) -> (r: String)
    requires
        valid_moment(at),
    ensures
        r@ == anchor_chars(
            millis(at) as i64,
            anchor_tag(secret.0@, device, millis(at) as i64),
        ),
{
    let ms: i64 = floor_millis(at);
    let tag: Vec<u8> = hmac_tag(
        key_bytes(secret).as_slice(),
        message_bytes(device, ms).as_slice(),
    );
    format_anchor(ms, tag.as_slice())
}

/// The milliseconds of an instant, the part of a millisecond dropped toward the
/// past.
fn floor_millis(at: Moment) -> (r: i64)
    requires
        valid_moment(at),
    ensures
        r == millis(at),
{
    if at >= 0 {
        (at / NANOS_PER_MILLI) as i64
    } else {
        let up: i128 = -at + (NANOS_PER_MILLI - 1);
        let q: i128 = up / NANOS_PER_MILLI;
        -(q as i64)
    }
}

/// The server time an anchor carries, if it was signed for `device`.
pub fn verify_anchor(secret: &JwtSecret, device: Id, anchor: &str) -> (r: Option<Moment>)
    ensures
        match r {
            Some(t) => anchored(secret.0@, device, anchor@) == Some(t as int) && valid_moment(t),
            None => anchored(secret.0@, device, anchor@) is None,
        },
{
    match parse_anchor(anchor) {
        Some(a) => {
            let good: bool = hmac_matches(
                key_bytes(secret).as_slice(),
                message_bytes(device, a.ms).as_slice(),
                a.tag.as_slice(),
            );
            let t: i128 = a.ms as i128 * NANOS_PER_MILLI;
            proof {
                assert forall|ms: i64| #[trigger] vouches(
                    secret.0@,
                    device,
                    anchor@,
                    ms,
                ) implies ms == a.ms && a.tag@ == anchor_tag(secret.0@, device, ms) by {
                    law_anchors_tell_apart(
                        a.ms,
                        a.tag@,
                        ms,
                        anchor_tag(secret.0@, device, ms),
                    );
                }
                if good {
                    assert(vouches(secret.0@, device, anchor@, a.ms));
                }
            }
            if good && t >= -8_334_601_228_800_000_000_000 && t
                < 8_210_266_876_800_000_000_000 {
                Some(t)
            } else {
                None
            }
        },
        None => {
            proof {
                assert forall|ms: i64| !#[trigger] vouches(secret.0@, device, anchor@, ms) by {
                    if vouches(secret.0@, device, anchor@, ms) {
                        assert(anchor@ == anchor_chars(ms, anchor_tag(secret.0@, device, ms)));
                    }
                }
            }
            None
        },
    }
}

/// An anchor signed for a device carries, for that device and that key, the
/// time it was signed at, to the millisecond.
pub proof fn law_an_anchor_round_trips(secret: Seq<char>, device: Id, at: Moment)
    requires
        valid_moment(at),
    ensures
        anchored(
            secret,
            device,
            anchor_chars(millis(at) as i64, anchor_tag(secret, device, millis(at) as i64)),
        ) == Some(millis(at) * 1_000_000),
{
    let ms = millis(at) as i64;
    let text = anchor_chars(ms, anchor_tag(secret, device, ms));
    assert(vouches(secret, device, text, ms));
    assert forall|m: i64| #[trigger] vouches(secret, device, text, m) implies m == ms by {
        law_anchors_tell_apart(
            m,
            anchor_tag(secret, device, m),
            ms,
            anchor_tag(secret, device, ms),
        );
    }
}

/// Another device or another key reads a time in a signed anchor only where its
/// own tag for that time is the same tag.
pub proof fn law_an_anchor_is_for_its_device(
    secret: Seq<char>,
    device: Id,
    other_secret: Seq<char>,
    other: Id,
    at: Moment,
)
    requires
        valid_moment(at),
        anchor_tag(other_secret, other, millis(at) as i64) != anchor_tag(
            secret,
            device,
            millis(at) as i64,
        ),
    ensures
        anchored(
            other_secret,
            other,
            anchor_chars(millis(at) as i64, anchor_tag(secret, device, millis(at) as i64)),
        ) is None,
{
    let ms = millis(at) as i64;
    let text = anchor_chars(ms, anchor_tag(secret, device, ms));
    assert forall|m: i64| !#[trigger] vouches(other_secret, other, text, m) by {
        if vouches(other_secret, other, text, m) {
            law_anchors_tell_apart(
                m,
                anchor_tag(other_secret, other, m),
                ms,
                anchor_tag(secret, device, ms),
            );
        }
    }
}

impl OfflineStamp {
    /// A stamp whose times the calendar holds.
    pub open spec fn valid(self) -> bool {
        &&& valid_moment(self.server_time)
        &&& self.gps_time is Some ==> valid_moment(self.gps_time->0)
    }

    /// The server's own word for when it last spoke to the phone, no later
    /// than now.
    pub open spec fn signed_time(self, now: Moment, v: Verifier<'_>) -> Option<int> {
        if self.anchor is Some && v.device is Some {
            let t = anchored(v.secret.0@, v.device->0, self.anchor->0@);
            if t is Some && t->0 <= now {
                t
            } else {
                None
            }
        } else {
            None
        }
    }
}

/// The time a stamp is rebuilt to, from the time it counts from: what the
/// phone's uptime adds, or after a restart the satellite time where it is
/// possible.
pub open spec fn rebuilt_at(s: OfflineStamp, base: int, now: Moment) -> int {
    if s.rebooted {
        if s.gps_time is Some && base <= s.gps_time->0 <= now + NANOS_PER_MINUTE {
            s.gps_time->0 as int
        } else {
            base
        }
    } else {
        base + max_of(s.elapsed_ms as int, 0) * 1_000_000
    }
}

/// A rebuilt time the manager should doubt: no signed base, a restart, or a
/// satellite time too far from it.
pub open spec fn doubted(s: OfflineStamp, signed: bool, at: int) -> bool {
    ||| !signed
    ||| s.rebooted
    ||| s.gps_time is Some && !(-GPS_TOLERANCE_MIN * NANOS_PER_MINUTE <= s.gps_time->0 - at
        <= GPS_TOLERANCE_MIN * NANOS_PER_MINUTE)
}

/// What a stamp is rebuilt to, from the signed time it may count from.
pub open spec fn rebuilt(s: OfflineStamp, signed: Option<int>, now: Moment) -> Result<
    Stamped,
    ErrorView,
> {
    let base = match signed {
        Some(t) => t,
        None => s.server_time as int,
    };
    let at = rebuilt_at(s, base, now);
    if at > now + NANOS_PER_MINUTE {
        Err(
            ErrorView::CodedVars {
                status: 400,
                code: "PUNCH_IN_FUTURE"@,
                reason: "That punch is dated in the future."@,
                vars: seq![("at"@, VarView::At(at))],
            },
        )
    } else if at < now - MAX_AGE_DAYS * NANOS_PER_DAY {
        Err(
            ErrorView::CodedVars {
                status: 400,
                code: "PUNCH_TOO_OLD"@,
                reason: "That punch is more than a week old; ask your manager to add it."@,
                vars: seq![("at"@, VarView::At(at)), ("max_days"@, VarView::Int(7))],
            },
        )
    } else {
        Ok(
            Stamped {
                at: min_of(at, now as int) as Moment,
                offline: true,
                unverified: doubted(s, signed is Some, at),
            },
        )
    }
}

/// The time of an event from the phone's stamp and the server's signed word for
/// when it last spoke to that phone.
pub fn rebuild_from(s: &OfflineStamp, signed: Option<Moment>, now: Moment) -> (r: Result<
    Stamped,
    AppError,
>)
    requires
        s.valid(),
        valid_moment(now),
        signed is Some ==> valid_moment(signed->0),
    ensures
        outcome(r) == rebuilt(
            *s,
            match signed {
                Some(t) => Some(t as int),
                None => None,
            },
            now,
        ),
{
    let base: Moment = match signed {
        Some(t) => t,
        None => s.server_time,
    };
    let mut unverified: bool = signed.is_none();
    let at: Moment = if s.rebooted {
        // Time-since-boot was lost. Satellite time can still place it, but
        // only inside what is possible: after the last contact, not after now.
        unverified = true;
        match s.gps_time {
            Some(g) => if g >= base && g <= now + NANOS_PER_MINUTE {
                g
            } else {
                base
            },
            None => base,
        }
    } else {
        let elapsed: i64 = if s.elapsed_ms > 0 {
            s.elapsed_ms
        } else {
            0
        };
        let at: Moment = base + elapsed as i128 * NANOS_PER_MILLI;
        if let Some(g) = s.gps_time {
            let gap: i128 = if g >= at {
                g - at
            } else {
                at - g
            };
            if gap > GPS_TOLERANCE_MIN as i128 * NANOS_PER_MINUTE {
                unverified = true;
            }
        }
        at
    };
    if at > now + NANOS_PER_MINUTE {
        return Err(
            coded_var(
                400,
                "PUNCH_IN_FUTURE",
                "That punch is dated in the future.",
                "at",
                Var::At(at),
            ),
        );
    }
    if at < now - MAX_AGE_DAYS as i128 * NANOS_PER_DAY {
        return Err(
            coded_var2(
                400,
                "PUNCH_TOO_OLD",
                "That punch is more than a week old; ask your manager to add it.",
                ("at", Var::At(at)),
                ("max_days", Var::Int(MAX_AGE_DAYS)),
            ),
        );
    }
    Ok(
        Stamped {
            at: if at < now {
                at
            } else {
                now
            },
            offline: true,
            unverified,
        },
    )
}

/// When an event happened: now for one sent as it happened, else rebuilt from
/// the phone's offline stamp.
pub fn rebuild(stamp: Option<&OfflineStamp>, now: Moment, verifier: Verifier<'_>) -> (r: Result<
    Stamped,
    AppError,
>)
    requires
        stamp is Some ==> stamp->0.valid(),
        valid_moment(now),
    ensures
        outcome(r) == match stamp {
            Some(s) => rebuilt(*s, s.signed_time(now, verifier), now),
            None => Ok((Stamped { at: now, offline: false, unverified: false })),
        },
{
    match stamp {
        None => Ok(Stamped { at: now, offline: false, unverified: false }),
        Some(s) => {
            // The server's own word for when it last spoke to this phone, else
            // the phone's claim, which is dated but never trusted.
            let signed: Option<Moment> = match (&s.anchor, verifier.device) {
                (Some(a), Some(d)) => match verify_anchor(verifier.secret, d, a.as_str()) {
                    Some(t) => if t <= now {
                        Some(t)
                    } else {
                        None
                    },
                    None => None,
                },
                _ => None,
            };
            rebuild_from(s, signed, now)
        },
    }
}

/// A rebuilt time lies within the last week and is never after now; a signed
/// one is never before the last moment the server spoke to the phone.
pub proof fn law_rebuilt_within_what_is_possible(s: OfflineStamp, signed: Option<int>, now: Moment)
    requires
        s.valid(),
        valid_moment(now),
        signed is Some ==> signed->0 <= now,
        signed is Some ==> valid_moment(signed->0 as Moment),
        rebuilt(s, signed, now) is Ok,
    ensures
        ({
            let r = rebuilt(s, signed, now)->Ok_0;
            &&& r.at <= now
            &&& r.at >= now - MAX_AGE_DAYS * NANOS_PER_DAY
            &&& r.offline
            &&& signed is Some ==> signed->0 <= r.at
            &&& signed is None ==> r.unverified
            &&& s.rebooted ==> r.unverified
        }),
{
}

/// A phone that did not restart dates a punch at the signed time, or else the
/// time it claims, and what its uptime adds; never after now. It is refused more
/// than a minute ahead or more than a week back, and only then.
pub proof fn law_uptime_dates_a_punch(s: OfflineStamp, signed: Option<int>, now: Moment)
    requires
        s.valid(),
        valid_moment(now),
        !s.rebooted,
        s.elapsed_ms >= 0,
    ensures
        ({
            let base = if signed is Some {
                signed->0
            } else {
                s.server_time as int
            };
            let at = base + s.elapsed_ms * 1_000_000;
            let r = rebuilt(s, signed, now);
            &&& r is Ok <==> now - 7 * 86_400_000_000_000 <= at <= now + 60_000_000_000
            &&& r is Ok && at <= now ==> (r->Ok_0).at == at
            &&& r is Ok && now < at ==> (r->Ok_0).at == now
            &&& r is Ok ==> ((r->Ok_0).unverified <==> signed is None || (s.gps_time is Some && (
            s.gps_time->0 < at - 5 * 60_000_000_000 || at + 5 * 60_000_000_000 < s.gps_time->0)))
        }),
{
}

/// After a restart the satellite time dates a punch where it lies between the
/// time the phone counts from and now, and the former does otherwise; either way
/// it is doubted.
pub proof fn law_a_restart_leaves_the_satellites(
    s: OfflineStamp,
    signed: Option<int>,
    now: Moment,
)
    requires
        s.valid(),
        valid_moment(now),
        s.rebooted,
        rebuilt(s, signed, now) is Ok,
    ensures
        ({
            let base = if signed is Some {
                signed->0
            } else {
                s.server_time as int
            };
            let r = rebuilt(s, signed, now)->Ok_0;
            &&& r.unverified
            &&& s.gps_time is Some && base <= s.gps_time->0 <= now ==> r.at == s.gps_time->0
            &&& s.gps_time is None && base <= now ==> r.at == base
            &&& s.gps_time is Some && s.gps_time->0 < base && base <= now ==> r.at == base
        }),
{
}

/// Only an anchor of the phone's own device vouches for a time, and none for one
/// after now.
pub proof fn law_only_a_past_anchor_vouches(s: OfflineStamp, now: Moment, v: Verifier<'_>)
    ensures
        v.device is None || s.anchor is None ==> s.signed_time(now, v) is None,
        s.signed_time(now, v) is Some ==> s.signed_time(now, v)->0 <= now && s.signed_time(now, v)
            == anchored(v.secret.0@, v.device->0, s.anchor->0@),
        v.device is Some && s.anchor is Some && anchored(v.secret.0@, v.device->0, s.anchor->0@)
            is Some && anchored(v.secret.0@, v.device->0, s.anchor->0@)->0 <= now
            ==> s.signed_time(now, v) is Some,
{
}

/// A stored instant has its whole milliseconds.
pub proof fn law_milliseconds_are_whole(at: Moment)
    ensures
        millis(at) * 1_000_000 <= at < (millis(at) + 1) * 1_000_000,
{
}

} // verus!
