//! Text: joining, trimming, comparing, and numbers in decimal.

use vstd::prelude::*;

verus! {

/// `String::push_str` appends its argument and changes nothing before it.
pub assume_specification[ String::push_str ](s: &mut String, t: &str)
    ensures
        final(s)@ == old(s)@ + t@,
;

/// `String::push` appends one character and changes nothing before it.
pub assume_specification[ String::push ](s: &mut String, c: char)
    ensures
        final(s)@ == old(s)@.push(c),
;

/// The characters with Unicode's `White_Space` property.
pub open spec fn white_space(c: char) -> bool {
    let n = c as int;
    9 <= n <= 13 || n == 0x20 || n == 0x85 || n == 0xA0 || n == 0x1680 || 0x2000 <= n <= 0x200A || n
        == 0x2028 || n == 0x2029 || n == 0x202F || n == 0x205F || n == 0x3000
}

/// `char::is_whitespace` holds of the characters with Unicode's `White_Space`
/// property and of no other.
pub assume_specification[ char::is_whitespace ](c: char) -> (r: bool)
    ensures
        r == white_space(c),
;

/// Two texts are the same when their characters are.
///
/// Calls `str`'s `==`, which compares the texts and nothing else.
#[verifier::external_body]
pub(crate) fn same_text(a: &str, b: &str) -> (r: bool)
    ensures
        r == (a@ == b@),
{
    a == b
}

/// `str::to_lowercase` applied to the text.
pub uninterp spec fn lower(s: Seq<char>) -> Seq<char>;

/// Calls `str::to_lowercase`; its result depends on the text alone.
#[verifier::external_body]
pub(crate) fn to_lower(s: &str) -> (r: String)
    ensures
        r@ == lower(s@),
{
    s.to_lowercase()
}

/// One text after another.
pub fn join(a: &str, b: &str) -> (r: String)
    ensures
        r@ == a@ + b@,
{
    let mut out: String = a.to_owned();
    out.push_str(b);
    out
}

/// Three texts in a row.
pub fn join3(a: &str, b: &str, c: &str) -> (r: String)
    ensures
        r@ == a@ + b@ + c@,
{
    let mut out: String = a.to_owned();
    out.push_str(b);
    out.push_str(c);
    out
}

/// The texts of a list.
pub open spec fn texts(list: Seq<String>) -> Seq<Seq<char>> {
    Seq::new(list.len(), |i: int| list[i]@)
}

/// Texts in a row with a separator between them.
pub open spec fn joined(parts: Seq<Seq<char>>, sep: Seq<char>) -> Seq<char>
    decreases parts.len(),
{
    if parts.len() == 0 {
        Seq::empty()
    } else if parts.len() == 1 {
        parts[0]
    } else {
        joined(parts.drop_last(), sep) + sep + parts.last()
    }
}

/// Texts in a row with a separator between them.
pub fn join_all(parts: &Vec<String>, sep: &str) -> (r: String)
    ensures
        r@ == joined(texts(parts@), sep@),
{
    let mut out: String = String::new();
    let mut i: usize = 0;
    while i < parts.len()
        invariant
            i <= parts@.len(),
            out@ == joined(texts(parts@).take(i as int), sep@),
        decreases parts@.len() - i,
    {
        proof {
            assert(texts(parts@).take(i + 1).drop_last() =~= texts(parts@).take(i as int));
            assert(texts(parts@).take(i + 1).last() == parts@[i as int]@);
        }
        if i > 0 {
            out.push_str(sep);
        }
        out.push_str(parts[i].as_str());
        proof {
            if i == 0 {
                assert(out@ =~= parts@[0]@);
            }
        }
        i += 1;
    }
    assert(texts(parts@).take(parts@.len() as int) =~= texts(parts@));
    out
}

/// A text without the white space at both ends.
pub open spec fn trimmed(s: Seq<char>) -> Seq<char>
    decreases s.len(),
{
    if s.len() == 0 {
        s
    } else if white_space(s[0]) {
        trimmed(s.subrange(1, s.len() as int))
    } else if white_space(s[s.len() - 1]) {
        trimmed(s.subrange(0, s.len() - 1))
    } else {
        s
    }
}

/// The characters of a text, one by one.
pub fn chars_of(s: &str) -> (r: Vec<char>)
    ensures
        r@ == s@,
{
    let n: usize = s.unicode_len();
    let mut out: Vec<char> = Vec::new();
    let mut i: usize = 0;
    while i < n
        invariant
            n == s@.len(),
            i <= n,
            out@ == s@.take(i as int),
        decreases n - i,
    {
        out.push(s.get_char(i));
        i += 1;
        assert(s@.take(i as int) =~= s@.take(i - 1).push(s@[i - 1]));
    }
    assert(s@.take(n as int) =~= s@);
    out
}

/// The text of a run of characters, from `from` up to but not including `to`.
pub fn text_of(cs: &Vec<char>, from: usize, to: usize) -> (r: String)
    requires
        from <= to <= cs@.len(),
    ensures
        r@ == cs@.subrange(from as int, to as int),
{
    let mut out: String = String::new();
    let mut i: usize = from;
    while i < to
        invariant
            from <= i <= to <= cs@.len(),
            out@ == cs@.subrange(from as int, i as int),
        decreases to - i,
    {
        out.push(cs[i]);
        i += 1;
        assert(cs@.subrange(from as int, i as int) =~= cs@.subrange(from as int, i - 1).push(
            cs@[i - 1],
        ));
    }
    out
}

/// The text without the white space at both ends.
pub fn trim(s: &str) -> (r: String)
    ensures
        r@ == trimmed(s@),
{
    let cs: Vec<char> = chars_of(s);
    let mut from: usize = 0;
    let mut to: usize = cs.len();
    assert(cs@.subrange(0, cs@.len() as int) =~= cs@);
    while from < to && cs[from].is_whitespace()
        invariant
            from <= to == cs@.len(),
            trimmed(cs@.subrange(from as int, to as int)) == trimmed(cs@),
        decreases to - from,
    {
        let ghost cur = cs@.subrange(from as int, to as int);
        from += 1;
        assert(cur.subrange(1, cur.len() as int) =~= cs@.subrange(from as int, to as int));
    }
    while from < to && cs[to - 1].is_whitespace()
        invariant
            from <= to <= cs@.len(),
            from < to ==> !white_space(cs@[from as int]),
            trimmed(cs@.subrange(from as int, to as int)) == trimmed(cs@),
        decreases to - from,
    {
        let ghost cur = cs@.subrange(from as int, to as int);
        to -= 1;
        assert(cur.subrange(0, cur.len() - 1) =~= cs@.subrange(from as int, to as int));
    }
    text_of(&cs, from, to)
}

/// The decimal digit `d`.
pub open spec fn digit_char(d: int) -> char {
    (48 + d) as char
}

/// A natural number in decimal, without leading zeros.
pub open spec fn nat_chars(n: nat) -> Seq<char>
    decreases n,
{
    if n < 10 {
        seq![digit_char(n as int)]
    } else {
        nat_chars(n / 10).push(digit_char((n % 10) as int))
    }
}

/// An integer in decimal, with a minus sign where it is negative.
pub open spec fn int_chars(n: int) -> Seq<char> {
    if n < 0 {
        seq!['-'] + nat_chars((-n) as nat)
    } else {
        nat_chars(n as nat)
    }
}

/// `d` as a character.
pub fn digit(d: u8) -> (c: char)
    requires
        d < 10,
    ensures
        c == digit_char(d as int),
{
    (48 + d) as char
}

/// A natural number in decimal.
pub fn nat_text(n: u64) -> (r: String)
    ensures
        r@ == nat_chars(n as nat),
    decreases n,
{
    if n < 10 {
        let mut out: String = String::new();
        out.push(digit(n as u8));
        assert(out@ =~= seq![digit_char(n as int)]);
        out
    } else {
        let mut out: String = nat_text(n / 10);
        out.push(digit((n % 10) as u8));
        out
    }
}

/// An integer in decimal.
pub fn int_text(n: i64) -> (r: String)
    ensures
        r@ == int_chars(n as int),
{
    if n < 0 {
        let magnitude: u64 = if n == i64::MIN {
            9_223_372_036_854_775_808
        } else {
            (-n) as u64
        };
        let mut out: String = String::new();
        out.push('-');
        out.push_str(nat_text(magnitude).as_str());
        assert(out@ =~= seq!['-'] + nat_chars(magnitude as nat));
        out
    } else {
        nat_text(n as u64)
    }
}

/// The value of a run of decimal digits.
pub open spec fn digits_value(s: Seq<char>) -> int
    decreases s.len(),
{
    if s.len() == 0 {
        0
    } else {
        10 * digits_value(s.drop_last()) + (s.last() as int - 48)
    }
}

/// A decimal digit.
pub open spec fn is_digit(c: char) -> bool {
    48 <= c as int <= 57
}

/// A number in decimal is a run of digits, and its value is the number.
pub proof fn law_decimal_reads_back(n: nat)
    ensures
        digits_value(nat_chars(n)) == n,
        nat_chars(n).len() > 0,
        forall|i: int| 0 <= i < nat_chars(n).len() ==> is_digit(#[trigger] nat_chars(n)[i]),
    decreases n,
{
    if n < 10 {
        let s = nat_chars(n);
        assert(s.drop_last() =~= Seq::empty());
        assert(digits_value(s.drop_last()) == 0);
        assert(s.last() == digit_char(n as int));
    } else {
        law_decimal_reads_back(n / 10);
        let s = nat_chars(n);
        assert(s.drop_last() =~= nat_chars(n / 10));
        assert forall|i: int| 0 <= i < s.len() implies is_digit(#[trigger] s[i]) by {
            if i < nat_chars(n / 10).len() {
                assert(s[i] == nat_chars(n / 10)[i]);
            }
        }
    }
}

/// A number below a hundred in two digits.
pub open spec fn two_digits(n: int) -> Seq<char> {
    seq![digit_char(n / 10), digit_char(n % 10)]
}

/// A number below a hundred in two digits.
pub fn two_digit_text(n: u32) -> (r: String)
    requires
        n < 100,
    ensures
        r@ == two_digits(n as int),
{
    let mut out: String = String::new();
    out.push(digit((n / 10) as u8));
    out.push(digit((n % 10) as u8));
    assert(out@ =~= two_digits(n as int));
    out
}

/// What an optional text says.
pub open spec fn maybe(t: Option<String>) -> Option<Seq<char>> {
    match t {
        Some(s) => Some(s@),
        None => None,
    }
}

/// Whether an optional text is there and is the given one.
pub open spec fn is_text(t: Option<String>, s: Seq<char>) -> bool {
    t is Some && t->0@ == s
}

/// Whether an optional text is there and is the given one.
pub fn text_is(t: &Option<String>, s: &str) -> (r: bool)
    ensures
        r == is_text(*t, s@),
{
    match t {
        Some(x) => same_text(x.as_str(), s),
        None => false,
    }
}

/// A copy of an optional text.
pub fn copy_text(t: &Option<String>) -> (r: Option<String>)
    ensures
        maybe(r) == maybe(*t),
{
    match t {
        Some(x) => Some(x.as_str().to_owned()),
        None => None,
    }
}

/// Whether the list holds the text.
pub open spec fn holds_text(list: Seq<String>, t: Seq<char>) -> bool {
    exists|i: int| 0 <= i < list.len() && (#[trigger] list[i])@ == t
}

/// Whether the list holds the text.
pub fn has_text(list: &Vec<String>, t: &str) -> (r: bool)
    ensures
        r == holds_text(list@, t@),
{
    let mut i: usize = 0;
    while i < list.len()
        invariant
            i <= list@.len(),
            forall|k: int| 0 <= k < i ==> (#[trigger] list@[k])@ != t@,
        decreases list@.len() - i,
    {
        if same_text(list[i].as_str(), t) {
            assert(list@[i as int]@ == t@);
            return true;
        }
        i += 1;
    }
    false
}

/// An optional text without the white space around it, none where nothing is
/// left.
pub open spec fn unblank(t: Option<Seq<char>>) -> Option<Seq<char>> {
    match t {
        Some(s) => if trimmed(s).len() > 0 {
            Some(trimmed(s))
        } else {
            None
        },
        None => None,
    }
}

/// An optional text without the white space around it, none where nothing is
/// left.
pub fn blank_to_none(t: &Option<String>) -> (r: Option<String>)
    ensures
        maybe(r) == unblank(maybe(*t)),
{
    match t {
        Some(s) => {
            let kept: String = trim(s.as_str());
            if kept.as_str().is_empty() {
                None
            } else {
                Some(kept)
            }
        },
        None => None,
    }
}

/// A trimmed text has no white space at either end, and trimming it again
/// changes nothing.
pub proof fn law_a_trimmed_text_has_no_blank_ends(s: Seq<char>)
    ensures
        trimmed(s).len() <= s.len(),
        trimmed(s).len() > 0 ==> !white_space(trimmed(s)[0]) && !white_space(
            trimmed(s)[trimmed(s).len() - 1],
        ),
        trimmed(trimmed(s)) == trimmed(s),
    decreases s.len(),
{
    if s.len() == 0 {
    } else if white_space(s[0]) {
        law_a_trimmed_text_has_no_blank_ends(s.subrange(1, s.len() as int));
    } else if white_space(s[s.len() - 1]) {
        law_a_trimmed_text_has_no_blank_ends(s.subrange(0, s.len() - 1));
    }
}

/// White space around a text changes nothing of it once it is trimmed, and a
/// text without any at its ends is trimmed already.
pub proof fn law_white_space_around_is_dropped(s: Seq<char>, c: char)
    requires
        white_space(c),
    ensures
        trimmed(seq![c] + s) == trimmed(s),
        trimmed(s.push(c)) == trimmed(s),
        s.len() > 0 && !white_space(s[0]) && !white_space(s[s.len() - 1]) ==> trimmed(s) == s,
    decreases s.len(),
{
    let a = seq![c] + s;
    assert(a[0] == c);
    assert(a.subrange(1, a.len() as int) =~= s);
    let b = s.push(c);
    assert(b[b.len() - 1] == c);
    assert(b.subrange(0, b.len() - 1) =~= s);
    if s.len() == 0 {
        assert(b[0] == c);
        assert(b.subrange(1, b.len() as int) =~= s);
    } else if white_space(s[0]) {
        let rest = s.subrange(1, s.len() as int);
        law_white_space_around_is_dropped(rest, c);
        assert(b[0] == s[0]);
        assert(b.subrange(1, b.len() as int) =~= rest.push(c));
    } else {
        assert(b[0] == s[0]);
    }
}

/// A blank text is none, and any other is the trimmed one.
pub proof fn law_a_blank_text_is_none(t: Option<Seq<char>>)
    ensures
        unblank(t) is Some <==> t is Some && trimmed(t->0).len() > 0,
        unblank(t) is Some ==> unblank(t)->0 == trimmed(t->0),
        unblank(unblank(t)) == unblank(t),
{
    if t is Some {
        law_a_trimmed_text_has_no_blank_ends(t->0);
    }
}

} // verus!
