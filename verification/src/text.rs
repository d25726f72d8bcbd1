//! String helpers whose contracts speak of the characters.

use vstd::prelude::*;
use vstd::string::StrSliceExecFns;

verus! {

/// The characters of a string.
pub fn chars_of(s: &str) -> (out: Vec<char>)
    ensures
        out@ == s@,
{
    let mut out: Vec<char> = Vec::new();
    for c in it: s.chars()
        invariant
            out@ == it.seq().take(it.index() as int),
            it.seq() == s@,
    {
        out.push(c);
    }
    assert(out@ =~= s@);
    out
}

/// Whether the strings hold the same characters.
pub fn str_eq(a: &str, b: &str) -> (r: bool)
    ensures
        r == (a@ == b@),
{
    let x = a.as_bytes();
    let y = b.as_bytes();
    proof {
        vstd::utf8::encode_utf8_decode_utf8(a@);
        vstd::utf8::encode_utf8_decode_utf8(b@);
    }
    if x.len() != y.len() {
        return false;
    }
    let mut i: usize = 0;
    while i < x.len()
        invariant
            x@.len() == y@.len(),
            i <= x@.len(),
            forall|j: int| 0 <= j < i ==> x@[j] == y@[j],
            x@ == vstd::utf8::encode_utf8(a@),
            y@ == vstd::utf8::encode_utf8(b@),
        decreases x@.len() - i,
    {
        if x[i] != y[i] {
            return false;
        }
        i += 1;
    }
    assert(x@ =~= y@);
    true
}

/// `s` begins with the characters of `prefix`.
pub open spec fn begins_with(s: Seq<char>, prefix: Seq<char>) -> bool {
    prefix.len() <= s.len() && s.take(prefix.len() as int) == prefix
}

/// What follows `prefix`, when `s` begins with it.
pub fn strip_prefix<'a>(s: &'a str, prefix: &str) -> (r: Option<&'a str>)
    ensures
        match r {
            Some(rest) => begins_with(s@, prefix@) && rest@ == s@.skip(prefix@.len() as int),
            None => !begins_with(s@, prefix@),
        },
{
    let n: usize = prefix.unicode_len();
    let len: usize = s.unicode_len();
    if n > len {
        return None;
    }
    let head = s.substring_char(0, n);
    assert(s@.subrange(0, n as int) =~= s@.take(n as int));
    if str_eq(head, prefix) {
        let rest = s.substring_char(n, len);
        assert(rest@ =~= s@.skip(n as int));
        Some(rest)
    } else {
        None
    }
}

/// Decimal digits of a number, as ASCII.
pub open spec fn decimal(n: nat) -> Seq<u8>
    decreases n,
{
    if n < 10 {
        seq![(48 + n) as u8]
    } else {
        decimal(n / 10).push((48 + n % 10) as u8)
    }
}

/// Append the decimal digits of `n`.
pub fn push_decimal(out: &mut Vec<u8>, n: u32)
    ensures
        final(out)@ == old(out)@ + decimal(n as nat),
    decreases n,
{
    if n < 10 {
        out.push(48 + n as u8);
        assert(out@ =~= old(out)@ + decimal(n as nat));
    } else {
        push_decimal(out, n / 10);
        out.push(48 + (n % 10) as u8);
        assert(out@ =~= old(out)@ + decimal(n as nat));
    }
}

/// Lexicographic order of byte strings.
pub open spec fn bytes_less(a: Seq<u8>, b: Seq<u8>) -> bool
    decreases a.len(),
{
    if b.len() == 0 {
        false
    } else if a.len() == 0 {
        true
    } else if a[0] != b[0] {
        a[0] < b[0]
    } else {
        bytes_less(a.skip(1), b.skip(1))
    }
}

/// The order of strings: that of their UTF-8 bytes.
pub open spec fn name_less(a: Seq<char>, b: Seq<char>) -> bool {
    bytes_less(vstd::utf8::encode_utf8(a), vstd::utf8::encode_utf8(b))
}

/// Whether `a` comes before `b`.
pub fn str_less(a: &str, b: &str) -> (r: bool)
    ensures
        r == name_less(a@, b@),
{
    let x = a.as_bytes();
    let y = b.as_bytes();
    let mut i: usize = 0;
    assert(x@.skip(0) =~= x@);
    assert(y@.skip(0) =~= y@);
    while i < x.len() && i < y.len()
        invariant
            i <= x@.len(),
            i <= y@.len(),
            bytes_less(x@, y@) == bytes_less(x@.skip(i as int), y@.skip(i as int)),
            x@ == vstd::utf8::encode_utf8(a@),
            y@ == vstd::utf8::encode_utf8(b@),
        decreases x@.len() - i,
    {
        assert(x@.skip(i as int)[0] == x@[i as int]);
        assert(y@.skip(i as int)[0] == y@[i as int]);
        if x[i] != y[i] {
            return x[i] < y[i];
        }
        assert(x@.skip(i as int).skip(1) =~= x@.skip(i + 1));
        assert(y@.skip(i as int).skip(1) =~= y@.skip(i + 1));
        i += 1;
    }
    i < y.len()
}

/// The order of strings is strict and total.
pub proof fn law_names_are_ordered(a: Seq<char>, b: Seq<char>, c: Seq<char>)
    ensures
        !name_less(a, a),
        name_less(a, b) && name_less(b, c) ==> name_less(a, c),
        a == b || name_less(a, b) || name_less(b, a),
{
    vstd::utf8::encode_utf8_decode_utf8(a);
    vstd::utf8::encode_utf8_decode_utf8(b);
    let (x, y, z) = (
        vstd::utf8::encode_utf8(a),
        vstd::utf8::encode_utf8(b),
        vstd::utf8::encode_utf8(c),
    );
    lemma_bytes_ordered(x, x, x);
    lemma_bytes_ordered(x, y, z);
}

proof fn lemma_bytes_ordered(a: Seq<u8>, b: Seq<u8>, c: Seq<u8>)
    ensures
        !bytes_less(a, a),
        bytes_less(a, b) && bytes_less(b, c) ==> bytes_less(a, c),
        a == b || bytes_less(a, b) || bytes_less(b, a),
    decreases a.len(),
{
    if a.len() > 0 {
        let t = a.skip(1);
        lemma_bytes_ordered(
            t,
            if b.len() > 0 {
                b.skip(1)
            } else {
                b
            },
            if c.len() > 0 {
                c.skip(1)
            } else {
                c
            },
        );
        if b.len() > 0 && a[0] == b[0] && t == b.skip(1) {
            assert(a =~= seq![a[0]] + a.skip(1));
            assert(b =~= seq![b[0]] + b.skip(1));
        }
    } else if b.len() == 0 {
        assert(a =~= b);
    }
}

/// Unicode `White_Space`.
pub open spec fn is_space(c: char) -> bool {
    let u = c as u32;
    ||| 0x9 <= u <= 0xd
    ||| u == 0x20
    ||| u == 0x85
    ||| u == 0xa0
    ||| u == 0x1680
    ||| 0x2000 <= u <= 0x200a
    ||| u == 0x2028
    ||| u == 0x2029
    ||| u == 0x202f
    ||| u == 0x205f
    ||| u == 0x3000
}

/// `s` without white space at its end.
pub open spec fn trim_end(s: Seq<char>) -> Seq<char>
    decreases s.len(),
{
    if s.len() > 0 && is_space(s.last()) {
        trim_end(s.drop_last())
    } else {
        s
    }
}

/// `s` without white space at its start.
pub open spec fn trim_start(s: Seq<char>) -> Seq<char>
    decreases s.len(),
{
    if s.len() > 0 && is_space(s[0]) {
        trim_start(s.skip(1))
    } else {
        s
    }
}

/// `s` without white space at its ends.
pub open spec fn trimmed(s: Seq<char>) -> Seq<char> {
    trim_end(trim_start(s))
}

fn char_is_space(c: char) -> (r: bool)
    ensures
        r == is_space(c),
{
    let u: u32 = c as u32;
    (u >= 0x9 && u <= 0xd) || u == 0x20 || u == 0x85 || u == 0xa0 || u == 0x1680 || (u >= 0x2000
        && u <= 0x200a) || u == 0x2028 || u == 0x2029 || u == 0x202f || u == 0x205f || u == 0x3000
}

/// `s` without white space at its ends.
pub fn trim(s: &str) -> (r: &str)
    ensures
        r@ == trimmed(s@),
{
    let chars = chars_of(s);
    let n: usize = chars.len();
    let mut i: usize = 0;
    assert(s@.skip(0) =~= s@);
    while i < n && char_is_space(chars[i])
        invariant
            i <= n,
            n == chars@.len(),
            chars@ == s@,
            trim_start(s@) == trim_start(s@.skip(i as int)),
        decreases n - i,
    {
        assert(s@.skip(i as int)[0] == s@[i as int]);
        assert(s@.skip(i as int).skip(1) =~= s@.skip(i + 1));
        i += 1;
    }
    proof {
        if i < n {
            assert(s@.skip(i as int)[0] == s@[i as int]);
        }
    }
    let ghost rest = s@.skip(i as int);
    assert(trim_start(s@) == rest);
    let mut j: usize = n;
    assert(rest.take(j - i) =~= rest);
    while j > i && char_is_space(chars[j - 1])
        invariant
            i <= j <= n,
            n == chars@.len(),
            chars@ == s@,
            rest == s@.skip(i as int),
            trim_end(rest) == trim_end(rest.take(j - i)),
        decreases j,
    {
        assert(rest.take(j - i).last() == s@[j - 1]);
        assert(rest.take(j - i).drop_last() =~= rest.take(j - i - 1));
        j -= 1;
    }
    proof {
        if j > i {
            assert(rest.take(j - i).last() == s@[j - 1]);
        }
    }
    let r = s.substring_char(i, j);
    assert(r@ =~= rest.take(j - i));
    r
}

/// Text without white space at its ends stays as it is.
pub proof fn law_trim_keeps(s: Seq<char>)
    requires
        s.len() > 0 ==> !is_space(s[0]) && !is_space(s.last()),
    ensures
        trimmed(s) == s,
{
}

/// Append one character (`String::push`).
pub assume_specification[ String::push ](s: &mut String, c: char)
    ensures
        final(s)@ == old(s)@.push(c),
;

/// ASCII letters in lower case, everything else as it is.
pub open spec fn lower(c: char) -> char {
    if 'A' <= c <= 'Z' {
        (c as u32 + 32) as char
    } else {
        c
    }
}

/// ASCII letters in upper case, everything else as it is.
pub open spec fn upper(c: char) -> char {
    if 'a' <= c <= 'z' {
        (c as u32 - 32) as char
    } else {
        c
    }
}

pub fn to_lower(c: char) -> (r: char)
    ensures
        r == lower(c),
{
    if c >= 'A' && c <= 'Z' {
        (c as u8 + 32) as char
    } else {
        c
    }
}

pub fn to_upper(c: char) -> (r: char)
    ensures
        r == upper(c),
{
    if c >= 'a' && c <= 'z' {
        (c as u8 - 32) as char
    } else {
        c
    }
}

/// Lower case undoes upper case on what is in lower case.
pub proof fn law_case_round_trip(c: char)
    requires
        lower(c) == c,
    ensures
        lower(upper(c)) == c,
{
}

/// An ASCII digit.
pub open spec fn is_digit(c: char) -> bool {
    '0' <= c <= '9'
}

/// Only digits, at least one.
pub open spec fn all_digits(s: Seq<char>) -> bool {
    s.len() > 0 && forall|i: int| 0 <= i < s.len() ==> is_digit(#[trigger] s[i])
}

/// Value of a digit string.
pub open spec fn digits_value(s: Seq<char>) -> nat
    decreases s.len(),
{
    if s.len() == 0 {
        0
    } else {
        digits_value(s.drop_last()) * 10 + (s.last() as u32 - '0' as u32) as nat
    }
}

/// What a byte-sized number reads as: digits after an optional `+`, with a
/// value up to 255.
pub open spec fn byte_value(s: Seq<char>) -> Option<nat> {
    let digits = if s.len() > 0 && s[0] == '+' {
        s.skip(1)
    } else {
        s
    };
    if all_digits(digits) && digits_value(digits) <= 255 {
        Some(digits_value(digits))
    } else {
        None
    }
}

proof fn lemma_digits_grow(s: Seq<char>, n: int)
    requires
        0 <= n <= s.len(),
        forall|i: int| 0 <= i < s.len() ==> is_digit(#[trigger] s[i]),
    ensures
        digits_value(s.take(n)) <= digits_value(s),
    decreases s.len(),
{
    if n < s.len() {
        lemma_digits_grow(s.drop_last(), n);
        assert(s.drop_last().take(n) =~= s.take(n));
    } else {
        assert(s.take(n) =~= s);
    }
}

/// Read a byte-sized number.
pub fn parse_byte(s: &str) -> (r: Option<u8>)
    ensures
        match r {
            Some(n) => byte_value(s@) == Some(n as nat),
            None => byte_value(s@) is None,
        },
{
    let chars = chars_of(s);
    let start: usize = if chars.len() > 0 && chars[0] == '+' {
        1
    } else {
        0
    };
    let ghost digits = s@.skip(start as int);
    assert(s@.skip(0) =~= s@);
    if chars.len() == start {
        assert(digits.len() == 0);
        return None;
    }
    let mut value: u32 = 0;
    let mut i: usize = start;
    assert(digits.take(0) =~= Seq::<char>::empty());
    while i < chars.len()
        invariant
            start <= i <= chars@.len(),
            chars@ == s@,
            digits == s@.skip(start as int),
            start == 1 <==> (s@.len() > 0 && s@[0] == '+'),
            start <= 1,
            s@.skip(0) == s@,
            forall|k: int| 0 <= k < i - start ==> is_digit(#[trigger] digits[k]),
            value == digits_value(digits.take(i - start)),
            value <= 255,
        decreases chars@.len() - i,
    {
        let c: char = chars[i];
        assert(digits[i - start] == c);
        if !(c >= '0' && c <= '9') {
            assert(!is_digit(digits[i - start]));
            return None;
        }
        proof {
            assert(digits.take(i - start + 1).drop_last() =~= digits.take(i - start));
            assert(digits.take(i - start + 1).last() == c);
        }
        value = value * 10 + (c as u32 - 48);
        if value > 255 {
            proof {
                if all_digits(digits) {
                    lemma_digits_grow(digits, i - start + 1);
                }
            }
            return None;
        }
        i += 1;
    }
    assert(digits.take(i - start) =~= digits);
    Some(value as u8)
}

/// Numbers are written in decimal, the highest digit first and without
/// leading zeros, so that each has a text of its own.
pub proof fn law_decimals_are_told_apart(a: nat, b: nat)
    ensures
        decimal(a).len() >= 1,
        0x30 <= decimal(a).last() <= 0x39,
        decimal(a).last() - 0x30 == a % 10,
        a >= 10 ==> decimal(a).drop_last() == decimal(a / 10),
        a < 10 ==> decimal(a).len() == 1,
        decimal(a) == decimal(b) ==> a == b,
    decreases a,
{
    if a >= 10 {
        assert(decimal(a).drop_last() =~= decimal(a / 10));
        law_decimals_are_told_apart(a / 10, b / 10);
    }
    if decimal(a) == decimal(b) {
        assert(decimal(a).last() - 0x30 == a % 10);
        assert(decimal(b).last() - 0x30 == b % 10);
        if a >= 10 && b >= 10 {
            assert(decimal(b).drop_last() =~= decimal(b / 10));
        } else if a >= 10 {
            law_decimals_are_told_apart(a / 10, 0);
            assert(decimal(a).len() >= 2);
        } else if b >= 10 {
            assert(decimal(b).len() == decimal(b / 10).len() + 1);
            lemma_decimal_len(b / 10);
        }
    }
}

proof fn lemma_decimal_len(n: nat)
    ensures
        decimal(n).len() >= 1,
    decreases n,
{
    if n >= 10 {
        lemma_decimal_len(n / 10);
    }
}

/// A text begins with another exactly if it is as long at least and agrees
/// with it character by character.
pub proof fn law_prefixes_agree(s: Seq<char>, prefix: Seq<char>)
    ensures
        begins_with(s, prefix) <==> prefix.len() <= s.len() && forall|i: int|
            0 <= i < prefix.len() ==> s[i] == #[trigger] prefix[i],
{
    if prefix.len() <= s.len() {
        let head = s.take(prefix.len() as int);
        if forall|i: int| 0 <= i < prefix.len() ==> s[i] == #[trigger] prefix[i] {
            assert(head =~= prefix);
        }
        if head == prefix {
            assert forall|i: int| 0 <= i < prefix.len() implies s[i] == #[trigger] prefix[i] by {
                assert(head[i] == prefix[i]);
            }
        }
    }
}

/// Trimming takes white space off both ends and nothing else: what is left
/// neither begins nor ends with it, and white space within stays.
pub proof fn law_trimming_takes_white_space_alone(s: Seq<char>, c: char)
    requires
        is_space(c),
    ensures
        trimmed(s).len() > 0 ==> !is_space(trimmed(s)[0]) && !is_space(trimmed(s).last()),
        s.len() > 0 && !is_space(s[0]) ==> trim_start(s) == s,
        trim_start(seq![c] + s) == trim_start(s),
        trim_end(s.push(c)) == trim_end(s),
        trimmed(s).len() <= s.len(),
{
    assert((seq![c] + s).skip(1) =~= s);
    assert(s.push(c).drop_last() =~= s);
    lemma_trim_start(s);
    lemma_trim_end(trim_start(s));
}

proof fn lemma_trim_start(s: Seq<char>)
    ensures
        trim_start(s).len() <= s.len(),
        trim_start(s).len() > 0 ==> !is_space(trim_start(s)[0]),
    decreases s.len(),
{
    if s.len() > 0 && is_space(s[0]) {
        lemma_trim_start(s.skip(1));
    }
}

proof fn lemma_trim_end(s: Seq<char>)
    ensures
        trim_end(s).len() <= s.len(),
        trim_end(s).len() > 0 ==> !is_space(trim_end(s).last()) && trim_end(s)[0] == s[0],
    decreases s.len(),
{
    if s.len() > 0 && is_space(s.last()) {
        lemma_trim_end(s.drop_last());
    }
}

/// Case is changed for the letters of the Latin alphabet and nothing else,
/// by keeping their place in it.
pub proof fn law_case_keeps_the_letter(c: char)
    ensures
        'A' <= c <= 'Z' ==> lower(c) as u32 - 'a' as u32 == c as u32 - 'A' as u32,
        'a' <= c <= 'z' ==> upper(c) as u32 - 'A' as u32 == c as u32 - 'a' as u32,
        !('A' <= c <= 'Z') ==> lower(c) == c,
        !('a' <= c <= 'z') ==> upper(c) == c,
{
}

/// Digits are read from the highest on, ten for one with each further; what
/// is no digit, or too large for a byte, is not read.
pub proof fn law_digits_are_read_in_order(s: Seq<char>, c: char)
    requires
        '0' <= c <= '9',
    ensures
        digits_value(Seq::empty()) == 0,
        digits_value(s.push(c)) == 10 * digits_value(s) + (c as u32 - '0' as u32),
        byte_value(seq![c]) == Some((c as u32 - '0' as u32) as nat),
        byte_value(Seq::empty()) is None,
{
    assert(s.push(c).drop_last() =~= s);
    let one = seq![c];
    assert(one.drop_last() =~= Seq::<char>::empty());
    assert(digits_value(Seq::<char>::empty()) == 0);
    assert(digits_value(one) == (c as u32 - '0' as u32) as nat);
    assert(all_digits(one));
}

/// Of two texts of bytes the smaller is the one with the smaller byte where
/// they first differ, and the shorter where one continues the other.
pub proof fn law_bytes_are_compared_in_order(common: Seq<u8>, a: Seq<u8>, b: Seq<u8>)
    ensures
        a.len() > 0 && b.len() > 0 && a[0] < b[0] ==> bytes_less(common + a, common + b),
        a.len() > 0 && b.len() > 0 && a[0] > b[0] ==> !bytes_less(common + a, common + b),
        b.len() > 0 ==> bytes_less(common, common + b),
        !bytes_less(common + a, common),
    decreases common.len(),
{
    if common.len() == 0 {
        assert(common + a =~= a);
        assert(common + b =~= b);
    } else {
        let rest = common.skip(1);
        law_bytes_are_compared_in_order(rest, a, b);
        assert((common + a).skip(1) =~= rest + a);
        assert((common + b).skip(1) =~= rest + b);
    }
}

/// White space is the blank and the control characters of layout, and above
/// them the breaks and blanks of fixed width.
pub proof fn law_white_space_is_blank(c: char)
    ensures
        c == ' ' || c == '\t' || c == '\n' || c == '\r' ==> is_space(c),
        '!' <= c <= '~' ==> !is_space(c),
        c as u32 <= 8 || 0xe <= c as u32 <= 0x1f ==> !is_space(c),
        c as u32 == 0xb || c as u32 == 0xc || c as u32 == 0x85 || c as u32 == 0xa0 ==> is_space(c),
        c as u32 == 0x1680 || c as u32 == 0x205f || c as u32 == 0x3000 ==> is_space(c),
        0x2000 <= c as u32 <= 0x200a || c as u32 == 0x202f ==> is_space(c),
        c as u32 == 0x2028 || c as u32 == 0x2029 ==> is_space(c),
        0xa1 <= c as u32 <= 0x167f || 0x1681 <= c as u32 <= 0x1fff ==> !is_space(c),
        0x200b <= c as u32 <= 0x2027 || 0x202a <= c as u32 <= 0x202e ==> !is_space(c),
        0x2030 <= c as u32 <= 0x205e || 0x2060 <= c as u32 <= 0x2fff ==> !is_space(c),
        c as u32 > 0x3000 || 0x7f <= c as u32 <= 0x84 || 0x86 <= c as u32 <= 0x9f ==> !is_space(c),
{
}

} // verus!
