//! Character-level helpers shared by the identifier parsers.

use vstd::prelude::*;
use vstd::string::StringSliceAdditionalSpecFns;

verus! {

/// The character classes that the identifier grammars are made of.
#[derive(Clone, Copy, Debug)]
pub enum CharClass {
    /// `0`-`9`
    Digit,
    /// Letters, digits, `-` and `.`
    DnsName,
    /// Hexadecimal digits, `:` and `.`
    Ipv6,
    /// Lowercase letters, digits and `-_.=/`
    UserLocalpart,
}

pub open spec fn is_digit(c: char) -> bool {
    '0' <= c && c <= '9'
}

pub open spec fn is_lower(c: char) -> bool {
    'a' <= c && c <= 'z'
}

pub open spec fn is_upper(c: char) -> bool {
    'A' <= c && c <= 'Z'
}

pub open spec fn in_class(class: CharClass, c: char) -> bool {
    match class {
        CharClass::Digit => is_digit(c),
        CharClass::DnsName => is_digit(c) || is_lower(c) || is_upper(c) || c == '-' || c == '.',
        CharClass::Ipv6 => is_digit(c) || ('a' <= c && c <= 'f') || ('A' <= c && c <= 'F') || c
            == ':' || c == '.',
        CharClass::UserLocalpart => is_lower(c) || is_digit(c) || c == '-' || c == '_' || c == '.'
            || c == '=' || c == '/',
    }
}

/// Every character of `s` belongs to `class`.
pub open spec fn all_in_class(class: CharClass, s: Seq<char>) -> bool {
    forall|i: int| 0 <= i < s.len() ==> in_class(class, #[trigger] s[i])
}

pub fn class_has(class: CharClass, c: char) -> (b: bool)
    ensures
        b == in_class(class, c),
{
    let digit = c >= '0' && c <= '9';
    let lower = c >= 'a' && c <= 'z';
    let upper = c >= 'A' && c <= 'Z';
    match class {
        CharClass::Digit => digit,
        CharClass::DnsName => digit || lower || upper || c == '-' || c == '.',
        CharClass::Ipv6 => digit || (c >= 'a' && c <= 'f') || (c >= 'A' && c <= 'F') || c == ':'
            || c == '.',
        CharClass::UserLocalpart => lower || digit || c == '-' || c == '_' || c == '.' || c == '='
            || c == '/',
    }
}

/// Checks that `v[from..to]` holds only characters of `class`.
pub(crate) fn span_in_class(class: CharClass, v: &Vec<char>, from: usize, to: usize) -> (ok: bool)
    requires
        from <= to <= v.len(),
    ensures
        ok == all_in_class(class, v@.subrange(from as int, to as int)),
{
    let mut i: usize = from;
    while i < to
        invariant
            from <= i <= to <= v.len(),
            forall|j: int| from <= j < i ==> in_class(class, #[trigger] v@[j]),
        decreases to - i,
    {
        if !class_has(class, v[i]) {
            proof {
                let s = v@.subrange(from as int, to as int);
                assert(s[i - from] == v@[i as int]);
            }
            return false;
        }
        i += 1;
    }
    proof {
        let s = v@.subrange(from as int, to as int);
        assert forall|k: int| 0 <= k < s.len() implies in_class(class, #[trigger] s[k]) by {
            assert(s[k] == v@[from + k]);
        }
    }
    true
}

/// The characters of `s`, in order.
pub fn chars_of(s: &str) -> (v: Vec<char>)
    ensures
        v@ == s@,
{
    let mut v: Vec<char> = Vec::new();
    for c in it: s.chars()
        invariant
            v@ == it.seq().take(it.index() as int),
            it.seq() == s@,
    {
        v.push(c);
    }
    v
}

/// `i` is the index of the first `c` in `s`.
pub open spec fn is_first_index(s: Seq<char>, c: char, i: int) -> bool {
    &&& 0 <= i < s.len()
    &&& s[i] == c
    &&& forall|j: int| 0 <= j < i ==> s[j] != c
}

/// The index of the first `c` in `s`; meaningful where `s` contains `c`.
pub open spec fn first_index(s: Seq<char>, c: char) -> int {
    choose|i: int| is_first_index(s, c, i)
}

/// The first index of a character is unique.
pub proof fn lemma_first_index(s: Seq<char>, c: char, i: int)
    requires
        is_first_index(s, c, i),
    ensures
        first_index(s, c) == i,
        s.contains(c),
{
    let k = first_index(s, c);
    assert(is_first_index(s, c, k));
    if k < i {
        assert(s[k] != c);
    }
    if i < k {
        assert(s[i] != c);
    }
}

/// The number of bytes that `s` takes in UTF-8.
pub open spec fn byte_len(s: Seq<char>) -> nat {
    vstd::utf8::encode_utf8(s).len()
}

proof fn lemma_char_lower_bound(c: char)
    ensures
        '\0' <= c,
{
}

/// Text made of ASCII characters takes one byte per character.
pub proof fn lemma_ascii_byte_len(s: Seq<char>)
    requires
        forall|i: int| 0 <= i < s.len() ==> (#[trigger] s[i]) <= '\x7f',
    ensures
        byte_len(s) == s.len(),
{
    assert forall|i: int| 0 <= i < s.len() implies '\0' <= #[trigger] s[i] <= '\u{7f}' by {
        lemma_char_lower_bound(s[i]);
    }
    vstd::utf8::is_ascii_chars_encode_utf8(s);
}

/// Index of the first `c` in `v[from..]`, counted from the start of `v`.
pub(crate) fn first_index_of(v: &Vec<char>, from: usize, c: char) -> (r: Option<usize>)
    requires
        from <= v.len(),
    ensures
        match r {
            Some(i) => from <= i && is_first_index(v@.skip(from as int), c, i - from),
            None => !v@.skip(from as int).contains(c),
        },
{
    let ghost rest = v@.skip(from as int);
    let mut i: usize = from;
    while i < v.len()
        invariant
            from <= i <= v.len(),
            rest == v@.skip(from as int),
            forall|j: int| 0 <= j < i - from ==> rest[j] != c,
        decreases v.len() - i,
    {
        assert(rest[i - from] == v@[i as int]);
        if v[i] == c {
            return Some(i);
        }
        i += 1;
    }
    None
}

/// Index of the last `c` in `v`, if there is one.
pub fn last_index_of(v: &Vec<char>, c: char) -> (r: Option<usize>)
    ensures
        match r {
            Some(i) => i < v.len() && v@[i as int] == c && forall|j: int|
                i < j < v.len() ==> v@[j] != c,
            None => !v@.contains(c),
        },
{
    let mut i: usize = v.len();
    while i > 0
        invariant
            i <= v.len(),
            forall|j: int| i <= j < v.len() ==> v@[j] != c,
        decreases i,
    {
        i -= 1;
        if v[i] == c {
            return Some(i);
        }
    }
    None
}

/// Appends the characters of `s` to `v`.
pub fn push_chars(v: &mut Vec<char>, s: &str)
    ensures
        final(v)@ == old(v)@ + s@,
{
    let ghost before = v@;
    for c in it: s.chars()
        invariant
            v@ == before + it.seq().take(it.index() as int),
            it.seq() == s@,
    {
        v.push(c);
    }
}

/// Whether two character vectors hold the same text.
pub fn same_chars(a: &Vec<char>, b: &Vec<char>) -> (r: bool)
    ensures
        r == (a@ == b@),
{
    if a.len() != b.len() {
        return false;
    }
    let mut i: usize = 0;
    while i < a.len()
        invariant
            i <= a.len(),
            a.len() == b.len(),
            forall|j: int| 0 <= j < i ==> a@[j] == b@[j],
        decreases a.len() - i,
    {
        if a[i] != b[i] {
            return false;
        }
        i += 1;
    }
    assert(a@ =~= b@);
    true
}

/// Whether two strings hold the same text.
pub fn same_text(a: &str, b: &str) -> (r: bool)
    ensures
        r == (a@ == b@),
{
    let x = a.as_bytes();
    let y = b.as_bytes();
    proof {
        vstd::utf8::encode_utf8_decode_utf8(a@);
        vstd::utf8::encode_utf8_decode_utf8(b@);
    }
    if x.len() != y.len() {
        return false;
    }
    let mut i: usize = 0;
    while i < x.len()
        invariant
            i <= x.len(),
            x.len() == y.len(),
            x@ == a.spec_bytes(),
            y@ == b.spec_bytes(),
            forall|j: int| 0 <= j < i ==> x@[j] == y@[j],
        decreases x.len() - i,
    {
        if x[i] != y[i] {
            return false;
        }
        i += 1;
    }
    assert(x@ =~= y@);
    true
}

/// The byte length of `s` in UTF-8.
pub fn byte_length(s: &str) -> (n: usize)
    ensures
        n == byte_len(s@),
{
    s.as_bytes().len()
}

/// The sixteen hexadecimal digits, upper case.
pub open spec fn hex_digit_upper(n: int) -> char {
    if n == 0 {
        '0'
    } else if n == 1 {
        '1'
    } else if n == 2 {
        '2'
    } else if n == 3 {
        '3'
    } else if n == 4 {
        '4'
    } else if n == 5 {
        '5'
    } else if n == 6 {
        '6'
    } else if n == 7 {
        '7'
    } else if n == 8 {
        '8'
    } else if n == 9 {
        '9'
    } else if n == 10 {
        'A'
    } else if n == 11 {
        'B'
    } else if n == 12 {
        'C'
    } else if n == 13 {
        'D'
    } else if n == 14 {
        'E'
    } else {
        'F'
    }
}

/// The lowest `width` hexadecimal digits of `x`, most significant first,
/// upper case, padded with zeros.
pub open spec fn hex_upper(x: nat, width: nat) -> Seq<char>
    decreases width,
{
    if width == 0 {
        Seq::empty()
    } else {
        hex_upper(x / 16, (width - 1) as nat).push(hex_digit_upper((x % 16) as int))
    }
}

pub proof fn lemma_hex_upper_len(x: nat, width: nat)
    ensures
        hex_upper(x, width).len() == width,
        forall|i: int| 0 <= i < width ==> (#[trigger] hex_upper(x, width)[i]) <= '\u{7f}',
        !hex_upper(x, width).contains(':'),
    decreases width,
{
    if width > 0 {
        lemma_hex_upper_len(x / 16, (width - 1) as nat);
        let s = hex_upper(x, width);
        assert forall|i: int| 0 <= i < s.len() implies s[i] != ':' by {
            if i < width - 1 {
                assert(hex_upper(x / 16, (width - 1) as nat).contains(s[i]));
            }
        }
    }
}

fn hex_digit(n: u64) -> (c: char)
    requires
        n < 16,
    ensures
        c == hex_digit_upper(n as int),
{
    if n == 0 {
        '0'
    } else if n == 1 {
        '1'
    } else if n == 2 {
        '2'
    } else if n == 3 {
        '3'
    } else if n == 4 {
        '4'
    } else if n == 5 {
        '5'
    } else if n == 6 {
        '6'
    } else if n == 7 {
        '7'
    } else if n == 8 {
        '8'
    } else if n == 9 {
        '9'
    } else if n == 10 {
        'A'
    } else if n == 11 {
        'B'
    } else if n == 12 {
        'C'
    } else if n == 13 {
        'D'
    } else if n == 14 {
        'E'
    } else {
        'F'
    }
}

/// Writes the lowest `width` hexadecimal digits of `x`, upper case.
pub fn hex_upper_chars(x: u64, width: usize) -> (v: Vec<char>)
    ensures
        v@ == hex_upper(x as nat, width as nat),
    decreases width,
{
    if width == 0 {
        Vec::new()
    } else {
        let mut v = hex_upper_chars(x / 16, width - 1);
        v.push(hex_digit(x % 16));
        v
    }
}

/// The sixteen hexadecimal digits, lower case.
pub open spec fn hex_digit_lower(n: int) -> char {
    if n < 10 {
        hex_digit_upper(n)
    } else if n == 10 {
        'a'
    } else if n == 11 {
        'b'
    } else if n == 12 {
        'c'
    } else if n == 13 {
        'd'
    } else if n == 14 {
        'e'
    } else {
        'f'
    }
}

/// The lowest `width` hexadecimal digits of `x`, most significant first,
/// lower case, padded with zeros.
pub open spec fn hex_lower(x: nat, width: nat) -> Seq<char>
    decreases width,
{
    if width == 0 {
        Seq::empty()
    } else {
        hex_lower(x / 16, (width - 1) as nat).push(hex_digit_lower((x % 16) as int))
    }
}

/// The hexadecimal digits of `x` in lower case, without leading zeros.
pub open spec fn hex_lower_short(x: nat) -> Seq<char>
    decreases x,
{
    if x < 16 {
        seq![hex_digit_lower(x as int)]
    } else {
        hex_lower_short(x / 16).push(hex_digit_lower((x % 16) as int))
    }
}

fn hex_digit_small(n: u64) -> (c: char)
    requires
        n < 16,
    ensures
        c == hex_digit_lower(n as int),
{
    if n < 10 {
        hex_digit(n)
    } else if n == 10 {
        'a'
    } else if n == 11 {
        'b'
    } else if n == 12 {
        'c'
    } else if n == 13 {
        'd'
    } else if n == 14 {
        'e'
    } else {
        'f'
    }
}

/// Writes `x` in hexadecimal, lower case, without leading zeros.
pub fn hex_lower_short_chars(x: u64) -> (v: Vec<char>)
    ensures
        v@ == hex_lower_short(x as nat),
    decreases x,
{
    if x < 16 {
        let mut v = Vec::new();
        v.push(hex_digit_small(x));
        v
    } else {
        let mut v = hex_lower_short_chars(x / 16);
        v.push(hex_digit_small(x % 16));
        v
    }
}

/// Whether `s` begins with `prefix`.
pub open spec fn begins_with(s: Seq<char>, prefix: Seq<char>) -> bool {
    prefix.len() <= s.len() && s.take(prefix.len() as int) == prefix
}

/// `s` without every copy of `prefix` that it begins with.
pub open spec fn without_leading(s: Seq<char>, prefix: Seq<char>) -> Seq<char>
    decreases s.len(),
{
    if prefix.len() > 0 && begins_with(s, prefix) {
        without_leading(s.skip(prefix.len() as int), prefix)
    } else {
        s
    }
}

/// Whether `v[from..]` begins with `prefix`.
pub(crate) fn begins_with_at(v: &Vec<char>, from: usize, prefix: &Vec<char>) -> (b: bool)
    requires
        from <= v.len(),
    ensures
        b == begins_with(v@.skip(from as int), prefix@),
{
    let ghost rest = v@.skip(from as int);
    if prefix.len() > v.len() - from {
        return false;
    }
    let mut i: usize = 0;
    while i < prefix.len()
        invariant
            i <= prefix.len(),
            from + prefix.len() <= v.len(),
            rest == v@.skip(from as int),
            forall|j: int| 0 <= j < i ==> rest[j] == prefix@[j],
        decreases prefix.len() - i,
    {
        assert(rest[i as int] == v@[from + i]);
        if v[from + i] != prefix[i] {
            assert(rest.take(prefix.len() as int)[i as int] != prefix@[i as int]);
            return false;
        }
        i += 1;
    }
    assert(rest.take(prefix.len() as int) =~= prefix@);
    true
}

/// The first position at or after `from` at which `v` no longer begins with
/// `prefix`.
pub(crate) fn skip_leading(v: &Vec<char>, from: usize, prefix: &Vec<char>) -> (at: usize)
    requires
        from <= v.len(),
    ensures
        from <= at <= v.len(),
        v@.skip(at as int) == without_leading(v@.skip(from as int), prefix@),
{
    let mut at: usize = from;
    if prefix.len() == 0 {
        return at;
    }
    while begins_with_at(v, at, prefix)
        invariant
            from <= at <= v.len(),
            prefix.len() > 0,
            without_leading(v@.skip(at as int), prefix@) == without_leading(
                v@.skip(from as int),
                prefix@,
            ),
        decreases v.len() - at,
    {
        assert(v@.skip(at as int).skip(prefix.len() as int) =~= v@.skip(at + prefix.len()));
        at += prefix.len();
    }
    at
}

/// The number that the decimal digits `s` write, read from the left.
pub open spec fn digits_value(s: Seq<char>) -> nat
    decreases s.len(),
{
    if s.len() == 0 {
        0
    } else {
        digits_value(s.drop_last()) * 10 + (s.last() as nat - '0' as nat) as nat
    }
}

/// The number that `s` writes in decimal, with an optional leading `+`, if
/// it writes one that is at most `limit`.
pub open spec fn decimal(s: Seq<char>, limit: nat) -> Option<nat> {
    let digits = if s.len() > 0 && s[0] == '+' {
        s.skip(1)
    } else {
        s
    };
    if digits.len() > 0 && all_in_class(CharClass::Digit, digits) && digits_value(digits) <= limit {
        Some(digits_value(digits))
    } else {
        None
    }
}

/// The value of a number cannot shrink when a digit is appended.
pub proof fn lemma_digits_grow(s: Seq<char>, n: int)
    requires
        0 <= n <= s.len(),
        all_in_class(CharClass::Digit, s),
    ensures
        digits_value(s.take(n)) <= digits_value(s),
    decreases s.len() - n,
{
    if n == s.len() {
        assert(s.take(n) =~= s);
    } else {
        let longer = s.take(n + 1);
        assert(longer.drop_last() =~= s.take(n));
        assert(longer.last() == s[n]);
        assert(in_class(CharClass::Digit, s[n]));
        lemma_digits_grow(s, n + 1);
    }
}

/// Reads a number written in decimal, with an optional leading `+`.
#[verifier::loop_isolation(false)]
pub fn parse_decimal(text: &str) -> (r: Option<usize>)
    ensures
        match decimal(text@, usize::MAX as nat) {
            Some(n) => r == Some(n as usize),
            None => r is None,
        },
{
    let v = chars_of(text);
    let from: usize = if v.len() > 0 && v[0] == '+' {
        1
    } else {
        0
    };
    let ghost digits = v@.skip(from as int);
    assert(v@.skip(0) =~= v@);
    if v.len() == from {
        return None;
    }
    assert(digits =~= v@.subrange(from as int, v.len() as int));
    if !span_in_class(CharClass::Digit, &v, from, v.len()) {
        return None;
    }
    let mut value: usize = 0;
    let mut i: usize = from;
    assert(digits.take(0) =~= Seq::<char>::empty());
    while i < v.len()
        invariant
            from <= i <= v.len(),
            digits == v@.skip(from as int),
            all_in_class(CharClass::Digit, digits),
            value == digits_value(digits.take(i - from)),
        decreases v.len() - i,
    {
        let c = v[i];
        proof {
            let longer = digits.take(i - from + 1);
            assert(longer.drop_last() =~= digits.take(i - from));
            assert(longer.last() == c);
            assert(digits[i - from] == c);
            assert(in_class(CharClass::Digit, c));
            lemma_digits_grow(digits, i - from + 1);
        }
        let d = (c as u32 - '0' as u32) as usize;
        assert(d == (c as nat - '0' as nat) as nat);
        if value > (usize::MAX - d) / 10 {
            assert(value * 10 + d > usize::MAX);
            assert(digits_value(digits.take(i - from + 1)) == value * 10 + d);
            return None;
        }
        value = value * 10 + d;
        i += 1;
    }
    assert(digits.take(v.len() - from) =~= digits);
    Some(value)
}

/// The characters `v[from..to]`.
pub(crate) fn slice_chars(v: &Vec<char>, from: usize, to: usize) -> (r: Vec<char>)
    requires
        from <= to <= v.len(),
    ensures
        r@ == v@.subrange(from as int, to as int),
{
    let mut r: Vec<char> = Vec::new();
    let mut i: usize = from;
    while i < to
        invariant
            from <= i <= to <= v.len(),
            r@ == v@.subrange(from as int, i as int),
        decreases to - i,
    {
        r.push(v[i]);
        assert(r@ =~= v@.subrange(from as int, i + 1));
        i += 1;
    }
    r
}

/// Trusted: `String::push` appends the character to the end of the string.
pub assume_specification[ String::push ](s: &mut String, c: char)
    ensures
        final(s)@ == old(s)@.push(c),
;

/// Builds a string out of `v[from..to]`.
pub(crate) fn string_from_chars(v: &Vec<char>, from: usize, to: usize) -> (s: String)
    requires
        from <= to <= v.len(),
    ensures
        s@ == v@.subrange(from as int, to as int),
{
    let mut s = String::new();
    let mut i: usize = from;
    assert(s@ =~= v@.subrange(from as int, i as int));
    while i < to
        invariant
            from <= i <= to <= v.len(),
            s@ == v@.subrange(from as int, i as int),
        decreases to - i,
    {
        s.push(v[i]);
        assert(s@ =~= v@.subrange(from as int, i + 1));
        i += 1;
    }
    s
}

} // verus!
