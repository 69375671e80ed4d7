//! Text handling over character sequences.
//!
//! Every function here takes and returns ordinary Rust strings; the spec
//! functions say what they mean on `Seq<char>`, the view of a string.

use vstd::prelude::*;
use vstd::string::*;
use vstd::utf8::*;

verus! {

/// `String::push` appends one character to the end of the string and changes
/// nothing else.
pub assume_specification[ String::push ](s: &mut String, c: char)
    ensures
        final(s)@ == old(s)@.push(c),
;

/// The views of a sequence of strings.
pub open spec fn texts(v: Seq<String>) -> Seq<Seq<char>> {
    v.map_values(|s: String| s@)
}

/// The view of an optional string.
pub open spec fn opt_text(s: Option<String>) -> Option<Seq<char>> {
    match s {
        Some(s) => Some(s@),
        None => None,
    }
}

/// Whether a character has the Unicode `White_Space` property.
pub open spec fn white_space(c: char) -> bool {
    let n = c as u32;
    ||| 0x9 <= n <= 0xd
    ||| n == 0x20
    ||| n == 0x85
    ||| n == 0xa0
    ||| n == 0x1680
    ||| 0x2000 <= n <= 0x200a
    ||| n == 0x2028
    ||| n == 0x2029
    ||| n == 0x202f
    ||| n == 0x205f
    ||| n == 0x3000
}

/// Whether a character is white space.
pub fn is_white_space(c: char) -> (r: bool)
    ensures
        r == white_space(c),
{
    let n: u32 = c as u32;
    (0x9 <= n && n <= 0xd) || n == 0x20 || n == 0x85 || n == 0xa0 || n == 0x1680 || (0x2000 <= n
        && n <= 0x200a) || n == 0x2028 || n == 0x2029 || n == 0x202f || n == 0x205f || n == 0x3000
}

/// A control character, in the sense of the Unicode category `Cc`.
pub open spec fn control(c: char) -> bool {
    c as u32 <= 0x1f || 0x7f <= c as u32 <= 0x9f
}

/// Whether a character is a control character.
pub fn is_control(c: char) -> (r: bool)
    ensures
        r == control(c),
{
    let n: u32 = c as u32;
    n <= 0x1f || (0x7f <= n && n <= 0x9f)
}

/// An ASCII digit.
pub open spec fn digit(c: char) -> bool {
    '0' <= c <= '9'
}

/// An ASCII letter of lower case.
pub open spec fn lower(c: char) -> bool {
    'a' <= c <= 'z'
}

/// An ASCII letter of upper case.
pub open spec fn upper(c: char) -> bool {
    'A' <= c <= 'Z'
}

/// An ASCII letter or digit.
pub open spec fn alphanumeric(c: char) -> bool {
    digit(c) || lower(c) || upper(c)
}

/// Whether a character is an ASCII letter or digit.
pub fn is_alphanumeric(c: char) -> (r: bool)
    ensures
        r == alphanumeric(c),
{
    ('0' <= c && c <= '9') || ('a' <= c && c <= 'z') || ('A' <= c && c <= 'Z')
}

/// The lower-case form of an ASCII letter, and any other character itself.
pub open spec fn ascii_lower_char(c: char) -> char {
    if upper(c) {
        (c as u8 + 32) as u8 as char
    } else {
        c
    }
}

/// A string with its ASCII letters in lower case.
pub open spec fn ascii_lower(s: Seq<char>) -> Seq<char> {
    s.map_values(|c: char| ascii_lower_char(c))
}

/// The lower-case form of one character.
pub fn lower_char(c: char) -> (r: char)
    ensures
        r == ascii_lower_char(c),
{
    if 'A' <= c && c <= 'Z' {
        let b: u8 = c as u8;
        (b + 32) as char
    } else {
        c
    }
}

/// The characters of a string.
pub fn chars_of(s: &str) -> (v: Vec<char>)
    ensures
        v@ == s@,
{
    let mut v: Vec<char> = Vec::new();
    for c in it: s.chars()
        invariant
            v@ == it.seq().take(it.index() as int),
            it.seq() == s@,
    {
        v.push(c);
        proof {
            assert(it.seq().take(it.index() + 1) =~= it.seq().take(it.index() as int).push(c));
        }
    }
    proof {
        assert(s@.take(s@.len() as int) =~= s@);
    }
    v
}

/// The string made of a range of characters.
pub fn string_of(v: &Vec<char>, from: usize, to: usize) -> (s: String)
    requires
        from <= to <= v@.len(),
    ensures
        s@ == v@.subrange(from as int, to as int),
{
    let mut s = String::new();
    let mut i: usize = from;
    while i < to
        invariant
            from <= i <= to <= v@.len(),
            s@ == v@.subrange(from as int, i as int),
        decreases to - i,
    {
        s.push(v[i]);
        i = i + 1;
        proof {
            assert(v@.subrange(from as int, i as int) =~= v@.subrange(from as int, i - 1).push(
                v@[i - 1],
            ));
        }
    }
    s
}

/// The number of bytes of a text in UTF-8.
pub open spec fn byte_len(s: Seq<char>) -> nat {
    encode_utf8(s).len()
}

/// The number of bytes of a string.
pub fn bytes_in(s: &str) -> (n: usize)
    ensures
        n == byte_len(s@),
{
    s.as_bytes().len()
}

/// Whether two strings hold the same characters.
pub fn same(a: &str, b: &str) -> (r: bool)
    ensures
        r == (a@ == b@),
{
    let x = a.as_bytes();
    let y = b.as_bytes();
    proof {
        broadcast use encode_utf8_decode_utf8;

        if x@ == y@ {
            assert(decode_utf8(encode_utf8(a@)) == a@);
            assert(decode_utf8(encode_utf8(b@)) == b@);
        }
    }
    if x.len() != y.len() {
        return false;
    }
    let mut i: usize = 0;
    while i < x.len()
        invariant
            i <= x@.len(),
            x@.len() == y@.len(),
            x@ == encode_utf8(a@),
            y@ == encode_utf8(b@),
            x@.take(i as int) == y@.take(i as int),
        decreases x@.len() - i,
    {
        if x[i] != y[i] {
            return false;
        }
        proof {
            assert(x@.take(i + 1) =~= x@.take(i as int).push(x@[i as int]));
            assert(y@.take(i + 1) =~= y@.take(i as int).push(y@[i as int]));
        }
        i = i + 1;
    }
    proof {
        assert(x@.take(i as int) =~= x@);
        assert(y@.take(i as int) =~= y@);
    }
    true
}

/// The index of the first `c` in `s`, or the length of `s` where there is none.
pub open spec fn position(s: Seq<char>, c: char) -> int
    decreases s.len(),
{
    if s.len() == 0 || s[0] == c {
        0
    } else {
        1 + position(s.skip(1), c)
    }
}

pub proof fn lemma_position(s: Seq<char>, c: char)
    ensures
        0 <= position(s, c) <= s.len(),
        position(s, c) < s.len() ==> s[position(s, c)] == c,
        forall|i: int| 0 <= i < position(s, c) ==> s[i] != c,
        position(s, c) < s.len() <==> s.contains(c),
    decreases s.len(),
{
    if s.len() == 0 || s[0] == c {
    } else {
        lemma_position(s.skip(1), c);
        assert forall|i: int| 0 <= i < position(s, c) implies s[i] != c by {
            if i > 0 {
                assert(s[i] == s.skip(1)[i - 1]);
            }
        }
        if s.contains(c) {
            let i = choose|i: int| 0 <= i < s.len() && s[i] == c;
            assert(s.skip(1)[i - 1] == c);
        }
    }
}

pub proof fn lemma_position_is(s: Seq<char>, c: char, k: int)
    requires
        0 <= k <= s.len(),
        k < s.len() ==> s[k] == c,
        forall|i: int| 0 <= i < k ==> s[i] != c,
    ensures
        position(s, c) == k,
{
    lemma_position(s, c);
    if position(s, c) < k {
    } else if position(s, c) > k {
    }
}

/// The index of the first `c` at or after `from`, or the length.
pub fn find_from(v: &Vec<char>, from: usize, c: char) -> (k: usize)
    requires
        from <= v@.len(),
    ensures
        from <= k <= v@.len(),
        k - from == position(v@.skip(from as int), c),
{
    let mut k: usize = from;
    while k < v.len() && v[k] != c
        invariant
            from <= k <= v@.len(),
            forall|i: int| from <= i < k ==> v@[i] != c,
        decreases v@.len() - k,
    {
        k = k + 1;
    }
    proof {
        lemma_position_is(v@.skip(from as int), c, k - from);
    }
    k
}

/// The pieces of `s` between the occurrences of `c`, empty pieces among them.
pub open spec fn split(s: Seq<char>, c: char) -> Seq<Seq<char>>
    decreases s.len(),
    via split_decreases
{
    let k = position(s, c);
    if k < s.len() {
        seq![s.take(k)] + split(s.skip(k + 1), c)
    } else {
        seq![s]
    }
}

#[via_fn]
proof fn split_decreases(s: Seq<char>, c: char) {
    lemma_position(s, c);
}

/// The pieces of a string between the occurrences of a character.
pub fn split_on(s: &str, c: char) -> (r: Vec<String>)
    ensures
        texts(r@) == split(s@, c),
        r@.len() >= 1,
{
    let v = chars_of(s);
    let mut r: Vec<String> = Vec::new();
    let mut start: usize = 0;
    proof {
        assert(v@.skip(0) =~= v@);
        assert(texts(r@) + split(v@.skip(0), c) =~= split(v@, c));
    }
    loop
        invariant_except_break
            texts(r@) + split(v@.skip(start as int), c) == split(s@, c),
        invariant
            start <= v@.len(),
            v@ == s@,
        ensures
            texts(r@) == split(s@, c),
            r@.len() >= 1,
        decreases v@.len() - start,
    {
        let k = find_from(&v, start, c);
        let piece = string_of(&v, start, k);
        let ghost before = texts(r@);
        let ghost rest = v@.skip(start as int);
        r.push(piece);
        proof {
            assert(texts(r@) =~= before.push(piece@));
            assert(piece@ =~= rest.take(k - start));
            lemma_position(rest, c);
        }
        if k < v.len() {
            proof {
                assert(rest.skip(k - start + 1) =~= v@.skip(k + 1));
                assert(texts(r@) + split(v@.skip(k + 1), c) =~= before + split(rest, c));
            }
            start = k + 1;
        } else {
            proof {
                assert(rest.take(k - start) =~= rest);
                assert(texts(r@) =~= before + split(rest, c));
            }
            break ;
        }
    }
    r
}

/// What stands before and after the first `c`.
pub open spec fn cut(s: Seq<char>, c: char) -> Option<(Seq<char>, Seq<char>)> {
    let k = position(s, c);
    if k < s.len() {
        Some((s.take(k), s.skip(k + 1)))
    } else {
        None
    }
}

/// Splits a string at the first occurrence of a character.
pub fn split_once(s: &str, c: char) -> (r: Option<(String, String)>)
    ensures
        match r {
            Some((a, b)) => cut(s@, c) == Some((a@, b@)),
            None => cut(s@, c) is None,
        },
{
    let v = chars_of(s);
    let k = find_from(&v, 0, c);
    proof {
        assert(v@.skip(0) =~= v@);
    }
    if k < v.len() {
        let a = string_of(&v, 0, k);
        let b = string_of(&v, k + 1, v.len());
        proof {
            assert(a@ =~= s@.take(k as int));
            assert(b@ =~= s@.skip(k + 1));
        }
        Some((a, b))
    } else {
        None
    }
}

/// Whether a string holds a character.
pub fn has_char(s: &str, c: char) -> (r: bool)
    ensures
        r == s@.contains(c),
{
    let v = chars_of(s);
    let k = find_from(&v, 0, c);
    proof {
        assert(v@.skip(0) =~= v@);
        lemma_position(v@, c);
    }
    k < v.len()
}

/// `s` without the white space it begins with.
pub open spec fn trim_start(s: Seq<char>) -> Seq<char>
    decreases s.len(),
{
    if s.len() > 0 && white_space(s[0]) {
        trim_start(s.skip(1))
    } else {
        s
    }
}

/// `s` without the white space it ends with.
pub open spec fn trim_end(s: Seq<char>) -> Seq<char>
    decreases s.len(),
{
    if s.len() > 0 && white_space(s.last()) {
        trim_end(s.drop_last())
    } else {
        s
    }
}

/// `s` without white space at either end.
pub open spec fn trimmed(s: Seq<char>) -> Seq<char> {
    trim_end(trim_start(s))
}

/// A string without white space at either end.
pub fn trim(s: &str) -> (r: String)
    ensures
        r@ == trimmed(s@),
{
    let v = chars_of(s);
    let mut a: usize = 0;
    proof {
        assert(v@.skip(0) =~= v@);
    }
    while a < v.len() && is_white_space(v[a])
        invariant
            a <= v@.len(),
            trim_start(v@.skip(a as int)) == trim_start(v@),
        decreases v@.len() - a,
    {
        proof {
            assert(v@.skip(a as int).skip(1) =~= v@.skip(a + 1));
        }
        a = a + 1;
    }
    let mut b: usize = v.len();
    let ghost body = v@.skip(a as int);
    proof {
        assert(v@.subrange(a as int, b as int) =~= body);
        assert(trim_start(v@) == body);
    }
    while a < b && is_white_space(v[b - 1])
        invariant
            a <= b <= v@.len(),
            trim_end(v@.subrange(a as int, b as int)) == trim_end(body),
        decreases b,
    {
        proof {
            assert(v@.subrange(a as int, b as int).drop_last() =~= v@.subrange(a as int, b - 1));
        }
        b = b - 1;
    }
    string_of(&v, a, b)
}

/// `s` begins with `p`.
pub open spec fn begins(s: Seq<char>, p: Seq<char>) -> bool {
    p.len() <= s.len() && s.take(p.len() as int) == p
}

/// The rest of a string behind a prefix, where it begins with that prefix.
pub fn strip_prefix(s: &str, p: &str) -> (r: Option<String>)
    ensures
        match r {
            Some(rest) => begins(s@, p@) && rest@ == s@.skip(p@.len() as int),
            None => !begins(s@, p@),
        },
{
    let v = chars_of(s);
    let w = chars_of(p);
    if w.len() > v.len() {
        return None;
    }
    let mut i: usize = 0;
    while i < w.len()
        invariant
            i <= w@.len() <= v@.len(),
            v@ == s@,
            w@ == p@,
            forall|j: int| 0 <= j < i ==> v@[j] == w@[j],
        decreases w@.len() - i,
    {
        if v[i] != w[i] {
            proof {
                assert(s@.take(p@.len() as int)[i as int] == s@[i as int]);
            }
            return None;
        }
        i = i + 1;
    }
    let rest = string_of(&v, w.len(), v.len());
    proof {
        assert(s@.take(p@.len() as int) =~= p@);
        assert(rest@ =~= s@.skip(p@.len() as int));
    }
    Some(rest)
}

/// Whether a string begins with a prefix.
pub fn starts_with(s: &str, p: &str) -> (r: bool)
    ensures
        r == begins(s@, p@),
{
    strip_prefix(s, p).is_some()
}

/// A string with its ASCII letters in lower case.
pub fn to_ascii_lower(s: &str) -> (r: String)
    ensures
        r@ == ascii_lower(s@),
{
    let v = chars_of(s);
    let mut r = String::new();
    let mut i: usize = 0;
    while i < v.len()
        invariant
            i <= v@.len(),
            r@ == ascii_lower(v@.take(i as int)),
        decreases v@.len() - i,
    {
        let ghost before = r@;
        r.push(lower_char(v[i]));
        i = i + 1;
        proof {
            assert(r@ =~= ascii_lower(v@.take(i as int)));
        }
    }
    proof {
        assert(v@.take(i as int) =~= v@);
    }
    r
}

/// Whether two strings are equal when the case of ASCII letters is ignored.
pub fn same_ignoring_case(a: &str, b: &str) -> (r: bool)
    ensures
        r == (ascii_lower(a@) == ascii_lower(b@)),
{
    same(to_ascii_lower(a).as_str(), to_ascii_lower(b).as_str())
}

/// `a` followed by `b`.
pub fn concat2(a: &str, b: &str) -> (r: String)
    ensures
        r@ == a@ + b@,
{
    let mut r = a.to_owned();
    r.append(b);
    r
}

/// `a`, `b` and `c` one after the other.
pub fn concat3(a: &str, b: &str, c: &str) -> (r: String)
    ensures
        r@ == a@ + b@ + c@,
{
    let mut r = a.to_owned();
    r.append(b);
    r.append(c);
    r
}

/// The texts one after the other, with `sep` between any two.
pub open spec fn joined(parts: Seq<Seq<char>>, sep: Seq<char>) -> Seq<char>
    decreases parts.len(),
{
    if parts.len() == 0 {
        Seq::empty()
    } else if parts.len() == 1 {
        parts[0]
    } else {
        joined(parts.drop_last(), sep) + sep + parts.last()
    }
}

/// Joins strings with a separator.
pub fn join(parts: &Vec<String>, sep: &str) -> (r: String)
    ensures
        r@ == joined(texts(parts@), sep@),
{
    let mut r = String::new();
    let mut i: usize = 0;
    while i < parts.len()
        invariant
            i <= parts@.len(),
            r@ == joined(texts(parts@.take(i as int)), sep@),
        decreases parts@.len() - i,
    {
        proof {
            let next = texts(parts@.take(i + 1));
            assert(next.drop_last() =~= texts(parts@.take(i as int)));
            assert(next.last() == parts@[i as int]@);
            if i == 0 {
                assert(r@ + next.last() =~= joined(next, sep@));
            }
        }
        if i > 0 {
            r.append(sep);
        }
        r.append(parts[i].as_str());
        i = i + 1;
    }
    proof {
        assert(parts@.take(i as int) =~= parts@);
    }
    r
}

/// The decimal digits of a number, without leading zeros.
pub open spec fn decimal_digits(n: nat) -> Seq<char>
    decreases n,
{
    if n < 10 {
        seq![digit_char(n)]
    } else {
        decimal_digits(n / 10).push(digit_char(n % 10))
    }
}

/// The character of one decimal digit.
pub open spec fn digit_char(d: nat) -> char {
    ('0' as u8 + d) as u8 as char
}

/// A number in decimal.
pub fn decimal(n: u64) -> (r: String)
    ensures
        r@ == decimal_digits(n as nat),
    decreases n,
{
    let d: u8 = 48 + (n % 10) as u8;
    if n < 10 {
        let mut r = String::new();
        r.push(d as char);
        proof {
            assert(r@ =~= seq![digit_char(n as nat)]);
        }
        r
    } else {
        let mut r = decimal(n / 10);
        r.push(d as char);
        r
    }
}

pub proof fn lemma_push_contains<A>(s: Seq<A>, a: A, x: A)
    ensures
        s.push(a).contains(x) <==> s.contains(x) || a == x,
{
    let t = s.push(a);
    if s.contains(x) {
        let i = choose|i: int| 0 <= i < s.len() && s[i] == x;
        assert(t[i] == x);
    }
    if a == x {
        assert(t[s.len() as int] == x);
    }
    if t.contains(x) && a != x {
        let i = choose|i: int| 0 <= i < t.len() && t[i] == x;
        assert(s[i] == x);
    }
}

/// A number in decimal, with a minus sign where it is negative.
pub open spec fn signed_digits(n: int) -> Seq<char> {
    if n < 0 {
        "-"@ + decimal_digits((-n) as nat)
    } else {
        decimal_digits(n as nat)
    }
}

/// A number in decimal, with a minus sign where it is negative.
pub fn signed_decimal(n: i64) -> (r: String)
    ensures
        r@ == signed_digits(n as int),
{
    if n < 0 {
        let below: u64 = (-(n + 1)) as u64;
        let digits = decimal(below + 1);
        concat2("-", digits.as_str())
    } else {
        decimal(n as u64)
    }
}

/// The pieces of two texts with a separator between them are the pieces of the one and
/// then those of the other.
pub proof fn lemma_split_concat(a: Seq<char>, b: Seq<char>, c: char)
    ensures
        split(a.push(c) + b, c) == split(a, c) + split(b, c),
    decreases a.len(),
{
    let s = a.push(c) + b;
    let k = position(a, c);
    lemma_position(a, c);
    lemma_position_is(s, c, k);
    assert(s.take(k) =~= a.take(k));
    if k < a.len() {
        lemma_split_concat(a.skip(k + 1), b, c);
        assert(s.skip(k + 1) =~= a.skip(k + 1).push(c) + b);
        assert(split(s, c) =~= split(a, c) + split(b, c));
    } else {
        assert(a.take(k) =~= a);
        assert(s.skip(k + 1) =~= b);
    }
}

/// The pieces of a text do not hold the separator.
pub proof fn lemma_split_pieces(s: Seq<char>, c: char)
    ensures
        split(s, c).len() > 0,
        forall|i: int| 0 <= i < split(s, c).len() ==> !(#[trigger] split(s, c)[i]).contains(c),
    decreases s.len(),
{
    let k = position(s, c);
    lemma_position(s, c);
    if k < s.len() {
        let rest = split(s.skip(k + 1), c);
        lemma_split_pieces(s.skip(k + 1), c);
        assert forall|i: int| 0 <= i < split(s, c).len() implies !(#[trigger] split(
            s,
            c,
        )[i]).contains(c) by {
            if i > 0 {
                assert(split(s, c)[i] == rest[i - 1]);
            }
        }
    }
}

/// Pieces that do not hold the separator come back from the text that they are joined to.
pub proof fn lemma_split_joined(parts: Seq<Seq<char>>, sep: Seq<char>, c: char)
    requires
        parts.len() > 0,
        sep == seq![c],
        forall|i: int| 0 <= i < parts.len() ==> !(#[trigger] parts[i]).contains(c),
    ensures
        split(joined(parts, sep), c) == parts,
    decreases parts.len(),
{
    let last = parts.last();
    assert(!parts[parts.len() - 1].contains(c));
    lemma_position(last, c);
    assert(split(last, c) =~= seq![last]);
    if parts.len() == 1 {
        assert(parts =~= seq![last]);
    } else {
        let init = parts.drop_last();
        assert forall|i: int| 0 <= i < init.len() implies !(#[trigger] init[i]).contains(c) by {
            assert(init[i] == parts[i]);
        }
        lemma_split_joined(init, sep, c);
        lemma_split_concat(joined(init, sep), last, c);
        assert(joined(init, sep).push(c) + last =~= joined(init, sep) + sep + last);
        assert(init + seq![last] =~= parts);
    }
}

/// UTF-8 encodes text character by character.
pub proof fn lemma_encode_concat(a: Seq<char>, b: Seq<char>)
    ensures
        encode_utf8(a + b) == encode_utf8(a) + encode_utf8(b),
        byte_len(a + b) == byte_len(a) + byte_len(b),
    decreases a.len(),
{
    if a.len() == 0 {
        assert(a + b =~= b);
        assert(encode_utf8(a) + encode_utf8(b) =~= encode_utf8(b));
    } else {
        lemma_encode_concat(a.skip(1), b);
        assert((a + b).drop_first() =~= a.drop_first() + b);
        assert(a.drop_first() =~= a.skip(1));
        assert(encode_utf8(a + b) =~= encode_utf8(a) + encode_utf8(b));
    }
}

/// A part of a text has no more bytes than the text.
pub proof fn lemma_byte_len_take(s: Seq<char>, n: int)
    requires
        0 <= n <= s.len(),
    ensures
        byte_len(s.take(n)) <= byte_len(s),
{
    lemma_encode_concat(s.take(n), s.skip(n));
    assert(s.take(n) + s.skip(n) =~= s);
}

/// The number of bytes of a character in UTF-8.
pub fn char_width(c: char) -> (n: usize)
    ensures
        n == byte_len(seq![c]),
        1 <= n <= 4,
{
    let v: u32 = c as u32;
    proof {
        char_is_scalar(c);
        assert(seq![c].drop_first() =~= Seq::<char>::empty());
        assert(encode_utf8(seq![c].drop_first()) =~= Seq::<u8>::empty());
        assert(encode_utf8(seq![c]) =~= encode_scalar(c as u32));
    }
    if v <= 0x7f {
        1
    } else if v <= 0x7ff {
        2
    } else if v <= 0xffff {
        3
    } else {
        4
    }
}

/// The longest beginning of a text that has at most `limit` bytes.
pub open spec fn fitting(s: Seq<char>, limit: nat) -> Seq<char>
    decreases s.len(),
{
    if byte_len(s) <= limit || s.len() == 0 {
        s
    } else {
        fitting(s.drop_last(), limit)
    }
}

proof fn lemma_fitting_is(s: Seq<char>, limit: nat, n: int)
    requires
        0 <= n <= s.len(),
        byte_len(s.take(n)) <= limit,
        n < s.len() ==> byte_len(s.take(n + 1)) > limit,
    ensures
        fitting(s, limit) == s.take(n),
    decreases s.len(),
{
    if n == s.len() {
        assert(s.take(n) =~= s);
    } else {
        lemma_byte_len_take(s, n + 1);
        assert(s.drop_last().take(n) =~= s.take(n));
        if n + 1 <= s.drop_last().len() {
            assert(s.drop_last().take(n + 1) =~= s.take(n + 1));
        }
        lemma_fitting_is(s.drop_last(), limit, n);
    }
}

/// The longest beginning of a string that has at most `limit` bytes.
pub fn truncate_bytes(s: &str, limit: usize) -> (r: &str)
    ensures
        r@ == fitting(s@, limit as nat),
        byte_len(r@) <= limit,
{
    let v = chars_of(s);
    let mut n: usize = 0;
    let mut bytes: usize = 0;
    proof {
        assert(encode_utf8(s@.take(0)) =~= Seq::<u8>::empty());
    }
    while n < v.len()
        invariant
            n <= v@.len(),
            v@ == s@,
            bytes <= limit,
            bytes == byte_len(s@.take(n as int)),
        ensures
            n < v@.len() ==> byte_len(s@.take(n + 1)) > limit,
        decreases v@.len() - n,
    {
        let w: usize = char_width(v[n]);
        proof {
            lemma_encode_concat(s@.take(n as int), seq![s@[n as int]]);
            assert(s@.take(n + 1) =~= s@.take(n as int) + seq![s@[n as int]]);
        }
        if w > limit - bytes {
            break ;
        }
        bytes = bytes + w;
        n = n + 1;
    }
    proof {
        lemma_fitting_is(s@, limit as nat, n as int);
        assert(s@.subrange(0, n as int) =~= s@.take(n as int));
    }
    s.substring_char(0, n)
}

/// `p` stands somewhere in `s`.
pub open spec fn holds_text(s: Seq<char>, p: Seq<char>) -> bool {
    exists|i: int| 0 <= i <= s.len() - p.len() && #[trigger] s.subrange(i, i + p.len()) == p
}

/// Whether `p` stands in `v` at a place.
fn stands_at(v: &Vec<char>, p: &Vec<char>, at: usize) -> (r: bool)
    requires
        at + p@.len() <= v@.len(),
    ensures
        r == (v@.subrange(at as int, at + p@.len()) == p@),
{
    let mut i: usize = 0;
    while i < p.len()
        invariant
            i <= p@.len(),
            at + p.len() <= v.len(),
            forall|j: int| 0 <= j < i ==> v@[at + j] == p@[j],
        decreases p@.len() - i,
    {
        if v[at + i] != p[i] {
            proof {
                assert(v@.subrange(at as int, at + p@.len())[i as int] == v@[at + i]);
            }
            return false;
        }
        i = i + 1;
    }
    proof {
        assert(v@.subrange(at as int, at + p@.len()) =~= p@);
    }
    true
}

/// Whether a text stands somewhere in a string.
pub fn has_text(s: &str, p: &str) -> (r: bool)
    ensures
        r == holds_text(s@, p@),
{
    let v = chars_of(s);
    let w = chars_of(p);
    if w.len() > v.len() {
        return false;
    }
    let last: usize = v.len() - w.len();
    let mut i: usize = 0;
    loop
        invariant
            i <= last,
            last + w@.len() == v@.len(),
            v@ == s@,
            w@ == p@,
            forall|j: int| 0 <= j < i ==> #[trigger] v@.subrange(j, j + w@.len()) != w@,
        decreases last - i,
    {
        if stands_at(&v, &w, i) {
            return true;
        }
        if i == last {
            return false;
        }
        i = i + 1;
    }
}

/// The number that decimal digits stand for.
pub open spec fn digits_value(s: Seq<char>) -> nat
    decreases s.len(),
{
    if s.len() == 0 {
        0
    } else {
        digits_value(s.drop_last()) * 10 + (s.last() as u32 - '0' as u32) as nat
    }
}

/// The digits of a number that may have a plus sign in front.
pub open spec fn unsigned_digits(s: Seq<char>) -> Seq<char> {
    if s.len() > 1 && s[0] == '+' {
        s.skip(1)
    } else {
        s
    }
}

/// The number that a text stands for: decimal digits, with at most a plus sign in front,
/// within 64 bits.
pub open spec fn parsed_u64(s: Seq<char>) -> Option<u64> {
    let d = unsigned_digits(s);
    if d.len() > 0 && (forall|i: int| 0 <= i < d.len() ==> digit(#[trigger] d[i])) && digits_value(
        d,
    ) <= u64::MAX {
        Some(digits_value(d) as u64)
    } else {
        None
    }
}

proof fn lemma_digits_grow(d: Seq<char>, k: int)
    requires
        0 <= k <= d.len(),
        forall|i: int| 0 <= i < d.len() ==> digit(#[trigger] d[i]),
    ensures
        digits_value(d.take(k)) <= digits_value(d),
    decreases d.len(),
{
    if k < d.len() {
        lemma_digits_grow(d.drop_last(), k);
        assert(d.drop_last().take(k) =~= d.take(k));
    } else {
        assert(d.take(k) =~= d);
    }
}

/// The number that a text stands for.
pub fn parse_u64(s: &str) -> (r: Option<u64>)
    ensures
        r == parsed_u64(s@),
{
    let v = chars_of(s);
    let ghost d = unsigned_digits(v@);
    let start: usize = if v.len() > 1 && v[0] == '+' {
        1
    } else {
        0
    };
    if v.len() == 0 {
        return None;
    }
    let mut n: u64 = 0;
    let mut i: usize = start;
    while i < v.len()
        invariant
            start <= i <= v@.len(),
            v@ == s@,
            d == unsigned_digits(s@),
            d == v@.skip(start as int),
            forall|j: int| 0 <= j < i - start ==> digit(#[trigger] d[j]),
            n == digits_value(d.take(i - start)),
        decreases v@.len() - i,
    {
        let c = v[i];
        proof {
            assert(d[i - start] == c);
            assert(d.take(i - start + 1).drop_last() =~= d.take(i - start));
        }
        if !('0' <= c && c <= '9') {
            return None;
        }
        let x: u64 = c as u64 - 48;
        let big: u128 = n as u128 * 10 + x as u128;
        if big > 0xffff_ffff_ffff_ffff {
            proof {
                if forall|j: int| 0 <= j < d.len() ==> digit(#[trigger] d[j]) {
                    lemma_digits_grow(d, i - start + 1);
                }
            }
            return None;
        }
        n = big as u64;
        i = i + 1;
    }
    proof {
        assert(d.take(d.len() as int) =~= d);
    }
    Some(n)
}

/// The place of the first `p` in `s`, or the length of `s` where there is none.
pub open spec fn text_position(s: Seq<char>, p: Seq<char>) -> int
    decreases s.len(),
{
    if begins(s, p) || s.len() == 0 {
        0
    } else {
        1 + text_position(s.skip(1), p)
    }
}

/// What stands before and after the first `p`.
pub open spec fn cut_text(s: Seq<char>, p: Seq<char>) -> Option<(Seq<char>, Seq<char>)> {
    let k = text_position(s, p);
    if begins(s.skip(k), p) {
        Some((s.take(k), s.skip(k + p.len())))
    } else {
        None
    }
}

/// Splits a string at the first occurrence of a text that is not empty.
pub fn split_once_text(s: &str, p: &str) -> (r: Option<(String, String)>)
    requires
        p@.len() > 0,
    ensures
        match r {
            Some((a, b)) => cut_text(s@, p@) == Some((a@, b@)),
            None => cut_text(s@, p@) is None,
        },
{
    let v = chars_of(s);
    let w = chars_of(p);
    let mut i: usize = 0;
    proof {
        assert(v@.skip(0) =~= v@);
    }
    while i < v.len()
        invariant
            i <= v@.len(),
            v@ == s@,
            w@ == p@,
            w@.len() > 0,
            text_position(s@, p@) == i + text_position(s@.skip(i as int), p@),
        decreases v@.len() - i,
    {
        let fits = w.len() <= v.len() - i && stands_at(&v, &w, i);
        proof {
            if w.len() <= v.len() - i {
                assert(s@.skip(i as int).take(p@.len() as int) =~= s@.subrange(
                    i as int,
                    i + p@.len(),
                ));
            }
            assert(fits == begins(s@.skip(i as int), p@));
            assert(s@.skip(i as int).skip(1) =~= s@.skip(i + 1));
        }
        if fits {
            let a = string_of(&v, 0, i);
            let b = string_of(&v, i + w.len(), v.len());
            proof {
                assert(a@ =~= s@.take(i as int));
                assert(b@ =~= s@.skip(i + p@.len()));
            }
            return Some((a, b));
        }
        i = i + 1;
    }
    proof {
        assert(s@.skip(i as int).len() == 0);
        assert(!begins(s@.skip(i as int), p@));
    }
    None
}

/// A text that is cut at a character is what is before its first occurrence, the character,
/// and what is behind; it cannot be cut exactly where it does not hold the character.
pub proof fn law_cut_at_the_first(s: Seq<char>, c: char)
    ensures
        match cut(s, c) {
            Some((a, b)) => s == a.push(c) + b && !a.contains(c),
            None => !s.contains(c),
        },
{
    lemma_position(s, c);
    if let Some((a, b)) = cut(s, c) {
        assert(s =~= a.push(c) + b);
    }
}

/// The pieces of a text, put together with the separator between them, are the text.
pub proof fn law_pieces_make_the_text(s: Seq<char>, c: char)
    ensures
        joined(split(s, c), seq![c]) == s,
    decreases s.len(),
{
    let k = position(s, c);
    lemma_position(s, c);
    if k < s.len() {
        let rest = split(s.skip(k + 1), c);
        law_pieces_make_the_text(s.skip(k + 1), c);
        lemma_split_pieces(s.skip(k + 1), c);
        lemma_joined_first(s.take(k), rest, seq![c]);
        assert(s =~= s.take(k) + seq![c] + s.skip(k + 1));
    }
}

proof fn lemma_joined_first(first: Seq<char>, rest: Seq<Seq<char>>, sep: Seq<char>)
    requires
        rest.len() > 0,
    ensures
        joined(seq![first] + rest, sep) == first + sep + joined(rest, sep),
    decreases rest.len(),
{
    let all = seq![first] + rest;
    reveal_with_fuel(joined, 2);
    assert(all.drop_last() =~= seq![first] + rest.drop_last());
    if rest.len() == 1 {
        assert(all.drop_last() =~= seq![first]);
        assert(joined(all, sep) =~= first + sep + rest[0]);
    } else {
        lemma_joined_first(first, rest.drop_last(), sep);
        assert(joined(all, sep) =~= first + sep + joined(rest, sep));
    }
}

/// White space is taken from both ends of a text, all of it, and nothing else.
pub proof fn law_trimming_takes_white_space(s: Seq<char>) -> (ends: (int, int))
    ensures
        0 <= ends.0 <= ends.1 <= s.len(),
        trimmed(s) == s.subrange(ends.0, ends.1),
        forall|i: int| 0 <= i < ends.0 ==> white_space(#[trigger] s[i]),
        forall|i: int| ends.1 <= i < s.len() ==> white_space(#[trigger] s[i]),
        trimmed(s).len() > 0 ==> !white_space(trimmed(s)[0]) && !white_space(trimmed(s).last()),
{
    let a = lemma_trim_start(s);
    let t = trim_start(s);
    let b = lemma_trim_end(t);
    assert(trimmed(s) =~= s.subrange(a, a + b));
    assert forall|i: int| a + b <= i < s.len() implies white_space(#[trigger] s[i]) by {
        assert(t[i - a] == s[i]);
    }
    if trimmed(s).len() > 0 {
        assert(trimmed(s)[0] == t[0]);
    }
    (a, a + b)
}

proof fn lemma_trim_start(s: Seq<char>) -> (a: int)
    ensures
        0 <= a <= s.len(),
        trim_start(s) == s.skip(a),
        forall|i: int| 0 <= i < a ==> white_space(#[trigger] s[i]),
        a < s.len() ==> !white_space(s[a]),
    decreases s.len(),
{
    if s.len() > 0 && white_space(s[0]) {
        let a = lemma_trim_start(s.skip(1));
        assert(s.skip(1).skip(a) =~= s.skip(a + 1));
        assert forall|i: int| 0 <= i < a + 1 implies white_space(#[trigger] s[i]) by {
            if i > 0 {
                assert(s.skip(1)[i - 1] == s[i]);
            }
        }
        a + 1
    } else {
        assert(s.skip(0) =~= s);
        0
    }
}

proof fn lemma_trim_end(s: Seq<char>) -> (b: int)
    ensures
        0 <= b <= s.len(),
        trim_end(s) == s.take(b),
        forall|i: int| b <= i < s.len() ==> white_space(#[trigger] s[i]),
        b > 0 ==> !white_space(s[b - 1]),
    decreases s.len(),
{
    if s.len() > 0 && white_space(s.last()) {
        let b = lemma_trim_end(s.drop_last());
        assert(s.drop_last().take(b) =~= s.take(b));
        assert forall|i: int| b <= i < s.len() implies white_space(#[trigger] s[i]) by {
            if i < s.len() - 1 {
                assert(s.drop_last()[i] == s[i]);
            }
        }
        b
    } else {
        assert(s.take(s.len() as int) =~= s);
        s.len() as int
    }
}

/// A number that is written down is read back, and begins with a zero only where it is zero.
pub proof fn law_numbers_are_read_back(n: nat)
    ensures
        decimal_digits(n).len() > 0,
        digits_value(decimal_digits(n)) == n,
        forall|i: int| 0 <= i < decimal_digits(n).len() ==> digit(#[trigger] decimal_digits(n)[i]),
        decimal_digits(n)[0] == '0' ==> n == 0,
        n <= u64::MAX ==> parsed_u64(decimal_digits(n)) == Some(n as u64),
    decreases n,
{
    let d = decimal_digits(n);
    if n < 10 {
        assert(d.drop_last() =~= Seq::<char>::empty());
        assert(digits_value(d.drop_last()) == 0);
    } else {
        law_numbers_are_read_back(n / 10);
        let front = decimal_digits(n / 10);
        assert(d.drop_last() =~= front);
        assert(d[0] == front[0]);
        assert forall|i: int| 0 <= i < d.len() implies digit(#[trigger] d[i]) by {
            if i < front.len() {
                assert(d[i] == front[i]);
            }
        }
    }
    assert(digit(d[0]));
    assert(d[0] != '+');
    assert(unsigned_digits(d) == d);
}

/// A text that is cut to a number of bytes is a beginning of it that fits, and the longest:
/// one more character would not.
pub proof fn law_cut_texts_fit(s: Seq<char>, limit: nat)
    ensures
        fitting(s, limit).len() <= s.len(),
        fitting(s, limit) == s.take(fitting(s, limit).len() as int),
        byte_len(fitting(s, limit)) <= limit || fitting(s, limit).len() == 0,
        fitting(s, limit).len() < s.len() ==> byte_len(
            s.take(fitting(s, limit).len() as int + 1),
        ) > limit,
    decreases s.len(),
{
    if byte_len(s) <= limit || s.len() == 0 {
        assert(s.take(s.len() as int) =~= s);
    } else {
        let front = s.drop_last();
        law_cut_texts_fit(front, limit);
        let n = fitting(front, limit).len() as int;
        assert(front.take(n) =~= s.take(n));
        if n < front.len() {
            assert(front.take(n + 1) =~= s.take(n + 1));
        } else {
            assert(s.take(n + 1) =~= s);
        }
    }
}

/// Case is ignored of the 26 letters only.
pub proof fn law_letters_lose_their_case(s: Seq<char>, i: int)
    requires
        0 <= i < s.len(),
    ensures
        ascii_lower(s).len() == s.len(),
        'A' <= s[i] <= 'Z' ==> ascii_lower(s)[i] as u32 == s[i] as u32 + 32,
        !('A' <= s[i] <= 'Z') ==> ascii_lower(s)[i] == s[i],
{
}

/// A text that is cut at another is what is before the first occurrence of it, the other
/// text, and what is behind; it cannot be cut exactly where it does not hold the other.
pub proof fn law_cut_at_the_first_text(s: Seq<char>, p: Seq<char>)
    requires
        p.len() > 0,
    ensures
        match cut_text(s, p) {
            Some((a, b)) => {
                &&& s == a + p + b
                &&& forall|i: int| 0 <= i < a.len() ==> !begins(#[trigger] s.skip(i), p)
            },
            None => forall|i: int| 0 <= i <= s.len() ==> !begins(#[trigger] s.skip(i), p),
        },
{
    lemma_text_position(s, p);
    if let Some((a, b)) = cut_text(s, p) {
        let k = text_position(s, p);
        assert(s.skip(k).take(p.len() as int) == p);
        assert(s =~= a + p + b) by {
            assert forall|i: int| k <= i < k + p.len() implies s[i] == p[i - k] by {
                assert(s.skip(k).take(p.len() as int)[i - k] == s[i]);
            }
        }
    }
}

/// The first occurrence of a text in another is the first.
pub proof fn lemma_text_position(s: Seq<char>, p: Seq<char>)
    ensures
        0 <= text_position(s, p) <= s.len(),
        forall|i: int| 0 <= i < text_position(s, p) ==> !begins(#[trigger] s.skip(i), p),
        !begins(s.skip(text_position(s, p)), p) ==> text_position(s, p) == s.len(),
    decreases s.len(),
{
    assert(s.skip(0) =~= s);
    if !(begins(s, p) || s.len() == 0) {
        lemma_text_position(s.skip(1), p);
        let k = text_position(s.skip(1), p);
        assert(s.skip(1).skip(k) =~= s.skip(k + 1));
        assert forall|i: int| 0 <= i < k + 1 implies !begins(#[trigger] s.skip(i), p) by {
            if i > 0 {
                assert(s.skip(1).skip(i - 1) =~= s.skip(i));
            }
        }
    }
}

/// Among the ASCII characters, tabs, line ends, form feeds and spaces are white space, and
/// nothing else is; among the others, the spaces and separators of Unicode are.
pub proof fn law_what_white_space_is(c: char)
    ensures
        (c as u32) < 0x80 ==> (white_space(c) <==> c == ' ' || c == '\t' || c == '\n' || c == '\r'
            || c == '\u{b}' || c == '\u{c}'),
        white_space('\u{85}') && white_space('\u{a0}') && white_space('\u{1680}'),
        '\u{2000}' <= c <= '\u{200a}' ==> white_space(c),
        white_space('\u{2028}') && white_space('\u{2029}') && white_space('\u{202f}'),
        white_space('\u{205f}') && white_space('\u{3000}'),
        c > '\u{3000}' ==> !white_space(c),
        '\u{200b}' <= c < '\u{2028}' ==> !white_space(c),
        '\u{a1}' <= c < '\u{1680}' ==> !white_space(c),
{
}

/// A plus sign in front of a number makes no other number of it; a text with anything else
/// that is no digit is no number, and neither is one that is too large.
pub proof fn law_only_digits_make_numbers(n: u64, s: Seq<char>, i: int)
    requires
        0 <= i < s.len(),
    ensures
        parsed_u64(seq!['+'] + decimal_digits(n as nat)) == Some(n),
        !digit(s[i]) && (i > 0 || s[0] != '+') ==> parsed_u64(s) is None,
        (forall|k: int| 0 <= k < s.len() ==> digit(#[trigger] s[k])) ==> (parsed_u64(s) is Some
            <==> digits_value(s) <= u64::MAX),
        parsed_u64(seq!['+']) is None,
        parsed_u64(Seq::empty()) is None,
{
    let d = decimal_digits(n as nat);
    law_numbers_are_read_back(n as nat);
    let p = seq!['+'] + d;
    assert(p.skip(1) =~= d);
    assert(unsigned_digits(p) == d);
    assert(!digit(seq!['+'][0]));
    if s.len() > 1 && s[0] == '+' {
        if i > 0 {
            assert(s.skip(1)[i - 1] == s[i]);
        }
    }
    if forall|k: int| 0 <= k < s.len() ==> digit(#[trigger] s[k]) {
        assert(digit(s[0]));
    }
}

/// A negative number has a minus sign in front of what it would be without; any other is
/// written as it is.
pub proof fn law_negative_numbers_have_a_sign(n: int)
    ensures
        n < 0 ==> signed_digits(n) == "-"@ + signed_digits(-n),
        n >= 0 ==> digits_value(signed_digits(n)) == n,
{
    if n >= 0 {
        law_numbers_are_read_back(n as nat);
    }
}

} // verus!
