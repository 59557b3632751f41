//! Verified text helpers shared by the parsers.
use vstd::prelude::*;
use vstd::string::StringSliceAdditionalSpecFns;

verus! {

broadcast use vstd::utf8::encode_utf8_decode_utf8;

/// Bytewise equality of two strings decides equality of their characters.
pub(crate) fn str_equal(a: &str, b: &str) -> (r: bool)
    ensures
        r == (a@ == b@),
{
    let x = a.as_bytes();
    let y = b.as_bytes();
    let r = bytes_equal(x, y);
    proof {
        if r {
            assert(vstd::utf8::decode_utf8(a.spec_bytes()) == a@);
            assert(vstd::utf8::decode_utf8(b.spec_bytes()) == b@);
        }
    }
    r
}

/// Equality of two byte slices.
pub(crate) fn bytes_equal(x: &[u8], y: &[u8]) -> (r: bool)
    ensures
        r == (x@ == y@),
{
    if x.len() != y.len() {
        return false;
    }
    let mut i: usize = 0;
    while i < x.len()
        invariant
            x.len() == y.len(),
            i <= x.len(),
            forall|j: int| 0 <= j < i ==> x@[j] == y@[j],
        decreases x.len() - i,
    {
        if x[i] != y[i] {
            return false;
        }
        i = i + 1;
    }
    assert(x@ =~= y@);
    true
}

} // verus!

verus! {

/// `String::push`: appends one character.
#[verifier::external_body]
pub(crate) fn push_char(s: &mut String, c: char)
    ensures
        final(s)@ == old(s)@.push(c),
{
    s.push(c)
}

/// `char::from_u32`: the character with the given code point, if the value
/// is a Unicode scalar value (at most `0x10FFFF` and outside the surrogate
/// range `0xD800..=0xDFFF`).
#[verifier::external_body]
pub(crate) fn char_from_u32(v: u32) -> (r: Option<char>)
    ensures
        r is Some <==> (v <= 0x10FFFF && !(0xD800 <= v <= 0xDFFF)),
        r matches Some(c) ==> c as u32 == v,
{
    char::from_u32(v)
}

/// Builds a string from characters.
pub(crate) fn string_from_chars(chars: &Vec<char>) -> (s: String)
    ensures
        s@ == chars@,
{
    let mut s = String::new();
    let mut i: usize = 0;
    while i < chars.len()
        invariant
            i <= chars.len(),
            s@ == chars@.subrange(0, i as int),
        decreases chars.len() - i,
    {
        push_char(&mut s, chars[i]);
        i = i + 1;
        assert(s@ =~= chars@.subrange(0, i as int));
    }
    assert(chars@.subrange(0, chars.len() as int) =~= chars@);
    s
}

pub(crate) proof fn char_of_code_point(c: char, v: u32)
    requires
        c as u32 == v,
    ensures
        c == (v as char),
{
}

} // verus!

verus! {

/// Unicode `White_Space`, as `char::is_whitespace` decides it.
pub open spec fn is_white_space(c: char) -> bool {
    let v = c as u32;
    ||| 9 <= v <= 13
    ||| v == 32
    ||| v == 0x85
    ||| v == 0xA0
    ||| v == 0x1680
    ||| 0x2000 <= v <= 0x200A
    ||| v == 0x2028
    ||| v == 0x2029
    ||| v == 0x202F
    ||| v == 0x205F
    ||| v == 0x3000
}

pub fn white_space(c: char) -> (r: bool)
    ensures
        r == is_white_space(c),
{
    let v = c as u32;
    (9 <= v && v <= 13) || v == 32 || v == 0x85 || v == 0xA0 || v == 0x1680 || (0x2000 <= v && v
        <= 0x200A) || v == 0x2028 || v == 0x2029 || v == 0x202F || v == 0x205F || v == 0x3000
}

/// The number of white-space characters at the start of `s`.
pub open spec fn leading_white(s: Seq<char>) -> nat
    decreases s.len(),
{
    if s.len() > 0 && is_white_space(s[0]) {
        1 + leading_white(s.skip(1))
    } else {
        0
    }
}

/// The number of white-space characters at the end of `s`.
pub open spec fn trailing_white(s: Seq<char>) -> nat
    decreases s.len(),
{
    if s.len() > 0 && is_white_space(s.last()) {
        1 + trailing_white(s.drop_last())
    } else {
        0
    }
}

/// `s` without its leading and trailing white space (`str::trim`).
pub open spec fn trim_white(s: Seq<char>) -> Seq<char> {
    if leading_white(s) == s.len() {
        seq![]
    } else {
        s.subrange(leading_white(s) as int, s.len() - trailing_white(s))
    }
}

/// `str::trim`.
pub fn trim(s: &str) -> (r: String)
    ensures
        r@ == trim_white(s@),
{
    let n = s.unicode_len();
    let mut a: usize = 0;
    assert(s@.skip(0) =~= s@);
    while a < n && white_space(s.get_char(a))
        invariant
            n == s@.len(),
            a <= n,
            leading_white(s@) == a + leading_white(s@.skip(a as int)),
        decreases n - a,
    {
        assert(s@.skip(a as int).skip(1) =~= s@.skip(a + 1));
        a = a + 1;
    }
    if a == n {
        return String::new();
    }
    let mut b: usize = n;
    assert(s@.subrange(0, n as int) =~= s@);
    while b > a + 1 && white_space(s.get_char(b - 1))
        invariant
            n == s@.len(),
            a < b <= n,
            trailing_white(s@) == (n - b) + trailing_white(s@.subrange(0, b as int)),
            !is_white_space(s@[a as int]),
        decreases b,
    {
        assert(s@.subrange(0, b as int).drop_last() =~= s@.subrange(0, b - 1));
        b = b - 1;
    }
    proof {
        if b == a + 1 {
            assert(s@.subrange(0, b as int).last() == s@[a as int]);
        }
        assert(trailing_white(s@.subrange(0, b as int)) == 0);
    }
    String::from_str(s.substring_char(a, b))
}

} // verus!

verus! {

/// Whether `sub` occurs in `s` at position `i`.
pub open spec fn occurs_at(s: Seq<char>, sub: Seq<char>, i: int) -> bool {
    0 <= i && i + sub.len() <= s.len() && s.subrange(i, i + sub.len()) == sub
}

/// Whether `sub` occurs in `s` (`str::contains`).
pub open spec fn contains_text(s: Seq<char>, sub: Seq<char>) -> bool {
    exists|i: int| occurs_at(s, sub, i)
}

/// The characters of a string.
pub fn chars_of(s: &str) -> (v: Vec<char>)
    ensures
        v@ == s@,
{
    let n = s.unicode_len();
    let mut v: Vec<char> = Vec::new();
    let mut i: usize = 0;
    while i < n
        invariant
            n == s@.len(),
            i <= n,
            v@ == s@.subrange(0, i as int),
        decreases n - i,
    {
        v.push(s.get_char(i));
        i = i + 1;
        assert(v@ =~= s@.subrange(0, i as int));
    }
    assert(s@.subrange(0, n as int) =~= s@);
    v
}

fn occurs_at_exec(s: &Vec<char>, sub: &Vec<char>, i: usize) -> (r: bool)
    requires
        i + sub@.len() <= s@.len(),
    ensures
        r == occurs_at(s@, sub@, i as int),
{
    let mut j: usize = 0;
    while j < sub.len()
        invariant
            i + sub.len() <= s.len(),
            j <= sub@.len(),
            forall|k: int| 0 <= k < j ==> s@[i + k] == sub@[k],
        decreases sub@.len() - j,
    {
        if s[i + j] != sub[j] {
            assert(s@.subrange(i as int, i + sub@.len())[j as int] != sub@[j as int]);
            return false;
        }
        j = j + 1;
    }
    assert(s@.subrange(i as int, i + sub@.len()) =~= sub@);
    true
}

/// `str::contains` for a string pattern.
pub fn contains(s: &str, sub: &str) -> (r: bool)
    ensures
        r == contains_text(s@, sub@),
{
    let sc = chars_of(s);
    let pc = chars_of(sub);
    if pc.len() > sc.len() {
        assert forall|i: int| !occurs_at(s@, sub@, i) by {}
        return false;
    }
    if pc.len() == 0 {
        assert(s@.subrange(0, 0) =~= sub@);
        assert(occurs_at(s@, sub@, 0));
        return true;
    }
    let last = sc.len() - pc.len();
    let mut i: usize = 0;
    while i <= last
        invariant
            i <= last + 1,
            pc.len() > 0,
            last + pc.len() == sc.len(),
            sc@ == s@,
            pc@ == sub@,
            forall|k: int| 0 <= k < i ==> !occurs_at(s@, sub@, k),
        decreases last + 1 - i,
    {
        if occurs_at_exec(&sc, &pc, i) {
            return true;
        }
        i = i + 1;
    }
    assert forall|k: int| !occurs_at(s@, sub@, k) by {
        if 0 <= k && k < i {
        }
    }
    false
}

} // verus!
