//! Character-level helpers shared by the score, history and asset modules.
use vstd::prelude::*;

verus! {

/// The code point of `c` with ASCII upper-case letters folded to lower case.
pub open spec fn ascii_fold(c: char) -> u32 {
    if 'A' <= c && c <= 'Z' {
        (c as u32 + 32) as u32
    } else {
        c as u32
    }
}

/// Two strings are equal when ASCII letters are compared without regard to case.
#[verifier::opaque]
pub open spec fn eq_ignore_ascii_case(a: Seq<char>, b: Seq<char>) -> bool {
    &&& a.len() == b.len()
    &&& forall|i: int| 0 <= i < a.len() ==> ascii_fold(#[trigger] a[i]) == ascii_fold(b[i])
}

pub proof fn lemma_eq_ignore_ascii_case_refl(a: Seq<char>)
    ensures
        eq_ignore_ascii_case(a, a),
{
    reveal(eq_ignore_ascii_case);
}

pub proof fn lemma_eq_ignore_ascii_case_symmetric(a: Seq<char>, b: Seq<char>)
    requires
        eq_ignore_ascii_case(a, b),
    ensures
        eq_ignore_ascii_case(b, a),
{
    reveal(eq_ignore_ascii_case);
    assert forall|i: int| 0 <= i < b.len() implies ascii_fold(#[trigger] b[i]) == ascii_fold(a[i]) by {
        assert(ascii_fold(a[i]) == ascii_fold(b[i]));
    }
}

pub proof fn lemma_eq_ignore_ascii_case_transitive(a: Seq<char>, b: Seq<char>, c: Seq<char>)
    requires
        eq_ignore_ascii_case(a, b),
        eq_ignore_ascii_case(b, c),
    ensures
        eq_ignore_ascii_case(a, c),
{
    reveal(eq_ignore_ascii_case);
    assert forall|i: int| 0 <= i < a.len() implies ascii_fold(#[trigger] a[i]) == ascii_fold(c[i]) by {
        assert(ascii_fold(a[i]) == ascii_fold(b[i]));
        assert(ascii_fold(b[i]) == ascii_fold(c[i]));
    }
}

/// `i` is the index of the first of `names` that matches `name` without regard to ASCII case.
#[verifier::opaque]
pub open spec fn is_first_match(names: Seq<Seq<char>>, name: Seq<char>, i: int) -> bool {
    &&& 0 <= i < names.len()
    &&& eq_ignore_ascii_case(names[i], name)
    &&& forall|j: int| 0 <= j < i ==> !eq_ignore_ascii_case(#[trigger] names[j], name)
}

/// The index of the first of `names` that matches `name` without regard to ASCII case.
pub open spec fn first_match(names: Seq<Seq<char>>, name: Seq<char>) -> Option<int> {
    if exists|i: int| is_first_match(names, name, i) {
        Some(choose|i: int| is_first_match(names, name, i))
    } else {
        None
    }
}

/// A name at `i` that matches, with none before it, is the first match.
pub proof fn lemma_first_match(names: Seq<Seq<char>>, name: Seq<char>, i: int)
    requires
        0 <= i < names.len(),
        eq_ignore_ascii_case(names[i], name),
        forall|j: int| 0 <= j < i ==> !eq_ignore_ascii_case(#[trigger] names[j], name),
    ensures
        first_match(names, name) == Some(i),
{
    reveal(is_first_match);
    assert(is_first_match(names, name, i));
    let k = choose|k: int| is_first_match(names, name, k);
    assert(is_first_match(names, name, k));
    if k < i {
        assert(!eq_ignore_ascii_case(names[k], name));
    }
    if k > i {
        assert(!eq_ignore_ascii_case(names[i], name));
    }
}

/// Any match has a first match at or before it.
proof fn lemma_first_match_exists(names: Seq<Seq<char>>, name: Seq<char>, i: int)
    requires
        0 <= i < names.len(),
        eq_ignore_ascii_case(names[i], name),
    ensures
        first_match(names, name) is Some,
    decreases i,
{
    if exists|j: int| 0 <= j < i && eq_ignore_ascii_case(#[trigger] names[j], name) {
        let j = choose|j: int| 0 <= j < i && eq_ignore_ascii_case(#[trigger] names[j], name);
        lemma_first_match_exists(names, name, j);
    } else {
        lemma_first_match(names, name, i);
    }
}

/// What a first match satisfies.
pub proof fn lemma_first_match_found(names: Seq<Seq<char>>, name: Seq<char>)
    ensures
        match first_match(names, name) {
            Some(i) => 0 <= i < names.len() && eq_ignore_ascii_case(names[i], name) && forall|j: int|
                0 <= j < i ==> !eq_ignore_ascii_case(#[trigger] names[j], name),
            None => forall|j: int| 0 <= j < names.len() ==> !eq_ignore_ascii_case(#[trigger] names[j], name),
        },
{
    if exists|i: int| 0 <= i < names.len() && eq_ignore_ascii_case(#[trigger] names[i], name) {
        let i = choose|i: int| 0 <= i < names.len() && eq_ignore_ascii_case(#[trigger] names[i], name);
        lemma_first_match_exists(names, name, i);
        let k = choose|k: int| is_first_match(names, name, k);
        reveal(is_first_match);
    } else {
        if first_match(names, name) is Some {
            let k = choose|k: int| is_first_match(names, name, k);
            reveal(is_first_match);
            assert(eq_ignore_ascii_case(names[k], name));
        }
    }
}

/// Folds one character's code point as `ascii_fold` describes.
pub fn fold_char(c: char) -> (r: u32)
    ensures
        r == ascii_fold(c),
{
    let code = c as u32;
    if 65 <= code && code <= 90 {
        code + 32
    } else {
        code
    }
}

/// Collects the characters of a string slice into a vector.
pub fn chars_of(s: &str) -> (v: Vec<char>)
    ensures
        v@ == s@,
{
    let mut v: Vec<char> = Vec::new();
    for c in it: s.chars()
        invariant
            v@ == it.seq().take(it.index() as int),
            it.seq() == s@,
    {
        v.push(c);
    }
    v
}

/// Compares two character vectors ignoring the case of ASCII letters.
pub fn chars_eq_ignore_ascii_case(a: &Vec<char>, b: &Vec<char>) -> (r: bool)
    ensures
        r == eq_ignore_ascii_case(a@, b@),
{
    if a.len() != b.len() {
        assert(!eq_ignore_ascii_case(a@, b@)) by {
            reveal(eq_ignore_ascii_case);
        }
        return false;
    }
    let n = a.len();
    for i in 0..n
        invariant
            n == a@.len(),
            n == b@.len(),
            forall|j: int| 0 <= j < i ==> ascii_fold(#[trigger] a@[j]) == ascii_fold(b@[j]),
    {
        if fold_char(a[i]) != fold_char(b[i]) {
            assert(ascii_fold(a@[i as int]) != ascii_fold(b@[i as int]));
            assert(!eq_ignore_ascii_case(a@, b@)) by {
                reveal(eq_ignore_ascii_case);
            }
            return false;
        }
    }
    assert(eq_ignore_ascii_case(a@, b@)) by {
        reveal(eq_ignore_ascii_case);
    }
    true
}

/// Compares two strings ignoring the case of ASCII letters, as `str::eq_ignore_ascii_case` does.
pub fn str_eq_ignore_ascii_case(a: &str, b: &str) -> (r: bool)
    ensures
        r == eq_ignore_ascii_case(a@, b@),
{
    let x = chars_of(a);
    let y = chars_of(b);
    chars_eq_ignore_ascii_case(&x, &y)
}

/// Appends one character to a string.
#[verifier::external_body]
pub fn push_char(s: &mut String, c: char)
    ensures
        final(s)@ == old(s)@.push(c),
{
    s.push(c);
}

/// The text that `{:?}` gives for a string: the `Debug` form of `str`, quoted, with
/// quotes, backslashes and unprintable characters escaped.
pub uninterp spec fn debug_text(s: Seq<char>) -> Seq<char>;

/// Formats a string as `{:?}` does, with `str`'s `Debug` implementation; the result is
/// named `debug_text` of the string.
#[verifier::external_body]
pub(crate) fn debug_quoted(s: &str) -> (r: String)
    ensures
        r@ == debug_text(s@),
{
    format!("{:?}", s)
}

/// Builds a string from a vector of characters.
pub fn string_from_chars(v: &Vec<char>) -> (s: String)
    ensures
        s@ == v@,
{
    let mut s = String::new();
    let n = v.len();
    for i in 0..n
        invariant
            n == v@.len(),
            s@ == v@.take(i as int),
    {
        push_char(&mut s, v[i]);
        assert(v@.take(i + 1) == v@.take(i as int).push(v@[i as int]));
    }
    assert(v@.take(n as int) == v@);
    s
}

/// Appends a string slice to a string.
pub fn push_str(s: &mut String, t: &str)
    ensures
        final(s)@ == old(s)@ + t@,
{
    s.append(t);
}

/// The decimal digit for `d`.
pub open spec fn digit_char(d: nat) -> char {
    seq!['0', '1', '2', '3', '4', '5', '6', '7', '8', '9'][d as int]
}

/// The decimal representation of `n`, without leading zeros.
pub open spec fn decimal(n: nat) -> Seq<char>
    decreases n,
{
    if n < 10 {
        seq![digit_char(n)]
    } else {
        decimal(n / 10).push(digit_char(n % 10))
    }
}

/// The decimal representation of `n`, padded with zeros to at least two digits.
pub open spec fn decimal2(n: nat) -> Seq<char> {
    if n < 10 {
        seq!['0', digit_char(n)]
    } else {
        decimal(n)
    }
}

fn digit(d: u128) -> (c: char)
    requires
        d < 10,
    ensures
        c == digit_char(d as nat),
{
    let digits = ['0', '1', '2', '3', '4', '5', '6', '7', '8', '9'];
    assert(digits@ == seq!['0', '1', '2', '3', '4', '5', '6', '7', '8', '9']);
    digits[d as usize]
}

/// Appends the decimal representation of `n`.
pub fn push_decimal(s: &mut String, n: u128)
    ensures
        final(s)@ == old(s)@ + decimal(n as nat),
    decreases n,
{
    if n < 10 {
        push_char(s, digit(n));
        assert(old(s)@.push(digit_char(n as nat)) =~= old(s)@ + decimal(n as nat));
    } else {
        push_decimal(s, n / 10);
        push_char(s, digit(n % 10));
        assert(old(s)@ + decimal((n / 10) as nat) + seq![digit_char((n % 10) as nat)] =~= old(s)@
            + decimal(n as nat));
    }
}

/// Appends the decimal representation of `n`, padded with zeros to two digits.
pub fn push_decimal2(s: &mut String, n: u128)
    ensures
        final(s)@ == old(s)@ + decimal2(n as nat),
{
    if n < 10 {
        push_char(s, '0');
        push_char(s, digit(n));
        assert(old(s)@.push('0').push(digit_char(n as nat)) =~= old(s)@ + decimal2(n as nat));
    } else {
        push_decimal(s, n);
    }
}

/// Whitespace as `char::is_whitespace` defines it: the Unicode `White_Space` property.
pub open spec fn is_white_space(c: char) -> bool {
    let n = c as u32;
    (9 <= n && n <= 13) || n == 32 || n == 0x85 || n == 0xa0 || n == 0x1680 || (0x2000 <= n && n
        <= 0x200a) || n == 0x2028 || n == 0x2029 || n == 0x202f || n == 0x205f || n == 0x3000
}

/// A control character as `char::is_control` defines it: general category `Cc`.
pub open spec fn is_control(c: char) -> bool {
    let n = c as u32;
    n <= 0x1f || (0x7f <= n && n <= 0x9f)
}

pub fn white_space_char(c: char) -> (r: bool)
    ensures
        r == is_white_space(c),
{
    let n = c as u32;
    (9 <= n && n <= 13) || n == 32 || n == 0x85 || n == 0xa0 || n == 0x1680 || (0x2000 <= n && n
        <= 0x200a) || n == 0x2028 || n == 0x2029 || n == 0x202f || n == 0x205f || n == 0x3000
}

pub fn control_char(c: char) -> (r: bool)
    ensures
        r == is_control(c),
{
    let n = c as u32;
    n <= 0x1f || (0x7f <= n && n <= 0x9f)
}

} // verus!
