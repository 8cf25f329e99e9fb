//! Character-level text operations: conversion between strings and character
//! vectors, replacement of a token, paths closed by a separator, decimal rendering of
//! numbers, and the order of a dictionary.

use vstd::prelude::*;
use vstd::std_specs::iter::IteratorSpec;
use vstd::string::StringExecFns;

verus! {

/// Appends one character to a string (`String::push`): the string afterwards is the
/// string before followed by that character.
#[verifier::external_body]
fn push_char(s: &mut String, c: char)
    ensures
        final(s)@ == old(s)@.push(c),
{
    s.push(c)
}

/// The characters of a string, in order.
pub fn chars_of(s: &str) -> (out: Vec<char>)
    ensures
        out@ == s@,
{
    broadcast use vstd::string::group_string_axioms;

    let mut out: Vec<char> = Vec::new();
    let mut it = s.chars();
    loop
        invariant
            it.obeys_prophetic_iter_laws(),
            out@ + it.remaining() == s@,
        ensures
            out@ == s@,
        decreases s@.len() - out@.len(),
    {
        match it.next() {
            Some(c) => {
                out.push(c);
            },
            None => {
                break ;
            },
        }
    }
    out
}

/// The string made of the given characters, in order.
pub fn string_of(chars: &Vec<char>) -> (out: String)
    ensures
        out@ == chars@,
{
    let mut out = String::new();
    let mut i: usize = 0;
    while i < chars.len()
        invariant
            i <= chars.len(),
            out@ == chars@.take(i as int),
        decreases chars.len() - i,
    {
        push_char(&mut out, chars[i]);
        i += 1;
    }
    out
}

/// Appends all of `more` to `out`.
pub fn append_chars(out: &mut Vec<char>, more: &Vec<char>)
    ensures
        final(out)@ == old(out)@ + more@,
{
    let mut i: usize = 0;
    while i < more.len()
        invariant
            i <= more.len(),
            out@ == old(out)@ + more@.take(i as int),
        decreases more.len() - i,
    {
        out.push(more[i]);
        i += 1;
    }
}

/// `text` with every occurrence of `pattern` replaced by `replacement`, scanning from
/// the left and resuming after each replaced occurrence. With an empty pattern, or
/// once fewer characters remain than the pattern has, the text is kept as it is.
pub open spec fn replace_all(text: Seq<char>, pattern: Seq<char>, replacement: Seq<char>) -> Seq<
    char,
>
    decreases text.len(),
{
    if pattern.len() == 0 || text.len() < pattern.len() {
        text
    } else if text.subrange(0, pattern.len() as int) == pattern {
        replacement + replace_all(
            text.subrange(pattern.len() as int, text.len() as int),
            pattern,
            replacement,
        )
    } else {
        seq![text[0]] + replace_all(text.drop_first(), pattern, replacement)
    }
}

/// A text that does not hold the first character of the pattern is kept as it is.
pub proof fn lemma_replace_keeps_text_without_pattern(
    text: Seq<char>,
    pattern: Seq<char>,
    replacement: Seq<char>,
)
    requires
        pattern.len() > 0,
        !text.contains(pattern[0]),
    ensures
        replace_all(text, pattern, replacement) == text,
    decreases text.len(),
{
    if text.len() >= pattern.len() {
        assert(text.contains(text[0]));
        assert(text.subrange(0, pattern.len() as int)[0] == text[0]);
        assert forall|c: char| text.drop_first().contains(c) implies text.contains(c) by {
            let i = choose|i: int| 0 <= i < text.drop_first().len() && text.drop_first()[i] == c;
            assert(text[i + 1] == c);
        }
        lemma_replace_keeps_text_without_pattern(text.drop_first(), pattern, replacement);
        assert(seq![text[0]] + text.drop_first() == text);
    }
}

/// Whether `pattern` stands in `text` at position `at`.
pub open spec fn occurs_at(text: Seq<char>, at: int, pattern: Seq<char>) -> bool {
    &&& 0 <= at
    &&& at + pattern.len() <= text.len()
    &&& text.subrange(at, at + pattern.len()) == pattern
}

/// Tests whether `pattern` stands in `text` at position `at`.
pub fn matches_at(text: &Vec<char>, at: usize, pattern: &Vec<char>) -> (found: bool)
    ensures
        found == occurs_at(text@, at as int, pattern@),
{
    if at > text.len() || text.len() - at < pattern.len() {
        return false;
    }
    let mut k: usize = 0;
    while k < pattern.len()
        invariant
            k <= pattern.len(),
            at + pattern.len() <= text.len(),
            text@.subrange(at as int, at + k) == pattern@.take(k as int),
        decreases pattern.len() - k,
    {
        if text[at + k] != pattern[k] {
            proof {
                let window = text@.subrange(at as int, at + pattern.len());
                assert(window[k as int] != pattern@[k as int]);
            }
            return false;
        }
        proof {
            assert(text@.subrange(at as int, at + k + 1) == text@.subrange(
                at as int,
                at + k,
            ).push(text@[at + k]));
            assert(pattern@.take(k + 1) == pattern@.take(k as int).push(pattern@[k as int]));
        }
        k += 1;
    }
    proof {
        assert(pattern@.take(pattern.len() as int) == pattern@);
    }
    true
}

/// Replaces every occurrence of `pattern` in `text` by `replacement`.
pub fn replace_chars(text: &Vec<char>, pattern: &Vec<char>, replacement: &Vec<char>) -> (out: Vec<
    char,
>)
    ensures
        out@ == replace_all(text@, pattern@, replacement@),
{
    let mut out: Vec<char> = Vec::new();
    if pattern.len() == 0 {
        append_chars(&mut out, text);
        return out;
    }
    let mut i: usize = 0;
    proof {
        assert(text@.skip(0) == text@);
    }
    while i < text.len()
        invariant
            i <= text.len(),
            pattern.len() > 0,
            out@ + replace_all(text@.skip(i as int), pattern@, replacement@) == replace_all(
                text@,
                pattern@,
                replacement@,
            ),
        decreases text.len() - i,
    {
        let ghost rest = text@.skip(i as int);
        if matches_at(text, i, pattern) {
            proof {
                assert(rest.subrange(0, pattern.len() as int) == text@.subrange(
                    i as int,
                    i + pattern.len(),
                ));
                assert(rest.subrange(pattern.len() as int, rest.len() as int) == text@.skip(
                    i + pattern.len(),
                ));
            }
            append_chars(&mut out, replacement);
            i += pattern.len();
        } else {
            proof {
                assert(rest[0] == text@[i as int]);
                assert(rest.drop_first() == text@.skip(i + 1));
                if rest.len() >= pattern.len() {
                    assert(rest.subrange(0, pattern.len() as int) == text@.subrange(
                        i as int,
                        i + pattern.len(),
                    ));
                } else {
                    assert(rest == seq![rest[0]] + rest.drop_first());
                }
            }
            out.push(text[i]);
            i += 1;
        }
    }
    proof {
        assert(text@.skip(text.len() as int).len() == 0);
    }
    out
}

/// Replaces every occurrence of `pattern` in `text` by `replacement`.
pub fn replace(text: &str, pattern: &str, replacement: &str) -> (out: String)
    ensures
        out@ == replace_all(text@, pattern@, replacement@),
{
    let t = chars_of(text);
    let p = chars_of(pattern);
    let r = chars_of(replacement);
    let replaced = replace_chars(&t, &p, &r);
    string_of(&replaced)
}

/// A path closed by a separator, unless it is empty.
pub open spec fn with_separator(path: Seq<char>) -> Seq<char> {
    if path.len() == 0 || path.last() == '/' {
        path
    } else {
        path.push('/')
    }
}

/// The path closed by a separator, unless it is empty.
pub fn separated(path: &str) -> (out: String)
    ensures
        out@ == with_separator(path@),
{
    let chars = chars_of(path);
    let mut out = String::from_str(path);
    if chars.len() > 0 && chars[chars.len() - 1] != '/' {
        out.append("/");
        proof {
            reveal_strlit("/");
            assert("/"@ == seq!['/']);
            assert(path@ + seq!['/'] == path@.push('/'));
        }
    }
    out
}

/// A path without the separators that it begins with.
pub open spec fn unrooted(path: Seq<char>) -> Seq<char>
    decreases path.len(),
{
    if path.len() > 0 && path[0] == '/' {
        unrooted(path.drop_first())
    } else {
        path
    }
}

/// The path without the separators that it begins with.
pub fn without_root(path: &str) -> (out: String)
    ensures
        out@ == unrooted(path@),
{
    let chars = chars_of(path);
    let mut i: usize = 0;
    proof {
        assert(chars@.skip(0) == chars@);
    }
    while i < chars.len() && chars[i] == '/'
        invariant
            i <= chars.len(),
            unrooted(chars@) == unrooted(chars@.skip(i as int)),
        decreases chars.len() - i,
    {
        proof {
            assert(chars@.skip(i as int)[0] == chars@[i as int]);
            assert(chars@.skip(i as int).drop_first() == chars@.skip(i + 1));
        }
        i += 1;
    }
    proof {
        if i < chars.len() {
            assert(chars@.skip(i as int)[0] == chars@[i as int]);
        }
    }
    let mut rest: Vec<char> = Vec::new();
    let mut j: usize = i;
    while j < chars.len()
        invariant
            i <= j <= chars.len(),
            rest@ == chars@.subrange(i as int, j as int),
        decreases chars.len() - j,
    {
        rest.push(chars[j]);
        proof {
            assert(chars@.subrange(i as int, j + 1) == chars@.subrange(i as int, j as int).push(
                chars@[j as int],
            ));
        }
        j += 1;
    }
    proof {
        assert(chars@.subrange(i as int, chars.len() as int) == chars@.skip(i as int));
    }
    string_of(&rest)
}

/// The character of a decimal digit.
pub open spec fn digit(d: nat) -> char {
    (48 + d) as u8 as char
}

/// The decimal digits of a number, without leading zeros.
pub open spec fn decimal(n: nat) -> Seq<char>
    decreases n,
{
    if n < 10 {
        seq![digit(n)]
    } else {
        decimal(n / 10).push(digit(n % 10))
    }
}

/// The decimal digits of a number, with a leading zero where it has one digit only.
pub open spec fn two_digits(n: nat) -> Seq<char> {
    if n < 10 {
        seq!['0'] + decimal(n)
    } else {
        decimal(n)
    }
}

/// A number below a hundred is written in exactly two digits.
pub proof fn lemma_two_digits(n: nat)
    requires
        n < 100,
    ensures
        two_digits(n) == seq![digit(n / 10), digit(n % 10)],
{
    reveal_with_fuel(decimal, 2);
    if n < 10 {
        assert(seq!['0'] + seq![digit(n)] == seq![digit(0), digit(n)]);
    } else {
        assert(seq![digit(n / 10)].push(digit(n % 10)) == seq![digit(n / 10), digit(n % 10)]);
    }
}

/// The decimal digits of an integer, after a minus sign where it is negative.
pub open spec fn signed_decimal(n: int) -> Seq<char> {
    if n < 0 {
        seq!['-'] + decimal((-n) as nat)
    } else {
        decimal(n as nat)
    }
}

/// Appends the decimal digits of `n` to `out`.
pub fn push_decimal(out: &mut Vec<char>, n: u64)
    ensures
        final(out)@ == old(out)@ + decimal(n as nat),
    decreases n,
{
    if n >= 10 {
        push_decimal(out, n / 10);
    }
    let d: u8 = (n % 10) as u8;
    out.push((48u8 + d) as char);
    proof {
        let units = digit((n % 10) as nat);
        if n >= 10 {
            assert(old(out)@ + decimal((n / 10) as nat).push(units) == (old(out)@ + decimal(
                (n / 10) as nat,
            )).push(units));
        } else {
            assert(old(out)@ + seq![units] == old(out)@.push(units));
        }
    }
}

/// The number in decimal, with at least two digits.
pub fn two_digit_string(n: u32) -> (out: String)
    ensures
        out@ == two_digits(n as nat),
{
    let mut chars: Vec<char> = Vec::new();
    if n < 10 {
        chars.push('0');
    }
    push_decimal(&mut chars, n as u64);
    proof {
        assert(Seq::<char>::empty() + decimal(n as nat) == decimal(n as nat));
        assert(seq!['0'] == Seq::<char>::empty().push('0'));
    }
    string_of(&chars)
}

/// The integer in decimal, with a minus sign where it is negative.
pub fn signed_decimal_string(n: i32) -> (out: String)
    ensures
        out@ == signed_decimal(n as int),
{
    let mut chars: Vec<char> = Vec::new();
    if n < 0 {
        chars.push('-');
        let magnitude: i64 = -(n as i64);
        push_decimal(&mut chars, magnitude as u64);
        proof {
            assert(seq!['-'] == Seq::<char>::empty().push('-'));
        }
    } else {
        push_decimal(&mut chars, n as u64);
        proof {
            assert(Seq::<char>::empty() + decimal(n as nat) == decimal(n as nat));
        }
    }
    string_of(&chars)
}

/// Whether `a` comes before `b`, or equals it, in the order of a dictionary: the first
/// character in which they differ decides, by its code; a text comes before those that
/// it begins.
pub open spec fn precedes(a: Seq<char>, b: Seq<char>) -> bool
    decreases a.len(),
{
    if a.len() == 0 {
        true
    } else if b.len() == 0 {
        false
    } else if a[0] != b[0] {
        (a[0] as u32) < (b[0] as u32)
    } else {
        precedes(a.drop_first(), b.drop_first())
    }
}

/// Of two texts, one comes before the other or equals it.
pub proof fn lemma_precedes_total(a: Seq<char>, b: Seq<char>)
    ensures
        precedes(a, b) || precedes(b, a),
    decreases a.len(),
{
    if a.len() > 0 && b.len() > 0 {
        if a[0] == b[0] {
            lemma_precedes_total(a.drop_first(), b.drop_first());
        } else {
            vstd::utf8::char_u32_cast(a[0], a[0] as u32);
            vstd::utf8::char_u32_cast(b[0], b[0] as u32);
        }
    }
}

/// A text that comes before a second, which comes before a third, comes before the
/// third.
pub proof fn lemma_precedes_transitive(a: Seq<char>, b: Seq<char>, c: Seq<char>)
    requires
        precedes(a, b),
        precedes(b, c),
    ensures
        precedes(a, c),
    decreases a.len(),
{
    if a.len() > 0 && b.len() > 0 && c.len() > 0 && a[0] == b[0] && b[0] == c[0] {
        lemma_precedes_transitive(a.drop_first(), b.drop_first(), c.drop_first());
    }
}

/// Tells whether `a` comes before `b`, or equals it, in the order of a dictionary.
pub fn comes_first(a: &Vec<char>, b: &Vec<char>) -> (first: bool)
    ensures
        first == precedes(a@, b@),
{
    let mut i: usize = 0;
    proof {
        assert(a@.skip(0) == a@);
        assert(b@.skip(0) == b@);
    }
    while i < a.len() && i < b.len()
        invariant
            i <= a.len(),
            i <= b.len(),
            precedes(a@, b@) == precedes(a@.skip(i as int), b@.skip(i as int)),
        decreases a.len() - i,
    {
        proof {
            assert(a@.skip(i as int)[0] == a@[i as int]);
            assert(b@.skip(i as int)[0] == b@[i as int]);
            assert(a@.skip(i as int).drop_first() == a@.skip(i + 1));
            assert(b@.skip(i as int).drop_first() == b@.skip(i + 1));
        }
        if a[i] != b[i] {
            return (a[i] as u32) < (b[i] as u32);
        }
        i += 1;
    }
    i == a.len()
}

} // verus!
