//! Reading the connection fields a user types: `DOMAIN\user` logins and
//! `host:port` addresses.

use vstd::prelude::*;

use crate::text::{chars_of, string_from_chars};

verus! {

/// The index of the first `c` in `s`, if any.
pub open spec fn first_index_of(s: Seq<char>, c: char) -> Option<int>
    decreases s.len(),
{
    if s.len() == 0 {
        None
    } else if s[0] == c {
        Some(0)
    } else {
        match first_index_of(s.drop_first(), c) {
            Some(i) => Some(i + 1),
            None => None,
        }
    }
}

pub proof fn lemma_first_index_of(s: Seq<char>, c: char)
    ensures
        match first_index_of(s, c) {
            Some(i) => 0 <= i < s.len() && s[i] == c && forall|j: int| 0 <= j < i ==> s[j] != c,
            None => forall|j: int| 0 <= j < s.len() ==> s[j] != c,
        },
    decreases s.len(),
{
    if s.len() > 0 && s[0] != c {
        lemma_first_index_of(s.drop_first(), c);
        match first_index_of(s.drop_first(), c) {
            Some(i) => {
                assert forall|j: int| 0 <= j < i + 1 implies s[j] != c by {
                    if j > 0 {
                        assert(s[j] == s.drop_first()[j - 1]);
                    }
                }
            },
            None => {
                assert forall|j: int| 0 <= j < s.len() implies s[j] != c by {
                    if j > 0 {
                        assert(s[j] == s.drop_first()[j - 1]);
                    }
                }
            },
        }
    }
}

proof fn lemma_first_index_is(s: Seq<char>, c: char, i: int)
    requires
        0 <= i < s.len(),
        s[i] == c,
        forall|j: int| 0 <= j < i ==> s[j] != c,
    ensures
        first_index_of(s, c) == Some(i),
{
    lemma_first_index_of(s, c);
    match first_index_of(s, c) {
        Some(k) => {
            if k < i {
                assert(s[k] != c);
            }
            if k > i {
                assert(s[i] != c);
            }
        },
        None => {
            assert(s[i] != c);
        },
    }
}

/// The position of the first `c` among `chars`, or `None`.
fn find_char(chars: &[char], c: char) -> (r: Option<usize>)
    ensures
        match r {
            Some(i) => i < chars@.len() && first_index_of(chars@, c) == Some(i as int),
            None => first_index_of(chars@, c) is None,
        },
{
    for i in 0..chars.len()
        invariant
            forall|j: int| 0 <= j < i ==> chars@[j] != c,
    {
        if chars[i] == c {
            proof {
                lemma_first_index_is(chars@, c, i as int);
            }
            return Some(i);
        }
    }
    proof {
        lemma_first_index_of(chars@, c);
        match first_index_of(chars@, c) {
            Some(k) => {
                assert(chars@[k] != c);
            },
            None => {},
        }
    }
    None
}

/// The (domain, user) parts of a login: split at the first `\`; without
/// one the domain is empty.
pub open spec fn split_domain_spec(login: Seq<char>) -> (Seq<char>, Seq<char>) {
    match first_index_of(login, '\\') {
        Some(i) => (login.take(i), login.skip(i + 1)),
        None => (Seq::empty(), login),
    }
}

/// Splits a `DOMAIN\user` login into its domain and username parts. Only the
/// first backslash separates them.
pub fn split_domain(username: &str) -> (parts: (String, String))
    ensures
        (parts.0@, parts.1@) == split_domain_spec(username@),
{
    let chars = chars_of(username);
    let n = chars.len();
    match find_char(chars.as_slice(), '\\') {
        Some(i) => {
            let domain = string_from_chars(&chars.as_slice()[0..i]);
            let user = string_from_chars(&chars.as_slice()[i + 1..n]);
            assert(chars@.subrange(0, i as int) =~= username@.take(i as int));
            assert(chars@.subrange(i + 1, chars@.len() as int) =~= username@.skip(i + 1));
            (domain, user)
        },
        None => (String::new(), string_from_chars(chars.as_slice())),
    }
}

pub open spec fn is_ascii_digit(c: char) -> bool {
    '0' <= c <= '9'
}

pub open spec fn all_ascii_digits(s: Seq<char>) -> bool {
    forall|i: int| 0 <= i < s.len() ==> is_ascii_digit(#[trigger] s[i])
}

/// The value of a string of decimal digits.
pub open spec fn decimal_value(digits: Seq<char>) -> int
    decreases digits.len(),
{
    if digits.len() == 0 {
        0
    } else {
        decimal_value(digits.drop_last()) * 10 + (digits.last() as int - '0' as int)
    }
}

/// `u16::from_str`: an optional `+`, then one or more ASCII digits whose
/// value fits 16 bits.
pub open spec fn parse_u16_spec(s: Seq<char>) -> Option<u16> {
    let digits = if s.len() > 0 && s[0] == '+' {
        s.drop_first()
    } else {
        s
    };
    if digits.len() == 0 || !all_ascii_digits(digits) {
        None
    } else if decimal_value(digits) > 65535 {
        None
    } else {
        Some(decimal_value(digits) as u16)
    }
}

proof fn lemma_decimal_value_grows(digits: Seq<char>, i: int)
    requires
        0 <= i <= digits.len(),
        forall|k: int| 0 <= k < digits.len() ==> is_ascii_digit(#[trigger] digits[k]),
    ensures
        decimal_value(digits.take(i)) <= decimal_value(digits),
        0 <= decimal_value(digits.take(i)),
    decreases digits.len() - i,
{
    if i == digits.len() {
        assert(digits.take(i) =~= digits);
        lemma_decimal_value_nonneg(digits);
    } else {
        lemma_decimal_value_grows(digits, i + 1);
        assert(digits.take(i + 1).drop_last() =~= digits.take(i));
        lemma_decimal_value_nonneg(digits.take(i));
    }
}

proof fn lemma_decimal_value_nonneg(digits: Seq<char>)
    requires
        forall|k: int| 0 <= k < digits.len() ==> is_ascii_digit(#[trigger] digits[k]),
    ensures
        0 <= decimal_value(digits),
    decreases digits.len(),
{
    if digits.len() > 0 {
        lemma_decimal_value_nonneg(digits.drop_last());
    }
}

/// Parses a port number the way `u16::from_str` does.
pub fn parse_u16(s: &str) -> (r: Option<u16>)
    ensures
        r == parse_u16_spec(s@),
{
    let chars = chars_of(s);
    let start: usize = if chars.len() > 0 && chars[0] == '+' { 1 } else { 0 };
    let ghost digits = if s@.len() > 0 && s@[0] == '+' {
        s@.drop_first()
    } else {
        s@
    };
    assert(digits =~= chars@.skip(start as int));
    if start == chars.len() {
        return None;
    }
    let mut value: u32 = 0;
    let mut i = start;
    while i < chars.len()
        invariant
            chars@ == s@,
            digits == chars@.skip(start as int),
            digits == (if s@.len() > 0 && s@[0] == '+' {
                s@.drop_first()
            } else {
                s@
            }),
            start <= i <= chars@.len(),
            value <= 65535,
            forall|k: int| start <= k < i ==> is_ascii_digit(#[trigger] chars@[k]),
            value == decimal_value(digits.take(i - start)),
        decreases chars.len() - i,
    {
        let c = chars[i];
        assert(digits[i - start] == c);
        if c < '0' || c > '9' {
            assert(!is_ascii_digit(digits[i - start]));
            assert(digits.len() > 0);
            assert(!all_ascii_digits(digits));
            return None;
        }
        let d = (c as u32) - ('0' as u32);
        let next = value * 10 + d;
        proof {
            assert(digits.take(i + 1 - start).drop_last() =~= digits.take(i - start));
            assert(digits.take(i + 1 - start).last() == c);
        }
        if next > 65535 {
            proof {
                let t = digits.take(i + 1 - start);
                assert(decimal_value(t) == decimal_value(t.drop_last()) * 10 + (t.last() as int - '0' as int));
                assert(decimal_value(t) == next);
                if all_ascii_digits(digits) {
                    lemma_decimal_value_grows(digits, i + 1 - start);
                }
            }
            return None;
        }
        value = next;
        i += 1;
    }
    assert(digits.take(i - start) =~= digits);
    Some(value as u16)
}

/// The (host, port) of an address: the part before the first `:`, and the
/// port after it when that parses, else the RDP default 3389.
pub open spec fn parse_hostname_port_spec(input: Seq<char>) -> (Seq<char>, u16) {
    match first_index_of(input, ':') {
        Some(i) => (
            input.take(i),
            match parse_u16_spec(input.skip(i + 1)) {
                Some(p) => p,
                None => 3389,
            },
        ),
        None => (input, 3389),
    }
}

/// Splits `host[:port]`, defaulting the port to 3389.
pub fn parse_hostname_port(input: &str) -> (r: (String, u16))
    ensures
        (r.0@, r.1) == parse_hostname_port_spec(input@),
{
    let chars = chars_of(input);
    let n = chars.len();
    match find_char(chars.as_slice(), ':') {
        Some(i) => {
            let host = string_from_chars(&chars.as_slice()[0..i]);
            let rest = string_from_chars(&chars.as_slice()[i + 1..n]);
            assert(chars@.subrange(0, i as int) =~= input@.take(i as int));
            assert(chars@.subrange(i + 1, chars@.len() as int) =~= input@.skip(i + 1));
            let port = match parse_u16(rest.as_str()) {
                Some(p) => p,
                None => 3389,
            };
            (host, port)
        },
        None => (string_from_chars(chars.as_slice()), 3389),
    }
}

} // verus!
