//! Character-level helpers shared by the clipboard, configuration and
//! destination code: UTF-16 as used on the RDP wire, and small string
//! operations with exact specifications.

use vstd::prelude::*;

verus! {

broadcast use vstd::string::group_string_axioms;

/// The characters of `s`, in order.
pub fn chars_of(s: &str) -> (v: Vec<char>)
    ensures
        v@ == s@,
{
    let mut v: Vec<char> = Vec::new();
    for c in iter: s.chars()
        invariant
            v@ == iter.seq().take(iter.index()),
            iter.seq() == s@,
    {
        v.push(c);
    }
    v
}

/// Appends one character to a string (`String::push`).
#[verifier::external_body]
pub(crate) fn push_char(s: &mut String, c: char)
    ensures
        final(s)@ == old(s)@.push(c),
{
    s.push(c);
}

/// The string made of the characters of `chars`, in order.
pub fn string_from_chars(chars: &[char]) -> (s: String)
    ensures
        s@ == chars@,
{
    let mut s = String::new();
    for i in 0..chars.len()
        invariant
            s@ == chars@.take(i as int),
    {
        push_char(&mut s, chars[i]);
        assert(chars@.take(i + 1) == chars@.take(i as int).push(chars@[i as int]));
    }
    assert(chars@.take(chars@.len() as int) == chars@);
    s
}


/// Whether `v` is a Unicode scalar value, i.e. the code of some `char`.
pub open spec fn is_scalar_value(v: int) -> bool {
    (0 <= v <= 0xD7FF) || (0xE000 <= v <= 0x10FFFF)
}

/// The UTF-16 code units of one character: itself below U+10000, else a
/// surrogate pair.
pub open spec fn utf16_of_char(c: char) -> Seq<u16> {
    let v = c as int;
    if v < 0x10000 {
        seq![v as u16]
    } else {
        let u = v - 0x10000;
        seq![(0xD800 + u / 0x400) as u16, (0xDC00 + u % 0x400) as u16]
    }
}

/// The UTF-16 encoding of a character sequence.
pub open spec fn utf16_encode(s: Seq<char>) -> Seq<u16>
    decreases s.len(),
{
    if s.len() == 0 {
        Seq::empty()
    } else {
        utf16_of_char(s[0]) + utf16_encode(s.drop_first())
    }
}

pub open spec fn is_high_surrogate(u: u16) -> bool {
    0xD800 <= u < 0xDC00
}

pub open spec fn is_low_surrogate(u: u16) -> bool {
    0xDC00 <= u < 0xE000
}

/// Decoding of UTF-16 code units, `None` where a surrogate is unpaired.
pub open spec fn utf16_decode(units: Seq<u16>) -> Option<Seq<char>>
    decreases units.len(),
{
    if units.len() == 0 {
        Some(Seq::empty())
    } else if !is_high_surrogate(units[0]) && !is_low_surrogate(units[0]) {
        match utf16_decode(units.drop_first()) {
            Some(rest) => Some(seq![(units[0] as int) as char] + rest),
            None => None,
        }
    } else if is_high_surrogate(units[0]) && units.len() >= 2 && is_low_surrogate(units[1]) {
        let v = 0x10000 + (units[0] - 0xD800) * 0x400 + (units[1] - 0xDC00);
        match utf16_decode(units.subrange(2, units.len() as int)) {
            Some(rest) => Some(seq![v as char] + rest),
            None => None,
        }
    } else {
        None
    }
}

pub proof fn lemma_char_scalar(c: char)
    ensures
        is_scalar_value(c as int),
        (c as int) as char == c,
{
}

pub proof fn lemma_utf16_encode_push(s: Seq<char>, c: char)
    ensures
        utf16_encode(s.push(c)) == utf16_encode(s) + utf16_of_char(c),
    decreases s.len(),
{
    if s.len() == 0 {
        assert(s.push(c).drop_first() =~= Seq::<char>::empty());
        assert(utf16_encode(Seq::<char>::empty()) =~= Seq::<u16>::empty());
        assert(utf16_encode(s.push(c)) =~= utf16_of_char(c));
    } else {
        assert(s.push(c).drop_first() =~= s.drop_first().push(c));
        lemma_utf16_encode_push(s.drop_first(), c);
        assert(utf16_encode(s.push(c)) =~= utf16_of_char(s[0]) + (utf16_encode(s.drop_first())
            + utf16_of_char(c)));
    }
}

/// Decoding gives back what encoding was given.
pub proof fn lemma_utf16_roundtrip(s: Seq<char>)
    ensures
        utf16_decode(utf16_encode(s)) == Some(s),
    decreases s.len(),
{
    if s.len() == 0 {
        assert(utf16_encode(s) =~= Seq::<u16>::empty());
    } else {
        let c = s[0];
        let rest = s.drop_first();
        lemma_utf16_roundtrip(rest);
        lemma_char_scalar(c);
        let e = utf16_encode(s);
        let ce = utf16_of_char(c);
        assert(e == ce + utf16_encode(rest));
        let v = c as int;
        if v < 0x10000 {
            assert(e.drop_first() =~= utf16_encode(rest));
            assert(seq![c] + rest =~= s);
        } else {
            let u = v - 0x10000;
            assert(e.subrange(2, e.len() as int) =~= utf16_encode(rest));
            assert(e[0] == (0xD800 + u / 0x400) as u16);
            assert(e[1] == (0xDC00 + u % 0x400) as u16);
            assert(0x10000 + (e[0] - 0xD800) * 0x400 + (e[1] - 0xDC00) == v);
            assert(seq![c] + rest =~= s);
        }
    }
}

/// No code unit of the encoding is zero unless the text holds `'\0'`.
pub proof fn lemma_utf16_encode_nonzero(s: Seq<char>)
    requires
        !s.contains('\0'),
    ensures
        !utf16_encode(s).contains(0u16),
    decreases s.len(),
{
    if s.len() > 0 {
        assert(!s.drop_first().contains('\0')) by {
            if s.drop_first().contains('\0') {
                let i = choose|i: int| 0 <= i < s.drop_first().len() && s.drop_first()[i] == '\0';
                assert(s[i + 1] == '\0');
            }
        }
        lemma_utf16_encode_nonzero(s.drop_first());
        assert(s[0] != '\0');
        let e = utf16_encode(s);
        let ce = utf16_of_char(s[0]);
        assert(e == ce + utf16_encode(s.drop_first()));
        assert(!e.contains(0u16)) by {
            if e.contains(0u16) {
                let i = choose|i: int| 0 <= i < e.len() && e[i] == 0u16;
                if i >= ce.len() {
                    assert(utf16_encode(s.drop_first())[i - ce.len()] == 0u16);
                } else {
                    lemma_char_scalar(s[0]);
                    let v = s[0] as int;
                    if v < 0x10000 {
                        assert(ce[0] == v as u16);
                        assert(ce[0] as int == v);
                    }
                    assert(ce[i] != 0u16);
                }
            }
        }
    }
}


/// The character with scalar value `v` (`char::from_u32`): `None` for
/// surrogates and values above U+10FFFF.
#[verifier::external_body]
pub(crate) fn char_from_scalar(v: u32) -> (c: Option<char>)
    ensures
        c is Some <==> is_scalar_value(v as int),
        c matches Some(ch) ==> ch as int == v as int,
{
    char::from_u32(v)
}

/// The UTF-16 code units of `c` (`char::encode_utf16`).
pub fn char_to_utf16(c: char) -> (units: Vec<u16>)
    ensures
        units@ == utf16_of_char(c),
{
    proof {
        lemma_char_scalar(c);
    }
    let v = c as u32;
    let mut units: Vec<u16> = Vec::new();
    if v < 0x10000 {
        units.push(v as u16);
    } else {
        let u = v - 0x10000;
        units.push((0xD800 + u / 0x400) as u16);
        units.push((0xDC00 + u % 0x400) as u16);
    }
    assert(units@ =~= utf16_of_char(c));
    units
}

/// The UTF-16 encoding of `s` (`str::encode_utf16`).
pub fn encode_utf16(s: &str) -> (units: Vec<u16>)
    ensures
        units@ == utf16_encode(s@),
{
    let chars = chars_of(s);
    let mut units: Vec<u16> = Vec::new();
    for i in 0..chars.len()
        invariant
            chars@ == s@,
            units@ == utf16_encode(chars@.take(i as int)),
    {
        let c = chars[i];
        let cu = char_to_utf16(c);
        proof {
            lemma_utf16_encode_push(chars@.take(i as int), c);
            assert(chars@.take(i + 1) == chars@.take(i as int).push(c));
        }
        let mut j: usize = 0;
        let ghost before = units@;
        while j < cu.len()
            invariant
                j <= cu.len(),
                units@ == before + cu@.take(j as int),
            decreases cu.len() - j,
        {
            units.push(cu[j]);
            j += 1;
            assert(cu@.take(j as int) == cu@.take(j - 1).push(cu@[j - 1]));
        }
        assert(cu@.take(cu@.len() as int) == cu@);
    }
    assert(chars@.take(chars@.len() as int) == chars@);
    units
}

/// The characters decoded so far, followed by the decoding of the rest.
pub open spec fn prepend_decoded(done: Seq<char>, rest: Option<Seq<char>>) -> Option<Seq<char>> {
    match rest {
        Some(r) => Some(done + r),
        None => None,
    }
}

/// Decodes UTF-16 code units (`String::from_utf16`): `None` when a
/// surrogate is unpaired.
pub fn decode_utf16(units: &[u16]) -> (text: Option<String>)
    ensures
        match text {
            Some(t) => utf16_decode(units@) == Some(t@),
            None => utf16_decode(units@) is None,
        },
{
    let n = units.len();
    let mut out: Vec<char> = Vec::new();
    let mut i: usize = 0;
    assert(units@.subrange(0, n as int) =~= units@);
    while i < n
        invariant
            n == units@.len(),
            i <= n,
            utf16_decode(units@) == prepend_decoded(out@, utf16_decode(units@.subrange(i as int, n as int))),
        decreases n - i,
    {
        let ghost rest = units@.subrange(i as int, n as int);
        let u = units[i];
        assert(rest[0] == u);
        if u < 0xD800 || u >= 0xE000 {
            assert(rest.drop_first() =~= units@.subrange(i + 1, n as int));
            match char_from_scalar(u as u32) {
                Some(c) => {
                    assert(c == (u as int) as char) by {
                        lemma_char_scalar(c);
                    }
                    out.push(c);
                    i += 1;
                    proof {
                        let r = utf16_decode(units@.subrange(i as int, n as int));
                        match r {
                            Some(rr) => {
                                assert(out@ + rr =~= out@.drop_last() + (seq![c] + rr));
                            },
                            None => {},
                        }
                    }
                },
                None => {
                    return None;
                },
            }
        } else if u < 0xDC00 && i + 1 < n && units[i + 1] >= 0xDC00 && units[i + 1] < 0xE000 {
            let lo = units[i + 1];
            assert(rest[1] == lo);
            assert(rest.subrange(2, rest.len() as int) =~= units@.subrange(i + 2, n as int));
            let v: u32 = 0x10000 + (u as u32 - 0xD800) * 0x400 + (lo as u32 - 0xDC00);
            match char_from_scalar(v) {
                Some(c) => {
                    assert(c == (v as int) as char) by {
                        lemma_char_scalar(c);
                    }
                    out.push(c);
                    i += 2;
                    proof {
                        let r = utf16_decode(units@.subrange(i as int, n as int));
                        match r {
                            Some(rr) => {
                                assert(out@ + rr =~= out@.drop_last() + (seq![c] + rr));
                            },
                            None => {},
                        }
                    }
                },
                None => {
                    return None;
                },
            }
        } else {
            return None;
        }
    }
    assert(units@.subrange(n as int, n as int) =~= Seq::<u16>::empty());
    assert(out@ + Seq::<char>::empty() =~= out@);
    Some(string_from_chars(out.as_slice()))
}


/// Whether two strings hold the same characters.
pub fn str_equals(a: &str, b: &str) -> (eq: bool)
    ensures
        eq == (a@ == b@),
{
    let ac = chars_of(a);
    let bc = chars_of(b);
    if ac.len() != bc.len() {
        return false;
    }
    for i in 0..ac.len()
        invariant
            ac@ == a@,
            bc@ == b@,
            ac@.len() == bc@.len(),
            forall|j: int| 0 <= j < i ==> ac@[j] == bc@[j],
    {
        if ac[i] != bc[i] {
            return false;
        }
    }
    assert(ac@ =~= bc@);
    true
}

/// The lowercase hexadecimal digit for `d < 16`.
pub open spec fn hex_digit(d: int) -> char {
    if d < 10 {
        (('0' as int) + d) as char
    } else {
        (('a' as int) + d - 10) as char
    }
}

/// `v` as eight lowercase hexadecimal digits, zero-padded (`{:08x}`).
pub open spec fn hex8(v: u32) -> Seq<char> {
    Seq::new(8, |i: int| hex_digit((v as int / vstd::arithmetic::power::pow(16, (7 - i) as nat)) % 16))
}

fn hex_digit_exec(d: u32) -> (c: char)
    requires
        d < 16,
    ensures
        c == hex_digit(d as int),
{
    let table = ['0', '1', '2', '3', '4', '5', '6', '7', '8', '9', 'a', 'b', 'c', 'd', 'e', 'f'];
    let c = table[d as usize];
    proof {
        if d < 10 {
            assert(c as int == '0' as int + d);
        } else {
            assert(c as int == 'a' as int + d - 10);
        }
    }
    c
}

/// Appends `v` as eight lowercase hexadecimal digits.
pub fn push_hex8(s: &mut String, v: u32)
    ensures
        final(s)@ == old(s)@ + hex8(v),
{
    let ghost start = s@;
    let divisors: [u32; 8] = [0x1000_0000, 0x100_0000, 0x10_0000, 0x1_0000, 0x1000, 0x100, 0x10, 0x1];
    proof {
        vstd::arithmetic::power::lemma_pow_adds(16, 4, 3);
        reveal_with_fuel(vstd::arithmetic::power::pow, 8);
    }
    for i in 0..8
        invariant
            s@ == start + hex8(v).take(i as int),
            divisors@ == seq![0x1000_0000u32, 0x100_0000, 0x10_0000, 0x1_0000, 0x1000, 0x100, 0x10, 0x1],
            forall|k: int| 0 <= k < 8 ==> divisors@[k] as int == vstd::arithmetic::power::pow(16, (7 - k) as nat),
    {
        let d = (v / divisors[i]) % 16;
        let c = hex_digit_exec(d);
        push_char(s, c);
        assert(hex8(v).take(i + 1) =~= hex8(v).take(i as int).push(hex8(v)[i as int]));
    }
    assert(hex8(v).take(8) =~= hex8(v));
}


/// The full Unicode lowercase mapping of a text (`str::to_lowercase`).
pub uninterp spec fn lowercase(s: Seq<char>) -> Seq<char>;

/// Lowercases `s` with `str::to_lowercase`, which maps every character by
/// Unicode's lowercase rules and depends on the text alone.
#[verifier::external_body]
pub(crate) fn to_lowercase(s: &str) -> (lower: String)
    ensures
        lower@ == lowercase(s@),
{
    s.to_lowercase()
}

/// Whether `needle` occurs in `hay` as a contiguous run.
pub open spec fn contains_seq(hay: Seq<char>, needle: Seq<char>) -> bool {
    exists|i: int| 0 <= i && i + needle.len() <= hay.len() && #[trigger] hay.subrange(i, i + needle.len()) == needle
}

/// `str::contains` for a string pattern.
pub fn str_contains(hay: &str, needle: &str) -> (found: bool)
    ensures
        found == contains_seq(hay@, needle@),
{
    let h = chars_of(hay);
    let n = chars_of(needle);
    if n.len() > h.len() {
        proof {
            if contains_seq(hay@, needle@) {
                let i = choose|i: int| 0 <= i && i + needle@.len() <= hay@.len() && #[trigger] hay@.subrange(i, i + needle@.len()) == needle@;
            }
        }
        return false;
    }
    let hlen = h.len();
    let last = hlen - n.len();
    let mut i: usize = 0;
    while i <= last
        invariant
            hlen == h@.len(),
            h@ == hay@,
            n@ == needle@,
            last == h@.len() - n@.len(),
            n@.len() <= h@.len(),
            i <= last + 1,
            forall|k: int| 0 <= k < i ==> #[trigger] h@.subrange(k, k + n@.len()) != n@,
        decreases last + 1 - i,
    {
        let mut j: usize = 0;
        let mut same = true;
        while j < n.len()
            invariant
                hlen == h@.len(),
                h@ == hay@,
                n@ == needle@,
                i <= last,
                last == h@.len() - n@.len(),
                j <= n@.len(),
                same == (forall|k: int| 0 <= k < j ==> h@[i + k] == n@[k]),
            decreases n@.len() - j,
        {
            if h[i + j] != n[j] {
                same = false;
            }
            j += 1;
        }
        if same {
            assert(h@.subrange(i as int, i + n@.len()) =~= n@);
            return true;
        }
        assert(h@.subrange(i as int, i + n@.len()) != n@) by {
            let k = choose|k: int| 0 <= k < n@.len() && h@[i + k] != n@[k];
            assert(h@.subrange(i as int, i + n@.len())[k] == h@[i + k]);
        }
        i += 1;
    }
    proof {
        if contains_seq(hay@, needle@) {
            let k = choose|k: int| 0 <= k && k + needle@.len() <= hay@.len() && #[trigger] hay@.subrange(k, k + needle@.len()) == needle@;
            assert(h@.subrange(k, k + n@.len()) != n@);
        }
    }
    false
}


/// The decimal digit for `d < 10`.
pub open spec fn decimal_digit(d: int) -> char {
    (('0' as int) + d) as char
}

/// `n` written in decimal, without leading zeros.
pub open spec fn decimal_string(n: nat) -> Seq<char>
    decreases n,
{
    if n < 10 {
        seq![decimal_digit(n as int)]
    } else {
        decimal_string(n / 10).push(decimal_digit((n % 10) as int))
    }
}

/// Appends `n` in decimal (`{}` formatting of an unsigned integer).
pub fn push_decimal(s: &mut String, n: u64)
    ensures
        final(s)@ == old(s)@ + decimal_string(n as nat),
    decreases n,
{
    if n >= 10 {
        push_decimal(s, n / 10);
    }
    let d = (n % 10) as u32;
    let c = match char_from_scalar(48 + d) {
        Some(c) => c,
        None => '0',
    };
    assert(c == decimal_digit((n % 10) as int));
    let ghost before = s@;
    push_char(s, c);
    proof {
        if n >= 10 {
            assert(s@ =~= old(s)@ + decimal_string(n as nat));
        } else {
            assert(s@ =~= old(s)@ + decimal_string(n as nat));
        }
    }
}

} // verus!
