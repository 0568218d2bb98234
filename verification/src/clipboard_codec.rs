//! Encoding and decoding of RDP clipboard payloads: `CF_UNICODETEXT`
//! (NUL-terminated UTF-16LE) and `FILEGROUPDESCRIPTORW` lists.

use vstd::prelude::*;

use crate::session::{LocalClipboardFile, RemoteClipboardFile, RemoteFileModel};
use crate::text::{
    chars_of, string_from_chars, decode_utf16, encode_utf16, lemma_utf16_encode_nonzero, lemma_utf16_roundtrip, utf16_decode,
    utf16_encode,
};

verus! {

/// The little-endian bytes of a sequence of 16-bit units.
pub open spec fn units_le_bytes(units: Seq<u16>) -> Seq<u8> {
    Seq::new(
        2 * units.len(),
        |j: int|
            if j % 2 == 0 {
                (units[j / 2] % 256) as u8
            } else {
                (units[j / 2] / 256) as u8
            },
    )
}

/// The 16-bit little-endian units of `data`; a trailing odd byte is
/// ignored.
pub open spec fn le_units(data: Seq<u8>) -> Seq<u16> {
    Seq::new(data.len() / 2, |i: int| (data[2 * i] + 256 * data[2 * i + 1]) as u16)
}

/// The units before the first zero unit (all of them if there is none).
pub open spec fn until_nul(units: Seq<u16>) -> Seq<u16>
    decreases units.len(),
{
    if units.len() == 0 || units[0] == 0 {
        Seq::empty()
    } else {
        seq![units[0]] + until_nul(units.drop_first())
    }
}

pub proof fn lemma_le_units_of_bytes(units: Seq<u16>)
    ensures
        le_units(units_le_bytes(units)) == units,
{
    let b = units_le_bytes(units);
    assert forall|i: int| 0 <= i < units.len() implies #[trigger] le_units(b)[i] == units[i] by {
        assert((2 * i) % 2 == 0 && (2 * i) / 2 == i) by (nonlinear_arith);
        assert((2 * i + 1) % 2 == 1 && (2 * i + 1) / 2 == i) by (nonlinear_arith);
        assert(b[2 * i] == (units[i] % 256) as u8);
        assert(b[2 * i + 1] == (units[i] / 256) as u8);
    }
    assert(le_units(b) =~= units);
}

pub proof fn lemma_until_nul_terminated(units: Seq<u16>)
    requires
        !units.contains(0u16),
    ensures
        until_nul(units.push(0u16)) == units,
    decreases units.len(),
{
    if units.len() == 0 {
        assert(units.push(0u16)[0] == 0u16);
        assert(units =~= Seq::<u16>::empty());
    } else {
        let rest = units.drop_first();
        assert(!rest.contains(0u16)) by {
            if rest.contains(0u16) {
                let i = choose|i: int| 0 <= i < rest.len() && rest[i] == 0u16;
                assert(units[i + 1] == 0u16);
            }
        }
        assert(units[0] != 0u16) by {
            if units[0] == 0u16 {
                assert(units.contains(0u16));
            }
        }
        lemma_until_nul_terminated(rest);
        assert(units.push(0u16).drop_first() =~= rest.push(0u16));
        assert(seq![units[0]] + rest =~= units);
    }
}

/// Encodes text as `CF_UNICODETEXT`: UTF-16LE with a terminating NUL unit.
pub fn encode_clipboard_text(text: &str) -> (data: Vec<u8>)
    ensures
        data@ == units_le_bytes(utf16_encode(text@).push(0u16)),
{
    let mut units = encode_utf16(text);
    units.push(0);
    let mut data: Vec<u8> = Vec::new();
    for i in 0..units.len()
        invariant
            data@ == units_le_bytes(units@.take(i as int)),
    {
        let u = units[i];
        data.push((u % 256) as u8);
        data.push((u / 256) as u8);
        proof {
            let t = units@.take(i + 1);
            assert forall|j: int| 0 <= j < 2 * (i + 1) implies #[trigger] data@[j]
                == units_le_bytes(t)[j] by {
                if j < 2 * i {
                    assert(units@.take(i as int)[j / 2] == t[j / 2]) by {
                        assert(j / 2 < i) by (nonlinear_arith)
                            requires
                                0 <= j < 2 * i,
                        ;
                    }
                } else if j == 2 * i {
                    assert(j % 2 == 0 && j / 2 == i) by (nonlinear_arith)
                        requires
                            j == 2 * i,
                    ;
                } else {
                    assert(j % 2 == 1 && j / 2 == i) by (nonlinear_arith)
                        requires
                            j == 2 * i + 1,
                    ;
                }
            }
            assert(data@ =~= units_le_bytes(t));
        }
    }
    assert(units@.take(units@.len() as int) == units@);
    data
}

/// The 16-bit little-endian units of `data` before the first zero unit.
fn units_until_nul(data: &[u8]) -> (units: Vec<u16>)
    ensures
        units@ == until_nul(le_units(data@)),
{
    let len = data.len();
    let n = len / 2;
    let mut units: Vec<u16> = Vec::new();
    let mut i: usize = 0;
    let ghost all = le_units(data@);
    assert(all.subrange(0, n as int) =~= all);
    while i < n
        invariant_except_break
            n == all.len(),
            n == data@.len() / 2,
            len == data@.len(),
            all == le_units(data@),
            i <= n,
            until_nul(all) == units@ + until_nul(all.subrange(i as int, n as int)),
        ensures
            until_nul(all) == units@,
        decreases n - i,
    {
        assert(2 * i + 1 < len) by (nonlinear_arith)
            requires
                i < n,
                n == len / 2,
        ;
        let unit = (data[2 * i] as u16) + 256 * (data[2 * i + 1] as u16);
        assert(unit == all[i as int]);
        let ghost rest = all.subrange(i as int, n as int);
        assert(rest[0] == unit);
        if unit == 0 {
            break;
        }
        units.push(unit);
        i += 1;
        assert(rest.drop_first() =~= all.subrange(i as int, n as int));
        assert(units@ + until_nul(all.subrange(i as int, n as int)) =~= units@.drop_last() + (seq![unit] + until_nul(rest.drop_first())));
    }
    proof {
        if i == n {
            assert(all.subrange(n as int, n as int) =~= Seq::<u16>::empty());
            assert(units@ + Seq::<u16>::empty() =~= units@);
        }
    }
    units
}

/// Decodes `CF_UNICODETEXT`: UTF-16LE up to the first NUL unit. `None`
/// when that text holds an unpaired surrogate.
pub fn decode_clipboard_text(data: &[u8]) -> (text: Option<String>)
    ensures
        match text {
            Some(t) => utf16_decode(until_nul(le_units(data@))) == Some(t@),
            None => utf16_decode(until_nul(le_units(data@))) is None,
        },
{
    let units = units_until_nul(data);
    decode_utf16(units.as_slice())
}

/// Text without NUL characters survives a trip through the clipboard
/// encoding.
pub proof fn clipboard_text_roundtrip(text: Seq<char>)
    requires
        !text.contains('\0'),
    ensures
        utf16_decode(until_nul(le_units(units_le_bytes(utf16_encode(text).push(0u16)))))
            == Some(text),
{
    let e = utf16_encode(text);
    lemma_le_units_of_bytes(e.push(0u16));
    lemma_utf16_encode_nonzero(text);
    lemma_until_nul_terminated(e);
    lemma_utf16_roundtrip(text);
}


pub open spec fn is_path_separator(c: char) -> bool {
    c == '/' || c == '\\'
}

/// The number of characters after the last separator.
pub open spec fn trailing_segment_len(s: Seq<char>) -> nat
    decreases s.len(),
{
    if s.len() == 0 || is_path_separator(s.last()) {
        0
    } else {
        1 + trailing_segment_len(s.drop_last())
    }
}

/// The last component of a path whose separators are `/` and `\`: empty
/// components and `.` components are skipped (`Path::file_name` after `\`
/// is turned into `/`, except that `..` is returned here).
pub open spec fn last_component(s: Seq<char>) -> Option<Seq<char>>
    decreases s.len(),
{
    if s.len() == 0 {
        None
    } else {
        let t = trailing_segment_len(s);
        proof {
            lemma_trailing_segment_len_le(s);
        }
        if t == 0 {
            last_component(s.drop_last())
        } else {
            let seg = s.subrange(s.len() - t, s.len() as int);
            if seg == seq!['.'] {
                proof {
                    lemma_trailing_segment_len_le(s);
                }
                last_component(s.subrange(0, s.len() - t))
            } else {
                Some(seg)
            }
        }
    }
}

/// The name a remote file is stored under locally: the last component of
/// the remote path; `None` when there is none or it is `..`.
pub open spec fn sanitized_name(name: Seq<char>) -> Option<Seq<char>> {
    match last_component(name) {
        Some(seg) => if seg == seq!['.', '.'] {
            None
        } else {
            Some(seg)
        },
        None => None,
    }
}

pub proof fn lemma_trailing_segment_len_le(s: Seq<char>)
    ensures
        trailing_segment_len(s) <= s.len(),
    decreases s.len(),
{
    if s.len() > 0 && !is_path_separator(s.last()) {
        lemma_trailing_segment_len_le(s.drop_last());
    }
}

proof fn lemma_trailing_segment(s: Seq<char>, start: int, end: int)
    requires
        0 <= start <= end <= s.len(),
        forall|k: int| start <= k < end ==> !is_path_separator(#[trigger] s[k]),
        start == 0 || is_path_separator(s[start - 1]),
    ensures
        trailing_segment_len(s.take(end)) == end - start,
    decreases end - start,
{
    if end == start {
        if end > 0 {
            assert(s.take(end).last() == s[start - 1]);
        }
    } else {
        assert(s.take(end).drop_last() =~= s.take(end - 1));
        lemma_trailing_segment(s, start, end - 1);
    }
}

/// The file name a remote clipboard path is stored under locally: the last
/// path component, where both `/` and `\` separate components. `None` when
/// there is no such component or it is `..`, so that a remote name can
/// never point outside the download directory.
pub fn sanitize_remote_file_name(name: &str) -> (r: Option<String>)
    ensures
        match r {
            Some(n) => sanitized_name(name@) == Some(n@),
            None => sanitized_name(name@) is None,
        },
{
    let chars = chars_of(name);
    let mut end = chars.len();
    assert(chars@.take(end as int) =~= chars@);
    loop
        invariant
            chars@ == name@,
            end <= chars@.len(),
            last_component(chars@) == last_component(chars@.take(end as int)),
        decreases end,
    {
        let ghost s = chars@.take(end as int);
        if end == 0 {
            return None;
        }
        if chars[end - 1] == '/' || chars[end - 1] == '\\' {
            assert(s.drop_last() =~= chars@.take(end - 1));
            end -= 1;
            continue;
        }
        let mut start = end - 1;
        while start > 0 && !(chars[start - 1] == '/' || chars[start - 1] == '\\')
            invariant
                start < end <= chars@.len(),
                forall|k: int| start <= k < end ==> !is_path_separator(#[trigger] chars@[k]),
            decreases start,
        {
            start -= 1;
        }
        proof {
            lemma_trailing_segment(chars@, start as int, end as int);
            assert(s.subrange(s.len() - (end - start), s.len() as int) =~= chars@.subrange(
                start as int,
                end as int,
            ));
        }
        let len = end - start;
        if len == 1 && chars[start] == '.' {
            assert(chars@.subrange(start as int, end as int) =~= seq!['.']);
            assert(s.subrange(0, s.len() - 1) =~= chars@.take(start as int));
            end = start;
            continue;
        }
        assert(chars@.subrange(start as int, end as int) != seq!['.']) by {
            if len == 1 {
                assert(chars@.subrange(start as int, end as int)[0] == chars@[start as int]);
            } else {
                assert(chars@.subrange(start as int, end as int).len() != 1);
            }
        }
        if len == 2 && chars[start] == '.' && chars[start + 1] == '.' {
            assert(chars@.subrange(start as int, end as int) =~= seq!['.', '.']);
            return None;
        }
        assert(chars@.subrange(start as int, end as int) != seq!['.', '.']) by {
            if len == 2 {
                assert(chars@.subrange(start as int, end as int)[0] == chars@[start as int]);
                assert(chars@.subrange(start as int, end as int)[1] == chars@[start + 1]);
            } else {
                assert(chars@.subrange(start as int, end as int).len() != 2);
            }
        }
        let segment = string_from_chars(&chars.as_slice()[start..end]);
        return Some(segment);
    }
}


/// Size of one `FILEDESCRIPTORW`.
pub const FILEDESCRIPTORW_SIZE: usize = 592;

/// The little-endian bytes of a 32-bit value.
pub open spec fn u32_le(v: u32) -> Seq<u8> {
    seq![(v % 256) as u8, ((v / 256) % 256) as u8, ((v / 65536) % 256) as u8, (v / 16777216) as u8]
}

/// The 32-bit little-endian value at `i`.
pub open spec fn u32_at(data: Seq<u8>, i: int) -> u32 {
    (data[i] + 256 * data[i + 1] + 65536 * data[i + 2] + 16777216 * data[i + 3]) as u32
}

pub open spec fn zeros(n: nat) -> Seq<u8> {
    Seq::new(n, |i: int| 0u8)
}

/// The units of a file name that fit a descriptor: at most 259, leaving room
/// for the terminating NUL.
pub open spec fn descriptor_name_units(name: Seq<char>) -> Seq<u16> {
    let e = utf16_encode(name);
    if e.len() <= 259 {
        e
    } else {
        e.take(259)
    }
}

/// `FD_UNICODE | FD_ATTRIBUTES | FD_FILESIZE`.
pub open spec fn descriptor_flags() -> u32 {
    0x8000_0044
}

/// `FILE_ATTRIBUTE_DIRECTORY` or `FILE_ATTRIBUTE_NORMAL`.
pub open spec fn descriptor_attributes(is_directory: bool) -> u32 {
    if is_directory {
        0x10
    } else {
        0x80
    }
}

/// One `FILEDESCRIPTORW`: flags, attributes, the size as two 32-bit halves
/// (high first), and the NUL-padded UTF-16LE name; everything else zero.
pub open spec fn file_descriptor(name: Seq<char>, size: u64, is_directory: bool) -> Seq<u8> {
    let units = descriptor_name_units(name);
    u32_le(descriptor_flags()) + zeros(32) + u32_le(descriptor_attributes(is_directory)) + zeros(24)
        + u32_le((size / 0x1_0000_0000) as u32) + u32_le((size % 0x1_0000_0000) as u32)
        + units_le_bytes(units) + zeros((520 - 2 * units.len()) as nat)
}

pub open spec fn file_descriptors(files: Seq<LocalClipboardFile>) -> Seq<u8>
    decreases files.len(),
{
    if files.len() == 0 {
        Seq::empty()
    } else {
        file_descriptors(files.drop_last()) + file_descriptor(
            files.last().name@,
            files.last().size,
            files.last().is_directory,
        )
    }
}

/// A `FILEGROUPDESCRIPTORW`: the count, then one descriptor per file.
pub open spec fn file_group_descriptor(files: Seq<LocalClipboardFile>) -> Seq<u8> {
    u32_le(files.len() as u32) + file_descriptors(files)
}

fn push_u32_le(data: &mut Vec<u8>, v: u32)
    ensures
        final(data)@ == old(data)@ + u32_le(v),
{
    data.push((v % 256) as u8);
    data.push(((v / 256) % 256) as u8);
    data.push(((v / 65536) % 256) as u8);
    data.push((v / 16777216) as u8);
    assert(final(data)@ =~= old(data)@ + u32_le(v));
}

fn push_zeros(data: &mut Vec<u8>, n: usize)
    ensures
        final(data)@ == old(data)@ + zeros(n as nat),
{
    let ghost start = data@;
    for i in 0..n
        invariant
            data@ == start + zeros(i as nat),
    {
        data.push(0);
        assert(zeros((i + 1) as nat) =~= zeros(i as nat).push(0u8));
        assert(data@ =~= start + zeros((i + 1) as nat));
    }
}

fn push_units_le(data: &mut Vec<u8>, units: &[u16], count: usize)
    requires
        count <= units@.len(),
    ensures
        final(data)@ == old(data)@ + units_le_bytes(units@.take(count as int)),
{
    let ghost start = data@;
    for i in 0..count
        invariant
            count <= units@.len(),
            data@ == start + units_le_bytes(units@.take(i as int)),
    {
        let u = units[i];
        data.push((u % 256) as u8);
        data.push((u / 256) as u8);
        proof {
            let t = units@.take(i + 1);
            let p = units@.take(i as int);
            assert forall|j: int| 0 <= j < 2 * (i + 1) implies #[trigger] units_le_bytes(t)[j]
                == (units_le_bytes(p) + seq![(u % 256) as u8, (u / 256) as u8])[j] by {
                if j < 2 * i {
                    assert(j / 2 < i) by (nonlinear_arith)
                        requires
                            0 <= j < 2 * i,
                    ;
                } else if j == 2 * i {
                    assert(j % 2 == 0 && j / 2 == i) by (nonlinear_arith)
                        requires
                            j == 2 * i,
                    ;
                } else {
                    assert(j % 2 == 1 && j / 2 == i) by (nonlinear_arith)
                        requires
                            j == 2 * i + 1,
                    ;
                }
            }
            assert(units_le_bytes(t) =~= units_le_bytes(p) + seq![(u % 256) as u8, (u / 256) as u8]);
            assert(data@ =~= start + units_le_bytes(t));
        }
    }
}

fn push_file_descriptor(data: &mut Vec<u8>, file: &LocalClipboardFile)
    ensures
        final(data)@ == old(data)@ + file_descriptor(file.name@, file.size, file.is_directory),
{
    let units = encode_utf16(file.name.as_str());
    let count: usize = if units.len() <= 259 { units.len() } else { 259 };
    let ghost s0 = data@;
    push_u32_le(data, 0x8000_0044);
    let ghost s1 = data@;
    push_zeros(data, 32);
    let ghost s2 = data@;
    push_u32_le(data, if file.is_directory { 0x10 } else { 0x80 });
    let ghost s3 = data@;
    push_zeros(data, 24);
    let ghost s4 = data@;
    push_u32_le(data, (file.size / 0x1_0000_0000) as u32);
    let ghost s5 = data@;
    push_u32_le(data, (file.size % 0x1_0000_0000) as u32);
    let ghost s6 = data@;
    push_units_le(data, units.as_slice(), count);
    let ghost s7 = data@;
    push_zeros(data, 520 - 2 * count);
    proof {
        let name_units = descriptor_name_units(file.name@);
        assert(units@.take(count as int) =~= name_units);
        let a = u32_le(descriptor_flags());
        let b = zeros(32);
        let c = u32_le(descriptor_attributes(file.is_directory));
        let d = zeros(24);
        let e = u32_le((file.size / 0x1_0000_0000) as u32);
        let f = u32_le((file.size % 0x1_0000_0000) as u32);
        let g = units_le_bytes(name_units);
        let h = zeros((520 - 2 * name_units.len()) as nat);
        assert(data@ == s0 + a + b + c + d + e + f + g + h);
        assert(s0 + a + b + c + d + e + f + g + h =~= s0 + (a + b + c + d + e + f + g + h));
    }
}

/// Encodes local files as a `FILEGROUPDESCRIPTORW`. Names are cut after
/// 259 UTF-16 units.
pub fn encode_file_group_descriptor(files: &[LocalClipboardFile]) -> (data: Vec<u8>)
    ensures
        data@ == file_group_descriptor(files@),
{
    let mut data: Vec<u8> = Vec::new();
    push_u32_le(&mut data, files.len() as u32);
    for i in 0..files.len()
        invariant
            data@ == u32_le(files@.len() as u32) + file_descriptors(files@.take(i as int)),
    {
        push_file_descriptor(&mut data, &files[i]);
        proof {
            let t = files@.take(i + 1);
            assert(t.drop_last() =~= files@.take(i as int));
            assert(t.last() == files@[i as int]);
            assert(data@ =~= u32_le(files@.len() as u32) + file_descriptors(t));
        }
    }
    assert(files@.take(files@.len() as int) =~= files@);
    data
}


fn read_u32_le(data: &[u8], i: usize) -> (v: u32)
    requires
        i + 4 <= data@.len(),
    ensures
        v == u32_at(data@, i as int),
{
    (data[i] as u32) + 256 * (data[i + 1] as u32) + 65536 * (data[i + 2] as u32) + 16777216 * (
    data[i + 3] as u32)
}

/// The file described by the descriptor at `start`: `None` when its name
/// is not valid UTF-16 or has no usable last component.
pub open spec fn decode_descriptor(data: Seq<u8>, start: int) -> Option<RemoteFileModel> {
    let attributes = u32_at(data, start + 36);
    let size_high = u32_at(data, start + 64);
    let size_low = u32_at(data, start + 68);
    match utf16_decode(until_nul(le_units(data.subrange(start + 72, start + 592)))) {
        Some(name) => match sanitized_name(name) {
            Some(n) => Some(
                RemoteFileModel {
                    name: n,
                    size: (size_high * 0x1_0000_0000 + size_low) as u64,
                    is_directory: (attributes / 16) % 2 == 1,
                },
            ),
            None => None,
        },
        None => None,
    }
}

/// The first `count` descriptors after the count field, `None` if any of
/// them is unusable.
pub open spec fn decode_descriptors(data: Seq<u8>, count: nat) -> Option<Seq<RemoteFileModel>>
    decreases count,
{
    if count == 0 {
        Some(Seq::empty())
    } else {
        match (
            decode_descriptors(data, (count - 1) as nat),
            decode_descriptor(data, 4 + (count - 1) * 592),
        ) {
            (Some(files), Some(file)) => Some(files.push(file)),
            _ => None,
        }
    }
}

/// A `FILEGROUPDESCRIPTORW` read back: `None` when it is shorter than its
/// count field announces or any descriptor is unusable.
pub open spec fn decode_file_group(data: Seq<u8>) -> Option<Seq<RemoteFileModel>> {
    if data.len() < 4 {
        None
    } else {
        let count = u32_at(data, 0);
        if data.len() < 4 + count * 592 {
            None
        } else {
            decode_descriptors(data, count as nat)
        }
    }
}

proof fn lemma_directory_bit_in_low_byte(b0: u8, b1: u8, b2: u8, b3: u8)
    ensures
        (((b0 + 256 * b1 + 65536 * b2 + 16777216 * b3) as u32) / 16) % 2 == (b0 / 16) % 2,
{
    let v: int = b0 + 256 * b1 + 65536 * b2 + 16777216 * b3;
    assert(0 <= v < 0x1_0000_0000);
    let k: int = b1 + 256 * b2 + 65536 * b3;
    assert(v == b0 + 256 * k);
    assert((b0 + 256 * k) / 16 == b0 / 16 + 16 * k) by (nonlinear_arith)
        requires
            0 <= b0 < 256,
            0 <= k,
    ;
    assert((b0 / 16 + 16 * k) % 2 == (b0 / 16) % 2) by (nonlinear_arith)
        requires
            0 <= k,
            0 <= b0 / 16,
    ;
}

proof fn lemma_decode_descriptors_each(data: Seq<u8>, count: nat)
    requires
        decode_descriptors(data, count) is Some,
    ensures
        decode_descriptors(data, count)->0.len() == count,
        forall|i: int| 0 <= i < count ==> decode_descriptor(data, 4 + i * 592) == Some(
            #[trigger] decode_descriptors(data, count)->0[i],
        ),
    decreases count,
{
    if count > 0 {
        lemma_decode_descriptors_each(data, (count - 1) as nat);
    }
}

/// Only bit 0x10 (`FILE_ATTRIBUTE_DIRECTORY`) of a descriptor's attributes
/// (the little-endian field at offset 36) makes it a directory, whatever the
/// other bits: a file marked archive (0x20) is a file, 0x11 a directory.
pub proof fn only_the_directory_bit_makes_a_directory(data: Seq<u8>)
    requires
        decode_file_group(data) is Some,
    ensures
        forall|i: int| #![trigger decode_file_group(data)->0[i]]
            0 <= i < decode_file_group(data)->0.len() ==> (decode_file_group(data)->0[i].is_directory
                <==> (data[4 + 592 * i + 36] / 16) % 2 == 1),
{
    let count = u32_at(data, 0);
    lemma_decode_descriptors_each(data, count as nat);
    assert forall|i: int| #![trigger decode_file_group(data)->0[i]]
        0 <= i < decode_file_group(data)->0.len() implies (decode_file_group(data)->0[i].is_directory
            <==> (data[4 + 592 * i + 36] / 16) % 2 == 1) by {
        let start = 4 + i * 592;
        assert(decode_descriptor(data, start) == Some(decode_descriptors(data, count as nat)->0[i]));
        assert(start + 592 <= data.len()) by (nonlinear_arith)
            requires
                0 <= i < count,
                data.len() >= 4 + count * 592,
                start == 4 + i * 592,
        ;
        assert(4 + 592 * i == start);
        lemma_directory_bit_in_low_byte(data[start + 36], data[start + 37], data[start + 38], data[start + 39]);
    }
}


fn decode_descriptor_at(data: &[u8], start: usize) -> (file: Option<RemoteClipboardFile>)
    requires
        start + 592 <= data@.len(),
    ensures
        match file {
            Some(f) => decode_descriptor(data@, start as int) == Some(f@),
            None => decode_descriptor(data@, start as int) is None,
        },
{
    let len = data.len();
    assert(start + 592 <= len);
    let attributes = read_u32_le(data, start + 36);
    let size_high = read_u32_le(data, start + 64);
    let size_low = read_u32_le(data, start + 68);
    let name_area = &data[start + 72..start + 592];
    assert(name_area@ =~= data@.subrange(start + 72, start + 592));
    let units = units_until_nul(name_area);
    let decoded = match decode_utf16(units.as_slice()) {
        Some(d) => d,
        None => {
            return None;
        },
    };
    let name = match sanitize_remote_file_name(decoded.as_str()) {
        Some(n) => n,
        None => {
            return None;
        },
    };
    let size: u64 = (size_high as u64) * 0x1_0000_0000 + (size_low as u64);
    Some(RemoteClipboardFile { name, size, is_directory: (attributes / 16) % 2 == 1 })
}

/// Decodes a `FILEGROUPDESCRIPTORW`. Each name is reduced to its last path
/// component; `None` when the data is shorter than its count announces or
/// any name is unusable.
pub fn decode_file_group_descriptor(data: &[u8]) -> (files: Option<Vec<RemoteClipboardFile>>)
    ensures
        match files {
            Some(v) => decode_file_group(data@) == Some(v@.map_values(|f: RemoteClipboardFile| f@)),
            None => decode_file_group(data@) is None,
        },
{
    let len = data.len();
    if len < 4 {
        return None;
    }
    let count = read_u32_le(data, 0) as usize;
    let total = match count.checked_mul(FILEDESCRIPTORW_SIZE) {
        Some(t) => t,
        None => {
            return None;
        },
    };
    if data.len() - 4 < total {
        return None;
    }
    let mut files: Vec<RemoteClipboardFile> = Vec::new();
    for i in 0..count
        invariant
            count == u32_at(data@, 0),
            len == data@.len(),
            4 + count * 592 <= data@.len(),
            decode_descriptors(data@, i as nat) == Some(files@.map_values(|f: RemoteClipboardFile| f@)),
    {
        assert(4 + i * 592 + 592 <= len) by (nonlinear_arith)
            requires
                i < count,
                4 + count * 592 <= len,
        ;
        let start = 4 + i * FILEDESCRIPTORW_SIZE;
        match decode_descriptor_at(data, start) {
            Some(file) => {
                files.push(file);
                proof {
                    assert(files@.map_values(|f: RemoteClipboardFile| f@) =~= files@.drop_last().map_values(
                        |f: RemoteClipboardFile| f@,
                    ).push(files@.last()@));
                }
            },
            None => {
                proof {
                    lemma_decode_descriptors_none(data@, (i + 1) as nat, count as nat);
                }
                return None;
            },
        }
    }
    Some(files)
}

proof fn lemma_decode_descriptors_none(data: Seq<u8>, failed: nat, count: nat)
    requires
        failed <= count,
        decode_descriptors(data, failed) is None,
    ensures
        decode_descriptors(data, count) is None,
    decreases count - failed,
{
    if failed < count {
        lemma_decode_descriptors_none(data, failed, (count - 1) as nat);
    }
}


/// The model of the file that a descriptor written for a local file
/// describes.
pub open spec fn local_file_model(f: LocalClipboardFile) -> RemoteFileModel {
    RemoteFileModel { name: f.name@, size: f.size, is_directory: f.is_directory }
}

/// A name that survives the descriptor unchanged: a single usable path
/// component, without NUL, short enough not to be cut.
pub open spec fn is_portable_file_name(name: Seq<char>) -> bool {
    &&& sanitized_name(name) == Some(name)
    &&& !name.contains('\0')
    &&& utf16_encode(name).len() <= 259
}

proof fn lemma_until_nul_before_zero(units: Seq<u16>, tail: Seq<u16>)
    requires
        !units.contains(0u16),
        tail.len() > 0,
        tail[0] == 0u16,
    ensures
        until_nul(units + tail) == units,
    decreases units.len(),
{
    if units.len() == 0 {
        assert(units + tail =~= tail);
        assert(units =~= Seq::<u16>::empty());
    } else {
        let rest = units.drop_first();
        assert(!rest.contains(0u16)) by {
            if rest.contains(0u16) {
                let i = choose|i: int| 0 <= i < rest.len() && rest[i] == 0u16;
                assert(units[i + 1] == 0u16);
            }
        }
        assert(units[0] != 0u16) by {
            if units[0] == 0u16 {
                assert(units.contains(0u16));
            }
        }
        lemma_until_nul_before_zero(rest, tail);
        assert((units + tail).drop_first() =~= rest + tail);
        assert(seq![units[0]] + rest =~= units);
    }
}

proof fn lemma_u32_le_read(s: Seq<u8>, i: int, v: u32)
    requires
        0 <= i,
        i + 4 <= s.len(),
        s.subrange(i, i + 4) == u32_le(v),
    ensures
        u32_at(s, i) == v,
{
    assert(s[i] == s.subrange(i, i + 4)[0]);
    assert(s[i + 1] == s.subrange(i, i + 4)[1]);
    assert(s[i + 2] == s.subrange(i, i + 4)[2]);
    assert(s[i + 3] == s.subrange(i, i + 4)[3]);
    assert((v % 256) + 256 * ((v / 256) % 256) + 65536 * ((v / 65536) % 256) + 16777216 * (v
        / 16777216) == v) by (bit_vector);
    assert(v / 16777216 < 256) by (bit_vector);
}

proof fn lemma_le_units_padded(units: Seq<u16>, pad: nat)
    requires
        pad % 2 == 0,
    ensures
        le_units(units_le_bytes(units) + zeros(pad)) == units + Seq::new(pad / 2, |i: int| 0u16),
{
    let b = units_le_bytes(units) + zeros(pad);
    let target = units + Seq::new(pad / 2, |i: int| 0u16);
    assert(b.len() == 2 * units.len() + pad);
    assert(b.len() / 2 == units.len() + pad / 2) by (nonlinear_arith)
        requires
            b.len() == 2 * units.len() + pad,
            pad % 2 == 0,
    ;
    assert forall|i: int| 0 <= i < target.len() implies #[trigger] le_units(b)[i] == target[i] by {
        if i < units.len() {
            assert((2 * i) % 2 == 0 && (2 * i) / 2 == i) by (nonlinear_arith);
            assert((2 * i + 1) % 2 == 1 && (2 * i + 1) / 2 == i) by (nonlinear_arith);
            assert(2 * i + 1 < 2 * units.len()) by (nonlinear_arith)
                requires
                    i < units.len(),
            ;
        } else {
            assert(2 * i >= 2 * units.len()) by (nonlinear_arith)
                requires
                    i >= units.len(),
            ;
        }
    }
    assert(le_units(b) =~= target);
}

proof fn lemma_descriptor_len(name: Seq<char>, size: u64, is_directory: bool)
    ensures
        file_descriptor(name, size, is_directory).len() == 592,
{
}

proof fn lemma_descriptors_len(files: Seq<LocalClipboardFile>)
    ensures
        file_descriptors(files).len() == 592 * files.len(),
    decreases files.len(),
{
    if files.len() > 0 {
        lemma_descriptors_len(files.drop_last());
        lemma_descriptor_len(files.last().name@, files.last().size, files.last().is_directory);
    }
}

proof fn lemma_descriptors_slice(files: Seq<LocalClipboardFile>, j: int)
    requires
        0 <= j < files.len(),
    ensures
        file_descriptors(files).subrange(592 * j, 592 * j + 592) == file_descriptor(
            files[j].name@,
            files[j].size,
            files[j].is_directory,
        ),
    decreases files.len(),
{
    let init = files.drop_last();
    lemma_descriptors_len(init);
    let last = files.last();
    lemma_descriptor_len(last.name@, last.size, last.is_directory);
    let all = file_descriptors(files);
    let head = file_descriptors(init);
    let fd = file_descriptor(last.name@, last.size, last.is_directory);
    assert(all == head + fd);
    if j == files.len() - 1 {
        assert(all.subrange(592 * j, 592 * j + 592) =~= fd);
    } else {
        lemma_descriptors_slice(init, j);
        assert(592 * j + 592 <= 592 * init.len()) by (nonlinear_arith)
            requires
                j < init.len(),
        ;
        assert(all.subrange(592 * j, 592 * j + 592) =~= head.subrange(592 * j, 592 * j + 592));
        assert(init[j] == files[j]);
    }
}

proof fn lemma_decode_descriptor(data: Seq<u8>, start: int, f: LocalClipboardFile)
    requires
        0 <= start,
        start + 592 <= data.len(),
        data.subrange(start, start + 592) == file_descriptor(f.name@, f.size, f.is_directory),
        is_portable_file_name(f.name@),
    ensures
        decode_descriptor(data, start) == Some(local_file_model(f)),
{
    let units = descriptor_name_units(f.name@);
    let attrs = descriptor_attributes(f.is_directory);
    let high = (f.size / 0x1_0000_0000) as u32;
    let low = (f.size % 0x1_0000_0000) as u32;
    let fd = file_descriptor(f.name@, f.size, f.is_directory);
    let d = data.subrange(start, start + 592);
    assert(d.subrange(36, 40) =~= u32_le(attrs));
    assert(d.subrange(64, 68) =~= u32_le(high));
    assert(d.subrange(68, 72) =~= u32_le(low));
    assert(data.subrange(start + 36, start + 40) =~= d.subrange(36, 40));
    assert(data.subrange(start + 64, start + 68) =~= d.subrange(64, 68));
    assert(data.subrange(start + 68, start + 72) =~= d.subrange(68, 72));
    lemma_u32_le_read(data, start + 36, attrs);
    lemma_u32_le_read(data, start + 64, high);
    lemma_u32_le_read(data, start + 68, low);
    assert(high * 0x1_0000_0000 + low == f.size);
    let pad = (520 - 2 * units.len()) as nat;
    assert(fd.subrange(72, 592) =~= units_le_bytes(units) + zeros(pad));
    assert(data.subrange(start + 72, start + 592) =~= d.subrange(72, 592));
    lemma_le_units_padded(units, pad);
    let zs = Seq::new(pad / 2, |i: int| 0u16);
    lemma_utf16_encode_nonzero(f.name@);
    assert(units == utf16_encode(f.name@));
    lemma_until_nul_before_zero(units, zs);
    lemma_utf16_roundtrip(f.name@);
}

proof fn lemma_decode_descriptors(files: Seq<LocalClipboardFile>, k: nat)
    requires
        k <= files.len(),
        forall|i: int| 0 <= i < files.len() ==> is_portable_file_name(#[trigger] files[i].name@),
    ensures
        decode_descriptors(file_group_descriptor(files), k) == Some(
            files.take(k as int).map_values(|f: LocalClipboardFile| local_file_model(f)),
        ),
    decreases k,
{
    let data = file_group_descriptor(files);
    if k == 0 {
        assert(files.take(0).map_values(|f: LocalClipboardFile| local_file_model(f)) =~= Seq::<
            RemoteFileModel,
        >::empty());
    } else {
        lemma_decode_descriptors(files, (k - 1) as nat);
        let j = k - 1;
        lemma_descriptors_len(files);
        lemma_descriptors_slice(files, j);
        let descs = file_descriptors(files);
        assert(592 * j + 592 <= descs.len()) by (nonlinear_arith)
            requires
                j < files.len(),
                descs.len() == 592 * files.len(),
        ;
        assert(data.subrange(4 + j * 592, 4 + j * 592 + 592) =~= descs.subrange(592 * j, 592 * j + 592));
        lemma_decode_descriptor(data, 4 + j * 592, files[j]);
        assert(files.take(k as int).map_values(|f: LocalClipboardFile| local_file_model(f))
            =~= files.take(j).map_values(|f: LocalClipboardFile| local_file_model(f)).push(
            local_file_model(files[j])));
    }
}

/// Files whose names are plain, NUL-free and short enough come back from
/// their `FILEGROUPDESCRIPTORW` with the same names, sizes and kinds.
pub proof fn file_group_descriptor_roundtrip(files: Seq<LocalClipboardFile>)
    requires
        files.len() <= u32::MAX,
        forall|i: int| 0 <= i < files.len() ==> is_portable_file_name(#[trigger] files[i].name@),
    ensures
        decode_file_group(file_group_descriptor(files)) == Some(
            files.map_values(|f: LocalClipboardFile| local_file_model(f)),
        ),
{
    let data = file_group_descriptor(files);
    lemma_descriptors_len(files);
    assert(data.subrange(0, 4) =~= u32_le(files.len() as u32));
    lemma_u32_le_read(data, 0, files.len() as u32);
    lemma_decode_descriptors(files, files.len());
    assert(files.take(files.len() as int) =~= files);
}

} // verus!
