//! Rules for downloading remote clipboard files before they are handed to
//! the desktop portal: local file names that do not clash, and the size of
//! each content request.

use vstd::prelude::*;

use crate::destinations::push_str;
use crate::text::{chars_of, decimal_string, push_decimal, str_equals, string_from_chars};

verus! {

/// Size of one file content request.
pub const REMOTE_FILE_CHUNK_SIZE: u32 = 32 * 1024;

/// The number of bytes to request next for a file of `file_size` bytes of
/// which `offset` have arrived: a chunk, or less at the end. The remainder
/// is taken modulo 2^32, as the 32-bit request field holds it.
pub fn next_chunk_size(file_size: u64, offset: u64) -> (size: u32)
    requires
        offset < file_size,
    ensures
        size == (if ((file_size - offset) % 0x1_0000_0000) < REMOTE_FILE_CHUNK_SIZE {
            ((file_size - offset) % 0x1_0000_0000) as u32
        } else {
            REMOTE_FILE_CHUNK_SIZE
        }),
{
    let remaining = ((file_size - offset) % 0x1_0000_0000) as u32;
    if remaining < REMOTE_FILE_CHUNK_SIZE {
        remaining
    } else {
        REMOTE_FILE_CHUNK_SIZE
    }
}

/// Progress of downloading one remote file in chunks: its announced size,
/// the bytes received so far, and whether the transfer stopped early.
#[derive(Debug, Clone, Copy, PartialEq, Eq, Structural)]
pub struct FileDownload {
    pub size: u64,
    pub offset: u64,
    pub stopped: bool,
}

/// The length asked for next: a chunk, or the rest of the file when less
/// remains. The rest is taken modulo 2^32, as the 32-bit request field
/// holds it.
pub open spec fn chunk_len(size: u64, offset: u64) -> u32 {
    if ((size - offset) % 0x1_0000_0000) < REMOTE_FILE_CHUNK_SIZE {
        ((size - offset) % 0x1_0000_0000) as u32
    } else {
        REMOTE_FILE_CHUNK_SIZE
    }
}

/// The next content request, as offset and length: none once the whole
/// announced size arrived or the transfer stopped.
pub open spec fn request_spec(d: FileDownload) -> Option<(u64, u32)> {
    if d.stopped || d.offset >= d.size {
        None
    } else {
        Some((d.offset, chunk_len(d.size, d.offset)))
    }
}

/// The progress after a response of `len` bytes (`None`: no response).
pub open spec fn arrived_spec(d: FileDownload, len: Option<usize>) -> FileDownload {
    match len {
        Some(n) => if n == 0 {
            FileDownload { stopped: true, ..d }
        } else {
            FileDownload { offset: (d.offset + n) as u64, ..d }
        },
        None => FileDownload { stopped: true, ..d },
    }
}

impl FileDownload {
    /// A download of `size` bytes that has not started.
    pub fn new(size: u64) -> (d: FileDownload)
        ensures
            d == (FileDownload { size, offset: 0, stopped: false }),
    {
        FileDownload { size, offset: 0, stopped: false }
    }

    /// The next content request.
    pub fn next_request(&self) -> (r: Option<(u64, u32)>)
        ensures
            r == request_spec(*self),
    {
        if self.stopped || self.offset >= self.size {
            None
        } else {
            Some((self.offset, next_chunk_size(self.size, self.offset)))
        }
    }

    /// Records a response of `len` bytes: an empty response, or none at all,
    /// stops the transfer; otherwise the offset moves past the data.
    pub fn chunk_arrived(&mut self, len: Option<usize>)
        requires
            len matches Some(n) ==> old(self).offset + n <= u64::MAX,
        ensures
            *final(self) == arrived_spec(*old(self), len),
    {
        match len {
            Some(n) => {
                if n == 0 {
                    self.stopped = true;
                } else {
                    self.offset = self.offset + (n as u64);
                }
            },
            None => {
                self.stopped = true;
            },
        }
    }

    /// The file is kept only when exactly its announced size arrived.
    pub fn is_complete(&self) -> (c: bool)
        ensures
            c == (self.offset == self.size),
    {
        self.offset == self.size
    }
}

/// The download when every request is answered with exactly the bytes
/// asked for.
pub open spec fn serve_full_chunks(d: FileDownload) -> FileDownload
    decreases d.size - d.offset,
{
    match request_spec(d) {
        Some((o, n)) => if n > 0 && o + n <= d.size {
            serve_full_chunks(arrived_spec(d, Some(n as usize)))
        } else {
            arrived_spec(d, Some(0))
        },
        None => d,
    }
}

/// A download of a file under 4 GiB whose every request is answered with
/// exactly the bytes asked for ends complete and is kept.
pub proof fn full_chunks_complete_the_download(d: FileDownload)
    requires
        !d.stopped,
        d.offset <= d.size,
        d.size - d.offset < 0x1_0000_0000,
    ensures
        serve_full_chunks(d).offset == serve_full_chunks(d).size,
        !serve_full_chunks(d).stopped,
    decreases d.size - d.offset,
{
    if d.offset < d.size {
        let n = chunk_len(d.size, d.offset);
        assert((d.size - d.offset) % 0x1_0000_0000 == d.size - d.offset);
        assert(n > 0 && d.offset + n <= d.size);
        full_chunks_complete_the_download(arrived_spec(d, Some(n as usize)));
    }
}

/// The 64-bit little-endian value of an 8-byte file size response.
pub open spec fn u64_le_value(b: Seq<u8>) -> int {
    b[0] + 256 * (b[1] + 256 * (b[2] + 256 * (b[3] + 256 * (b[4] + 256 * (b[5] + 256 * (b[6]
        + 256 * b[7]))))))
}

/// Reads a file size response: exactly eight little-endian bytes.
pub fn decode_file_size(data: &[u8]) -> (size: Option<u64>)
    ensures
        data@.len() == 8 ==> size == Some(u64_le_value(data@) as u64),
        data@.len() != 8 ==> size is None,
{
    if data.len() != 8 {
        return None;
    }
    let mut value: u64 = data[7] as u64;
    let mut i: usize = 7;
    proof {
        reveal_with_fuel(u64_le_bound, 2);
        reveal_with_fuel(u64_le_suffix, 2);
    }
    while i > 0
        invariant
            data@.len() == 8,
            1 <= i + 1 <= 8,
            value as int == u64_le_suffix(data@, i as int),
            u64_le_suffix(data@, i as int) < u64_le_bound(i as int),
        decreases i,
    {
        let b = data[i - 1] as u64;
        proof {
            assert(u64_le_bound(i - 1) == 256 * u64_le_bound(i as int));
            assert(u64_le_suffix(data@, i - 1) == b + 256 * u64_le_suffix(data@, i as int));
            assert(b + 256 * value < u64_le_bound(i - 1)) by (nonlinear_arith)
                requires
                    value < u64_le_bound(i as int),
                    u64_le_bound(i - 1) == 256 * u64_le_bound(i as int),
                    b < 256,
            ;
            assert(u64_le_bound(i - 1) <= 0x1_0000_0000_0000_0000) by {
                reveal_with_fuel(u64_le_bound, 9);
            }
        }
        value = b + 256 * value;
        i -= 1;
    }
    proof {
        reveal_with_fuel(u64_le_suffix, 8);
    }
    assert(u64_le_suffix(data@, 0) == u64_le_value(data@));
    Some(value)
}

/// 256 to the power of the number of bytes from `i` to the end.
pub open spec fn u64_le_bound(i: int) -> int
    decreases 8 - i,
{
    if i >= 8 || i < 0 {
        1
    } else {
        256 * u64_le_bound(i + 1)
    }
}

/// The value of the bytes from `i` on, little-endian.
pub open spec fn u64_le_suffix(b: Seq<u8>, i: int) -> int
    decreases 8 - i,
{
    if i >= 8 || i < 0 {
        0
    } else if i == 7 {
        b[7] as int
    } else {
        b[i] + 256 * u64_le_suffix(b, i + 1)
    }
}

/// The position of the last `c` in `s`, if any.
pub open spec fn last_index_of(s: Seq<char>, c: char) -> Option<int>
    decreases s.len(),
{
    if s.len() == 0 {
        None
    } else if s.last() == c {
        Some(s.len() - 1)
    } else {
        last_index_of(s.drop_last(), c)
    }
}

pub proof fn lemma_last_index_of(s: Seq<char>, c: char)
    ensures
        match last_index_of(s, c) {
            Some(i) => 0 <= i < s.len() && s[i] == c && forall|j: int| i < j < s.len() ==> s[j] != c,
            None => forall|j: int| 0 <= j < s.len() ==> s[j] != c,
        },
    decreases s.len(),
{
    if s.len() > 0 && s.last() != c {
        lemma_last_index_of(s.drop_last(), c);
        assert forall|j: int| 0 <= j < s.len() - 1 implies s.drop_last()[j] == s[j] by {}
    }
}

/// `name (number).ext`, the number going before the last extension; a name
/// without an extension, or one starting with its only dot, gets
/// `name (number)`.
pub open spec fn numbered_name_spec(name: Seq<char>, number: u32) -> Seq<char> {
    match last_index_of(name, '.') {
        Some(i) => if i > 0 {
            name.take(i) + " ("@ + decimal_string(number as nat) + ")."@ + name.skip(i + 1)
        } else {
            name + " ("@ + decimal_string(number as nat) + ")"@
        },
        None => name + " ("@ + decimal_string(number as nat) + ")"@,
    }
}

/// Numbers a file name to tell it apart from an earlier file of the same
/// name.
pub fn numbered_file_name(name: &str, number: u32) -> (numbered: String)
    ensures
        numbered@ == numbered_name_spec(name@, number),
{
    let chars = chars_of(name);
    let mut i = chars.len();
    assert(name@.take(i as int) =~= name@);
    while i > 0 && chars[i - 1] != '.'
        invariant
            chars@ == name@,
            i <= chars@.len(),
            last_index_of(name@, '.') == last_index_of(name@.take(i as int), '.'),
        decreases i,
    {
        assert(name@.take(i as int).drop_last() =~= name@.take(i - 1));
        i -= 1;
    }
    let mut out = String::new();
    if i > 1 {
        let dot = i - 1;
        assert(name@.take(i as int).last() == '.');
        let stem = string_from_chars(&chars.as_slice()[0..dot]);
        let extension = string_from_chars(&chars.as_slice()[dot + 1..chars.len()]);
        push_str(&mut out, stem.as_str());
        push_str(&mut out, " (");
        push_decimal(&mut out, number as u64);
        push_str(&mut out, ").");
        push_str(&mut out, extension.as_str());
        assert(chars@.subrange(0, dot as int) =~= name@.take(dot as int));
        assert(chars@.subrange(dot + 1, chars@.len() as int) =~= name@.skip(dot + 1));
    } else {
        proof {
            if i == 1 {
                assert(name@.take(1).last() == '.');
            } else {
                assert(name@.take(0) =~= Seq::<char>::empty());
            }
        }
        push_str(&mut out, name);
        push_str(&mut out, " (");
        push_decimal(&mut out, number as u64);
        push_str(&mut out, ")");
    }
    out
}

/// File names handed out during one download, each with the last number
/// used for it (1 for a name used as is).
#[derive(Debug)]
pub struct UsedNames {
    entries: Vec<(String, u32)>,
}

impl View for UsedNames {
    type V = Map<Seq<char>, u32>;

    closed spec fn view(&self) -> Map<Seq<char>, u32> {
        Map::new(
            |k: Seq<char>| exists|i: int| 0 <= i < self.entries@.len() && self.entries@[i].0@ == k,
            |k: Seq<char>| self.entries@[choose|i: int| 0 <= i < self.entries@.len() && self.entries@[i].0@ == k].1,
        )
    }
}

impl UsedNames {
    /// No two entries share a name.
    pub closed spec fn wf(&self) -> bool {
        forall|i: int, j: int|
            0 <= i < self.entries@.len() && 0 <= j < self.entries@.len() && i != j
                ==> self.entries@[i].0@ != self.entries@[j].0@
    }

    pub fn new() -> (u: UsedNames)
        ensures
            u.wf(),
            u@ == Map::<Seq<char>, u32>::empty(),
    {
        let u = UsedNames { entries: Vec::new() };
        assert(u@ =~= Map::<Seq<char>, u32>::empty());
        u
    }

    fn position(&self, name: &str) -> (r: Option<usize>)
        requires
            self.wf(),
        ensures
            match r {
                Some(i) => i < self.entries@.len() && self.entries@[i as int].0@ == name@
                    && self@.contains_key(name@) && self@[name@] == self.entries@[i as int].1,
                None => !self@.contains_key(name@),
            },
    {
        for i in 0..self.entries.len()
            invariant
                self.wf(),
                forall|j: int| 0 <= j < i ==> self.entries@[j].0@ != name@,
        {
            if str_equals(self.entries[i].0.as_str(), name) {
                proof {
                    assert(self@.contains_key(name@));
                    let k = choose|k: int| 0 <= k < self.entries@.len() && self.entries@[k].0@ == name@;
                    if k != i {
                        assert(self.entries@[k].0@ != self.entries@[i as int].0@);
                    }
                }
                return Some(i);
            }
        }
        None
    }

    /// The number recorded for `name`.
    pub fn get(&self, name: &str) -> (r: Option<u32>)
        requires
            self.wf(),
        ensures
            r == (if self@.contains_key(name@) {
                Some(self@[name@])
            } else {
                None
            }),
    {
        match self.position(name) {
            Some(i) => Some(self.entries[i].1),
            None => None,
        }
    }

    pub fn contains(&self, name: &str) -> (r: bool)
        requires
            self.wf(),
        ensures
            r == self@.contains_key(name@),
    {
        self.position(name).is_some()
    }

    /// Records `number` for `name`.
    pub fn insert(&mut self, name: &str, number: u32)
        requires
            old(self).wf(),
        ensures
            final(self).wf(),
            final(self)@ == old(self)@.insert(name@, number),
    {
        match self.position(name) {
            Some(i) => {
                let key = self.entries[i].0.clone();
                self.entries.set(i, (key, number));
                proof {
                    assert forall|k: Seq<char>| #[trigger] self@.contains_key(k) == old(self)@.insert(name@, number).contains_key(k) by {
                        if old(self)@.contains_key(k) {
                            let j = choose|j: int| 0 <= j < old(self).entries@.len() && old(self).entries@[j].0@ == k;
                            assert(self.entries@[j].0@ == k);
                        }
                        if self@.contains_key(k) {
                            let j = choose|j: int| 0 <= j < self.entries@.len() && self.entries@[j].0@ == k;
                            assert(old(self).entries@[j].0@ == k);
                        }
                    }
                    assert forall|k: Seq<char>| self@.contains_key(k) implies #[trigger] self@[k] == old(self)@.insert(name@, number)[k] by {
                        let j = choose|j: int| 0 <= j < self.entries@.len() && self.entries@[j].0@ == k;
                        if k == name@ {
                            if j != i {
                                assert(self.entries@[j].0@ != self.entries@[i as int].0@);
                            }
                        } else {
                            let jo = choose|jo: int| 0 <= jo < old(self).entries@.len() && old(self).entries@[jo].0@ == k;
                            if jo != j {
                                assert(self.entries@[jo].0@ == k);
                            }
                        }
                    }
                    assert(self@ =~= old(self)@.insert(name@, number));
                }
            },
            None => {
                self.entries.push((name.to_owned(), number));
                proof {
                    let n = old(self).entries@.len() as int;
                    assert forall|k: Seq<char>| #[trigger] self@.contains_key(k) == old(self)@.insert(name@, number).contains_key(k) by {
                        if old(self)@.contains_key(k) {
                            let j = choose|j: int| 0 <= j < old(self).entries@.len() && old(self).entries@[j].0@ == k;
                            assert(self.entries@[j].0@ == k);
                        }
                        if k == name@ {
                            assert(self.entries@[n].0@ == k);
                        }
                    }
                    assert forall|k: Seq<char>| self@.contains_key(k) implies #[trigger] self@[k] == old(self)@.insert(name@, number)[k] by {
                        let j = choose|j: int| 0 <= j < self.entries@.len() && self.entries@[j].0@ == k;
                        if k == name@ {
                            if j != n {
                                assert(old(self).entries@[j].0@ == name@);
                                assert(old(self)@.contains_key(name@));
                            }
                        } else {
                            let jo = choose|jo: int| 0 <= jo < old(self).entries@.len() && old(self).entries@[jo].0@ == k;
                            if jo != j {
                                assert(self.entries@[jo].0@ == k);
                            }
                        }
                    }
                    assert(self@ =~= old(self)@.insert(name@, number));
                }
            },
        }
    }
}

/// The name a file is stored under so that no two files of one download
/// clash: a name seen for the first time is kept; otherwise it is numbered
/// with the first number after the last one used for it whose numbered form
/// is not taken either.
pub open spec fn unique_name_spec(used: Map<Seq<char>, u32>, name: Seq<char>, result: Seq<char>, after: Map<Seq<char>, u32>) -> bool {
    let next0 = if used.contains_key(name) { used[name] } else { 0 };
    if next0 == 0 {
        result == name && after == used.insert(name, 1)
    } else {
        exists|k: u32| #![trigger numbered_name_spec(name, k)] k > next0 && result == numbered_name_spec(name, k)
            && !used.contains_key(result)
            && (forall|m: u32| next0 < m < k ==> used.contains_key(#[trigger] numbered_name_spec(name, m)))
            && after == used.insert(name, k).insert(result, 1)
    }
}

/// Picks the local name for a downloaded remote file. The numbering must
/// not run out, i.e. some numbered form above the last one used for the
/// name is free.
pub fn unique_clipboard_file_name(name: &str, used: &mut UsedNames) -> (unique: String)
    requires
        old(used).wf(),
        old(used)@.contains_key(name@) && old(used)@[name@] != 0 ==> exists|k: u32| k > old(used)@[name@] && !old(used)@.contains_key(#[trigger] numbered_name_spec(name@, k)),
    ensures
        final(used).wf(),
        unique_name_spec(old(used)@, name@, unique@, final(used)@),
{
    let next0 = match used.get(name) {
        Some(n) => n,
        None => 0,
    };
    if next0 == 0 {
        used.insert(name, 1);
        return name.to_owned();
    }
    let mut next = next0;
    loop
        invariant
            used.wf(),
            used@ == old(used)@,
            old(used)@.contains_key(name@) && old(used)@[name@] == next0,
            next0 != 0,
            next0 <= next,
            forall|m: u32| next0 < m <= next ==> used@.contains_key(#[trigger] numbered_name_spec(name@, m)),
            exists|k: u32| k > next0 && !old(used)@.contains_key(#[trigger] numbered_name_spec(name@, k)),
        decreases u32::MAX - next,
    {
        if next == u32::MAX {
            proof {
                let k = choose|k: u32| k > next0 && !old(used)@.contains_key(#[trigger] numbered_name_spec(name@, k));
                assert(used@.contains_key(numbered_name_spec(name@, k)));
            }
        }
        next = next + 1;
        let candidate = numbered_file_name(name, next);
        if !used.contains(candidate.as_str()) {
            used.insert(name, next);
            used.insert(candidate.as_str(), 1);
            assert(numbered_name_spec(name@, next) == candidate@);
            return candidate;
        }
    }
}

/// Names handed out during one download never clash: as long as every
/// recorded number is at least 1 (as the picker records them), the name
/// picked was not in use before, and it and every earlier name stay
/// recorded afterwards.
pub proof fn unique_names_do_not_clash(used: Map<Seq<char>, u32>, name: Seq<char>, result: Seq<char>, after: Map<Seq<char>, u32>)
    requires
        forall|k: Seq<char>| #[trigger] used.contains_key(k) ==> used[k] >= 1,
        unique_name_spec(used, name, result, after),
    ensures
        !used.contains_key(result),
        after.contains_key(result),
        forall|k: Seq<char>| #[trigger] after.contains_key(k) ==> after[k] >= 1,
        forall|k: Seq<char>| used.contains_key(k) ==> #[trigger] after.contains_key(k),
{
    let next0 = if used.contains_key(name) { used[name] } else { 0 };
    if next0 != 0 {
        let k = choose|k: u32| #![trigger numbered_name_spec(name, k)] k > next0 && result == numbered_name_spec(name, k)
            && !used.contains_key(result)
            && (forall|m: u32| next0 < m < k ==> used.contains_key(#[trigger] numbered_name_spec(name, m)))
            && after == used.insert(name, k).insert(result, 1);
        assert(after == used.insert(name, k).insert(result, 1));
    }
}

} // verus!
