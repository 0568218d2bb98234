//! The saved destinations: their data, how they are shown, and the store
//! that adds, updates, removes, restores and searches them.
//!
//! Persisting the store is left to the caller, which writes the list to
//! disk after each successful change.

use vstd::prelude::*;

use crate::text::{
    chars_of, contains_seq, lowercase, push_char, str_contains, str_equals, to_lowercase,
};

verus! {

#[verifier::external_type_specification]
#[verifier::external_body]
pub struct ExIoError(std::io::Error);

#[verifier::external_type_specification]
#[verifier::external_body]
pub struct ExSerdeJsonError(serde_json::Error);

/// Per-destination connection options.
#[derive(Debug, Clone, Copy, PartialEq, Eq, Structural)]
pub struct ConnectionOptions {
    pub clipboard_enabled: bool,
    pub sound_enabled: bool,
    pub inhibit_system_shortcuts: bool,
}

/// A saved destination.
#[derive(Debug)]
pub struct DestinationData {
    pub uuid: String,
    pub name: String,
    pub hostname: String,
    pub username: String,
    pub clipboard_enabled: bool,
    pub sound_enabled: bool,
    pub inhibit_system_shortcuts: bool,
}

/// A destination as plain values.
#[verifier::ext_equal]
pub struct DestinationModel {
    pub uuid: Seq<char>,
    pub name: Seq<char>,
    pub hostname: Seq<char>,
    pub username: Seq<char>,
    pub clipboard_enabled: bool,
    pub sound_enabled: bool,
    pub inhibit_system_shortcuts: bool,
}

impl View for DestinationData {
    type V = DestinationModel;

    open spec fn view(&self) -> DestinationModel {
        DestinationModel {
            uuid: self.uuid@,
            name: self.name@,
            hostname: self.hostname@,
            username: self.username@,
            clipboard_enabled: self.clipboard_enabled,
            sound_enabled: self.sound_enabled,
            inhibit_system_shortcuts: self.inhibit_system_shortcuts,
        }
    }
}

impl Clone for DestinationData {
    fn clone(&self) -> (c: DestinationData)
        ensures
            c@ == self@,
    {
        DestinationData {
            uuid: self.uuid.clone(),
            name: self.name.clone(),
            hostname: self.hostname.clone(),
            username: self.username.clone(),
            clipboard_enabled: self.clipboard_enabled,
            sound_enabled: self.sound_enabled,
            inhibit_system_shortcuts: self.inhibit_system_shortcuts,
        }
    }
}

/// Whether `s` is a lowercase hyphenated UUID string, the form
/// `Uuid::to_string` produces.
pub open spec fn is_hyphenated_uuid(s: Seq<char>) -> bool {
    &&& s.len() == 36
    &&& forall|i: int|
        0 <= i < 36 ==> if i == 8 || i == 13 || i == 18 || i == 23 {
            #[trigger] s[i] == '-'
        } else {
            ('0' <= s[i] <= '9') || ('a' <= s[i] <= 'f')
        }
}

/// A fresh random identifier: `uuid::Uuid::new_v4().to_string()`. The value
/// is random; what every outcome shares is its hyphenated lowercase form.
#[verifier::external_body]
fn new_uuid() -> (id: String)
    ensures
        is_hyphenated_uuid(id@),
{
    uuid::Uuid::new_v4().to_string()
}

/// The title a destination is listed under: its name, or its hostname when
/// it has no name.
pub open spec fn display_title_spec(d: DestinationModel) -> Seq<char> {
    if d.name.len() == 0 {
        d.hostname
    } else {
        d.name
    }
}

/// The subtitle a destination is listed with.
pub open spec fn display_subtitle_spec(d: DestinationModel) -> Seq<char> {
    if d.name.len() == 0 {
        "User: "@ + d.username
    } else {
        "Host: "@ + d.hostname + ", User: "@ + d.username
    }
}

/// Appends the characters of `s`.
pub fn push_str(out: &mut String, s: &str)
    ensures
        final(out)@ == old(out)@ + s@,
{
    let chars = chars_of(s);
    let ghost start = out@;
    for i in 0..chars.len()
        invariant
            out@ == start + chars@.take(i as int),
    {
        push_char(out, chars[i]);
        assert(chars@.take(i + 1) =~= chars@.take(i as int).push(chars@[i as int]));
    }
    assert(chars@.take(chars@.len() as int) =~= chars@);
    assert(chars@ == s@);
}

impl DestinationData {
    /// A new destination with a fresh identifier.
    pub fn new(name: String, hostname: String, username: String, options: ConnectionOptions) -> (d:
        DestinationData)
        ensures
            is_hyphenated_uuid(d.uuid@),
            d.name == name,
            d.hostname == hostname,
            d.username == username,
            d.clipboard_enabled == options.clipboard_enabled,
            d.sound_enabled == options.sound_enabled,
            d.inhibit_system_shortcuts == options.inhibit_system_shortcuts,
    {
        DestinationData {
            uuid: new_uuid(),
            name,
            hostname,
            username,
            clipboard_enabled: options.clipboard_enabled,
            sound_enabled: options.sound_enabled,
            inhibit_system_shortcuts: options.inhibit_system_shortcuts,
        }
    }

    pub fn connection_options(&self) -> (o: ConnectionOptions)
        ensures
            o == (ConnectionOptions {
                clipboard_enabled: self.clipboard_enabled,
                sound_enabled: self.sound_enabled,
                inhibit_system_shortcuts: self.inhibit_system_shortcuts,
            }),
    {
        ConnectionOptions {
            clipboard_enabled: self.clipboard_enabled,
            sound_enabled: self.sound_enabled,
            inhibit_system_shortcuts: self.inhibit_system_shortcuts,
        }
    }

    /// Replaces the connection options.
    pub fn set_connection_options(&mut self, options: ConnectionOptions)
        ensures
            final(self)@ == (DestinationModel {
                clipboard_enabled: options.clipboard_enabled,
                sound_enabled: options.sound_enabled,
                inhibit_system_shortcuts: options.inhibit_system_shortcuts,
                ..old(self)@
            }),
    {
        self.clipboard_enabled = options.clipboard_enabled;
        self.sound_enabled = options.sound_enabled;
        self.inhibit_system_shortcuts = options.inhibit_system_shortcuts;
    }

    /// The name, or the hostname when there is no name.
    pub fn display_title(&self) -> (t: String)
        ensures
            t@ == display_title_spec(self@),
    {
        if self.name.as_str().is_empty() {
            self.hostname.clone()
        } else {
            self.name.clone()
        }
    }

    /// `User: <username>`, or `Host: <hostname>, User: <username>` when the
    /// destination has a name (the title then does not show the host).
    pub fn display_subtitle(&self) -> (t: String)
        ensures
            t@ == display_subtitle_spec(self@),
    {
        let mut out = String::new();
        if self.name.as_str().is_empty() {
            push_str(&mut out, "User: ");
            push_str(&mut out, self.username.as_str());
        } else {
            push_str(&mut out, "Host: ");
            push_str(&mut out, self.hostname.as_str());
            push_str(&mut out, ", User: ");
            push_str(&mut out, self.username.as_str());
        }
        out
    }
}

impl Default for DestinationData {
    fn default() -> (d: DestinationData)
        ensures
            d@ == (DestinationModel {
                uuid: Seq::empty(),
                name: Seq::empty(),
                hostname: Seq::empty(),
                username: Seq::empty(),
                clipboard_enabled: false,
                sound_enabled: false,
                inhibit_system_shortcuts: false,
            }),
    {
        DestinationData {
            uuid: String::new(),
            name: String::new(),
            hostname: String::new(),
            username: String::new(),
            clipboard_enabled: false,
            sound_enabled: false,
            inhibit_system_shortcuts: false,
        }
    }
}

/// Why a store operation failed.
#[derive(Debug)]
pub enum DestinationError {
    /// A destination with the same hostname and username exists.
    Duplicate,
    /// No destination has the given identifier.
    NotFound,
    Io(std::io::Error),
    Serde(serde_json::Error),
}

impl From<std::io::Error> for DestinationError {
    fn from(error: std::io::Error) -> (e: DestinationError)
        ensures
            e == DestinationError::Io(error),
    {
        DestinationError::Io(error)
    }
}

impl vstd::std_specs::convert::FromSpecImpl<std::io::Error> for DestinationError {
    open spec fn obeys_from_spec() -> bool {
        true
    }

    open spec fn from_spec(error: std::io::Error) -> DestinationError {
        DestinationError::Io(error)
    }
}

impl From<serde_json::Error> for DestinationError {
    fn from(error: serde_json::Error) -> (e: DestinationError)
        ensures
            e == DestinationError::Serde(error),
    {
        DestinationError::Serde(error)
    }
}

impl vstd::std_specs::convert::FromSpecImpl<serde_json::Error> for DestinationError {
    open spec fn obeys_from_spec() -> bool {
        true
    }

    open spec fn from_spec(error: serde_json::Error) -> DestinationError {
        DestinationError::Serde(error)
    }
}


/// The position of the first destination with identifier `uuid`.
pub open spec fn index_of_uuid(s: Seq<DestinationModel>, uuid: Seq<char>) -> Option<int>
    decreases s.len(),
{
    if s.len() == 0 {
        None
    } else if s[0].uuid == uuid {
        Some(0)
    } else {
        match index_of_uuid(s.drop_first(), uuid) {
            Some(i) => Some(i + 1),
            None => None,
        }
    }
}

pub proof fn lemma_index_of_uuid(s: Seq<DestinationModel>, uuid: Seq<char>)
    ensures
        match index_of_uuid(s, uuid) {
            Some(i) => 0 <= i < s.len() && s[i].uuid == uuid && forall|j: int|
                0 <= j < i ==> s[j].uuid != uuid,
            None => forall|j: int| 0 <= j < s.len() ==> s[j].uuid != uuid,
        },
    decreases s.len(),
{
    if s.len() > 0 && s[0].uuid != uuid {
        lemma_index_of_uuid(s.drop_first(), uuid);
        assert forall|j: int| 1 <= j < s.len() implies s[j] == s.drop_first()[j - 1] by {}
    }
}

proof fn lemma_index_of_uuid_is(s: Seq<DestinationModel>, uuid: Seq<char>, i: int)
    requires
        0 <= i < s.len(),
        s[i].uuid == uuid,
        forall|j: int| 0 <= j < i ==> s[j].uuid != uuid,
    ensures
        index_of_uuid(s, uuid) == Some(i),
{
    lemma_index_of_uuid(s, uuid);
    match index_of_uuid(s, uuid) {
        Some(k) => {
            if k < i {
                assert(s[k].uuid != uuid);
            }
            if k > i {
                assert(s[i].uuid != uuid);
            }
        },
        None => {
            assert(s[i].uuid != uuid);
        },
    }
}

/// Whether a destination for this hostname and username exists.
pub open spec fn has_login(s: Seq<DestinationModel>, hostname: Seq<char>, username: Seq<char>) -> bool {
    exists|i: int| 0 <= i < s.len() && #[trigger] s[i].hostname == hostname && s[i].username == username
}

/// The list after removing the destination `uuid`, `None` if there is none.
pub open spec fn removed_spec(s: Seq<DestinationModel>, uuid: Seq<char>) -> Option<Seq<DestinationModel>> {
    match index_of_uuid(s, uuid) {
        Some(i) => Some(s.remove(i)),
        None => None,
    }
}

/// The list after putting `d` back at `pos`; a position past the end
/// changes nothing.
pub open spec fn restored_spec(s: Seq<DestinationModel>, pos: int, d: DestinationModel) -> Seq<DestinationModel> {
    if 0 <= pos <= s.len() {
        s.insert(pos, d)
    } else {
        s
    }
}

/// The models of a sequence of destinations.
pub open spec fn models(v: Seq<DestinationData>) -> Seq<DestinationModel> {
    v.map_values(|x: DestinationData| x@)
}

/// The saved destinations, in list order.
#[derive(Debug)]
pub struct Destinations {
    items: Vec<DestinationData>,
}

impl View for Destinations {
    type V = Seq<DestinationModel>;

    closed spec fn view(&self) -> Seq<DestinationModel> {
        models(self.items@)
    }
}

impl Destinations {
    /// An empty store.
    pub fn new() -> (d: Destinations)
        ensures
            d@ == Seq::<DestinationModel>::empty(),
    {
        let d = Destinations { items: Vec::new() };
        assert(d@ =~= Seq::<DestinationModel>::empty());
        d
    }

    /// A store holding `items`, e.g. as read from disk.
    pub fn from_items(items: Vec<DestinationData>) -> (d: Destinations)
        ensures
            d@ == models(items@),
    {
        Destinations { items }
    }

    pub fn len(&self) -> (n: usize)
        ensures
            n == self@.len(),
    {
        self.items.len()
    }

    /// A snapshot of all destinations.
    pub fn items(&self) -> (v: Vec<DestinationData>)
        ensures
            models(v@) == self@,
    {
        let mut v: Vec<DestinationData> = Vec::new();
        for i in 0..self.items.len()
            invariant
                models(v@) == self@.take(i as int),
                self@ == models(self.items@),
        {
            let item = self.items[i].clone();
            assert(self@.len() == self.items@.len());
            assert(item@ == self@[i as int]);
            let ghost before = v@;
            assert(models(before).len() == before.len());
            assert(before.len() == i);
            v.push(item);
            assert(v@ == before.push(item));
            assert forall|j: int| 0 <= j < i + 1 implies #[trigger] models(v@)[j] == self@.take(i + 1)[j] by {
                assert(models(v@)[j] == v@[j]@);
                if j < i {
                    assert(v@[j] == before[j]);
                    assert(models(before)[j] == before[j]@);
                    assert(models(before)[j] == self@.take(i as int)[j]);
                } else {
                    assert(v@[j] == item);
                }
            }
            assert(models(v@) =~= self@.take(i + 1));
        }
        assert(self@.take(self@.len() as int) =~= self@);
        v
    }

    fn position(&self, uuid: &str) -> (r: Option<usize>)
        ensures
            match r {
                Some(i) => i < self@.len() && index_of_uuid(self@, uuid@) == Some(i as int),
                None => index_of_uuid(self@, uuid@) is None,
            },
    {
        for i in 0..self.items.len()
            invariant
                self@ == models(self.items@),
                forall|j: int| 0 <= j < i ==> self@[j].uuid != uuid@,
        {
            if str_equals(self.items[i].uuid.as_str(), uuid) {
                proof {
                    lemma_index_of_uuid_is(self@, uuid@, i as int);
                }
                return Some(i);
            }
        }
        proof {
            lemma_index_of_uuid(self@, uuid@);
            match index_of_uuid(self@, uuid@) {
                Some(k) => {
                    assert(self@[k].uuid != uuid@);
                },
                None => {},
            }
        }
        None
    }

    /// The position and data of the destination `uuid`.
    pub fn find(&self, uuid: &str) -> (r: Option<(u32, DestinationData)>)
        ensures
            match index_of_uuid(self@, uuid@) {
                Some(i) => (r matches Some((p, d)) && p == i as u32 && d@ == self@[i]),
                None => r is None,
            },
    {
        match self.position(uuid) {
            Some(i) => Some((i as u32, self.items[i].clone())),
            None => None,
        }
    }

    /// The data of the destination `uuid`.
    pub fn get(&self, uuid: &str) -> (r: Option<DestinationData>)
        ensures
            match index_of_uuid(self@, uuid@) {
                Some(i) => (r matches Some(d) && d@ == self@[i]),
                None => r is None,
            },
    {
        match self.position(uuid) {
            Some(i) => Some(self.items[i].clone()),
            None => None,
        }
    }

    /// Appends a destination unless one for the same hostname and username
    /// exists; returns its identifier.
    pub fn add(&mut self, data: DestinationData) -> (r: Result<String, DestinationError>)
        ensures
            has_login(old(self)@, data.hostname@, data.username@) ==> final(self)@ == old(self)@ && r
                is Err && r->Err_0 is Duplicate,
            !has_login(old(self)@, data.hostname@, data.username@) ==> final(self)@ == old(self)@.push(
                data@,
            ) && (r matches Ok(id) && id@ == data.uuid@),
    {
        for i in 0..self.items.len()
            invariant
                self@ == models(self.items@),
                forall|j: int|
                    0 <= j < i ==> !(self@[j].hostname == data.hostname@ && self@[j].username
                        == data.username@),
        {
            if self.items[i].hostname == data.hostname && self.items[i].username == data.username {
                assert(self@[i as int].hostname == data.hostname@);
                return Err(DestinationError::Duplicate);
            }
        }
        assert(!has_login(self@, data.hostname@, data.username@));
        let id = data.uuid.clone();
        let ghost model = data@;
        self.items.push(data);
        assert(self@ =~= old(self)@.push(model));
        Ok(id)
    }

    /// Replaces name, hostname, username and options of the destination
    /// with `data`'s identifier.
    pub fn update(&mut self, data: DestinationData) -> (r: Result<(), DestinationError>)
        ensures
            match index_of_uuid(old(self)@, data.uuid@) {
                Some(i) => r is Ok && final(self)@ == old(self)@.update(i, data@),
                None => r is Err && r->Err_0 is NotFound && final(self)@ == old(self)@,
            },
    {
        match self.position(data.uuid.as_str()) {
            Some(i) => {
                proof {
                    lemma_index_of_uuid(self@, data.uuid@);
                }
                let ghost model = data@;
                self.items.set(i, data);
                assert(self@ =~= old(self)@.update(i as int, model));
                Ok(())
            },
            None => Err(DestinationError::NotFound),
        }
    }

    /// Removes the destination `uuid`.
    pub fn remove(&mut self, uuid: &str) -> (r: Result<(), DestinationError>)
        ensures
            match removed_spec(old(self)@, uuid@) {
                Some(s) => r is Ok && final(self)@ == s,
                None => r is Err && r->Err_0 is NotFound && final(self)@ == old(self)@,
            },
    {
        match self.position(uuid) {
            Some(i) => {
                self.items.remove(i);
                assert(self@ =~= old(self)@.remove(i as int));
                Ok(())
            },
            None => Err(DestinationError::NotFound),
        }
    }

    /// Re-inserts a previously removed destination at `pos`, to undo a
    /// delete. A position past the end is ignored, as the list model does.
    pub fn restore(&mut self, pos: u32, data: DestinationData) -> (r: Result<(), DestinationError>)
        ensures
            r is Ok,
            final(self)@ == restored_spec(old(self)@, pos as int, data@),
    {
        if (pos as usize) <= self.items.len() {
            let ghost model = data@;
            self.items.insert(pos as usize, data);
            assert(self@ =~= old(self)@.insert(pos as int, model));
        }
        Ok(())
    }
}

/// Undoing a delete gives back the list as it was: removing the destination
/// found at `pos` and putting its data back at `pos` (as the 32-bit position
/// the store reports) is the identity.
pub proof fn restore_undoes_remove(s: Seq<DestinationModel>, uuid: Seq<char>)
    requires
        index_of_uuid(s, uuid) is Some,
        s.len() <= u32::MAX,
    ensures
        ({
            let i = index_of_uuid(s, uuid)->0;
            &&& restored_spec(removed_spec(s, uuid)->0, i, s[i]) == s
            &&& restored_spec(s.remove(i), (i as u32) as int, s[i]) == s
        }),
{
    lemma_index_of_uuid(s, uuid);
    let i = index_of_uuid(s, uuid)->0;
    assert(s.remove(i).insert(i, s[i]) =~= s);
}

/// After adding a destination whose identifier is new, looking that
/// identifier up finds it.
pub proof fn add_then_get(s: Seq<DestinationModel>, d: DestinationModel)
    requires
        index_of_uuid(s, d.uuid) is None,
    ensures
        index_of_uuid(s.push(d), d.uuid) == Some(s.len() as int),
{
    lemma_index_of_uuid(s, d.uuid);
    lemma_index_of_uuid_is(s.push(d), d.uuid, s.len() as int);
}

/// No two destinations share a hostname and username when they were all
/// added through `add`.
pub open spec fn logins_unique(s: Seq<DestinationModel>) -> bool {
    forall|i: int, j: int|
        0 <= i < s.len() && 0 <= j < s.len() && i != j ==> !(s[i].hostname == s[j].hostname
            && s[i].username == s[j].username)
}

/// Adding keeps hostname and username pairs unique.
pub proof fn add_keeps_logins_unique(s: Seq<DestinationModel>, d: DestinationModel)
    requires
        logins_unique(s),
        !has_login(s, d.hostname, d.username),
    ensures
        logins_unique(s.push(d)),
{
    let t = s.push(d);
    assert forall|i: int, j: int|
        0 <= i < t.len() && 0 <= j < t.len() && i != j implies !(t[i].hostname == t[j].hostname
        && t[i].username == t[j].username) by {
        if i == s.len() as int {
            if t[j].hostname == d.hostname && t[j].username == d.username {
                assert(s[j].hostname == d.hostname);
            }
        } else if j == s.len() as int {
            if t[i].hostname == d.hostname && t[i].username == d.username {
                assert(s[i].hostname == d.hostname);
            }
        }
    }
}


/// The text a destination is searched in: name, hostname and username,
/// separated by spaces.
pub open spec fn search_text(d: DestinationModel) -> Seq<char> {
    d.name + seq![' '] + d.hostname + seq![' '] + d.username
}

/// Whether every search term occurs in the destination's search text,
/// ignoring case.
pub open spec fn matches_terms(d: DestinationModel, terms: Seq<Seq<char>>) -> bool {
    forall|k: int| 0 <= k < terms.len() ==> contains_seq(lowercase(search_text(d)), lowercase(#[trigger] terms[k]))
}

/// The identifiers of the destinations matching all terms, in list order.
pub open spec fn search_spec(s: Seq<DestinationModel>, terms: Seq<Seq<char>>) -> Seq<Seq<char>>
    decreases s.len(),
{
    if s.len() == 0 {
        Seq::empty()
    } else {
        search_spec(s.drop_last(), terms) + if matches_terms(s.last(), terms) {
            seq![s.last().uuid]
        } else {
            Seq::empty()
        }
    }
}

pub open spec fn string_views(v: Seq<String>) -> Seq<Seq<char>> {
    v.map_values(|x: String| x@)
}

fn matches(d: &DestinationData, lowered_terms: &Vec<String>, terms: &[String]) -> (r: bool)
    requires
        lowered_terms@.len() == terms@.len(),
        forall|k: int| 0 <= k < terms@.len() ==> lowered_terms@[k]@ == lowercase(#[trigger] terms@[k]@),
    ensures
        r == matches_terms(d@, string_views(terms@)),
{
    let mut text = String::new();
    push_str(&mut text, d.name.as_str());
    push_char(&mut text, ' ');
    push_str(&mut text, d.hostname.as_str());
    push_char(&mut text, ' ');
    push_str(&mut text, d.username.as_str());
    assert(text@ =~= search_text(d@));
    let haystack = to_lowercase(text.as_str());
    for k in 0..lowered_terms.len()
        invariant
            lowered_terms@.len() == terms@.len(),
            forall|k: int| 0 <= k < terms@.len() ==> lowered_terms@[k]@ == lowercase(#[trigger] terms@[k]@),
            haystack@ == lowercase(search_text(d@)),
            forall|m: int| 0 <= m < k ==> contains_seq(lowercase(search_text(d@)), lowercase(#[trigger] string_views(terms@)[m])),
    {
        if !str_contains(haystack.as_str(), lowered_terms[k].as_str()) {
            assert(string_views(terms@)[k as int] == terms@[k as int]@);
            return false;
        }
        assert(string_views(terms@)[k as int] == terms@[k as int]@);
    }
    true
}

impl Destinations {
    /// The identifiers of the destinations in which every term occurs,
    /// ignoring case, in name, hostname or username.
    pub fn search(&self, terms: &[String]) -> (ids: Vec<String>)
        ensures
            string_views(ids@) == search_spec(self@, string_views(terms@)),
    {
        let mut lowered: Vec<String> = Vec::new();
        for k in 0..terms.len()
            invariant
                lowered@.len() == k,
                forall|m: int| 0 <= m < k ==> lowered@[m]@ == lowercase(#[trigger] terms@[m]@),
        {
            lowered.push(to_lowercase(terms[k].as_str()));
        }
        let mut ids: Vec<String> = Vec::new();
        for i in 0..self.items.len()
            invariant
                self@ == models(self.items@),
                lowered@.len() == terms@.len(),
                forall|m: int| 0 <= m < terms@.len() ==> lowered@[m]@ == lowercase(#[trigger] terms@[m]@),
                string_views(ids@) == search_spec(self@.take(i as int), string_views(terms@)),
        {
            let d = &self.items[i];
            assert(self@.take(i + 1).drop_last() =~= self@.take(i as int));
            assert(self@.take(i + 1).last() == d@);
            if matches(d, &lowered, terms) {
                let id = d.uuid.clone();
                let ghost before = ids@;
                ids.push(id);
                assert(string_views(ids@) =~= string_views(before) + seq![d.uuid@]);
            } else {
                assert(search_spec(self@.take(i + 1), string_views(terms@)) =~= search_spec(self@.take(i as int), string_views(terms@)));
            }
        }
        assert(self@.take(self@.len() as int) =~= self@);
        ids
    }
}

/// Every destination matches an empty search.
pub proof fn empty_search_lists_all(s: Seq<DestinationModel>)
    ensures
        search_spec(s, Seq::empty()) == s.map_values(|d: DestinationModel| d.uuid),
    decreases s.len(),
{
    if s.len() > 0 {
        empty_search_lists_all(s.drop_last());
        assert(s.map_values(|d: DestinationModel| d.uuid) =~= s.drop_last().map_values(|d: DestinationModel| d.uuid).push(s.last().uuid));
    } else {
        assert(s.map_values(|d: DestinationModel| d.uuid) =~= Seq::<Seq<char>>::empty());
    }
}


/// A destination removed from the store, kept so the removal can be undone.
#[derive(Debug, Clone)]
pub struct RemovedDestination {
    pub pos: u32,
    pub data: DestinationData,
    pub uuid: String,
}

/// What happens to the stored password when a destination is saved.
#[derive(Debug, Clone, Copy, PartialEq, Eq, Structural)]
pub enum PasswordAction {
    /// Store the entered password in the keyring.
    Store,
    /// Delete any stored password.
    Delete,
}

/// The application rules for adding, updating, removing and restoring
/// destinations. Persistence and keyring access are performed by the
/// caller, as the returned values direct.
#[derive(Debug)]
pub struct DestinationService {
    destinations: Destinations,
}

impl DestinationService {
    pub fn new(destinations: Destinations) -> (s: DestinationService)
        ensures
            s.destinations()@ == destinations@,
    {
        DestinationService { destinations }
    }

    pub closed spec fn destinations(&self) -> Destinations {
        self.destinations
    }

    /// The store.
    pub fn store(&self) -> (d: &Destinations)
        ensures
            d@ == self.destinations()@,
    {
        &self.destinations
    }

    /// The password is kept only when the user asked for it and entered one.
    pub fn password_action(remember_password: bool, password: &str) -> (a: PasswordAction)
        ensures
            a == (if remember_password && password@.len() > 0 {
                PasswordAction::Store
            } else {
                PasswordAction::Delete
            }),
    {
        if remember_password && !password.is_empty() {
            PasswordAction::Store
        } else {
            PasswordAction::Delete
        }
    }

    /// Adds a destination with a fresh identifier, returning it.
    pub fn add_from_form(&mut self, name: String, hostname: String, username: String, options: ConnectionOptions) -> (r: Result<String, DestinationError>)
        ensures
            has_login(old(self).destinations()@, hostname@, username@) ==> final(self).destinations()@
                == old(self).destinations()@ && r is Err && r->Err_0 is Duplicate,
            !has_login(old(self).destinations()@, hostname@, username@) ==> (r matches Ok(id) && {
                &&& is_hyphenated_uuid(id@)
                &&& final(self).destinations()@ == old(self).destinations()@.push(
                    DestinationModel {
                        uuid: id@,
                        name: name@,
                        hostname: hostname@,
                        username: username@,
                        clipboard_enabled: options.clipboard_enabled,
                        sound_enabled: options.sound_enabled,
                        inhibit_system_shortcuts: options.inhibit_system_shortcuts,
                    },
                )
            }),
    {
        let data = DestinationData::new(name, hostname, username, options);
        self.destinations.add(data)
    }

    /// Updates the destination `uuid` from the form, returning its identifier.
    pub fn update_from_form(&mut self, uuid: &str, name: String, hostname: String, username: String, options: ConnectionOptions) -> (r: Result<String, DestinationError>)
        ensures
            match index_of_uuid(old(self).destinations()@, uuid@) {
                Some(i) => (r matches Ok(id) && id@ == uuid@) && final(self).destinations()@
                    == old(self).destinations()@.update(
                    i,
                    DestinationModel {
                        uuid: uuid@,
                        name: name@,
                        hostname: hostname@,
                        username: username@,
                        clipboard_enabled: options.clipboard_enabled,
                        sound_enabled: options.sound_enabled,
                        inhibit_system_shortcuts: options.inhibit_system_shortcuts,
                    },
                ),
                None => r is Err && r->Err_0 is NotFound && final(self).destinations()@
                    == old(self).destinations()@,
            },
    {
        let mut data = DestinationData::new(name, hostname, username, options);
        data.uuid = uuid.to_owned();
        match self.destinations.update(data) {
            Ok(()) => Ok(uuid.to_owned()),
            Err(e) => Err(e),
        }
    }

    /// Removes the destination `uuid`, returning what is needed to undo it.
    pub fn remove(&mut self, uuid: &str) -> (r: Result<RemovedDestination, DestinationError>)
        ensures
            match index_of_uuid(old(self).destinations()@, uuid@) {
                Some(i) => (r matches Ok(removed) && removed.pos == i as u32 && removed.data@
                    == old(self).destinations()@[i] && removed.uuid@ == uuid@)
                    && final(self).destinations()@ == old(self).destinations()@.remove(i),
                None => r is Err && r->Err_0 is NotFound && final(self).destinations()@
                    == old(self).destinations()@,
            },
    {
        let (pos, data) = match self.destinations.find(uuid) {
            Some(found) => found,
            None => {
                return Err(DestinationError::NotFound);
            },
        };
        let removed = RemovedDestination { pos, data, uuid: uuid.to_owned() };
        match self.destinations.remove(uuid) {
            Ok(()) => Ok(removed),
            Err(e) => Err(e),
        }
    }

    /// Puts a removed destination back where it was.
    pub fn restore(&mut self, removed: RemovedDestination) -> (r: Result<(), DestinationError>)
        ensures
            r is Ok,
            final(self).destinations()@ == restored_spec(
                old(self).destinations()@,
                removed.pos as int,
                removed.data@,
            ),
    {
        self.destinations.restore(removed.pos, removed.data)
    }
}

/// A saved login is a duplicate exactly when one stored destination has the
/// same hostname and also the same username: a new username on a known
/// host is no duplicate, so adding it succeeds.
pub proof fn duplicate_needs_same_host_and_user(s: Seq<DestinationModel>, hostname: Seq<char>, username: Seq<char>)
    ensures
        has_login(s, hostname, username) ==> exists|i: int|
            0 <= i < s.len() && #[trigger] s[i].hostname == hostname && s[i].username == username,
        (forall|i: int| 0 <= i < s.len() && #[trigger] s[i].hostname == hostname ==> s[i].username != username)
            ==> !has_login(s, hostname, username),
{
}

/// The text a destination is searched in holds its name, its hostname and
/// its username each as a contiguous run, so a term found in any of them
/// is found in the destination.
pub proof fn search_text_holds_every_field(d: DestinationModel)
    ensures
        contains_seq(search_text(d), d.name),
        contains_seq(search_text(d), d.hostname),
        contains_seq(search_text(d), d.username),
{
    let t = search_text(d);
    let h0: int = d.name.len() as int + 1;
    let u0: int = d.name.len() as int + 1 + d.hostname.len() as int + 1;
    assert(t.subrange(0int, 0int + d.name.len()) =~= d.name);
    assert(t.subrange(h0, h0 + d.hostname.len()) =~= d.hostname);
    assert(t.subrange(u0, u0 + d.username.len()) =~= d.username);
}

} // verus!
