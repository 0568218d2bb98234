//! How a destination's password is filed in the user's keyring: the
//! attributes it is stored and looked up under, and the label it is shown
//! with. The keyring itself is reached over D-Bus by the application.

use vstd::prelude::*;

use crate::destinations::push_str;

verus! {

/// The attributes a password is filed under: the application's name and
/// the destination's identifier, each attribute named once.
pub fn make_attrs<'a>(uuid: &'a str) -> (attrs: Vec<(&'a str, &'a str)>)
    ensures
        attrs@.len() == 2,
        attrs@[0].0@ == "application"@,
        attrs@[0].1@ == "longlens"@,
        attrs@[1].0@ == "uuid"@,
        attrs@[1].1@ == uuid@,
{
    let mut attrs: Vec<(&'a str, &'a str)> = Vec::new();
    attrs.push(("application", "longlens"));
    attrs.push(("uuid", uuid));
    attrs
}

/// The label a stored password is shown with: `LongLens: ` and the
/// destination's identifier.
pub fn keyring_label(uuid: &str) -> (label: String)
    ensures
        label@ == "LongLens: "@ + uuid@,
{
    let mut label = String::new();
    push_str(&mut label, "LongLens: ");
    push_str(&mut label, uuid);
    assert(label@ =~= "LongLens: "@ + uuid@);
    label
}

} // verus!
