//! The identity record that a profile stores.
use vstd::prelude::*;

verus! {

/// One identity profile. `id` names the profile and may hold dots; the SSH key
/// is the path of a key file, as text.
#[derive(Clone, Debug)]
pub struct Identity {
    pub id: String,
    pub name: String,
    pub email: String,
    pub signing_key: Option<String>,
    pub ssh_key: Option<String>,
}

} // verus!
