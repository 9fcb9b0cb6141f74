//! Who may edit a shared album.

use vstd::prelude::*;
use crate::status::figures::opt_view;
use crate::text::same;

verus! {

/// The owner may edit, and a member with the editor role.
pub open spec fn editor(owner: Option<Seq<char>>, role: Option<Seq<char>>, user: Seq<char>) -> bool {
    owner == Some(user) || role == Some("editor"@)
}

/// Whether `user` may edit an album of this owner in which they have this role.
pub fn can_edit(owner: Option<&str>, role: Option<&str>, user: &str) -> (r: bool)
    ensures
        r == editor(opt_view(owner), opt_view(role), user@),
{
    let owns = match owner {
        Some(o) => same(o, user),
        None => false,
    };
    if owns {
        return true;
    }
    match role {
        Some(s) => same(s, "editor"),
        None => false,
    }
}

/// The owner edits whatever their role; anyone else exactly as an editor; a viewer and a
/// stranger do not.
pub proof fn law_owners_and_editors_edit(user: Seq<char>, other: Seq<char>, role: Seq<char>)
    requires
        other != user,
    ensures
        editor(Some(user), None, user),
        editor(Some(user), Some(role), user),
        editor(Some(other), Some("editor"@), user),
        role != "editor"@ ==> !editor(Some(other), Some(role), user),
        !editor(Some(other), None, user),
        !editor(None, None, user),
{
}

} // verus!
