//! Account mode: local by default, and not to be had without a sign-in.

use vstd::prelude::*;
use crate::text::same;

verus! {

/// Where the library lives.
#[derive(Debug, Clone, Copy, PartialEq, Eq, Structural)]
pub enum Mode {
    LocalOnly,
    Account,
}

/// Under which key the mode is kept.
pub const STATE_KEY: &'static str = "account_mode";

/// Account mode needs a completed sign-in.
pub fn can_enable(signed_in: bool) -> (r: bool)
    ensures
        r == signed_in,
{
    signed_in
}

/// The mode that a request for `mode` leads to: account mode is refused without a
/// sign-in.
pub open spec fn granted(mode: Mode, signed_in: bool) -> Mode {
    if mode == Mode::Account && !signed_in { Mode::LocalOnly } else { mode }
}

/// What is kept of a mode.
pub open spec fn kept_text(mode: Mode) -> Seq<char> {
    match mode {
        Mode::LocalOnly => "local"@,
        Mode::Account => "account"@,
    }
}

/// The mode that a kept text says; anything but "account" is local.
pub open spec fn mode_of(kept: Option<Seq<char>>) -> Mode {
    if kept == Some("account"@) { Mode::Account } else { Mode::LocalOnly }
}

/// The mode to be in from now on, and the text to keep of it.
pub fn set_mode(mode: Mode, signed_in: bool) -> (r: (Mode, &'static str))
    ensures
        r.0 == granted(mode, signed_in),
        r.1@ == kept_text(r.0),
{
    let effective = match mode {
        Mode::Account => if can_enable(signed_in) { Mode::Account } else { Mode::LocalOnly },
        Mode::LocalOnly => Mode::LocalOnly,
    };
    let text = match effective {
        Mode::LocalOnly => "local",
        Mode::Account => "account",
    };
    (effective, text)
}

/// See [`mode_of`].
pub fn get_mode(kept: Option<&str>) -> (r: Mode)
    ensures
        r == mode_of(crate::status::figures::opt_view(kept)),
{
    match kept {
        Some(s) => if same(s, "account") { Mode::Account } else { Mode::LocalOnly },
        None => Mode::LocalOnly,
    }
}

/// Nothing kept is local; without a sign-in the mode stays local; and a mode that
/// was set is read back.
pub proof fn law_mode_is_local_until_signed_in(mode: Mode, signed_in: bool)
    ensures
        mode_of(None) == Mode::LocalOnly,
        !signed_in ==> granted(mode, signed_in) == Mode::LocalOnly,
        signed_in ==> granted(mode, signed_in) == mode,
        mode_of(Some(kept_text(granted(mode, signed_in)))) == granted(mode, signed_in),
{
    reveal_strlit("local");
    reveal_strlit("account");
    assert("local"@.len() != "account"@.len());
}

/// A mode that was kept reads back, and whatever else was kept is local.
pub proof fn law_a_kept_mode_reads_back(mode: Mode, other: Seq<char>)
    requires
        other != "account"@,
    ensures
        mode_of(Some(kept_text(mode))) == mode,
        mode_of(Some(other)) == Mode::LocalOnly,
        mode_of(None) == Mode::LocalOnly,
{
    reveal_strlit("local");
    reveal_strlit("account");
    assert("local"@.len() == 5 && "account"@.len() == 7);
}

/// Account mode is granted exactly to who is signed in; local mode to everyone.
pub proof fn law_account_mode_needs_a_sign_in(signed_in: bool)
    ensures
        granted(Mode::Account, true) == Mode::Account,
        granted(Mode::Account, false) == Mode::LocalOnly,
        granted(Mode::LocalOnly, signed_in) == Mode::LocalOnly,
{
}

} // verus!
