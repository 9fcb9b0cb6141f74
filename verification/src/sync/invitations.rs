//! Invitations: the token, and what state an invitation is in.

use vstd::prelude::*;
use crate::outside::{sha256, sha256_of};
use crate::sync::hex::{hex, hex_text};
use crate::text::same;

verus! {

/// How long an invitation stands, in seconds.
pub const INVITE_TTL_SECS: i64 = 604_800;

/// The token of an email and a salt: the first sixteen bytes of their digest.
pub open spec fn token_text(email: Seq<char>, salt: Seq<char>) -> Seq<char> {
    hex_text(sha256(vstd::utf8::encode_utf8(email + ":"@ + salt)).take(16))
}

/// An opaque token of an email and a salt.
pub fn mint_token(email: &str, salt: &str) -> (r: String)
    ensures
        r@ == token_text(email@, salt@),
        r@.len() == 32,
{
    let mut s = email.to_owned();
    s.append(":");
    s.append(salt);
    let t = s.as_str();
    let d = sha256_of(t.as_bytes());
    let head = vstd::slice::slice_subrange(d.as_slice(), 0, 16);
    assert(head@ =~= d@.take(16));
    hex(head)
}

/// When an invitation made at `created` lapses.
pub fn expires_at(created: i64) -> (r: i64)
    requires
        created + INVITE_TTL_SECS <= i64::MAX,
    ensures
        r == created + INVITE_TTL_SECS,
{
    created + INVITE_TTL_SECS
}

/// An invitation may be accepted while it is pending and has not lapsed.
pub open spec fn acceptable(state: Seq<char>, expires: int, now: int) -> bool {
    state == "pending"@ && expires > now
}

/// See [`acceptable`].
pub fn may_accept(state: &str, expires: i64, now_unix: i64) -> (r: bool)
    ensures
        r == acceptable(state@, expires as int, now_unix as int),
{
    same(state, "pending") && expires > now_unix
}

/// An invitation may be revoked while it is pending.
pub fn may_revoke(state: &str) -> (r: bool)
    ensures
        r == (state@ == "pending"@),
{
    same(state, "pending")
}

/// The state an invitation reads as: a pending one that has lapsed is expired.
pub open spec fn shown_state(state: Seq<char>, expires: int, now: int) -> Seq<char> {
    if state == "pending"@ && now >= expires { "expired"@ } else { state }
}

/// See [`shown_state`].
pub fn effective_state(state: &str, expires: i64, now_unix: i64) -> (r: String)
    ensures
        r@ == shown_state(state@, expires as int, now_unix as int),
{
    if same(state, "pending") && now_unix >= expires {
        "expired".to_owned()
    } else {
        state.to_owned()
    }
}

/// A lapsed invitation reads as expired and cannot be accepted; one that can be
/// accepted reads as pending; and once accepted it cannot be accepted again.
pub proof fn law_invitation_states(state: Seq<char>, expires: int, now: int)
    ensures
        state == "pending"@ && now >= expires ==> shown_state(state, expires, now) == "expired"@ && !acceptable(
            state,
            expires,
            now,
        ),
        acceptable(state, expires, now) ==> shown_state(state, expires, now) == "pending"@,
        !acceptable("accepted"@, expires, now),
{
    reveal_strlit("accepted");
    reveal_strlit("pending");
    assert("accepted"@.len() != "pending"@.len());
}

/// An invitation as it is kept.
#[derive(Debug)]
pub struct Invitation {
    pub token: String,
    pub state: String,
    pub expires: i64,
}

/// What a kept invitation is: its token, its state, and when it lapses.
pub type InvitationView = (Seq<char>, Seq<char>, int);

impl View for Invitation {
    type V = InvitationView;

    open spec fn view(&self) -> InvitationView {
        (self.token@, self.state@, self.expires as int)
    }
}

/// Some kept invitations.
pub open spec fn invitations_view(v: Seq<Invitation>) -> Seq<InvitationView> {
    Seq::new(v.len(), |i: int| v[i]@)
}

/// An invitation that a token accepts at a moment.
pub open spec fn accepts(row: InvitationView, token: Seq<char>, now: int) -> bool {
    row.0 == token && acceptable(row.1, row.2, now)
}

/// An invitation after a token was presented: the one that it accepts is accepted.
pub open spec fn after_accepting(row: InvitationView, token: Seq<char>, now: int) -> InvitationView {
    if accepts(row, token, now) { (row.0, "accepted"@, row.2) } else { row }
}

/// The invitations after a token was presented.
pub open spec fn all_after(rows: Seq<InvitationView>, token: Seq<char>, now: int) -> Seq<InvitationView> {
    Seq::new(rows.len(), |i: int| after_accepting(rows[i], token, now))
}

/// Some invitation is accepted by a token.
pub open spec fn any_accepts(rows: Seq<InvitationView>, token: Seq<char>, now: int) -> bool {
    exists|i: int| 0 <= i < rows.len() && accepts(#[trigger] rows[i], token, now)
}

/// Accepts a token where an invitation of it is pending and has not lapsed, and says
/// whether there was one.
pub fn accept(rows: &mut Vec<Invitation>, token: &str, now_unix: i64) -> (r: bool)
    ensures
        invitations_view(final(rows)@) == all_after(invitations_view(old(rows)@), token@, now_unix as int),
        r == any_accepts(invitations_view(old(rows)@), token@, now_unix as int),
{
    let ghost was = invitations_view(rows@);
    let mut any = false;
    let mut i: usize = 0;
    while i < rows.len()
        invariant
            i <= rows@.len(),
            rows@.len() == was.len(),
            any == (exists|j: int| 0 <= j < i && accepts(#[trigger] was[j], token@, now_unix as int)),
            forall|j: int| 0 <= j < i ==> (#[trigger] rows@[j])@ == after_accepting(was[j], token@, now_unix as int),
            forall|j: int| i <= j < was.len() ==> (#[trigger] rows@[j])@ == was[j],
        decreases rows@.len() - i,
    {
        assert(rows@[i as int]@ == was[i as int]);
        if same(rows[i].token.as_str(), token) && may_accept(rows[i].state.as_str(), rows[i].expires, now_unix) {
            let next = Invitation {
                token: rows[i].token.clone(),
                state: "accepted".to_owned(),
                expires: rows[i].expires,
            };
            rows.set(i, next);
            any = true;
            assert(accepts(was[i as int], token@, now_unix as int));
        }
        i = i + 1;
    }
    assert(invitations_view(rows@) =~= all_after(was, token@, now_unix as int));
    any
}

/// Where a token stands for one invitation at most, accepting it succeeds exactly where
/// that one is there, is pending and has not lapsed; then it is accepted and every other
/// one stays as it was, and otherwise all of them do. Once accepted, the token is not
/// accepted again at any moment.
pub proof fn law_accepting_changes_one_invitation(
    rows: Seq<InvitationView>,
    token: Seq<char>,
    now: int,
    i: int,
    again: int,
)
    requires
        0 <= i < rows.len(),
        rows[i].0 == token,
        forall|j: int| 0 <= j < rows.len() && j != i ==> (#[trigger] rows[j]).0 != token,
    ensures
        any_accepts(rows, token, now) <==> rows[i].1 == "pending"@ && rows[i].2 > now,
        any_accepts(rows, token, now) ==> all_after(rows, token, now) == rows.update(
            i,
            (token, "accepted"@, rows[i].2),
        ),
        !any_accepts(rows, token, now) ==> all_after(rows, token, now) == rows,
        any_accepts(rows, token, now) ==> !any_accepts(all_after(rows, token, now), token, again),
{
    if accepts(rows[i], token, now) {
        assert(any_accepts(rows, token, now));
        let after = all_after(rows, token, now);
        assert(after =~= rows.update(i, (token, "accepted"@, rows[i].2)));
        assert forall|j: int| 0 <= j < after.len() implies !accepts(#[trigger] after[j], token, again) by {
            law_invitation_states(rows[j].1, rows[j].2, again);
        }
    } else {
        assert(all_after(rows, token, now) =~= rows);
    }
}

/// A token that no invitation has accepts nothing and changes nothing.
pub proof fn law_an_unknown_token_changes_nothing(rows: Seq<InvitationView>, token: Seq<char>, now: int)
    requires
        forall|j: int| 0 <= j < rows.len() ==> (#[trigger] rows[j]).0 != token,
    ensures
        !any_accepts(rows, token, now),
        all_after(rows, token, now) == rows,
{
    assert(all_after(rows, token, now) =~= rows);
}

/// A token that was presented is not accepted at any later moment: what it could accept
/// is accepted by then.
pub proof fn law_a_token_is_accepted_once(rows: Seq<InvitationView>, token: Seq<char>, now: int, later: int)
    requires
        now <= later,
    ensures
        !any_accepts(all_after(rows, token, now), token, later),
{
    let after = all_after(rows, token, now);
    assert forall|i: int| 0 <= i < after.len() implies !accepts(#[trigger] after[i], token, later) by {
        law_invitation_states(rows[i].1, rows[i].2, later);
    }
}

} // verus!
