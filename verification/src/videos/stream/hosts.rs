//! The servers that are asked, and which catalogue is searched.

use vstd::prelude::*;
use super::state::StreamState;
use super::table::Table;
use crate::find::{before, contains, has, head};
use crate::text::{chars_of, dec, push_dec, same, slice_of};

verus! {

/// A server's address without the scheme.
pub open spec fn host_text(host: Seq<char>) -> Seq<char> {
    if has(host, "://"@) { host.skip(head(host, "://"@).len() as int + 3) } else { host }
}

proof fn lemma_head_fits(s: Seq<char>, sep: Seq<char>)
    requires
        has(s, sep),
    ensures
        head(s, sep).len() + sep.len() <= s.len(),
    decreases s.len(),
{
    let i = choose|i: int| 0 <= i <= s.len() && #[trigger] crate::find::begins(s.skip(i), sep);
    if s.len() > 0 && !crate::find::begins(s, sep) {
        if i == 0 {
            assert(s.skip(0) =~= s);
        }
        assert(s.skip(1).skip(i - 1) =~= s.skip(i));
        assert(has(s.skip(1), sep));
        lemma_head_fits(s.skip(1), sep);
    }
}

/// See [`host_text`].
pub fn short_host(host: &str) -> (r: String)
    ensures
        r@ == host_text(host@),
{
    if !contains(host, "://") {
        return host.to_owned();
    }
    let h = chars_of(before(host, "://").as_str());
    let v = chars_of(host);
    proof {
        reveal_strlit("://");
        lemma_head_fits(host@, "://"@);
    }
    let n: usize = v.len();
    let from: usize = h.len() + 3;
    assert(v@.subrange(from as int, v@.len() as int) =~= host@.skip(head(host@, "://"@).len() as int + 3));
    slice_of(&v, from, n)
}

/// What is said once the servers were saved.
pub fn saved_line(n: usize) -> (r: String)
    ensures
        r@ == "Saved "@ + dec(n as nat) + " server"@ + (if n == 1 { ""@ } else { "s"@ }) + "."@,
{
    let mut s = "Saved ".to_owned();
    push_dec(&mut s, n as u64);
    s.append(" server");
    s.append(if n == 1 { "" } else { "s" });
    s.append(".");
    s
}

/// The address that the editor shows: nothing where the built-in one is used, so
/// that unset stays apart from set to what is built in today.
pub fn stored_base(base: &str, default: &str) -> (r: String)
    ensures
        r@ == (if base@ == default@ { Seq::empty() } else { base@ }),
{
    if same(base, default) {
        let s = String::new();
        assert(s@ =~= Seq::<char>::empty());
        s
    } else {
        base.to_owned()
    }
}

impl StreamState {
    /// Another catalogue is searched: what is known belongs to the old one, so the
    /// results, the open title, its files and the previews are dropped. Nothing
    /// happens where it is the one searched already.
    pub fn stream_set_source(&mut self, changed: bool)
        ensures
            !changed ==> *final(self) == *old(self),
            changed ==> {
                &&& final(self).results@.len() == 0
                &&& final(self).preview_cache.rows@.len() == 0
                &&& final(self).files@.len() == 0
                &&& final(self).open_id@.len() == 0
                &&& final(self).details is None
                &&& final(self).query@.len() == 0
                &&& final(self).page == 0
                &&& *final(self) == (StreamState {
                    results: final(self).results,
                    preview_cache: final(self).preview_cache,
                    files: final(self).files,
                    open_id: final(self).open_id,
                    details: final(self).details,
                    query: final(self).query,
                    page: final(self).page,
                    ..*old(self)
                })
            },
    {
        if !changed {
            return;
        }
        self.results = Vec::new();
        self.preview_cache = Table::new();
        self.files = Vec::new();
        self.open_id = String::new();
        self.details = None;
        self.query = String::new();
        self.page = 0;
    }
}

/// A server is shown without its scheme, and as it is where it has none.
pub proof fn law_a_server_is_shown_without_its_scheme(scheme: Seq<char>, rest: Seq<char>)
    requires
        !scheme.contains(':'),
    ensures
        host_text(scheme + "://"@ + rest) == rest,
        !(has(rest, "://"@)) ==> host_text(rest) == rest,
{
    reveal_strlit("://");
    let sep = "://"@;
    assert(sep.len() == 3 && sep[0] == ':');
    let t = scheme + sep + rest;
    let k = scheme.len() as int;
    crate::find::law_the_head_ends_at_the_first_mark(t, sep);
    let h = head(t, sep).len() as int;
    assert(t.subrange(k, k + 3) =~= sep);
    crate::find::law_what_is_found_stands_there(t, sep);
    if h < k {
        assert(t.subrange(h, h + 3)[0] == ':');
        assert(scheme[h] == ':');
    }
    if h > k {
        assert(!(k + sep.len() <= t.len() && t.subrange(k, k + sep.len()) == sep));
    }
    assert(t.skip(k + 3) =~= rest);
}

} // verus!
