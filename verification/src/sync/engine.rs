//! When to pull, how to batch what is sent, and where the pull cursor stands.

use vstd::prelude::*;
use crate::text::{dec_int, law_integers_read_back, parse_i64, parse_int, push_dec_int};

verus! {

/// Seconds between two pulls.
pub const PULL_INTERVAL_S: i64 = 60;
/// Under which key the cursor is kept.
pub const WATERMARK_KEY: &'static str = "sync_watermark";
/// How many changes go into one batch.
pub const MAX_BATCH: usize = 500;

/// A local change that the server has not seen.
#[derive(Debug, Clone, PartialEq)]
pub struct ChangeRecord {
    pub section: String,
    pub item_id: i64,
    /// "upsert" or "delete".
    pub op: String,
    pub rev: i64,
}

/// A pull is due once the interval has passed since the last.
pub fn is_pull_due(last_pull_unix: i64, now_unix: i64) -> (r: bool)
    ensures
        r == (now_unix >= last_pull_unix + PULL_INTERVAL_S),
{
    now_unix as i128 >= last_pull_unix as i128 + PULL_INTERVAL_S as i128
}

/// How many batches `n` changes make.
pub open spec fn batch_count(n: nat) -> nat {
    (n + 499) / 500
}

/// The changes of the `k`th batch.
pub open spec fn batch_of(outbox: Seq<ChangeRecord>, k: int) -> Seq<ChangeRecord> {
    outbox.subrange(k * 500, if k * 500 + 500 <= outbox.len() { k * 500 + 500 } else { outbox.len() as int })
}

/// Cuts the outbox into batches of at most [`MAX_BATCH`], in order.
pub fn build_batches(outbox: &[ChangeRecord]) -> (r: Vec<&[ChangeRecord]>)
    ensures
        r@.len() == batch_count(outbox@.len()),
        forall|k: int| 0 <= k < r@.len() ==> (#[trigger] r@[k])@ == batch_of(outbox@, k),
{
    let mut out: Vec<&[ChangeRecord]> = Vec::new();
    let n: usize = outbox.len();
    let mut i: usize = 0;
    while i < n
        invariant
            n == outbox@.len(),
            i <= n,
            i == n || i == out@.len() * 500,
            i == n ==> out@.len() == batch_count(n as nat),
            i < n ==> out@.len() * 500 == i,
            forall|k: int| 0 <= k < out@.len() ==> (#[trigger] out@[k])@ == batch_of(outbox@, k),
        decreases n - i,
    {
        let end: usize = if n - i > MAX_BATCH {
            i + MAX_BATCH
        } else {
            n
        };
        let batch = vstd::slice::slice_subrange(outbox, i, end);
        out.push(batch);
        i = end;
    }
    out
}

/// The batches laid end to end, from the first to the `k`th.
pub open spec fn rejoined(outbox: Seq<ChangeRecord>, k: nat) -> Seq<ChangeRecord>
    decreases k,
{
    if k == 0 {
        Seq::empty()
    } else {
        rejoined(outbox, (k - 1) as nat) + batch_of(outbox, k - 1)
    }
}

/// Laid end to end, the batches are the outbox, and none is longer than the limit
/// or empty.
pub proof fn law_batches_are_the_outbox(outbox: Seq<ChangeRecord>)
    ensures
        rejoined(outbox, batch_count(outbox.len())) == outbox,
        forall|k: int|
            0 <= k < batch_count(outbox.len()) ==> 1 <= (#[trigger] batch_of(outbox, k)).len() <= MAX_BATCH,
{
    let n = batch_count(outbox.len());
    lemma_rejoined(outbox, n);
    if n > 0 {
        let end = if n * 500 <= outbox.len() { (n * 500) as int } else { outbox.len() as int };
        assert(end == outbox.len());
    }
    assert(rejoined(outbox, n) =~= outbox);
}

proof fn lemma_rejoined(outbox: Seq<ChangeRecord>, k: nat)
    requires
        k <= batch_count(outbox.len()),
    ensures
        rejoined(outbox, k) == outbox.take(if k * 500 <= outbox.len() { (k * 500) as int } else { outbox.len() as int }),
    decreases k,
{
    if k > 0 {
        lemma_rejoined(outbox, (k - 1) as nat);
        let a = (k - 1) * 500;
        let b = if k * 500 <= outbox.len() { (k * 500) as int } else { outbox.len() as int };
        assert(outbox.take(a) + outbox.subrange(a, b) =~= outbox.take(b));
    } else {
        assert(outbox.take(0) =~= Seq::<ChangeRecord>::empty());
    }
}

/// The cursor that a kept text says, zero where it says none.
pub open spec fn watermark_of(kept: Option<Seq<char>>) -> int {
    match kept {
        Some(s) => match parse_int(s) {
            Some(n) => n,
            None => 0,
        },
        None => 0,
    }
}

/// See [`watermark_of`].
pub fn read_watermark(kept: Option<&str>) -> (r: i64)
    ensures
        r == watermark_of(crate::status::figures::opt_view(kept)),
{
    match kept {
        Some(s) => match parse_i64(s) {
            Some(n) => n,
            None => 0,
        },
        None => 0,
    }
}

/// The cursor after the server proposes one: the further of the two, and the text
/// under which it is kept.
pub fn advance_watermark(kept: Option<&str>, proposed: i64) -> (r: (i64, String))
    ensures
        r.0 == if proposed >= watermark_of(crate::status::figures::opt_view(kept)) {
            proposed as int
        } else {
            watermark_of(crate::status::figures::opt_view(kept))
        },
        r.1@ == dec_int(r.0 as int),
{
    let cur: i64 = read_watermark(kept);
    let next: i64 = if proposed >= cur {
        proposed
    } else {
        cur
    };
    let mut s = String::new();
    push_dec_int(&mut s, next);
    assert(s@ =~= dec_int(next as int));
    (next, s)
}

/// The cursor never moves back, and what is kept of it reads back as it was.
pub proof fn law_watermark_is_monotonic(kept: Option<Seq<char>>, proposed: i64, next: i64)
    requires
        next == if proposed >= watermark_of(kept) { proposed as int } else { watermark_of(kept) },
    ensures
        next >= watermark_of(kept),
        next >= proposed,
        watermark_of(Some(dec_int(next as int))) == next,
{
    crate::text::law_integers_read_back(next);
}

/// A cursor that was kept reads back, and without one the sync begins at the start.
pub proof fn law_a_kept_cursor_reads_back(n: i64)
    ensures
        watermark_of(Some(dec_int(n as int))) == n,
        watermark_of(None) == 0,
{
    law_integers_read_back(n);
}

/// A batch holds five hundred changes, the last one what is left, and none is empty.
pub proof fn law_a_batch_is_full_but_for_the_last(outbox: Seq<ChangeRecord>, k: int)
    requires
        0 <= k < batch_count(outbox.len()),
    ensures
        1 <= batch_of(outbox, k).len() <= 500,
        k + 1 < batch_count(outbox.len()) ==> batch_of(outbox, k).len() == 500,
        forall|i: int| 0 <= i < batch_of(outbox, k).len() ==> #[trigger] batch_of(outbox, k)[i] == outbox[500 * k + i],
{
}

} // verus!
