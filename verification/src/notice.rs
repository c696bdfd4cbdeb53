//! The record of what the application was told, and the order that every
//! such record keeps.
//!
//! The reactor appends a notice wherever it calls a callback. The record
//! exists for the proofs alone; nothing of it is there when the program runs.

use vstd::prelude::*;

verus! {

/// One thing that the application was told.
pub enum Notice {
    /// `handle_listen` for this identifier.
    Listening(usize),
    /// `handle_connect` for this identifier.
    Connected(usize),
    /// `handle_accept` for this listener and this new connection.
    Accepted(usize, usize),
    /// `handle_frames` for this connection, with these payloads.
    Frames(usize, Seq<Seq<u8>>),
    /// `handle_close` for this identifier.
    Closed(usize),
}

impl Notice {
    /// Whether the notice hands `id` to a new endpoint.
    pub open spec fn opens(self, id: usize) -> bool {
        match self {
            Notice::Listening(i) => i == id,
            Notice::Connected(i) => i == id,
            Notice::Accepted(_, i) => i == id,
            _ => false,
        }
    }

    /// Whether the notice says that the endpoint under `id` is gone.
    pub open spec fn closes(self, id: usize) -> bool {
        self == Notice::Closed(id)
    }

    /// Whether the notice speaks of `id` at all.
    pub open spec fn concerns(self, id: usize) -> bool {
        match self {
            Notice::Listening(i) => i == id,
            Notice::Connected(i) => i == id,
            Notice::Accepted(l, i) => l == id || i == id,
            Notice::Frames(i, _) => i == id,
            Notice::Closed(i) => i == id,
        }
    }
}

/// Whether, at the end of `log`, an endpoint lives under `id`: the last
/// notice that opened or closed `id` opened it.
pub open spec fn live(log: Seq<Notice>, id: usize) -> bool
    decreases log.len(),
{
    if log.len() == 0 {
        false
    } else if log.last().opens(id) {
        true
    } else if log.last().closes(id) {
        false
    } else {
        live(log.drop_last(), id)
    }
}

/// Whether `notice` may follow `before`: an identifier is opened only while
/// nothing lives under it, and everything else is told only of what lives.
pub open spec fn permitted(before: Seq<Notice>, notice: Notice) -> bool {
    match notice {
        Notice::Listening(i) => !live(before, i),
        Notice::Connected(i) => !live(before, i),
        Notice::Accepted(l, i) => live(before, l) && !live(before, i),
        Notice::Frames(i, _) => live(before, i),
        Notice::Closed(i) => live(before, i),
    }
}

/// Whether every notice of `log` was permitted where it stands.
pub open spec fn orderly(log: Seq<Notice>) -> bool
    decreases log.len(),
{
    log.len() == 0 || (orderly(log.drop_last()) && permitted(log.drop_last(), log.last()))
}

/// Every beginning of an orderly record is orderly.
pub proof fn lemma_orderly_prefix(log: Seq<Notice>, n: int)
    requires
        orderly(log),
        0 <= n <= log.len(),
    ensures
        orderly(log.take(n)),
    decreases log.len(),
{
    if n == log.len() {
        assert(log.take(n) =~= log);
    } else {
        lemma_orderly_prefix(log.drop_last(), n);
        assert(log.drop_last().take(n) =~= log.take(n));
    }
}

/// In an orderly record, each notice was permitted after those before it.
pub proof fn lemma_orderly_at(log: Seq<Notice>, j: int)
    requires
        orderly(log),
        0 <= j < log.len(),
    ensures
        permitted(log.take(j), log[j]),
{
    lemma_orderly_prefix(log, j + 1);
    let upto = log.take(j + 1);
    assert(upto.drop_last() =~= log.take(j));
    assert(upto.last() == log[j]);
}

/// Where nothing lives under `id` after `a` notices and something does after
/// `b`, one of the notices in between opened `id`.
pub proof fn lemma_revived(log: Seq<Notice>, a: int, b: int, id: usize)
    requires
        0 <= a <= b <= log.len(),
        !live(log.take(a), id),
        live(log.take(b), id),
    ensures
        exists|k: int| a <= k < b && #[trigger] log[k].opens(id),
    decreases b - a,
{
    if a == b {
        assert(false);
    } else {
        let upto = log.take(b);
        assert(upto.drop_last() =~= log.take(b - 1));
        assert(upto.last() == log[b - 1]);
        if log[b - 1].opens(id) {
            assert(log[b - 1].opens(id));
        } else {
            assert(live(log.take(b - 1), id));
            lemma_revived(log, a, b - 1, id);
            let k = choose|k: int| a <= k < b - 1 && #[trigger] log[k].opens(id);
            assert(log[k].opens(id));
        }
    }
}

/// The closing of an endpoint is the last thing told of it: whatever an
/// orderly record says of `id` after `Closed(id)` is said of a new endpoint,
/// opened under the same identifier after the closing. So until `id` is
/// handed out again the application hears nothing more of it, and no second
/// closing.
pub proof fn lemma_closed_is_final(log: Seq<Notice>, i: int, j: int, id: usize)
    requires
        orderly(log),
        0 <= i < j < log.len(),
        log[i] == Notice::Closed(id),
        log[j].concerns(id),
    ensures
        exists|k: int| i < k <= j && #[trigger] log[k].opens(id),
{
    let after_close = log.take(i + 1);
    assert(after_close.last() == log[i]);
    assert(!live(after_close, id));
    if log[j].opens(id) {
        assert(log[j].opens(id));
    } else {
        lemma_orderly_at(log, j);
        assert(live(log.take(j), id));
        lemma_revived(log, i + 1, j, id);
        let k = choose|k: int| i + 1 <= k < j && #[trigger] log[k].opens(id);
        assert(log[k].opens(id));
    }
}

/// Nothing is told of an endpoint before its opening: a notice of an orderly
/// record that speaks of `id` without opening it comes after one that opened
/// `id`. So frames and the closing of a connection follow its acceptance.
pub proof fn lemma_opened_first(log: Seq<Notice>, j: int, id: usize)
    requires
        orderly(log),
        0 <= j < log.len(),
        log[j].concerns(id),
        !log[j].opens(id),
    ensures
        exists|k: int| 0 <= k < j && #[trigger] log[k].opens(id),
{
    lemma_orderly_at(log, j);
    assert(live(log.take(j), id));
    assert(log.take(0) =~= Seq::<Notice>::empty());
    lemma_revived(log, 0, j, id);
}

/// Appending a permitted notice keeps a record orderly.
pub proof fn lemma_orderly_push(log: Seq<Notice>, notice: Notice)
    requires
        orderly(log),
        permitted(log, notice),
    ensures
        orderly(log.push(notice)),
{
    assert(log.push(notice).drop_last() =~= log);
    assert(log.push(notice).last() == notice);
}

/// What a notice does to who lives: one that opens `id` makes it live, one
/// that closes `id` ends it, and any other leaves it as it was.
pub proof fn lemma_live_push(log: Seq<Notice>, notice: Notice, id: usize)
    ensures
        live(log.push(notice), id) == if notice.opens(id) {
            true
        } else if notice.closes(id) {
            false
        } else {
            live(log, id)
        },
{
    assert(log.push(notice).drop_last() =~= log);
    assert(log.push(notice).last() == notice);
}

} // verus!
