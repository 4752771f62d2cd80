//! The drop animation of a released single-column drag.
//!
//! On release the dragged entry is removed from the collection at once
//! and held by the animation session; it is reinserted exactly once, when
//! the animation's time is up, at its target slot clamped to the length
//! the collection has by then (the collection may have shrunk in flight).
//! The eased visual offset is a rendering concern outside the engine.

use vstd::prelude::*;

use crate::pins::{has_key, PinnedApp, PinnedCollection, MAX_PINNED_APPS};

verus! {

/// How long a drop animation runs, in milliseconds.
pub const DROP_ANIM_MS: u64 = 200;

/// A detached entry travelling to its commit point. While this session
/// exists the entry is not a member of the collection.
pub struct DropAnim {
    /// The detached entry, owned here until commit.
    pub item: PinnedApp,
    /// Where the entry is to be reinserted, clamped at commit time.
    pub insert_at: usize,
    /// When the animation started, in milliseconds.
    pub start_ms: u64,
    /// Vertical pixel position the entry detached at.
    pub start_y: i32,
    /// Vertical pixel position of the target slot.
    pub end_y: i32,
}

/// The invariant tying an animation session to the collection it left:
/// the collection is well-formed, has room again, and no longer carries
/// the detached entry's key.
pub open spec fn anim_session_wf(col: PinnedCollection, anim: DropAnim) -> bool {
    col.wf() && col.apps@.len() < MAX_PINNED_APPS && !has_key(col.apps@, anim.item.spec_key())
}

/// Whether the animation's time is up. The clock is monotone, so `now_ms`
/// never lies before the start.
pub fn drop_anim_done(anim: &DropAnim, now_ms: u64) -> (r: bool)
    requires
        anim.start_ms <= now_ms,
    ensures
        r == (now_ms - anim.start_ms >= DROP_ANIM_MS),
{
    now_ms - anim.start_ms >= DROP_ANIM_MS
}

/// Detaches the entry at `from` and opens its drop-animation session: the
/// entry travels from `start_y` to `end_y` and will be reinserted at
/// `slot`, clamped to the length the collection has at commit.
pub fn begin_drop(
    col: &mut PinnedCollection,
    from: usize,
    slot: usize,
    now_ms: u64,
    start_y: i32,
    end_y: i32,
) -> (anim: DropAnim)
    requires
        old(col).wf(),
        from < old(col).apps@.len(),
    ensures
        final(col).wf(),
        final(col).apps@ == old(col).apps@.remove(from as int),
        anim.item == old(col).apps@[from as int],
        anim.insert_at == (if (slot as int) <= old(col).apps@.len() - 1 {
            slot as int
        } else {
            old(col).apps@.len() - 1
        }),
        anim.start_ms == now_ms,
        anim.start_y == start_y,
        anim.end_y == end_y,
        anim_session_wf(*final(col), anim),
{
    let item = col.remove_at(from);
    proof {
        let s = old(col).apps@;
        let t = col.apps@;
        if has_key(t, item.spec_key()) {
            let i = choose|i: int| 0 <= i < t.len() && t[i].spec_key() == item.spec_key();
            let si: int = if i < from { i } else { i + 1 };
            assert(t[i] == s[si]);
            assert(s[si].spec_key() == s[from as int].spec_key());
            assert(false);
        }
    }
    let insert_at = if slot <= col.len() {
        slot
    } else {
        col.len()
    };
    DropAnim { item, insert_at, start_ms: now_ms, start_y, end_y }
}

/// Commits a finished drop: the held entry returns to the collection at
/// its target slot, clamped to the current end, and the session closes.
/// Hands back the index the entry landed at, which becomes the selection.
pub fn commit_drop(col: &mut PinnedCollection, anim: DropAnim) -> (at: usize)
    requires
        anim_session_wf(*old(col), anim),
    ensures
        final(col).wf(),
        at == (if (anim.insert_at as int) <= old(col).apps@.len() {
            anim.insert_at as int
        } else {
            old(col).apps@.len() as int
        }),
        final(col).apps@ == old(col).apps@.insert(at as int, anim.item),
        final(col).apps@.len() == old(col).apps@.len() + 1,
{
    let at = if anim.insert_at <= col.len() {
        anim.insert_at
    } else {
        col.len()
    };
    proof {
        let s = col.apps@;
        let t = s.insert(at as int, anim.item);
        assert forall|i: int, j: int|
            0 <= i < j < t.len() implies t[i].spec_key() != t[j].spec_key() by {
            let oi: int = if i < at {
                i
            } else {
                i - 1
            };
            let oj: int = if j < at {
                j
            } else {
                j - 1
            };
            if i == at {
                assert(t[i] == anim.item);
                assert(t[j] == s[oj]);
                assert(!has_key(s, anim.item.spec_key()));
            } else if j == at {
                assert(t[j] == anim.item);
                assert(t[i] == s[oi]);
                assert(!has_key(s, anim.item.spec_key()));
            } else {
                assert(t[i] == s[oi]);
                assert(t[j] == s[oj]);
            }
        }
    }
    col.apps.insert(at, anim.item);
    at
}

/// A drop animation nets no length change: detaching an entry and
/// committing the animation reinserts it, so the collection ends with the
/// same entries. When the collection shrank in flight the insertion point
/// is clamped to the new end and the entry still arrives.
pub proof fn lemma_drop_round_trip(apps: Seq<PinnedApp>, from: int, slot: int)
    requires
        0 <= from < apps.len(),
        0 <= slot,
    ensures
        ({
            let detached = apps.remove(from);
            let at = if slot <= detached.len() {
                slot
            } else {
                detached.len() as int
            };
            let done = detached.insert(at, apps[from]);
            done.len() == apps.len() && done.to_multiset() == apps.to_multiset()
        }),
{
    broadcast use vstd::seq_lib::group_to_multiset_ensures;
    broadcast use vstd::multiset::group_multiset_axioms;

    let detached = apps.remove(from);
    let at: int = if slot <= detached.len() {
        slot
    } else {
        detached.len() as int
    };
    let x = apps[from];
    let done = detached.insert(at, x);
    assert(detached.to_multiset() == apps.to_multiset().remove(x));
    assert(done.to_multiset() == detached.to_multiset().insert(x));
    assert(apps.contains(x));
    assert(apps.to_multiset().count(x) > 0);
    assert(apps.to_multiset().remove(x).insert(x) =~= apps.to_multiset());
}

} // verus!
