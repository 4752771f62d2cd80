//! Two-column layout reconciliation.
//!
//! A persisted layout stores ordered key lists for the left and right
//! columns, never indices: indices are session-local and unstable, while
//! keys survive additions, removals and reordering between runs. The
//! reconciler recomputes which live indices belong to each column,
//! preserving relative order, dropping keys whose pin no longer exists,
//! and appending entries the layout has never seen to the left column.

use vstd::prelude::*;

use crate::keys::{bytes_copy, launch_key, normalize_launch_key, opt_bytes_copy, opt_owned};
use crate::pins::{is_permutation, keys_of, PinnedApp, PinnedCollection};

verus! {

/// One persisted column entry: the launch target a key is derived from.
#[derive(Debug)]
pub struct TwoColumnEntry {
    pub path: Vec<u8>,
    pub args: Option<Vec<u8>>,
    pub working_dir: Option<Vec<u8>>,
}

impl TwoColumnEntry {
    /// The identity key of this entry.
    pub open spec fn spec_key(&self) -> Seq<u8> {
        launch_key(self.path@, opt_owned(self.args), opt_owned(self.working_dir))
    }

    pub fn from_launch(path: Vec<u8>, args: Option<Vec<u8>>, working_dir: Option<Vec<u8>>) -> (r:
        TwoColumnEntry)
        ensures
            r.path@ == path@,
            opt_owned(r.args) == opt_owned(args),
            opt_owned(r.working_dir) == opt_owned(working_dir),
    {
        TwoColumnEntry { path, args, working_dir }
    }

    /// Computes the identity key of this entry.
    pub fn key(&self) -> (r: Vec<u8>)
        ensures
            r@ == self.spec_key(),
    {
        normalize_launch_key(&self.path, self.args.as_ref(), self.working_dir.as_ref())
    }
}

/// The persisted two-column layout: ordered key-bearing entries for the
/// left and the right column.
#[derive(Debug)]
pub struct TwoColumnLayout {
    pub left: Vec<TwoColumnEntry>,
    pub right: Vec<TwoColumnEntry>,
}

/// The identity keys of a sequence of layout entries, in order.
pub open spec fn entry_keys(es: Seq<TwoColumnEntry>) -> Seq<Seq<u8>> {
    es.map_values(|e: TwoColumnEntry| e.spec_key())
}

/// The two key lists a reconciliation runs against: empty when no layout
/// was persisted.
pub open spec fn layout_key_lists(layout: Option<&TwoColumnLayout>) -> (Seq<Seq<u8>>, Seq<
    Seq<u8>,
>) {
    match layout {
        Option::Some(l) => (entry_keys(l.left@), entry_keys(l.right@)),
        Option::None => (Seq::empty(), Seq::empty()),
    }
}

/// The views of a vector of computed keys.
pub open spec fn views_of(s: Seq<Vec<u8>>) -> Seq<Seq<u8>> {
    s.map_values(|v: Vec<u8>| v@)
}

/// The first live index at or past `i` that is unused and carries key `k`.
pub open spec fn find_unused(keys: Seq<Seq<u8>>, used: Seq<bool>, k: Seq<u8>, i: int) -> Option<
    int,
>
    decreases keys.len() - i,
{
    if i < 0 || i >= keys.len() {
        Option::None
    } else if !used[i] && keys[i] == k {
        Option::Some(i)
    } else {
        find_unused(keys, used, k, i + 1)
    }
}

/// Resolves one persisted column: for each wanted key in order, the first
/// unused live index with that key is taken and marked used; keys with no
/// live match are dropped. Yields the updated used markers and the taken
/// indices.
pub open spec fn resolve_column(keys: Seq<Seq<u8>>, used: Seq<bool>, wanted: Seq<Seq<u8>>) -> (
    Seq<bool>,
    Seq<usize>,
)
    decreases wanted.len(),
{
    if wanted.len() == 0 {
        (used, Seq::empty())
    } else {
        match find_unused(keys, used, wanted[0], 0) {
            Option::Some(i) => {
                let rest = resolve_column(keys, used.update(i, true), wanted.drop_first());
                (rest.0, seq![i as usize] + rest.1)
            },
            Option::None => resolve_column(keys, used, wanted.drop_first()),
        }
    }
}

/// The indices at or past `i` that are unused, in ascending order.
pub open spec fn unused_indices(used: Seq<bool>, i: int) -> Seq<usize>
    decreases used.len() - i,
{
    if i < 0 || i >= used.len() {
        Seq::empty()
    } else if !used[i] {
        seq![i as usize] + unused_indices(used, i + 1)
    } else {
        unused_indices(used, i + 1)
    }
}

/// The even indices below `n`: the fallback left column.
pub open spec fn even_indices(n: int) -> Seq<usize> {
    Seq::new((if n >= 0 { ((n + 1) / 2) as nat } else { 0nat }), |i: int| (2 * i) as usize)
}

/// The odd indices below `n`: the fallback right column.
pub open spec fn odd_indices(n: int) -> Seq<usize> {
    Seq::new((if n >= 0 { (n / 2) as nat } else { 0nat }), |i: int| (2 * i + 1) as usize)
}

/// What reconciliation yields on a sequence of live keys: the resolved
/// left and right index lists. When nothing matched (or no layout
/// existed), live indices are split alternately; otherwise every unused
/// live index is appended to the left column in ascending order.
pub open spec fn resolve_indices_spec(
    keys: Seq<Seq<u8>>,
    wanted_left: Seq<Seq<u8>>,
    wanted_right: Seq<Seq<u8>>,
) -> (Seq<usize>, Seq<usize>) {
    if keys.len() == 0 {
        (Seq::empty(), Seq::empty())
    } else {
        let no_used: Seq<bool> = Seq::new(keys.len(), |i: int| false);
        let first = resolve_column(keys, no_used, wanted_left);
        let second = resolve_column(keys, first.0, wanted_right);
        if first.1.len() == 0 && second.1.len() == 0 {
            (even_indices(keys.len() as int), odd_indices(keys.len() as int))
        } else {
            (first.1 + unused_indices(second.0, 0), second.1)
        }
    }
}

/// How many markers are set at or past `i`.
pub open spec fn count_true_from(used: Seq<bool>, i: int) -> int
    decreases used.len() - i,
{
    if i < 0 || i >= used.len() {
        0
    } else {
        (if used[i] {
            1int
        } else {
            0int
        }) + count_true_from(used, i + 1)
    }
}

proof fn lemma_count_nonneg(used: Seq<bool>, k: int)
    ensures
        0 <= count_true_from(used, k) <= (if 0 <= k <= used.len() {
            used.len() - k
        } else {
            used.len() as int
        }),
    decreases used.len() - k,
{
    if 0 <= k < used.len() {
        lemma_count_nonneg(used, k + 1);
    }
}

proof fn lemma_count_update(used: Seq<bool>, i: int, k: int)
    requires
        0 <= i < used.len(),
        !used[i],
        0 <= k,
    ensures
        count_true_from(used.update(i, true), k) == count_true_from(used, k) + (if k <= i {
            1int
        } else {
            0int
        }),
    decreases used.len() - k,
{
    if k < used.len() {
        lemma_count_update(used, i, k + 1);
    }
}

proof fn lemma_count_all_false(used: Seq<bool>, k: int)
    requires
        forall|j: int| 0 <= j < used.len() ==> !used[j],
        0 <= k,
    ensures
        count_true_from(used, k) == 0,
    decreases used.len() - k,
{
    if k < used.len() {
        lemma_count_all_false(used, k + 1);
    }
}

proof fn lemma_find_unused_props(keys: Seq<Seq<u8>>, used: Seq<bool>, k: Seq<u8>, i: int)
    requires
        0 <= i,
    ensures
        find_unused(keys, used, k, i) matches Some(j) ==> i <= j < keys.len() && !used[j]
            && keys[j] == k && forall|t: int| i <= t < j ==> used[t] || keys[t] != k,
        find_unused(keys, used, k, i) is None ==> forall|t: int|
            i <= t < keys.len() ==> used[t] || keys[t] != k,
    decreases keys.len() - i,
{
    if i < keys.len() && !(!used[i] && keys[i] == k) {
        lemma_find_unused_props(keys, used, k, i + 1);
    }
}

/// What resolving one column does to the markers and what it picks: the
/// markers grow by exactly the picked indices, each picked index was
/// unused and in range, no index is picked twice, and the number of set
/// markers grows by the number of picked indices.
proof fn lemma_resolve_column_props(keys: Seq<Seq<u8>>, used: Seq<bool>, wanted: Seq<Seq<u8>>)
    requires
        used.len() == keys.len(),
        keys.len() <= usize::MAX,
    ensures
        ({
            let outcome = resolve_column(keys, used, wanted);
            &&& outcome.0.len() == used.len()
            &&& forall|j: int|
                0 <= j < used.len() ==> (outcome.0[j] == (used[j] || exists|t: int|
                    0 <= t < outcome.1.len() && outcome.1[t] as int == j))
            &&& forall|t: int|
                0 <= t < outcome.1.len() ==> (outcome.1[t] as int) < used.len() && !used[
                    outcome.1[t] as int
                ]
            &&& forall|t1: int, t2: int|
                0 <= t1 < t2 < outcome.1.len() ==> outcome.1[t1] != outcome.1[t2]
            &&& count_true_from(outcome.0, 0) == count_true_from(used, 0) + outcome.1.len()
        }),
    decreases wanted.len(),
{
    if wanted.len() == 0 {
    } else {
        lemma_find_unused_props(keys, used, wanted[0], 0);
        match find_unused(keys, used, wanted[0], 0) {
            Option::Some(i) => {
                let used1 = used.update(i, true);
                lemma_resolve_column_props(keys, used1, wanted.drop_first());
                lemma_count_update(used, i, 0);
                let rest = resolve_column(keys, used1, wanted.drop_first());
                let outcome = resolve_column(keys, used, wanted);
                assert(0 <= i && i <= usize::MAX);
                assert(outcome.1 == seq![i as usize] + rest.1);
                assert(outcome.1[0] as int == i);
                assert forall|j: int|
                    0 <= j < used.len() implies (outcome.0[j] == (used[j] || exists|t: int|
                        0 <= t < outcome.1.len() && outcome.1[t] as int == j)) by {
                    if outcome.0[j] {
                        if !used[j] {
                            if j == i {
                                assert(outcome.1[0] as int == j);
                            } else {
                                assert(used1[j] || exists|t: int|
                                    0 <= t < rest.1.len() && rest.1[t] as int == j);
                                let t = choose|t: int|
                                    0 <= t < rest.1.len() && rest.1[t] as int == j;
                                assert(outcome.1[t + 1] as int == j);
                            }
                        }
                    } else {
                        assert(rest.0[j] == (used1[j] || exists|t: int|
                            0 <= t < rest.1.len() && rest.1[t] as int == j));
                        assert(!used1[j]);
                        assert(!used[j]);
                        assert(j != i);
                        if exists|t: int| 0 <= t < outcome.1.len() && outcome.1[t] as int == j {
                            let t = choose|t: int|
                                0 <= t < outcome.1.len() && outcome.1[t] as int == j;
                            if t == 0 {
                                assert(j == i);
                            } else {
                                assert(rest.1[t - 1] as int == j);
                                assert(rest.0[j]);
                            }
                            assert(false);
                        }
                    }
                }
                assert forall|t1: int, t2: int|
                    0 <= t1 < t2 < outcome.1.len() implies outcome.1[t1] != outcome.1[t2] by {
                    if t1 == 0 {
                        assert(rest.1[t2 - 1] as int != i) by {
                            assert(!used1[rest.1[t2 - 1] as int]);
                        }
                    } else {
                        assert(rest.1[t1 - 1] != rest.1[t2 - 1]);
                    }
                }
                assert forall|t: int|
                    0 <= t < outcome.1.len() implies (outcome.1[t] as int) < used.len() && !used[
                    outcome.1[t] as int
                ] by {
                    if t > 0 {
                        assert((rest.1[t - 1] as int) < used1.len() && !used1[rest.1[t
                            - 1] as int]);
                    }
                }
            },
            Option::None => {
                lemma_resolve_column_props(keys, used, wanted.drop_first());
            },
        }
    }
}

/// What the list of unused indices holds: exactly the unmarked indices at
/// or past `i`, in strictly ascending order.
proof fn lemma_unused_indices_props(used: Seq<bool>, i: int)
    requires
        0 <= i,
        used.len() <= usize::MAX,
    ensures
        ({
            let un = unused_indices(used, i);
            &&& forall|t: int|
                0 <= t < un.len() ==> i <= un[t] as int && (un[t] as int) < used.len() && !used[
                    un[t] as int
                ]
            &&& forall|t1: int, t2: int| 0 <= t1 < t2 < un.len() ==> un[t1] < un[t2]
            &&& forall|j: int|
                i <= j < used.len() && !used[j] ==> exists|t: int|
                    0 <= t < un.len() && un[t] as int == j
            &&& un.len() == (if i <= used.len() {
                used.len() - i - count_true_from(used, i)
            } else {
                0int
            })
        }),
    decreases used.len() - i,
{
    lemma_count_nonneg(used, i);
    if i < used.len() {
        lemma_unused_indices_props(used, i + 1);
        let un = unused_indices(used, i);
        let rest = unused_indices(used, i + 1);
        if !used[i] {
            assert(0 <= i && i <= usize::MAX);
            assert(un == seq![i as usize] + rest);
            assert(un[0] as int == i);
            assert forall|j: int|
                i <= j < used.len() && !used[j] implies exists|t: int|
                    0 <= t < un.len() && un[t] as int == j by {
                if j == i {
                    assert(un[0] as int == j);
                } else {
                    let t = choose|t: int| 0 <= t < rest.len() && rest[t] as int == j;
                    assert(un[t + 1] as int == j);
                }
            }
            assert forall|t1: int, t2: int|
                0 <= t1 < t2 < un.len() implies un[t1] < un[t2] by {
                if t1 == 0 {
                    assert(i + 1 <= rest[t2 - 1] as int);
                } else {
                    assert(rest[t1 - 1] < rest[t2 - 1]);
                }
            }
        } else {
            assert forall|j: int|
                i <= j < used.len() && !used[j] implies exists|t: int|
                    0 <= t < un.len() && un[t] as int == j by {
                let t = choose|t: int| 0 <= t < rest.len() && rest[t] as int == j;
                assert(un[t] as int == j);
            }
        }
    }
}

/// Reconciliation covers every live index exactly once: the left and the
/// right column lists, taken together, are a permutation of `0..n`.
pub proof fn lemma_resolve_partition(keys: Seq<Seq<u8>>, lw: Seq<Seq<u8>>, rw: Seq<Seq<u8>>)
    requires
        keys.len() <= usize::MAX,
    ensures
        ({
            let s = resolve_indices_spec(keys, lw, rw);
            is_permutation(s.0 + s.1, keys.len())
        }),
{
    let n = keys.len() as int;
    if n == 0 {
        let s = resolve_indices_spec(keys, lw, rw);
        assert((s.0 + s.1).len() == 0);
    } else {
        let no_used: Seq<bool> = Seq::new(keys.len(), |i: int| false);
        let first = resolve_column(keys, no_used, lw);
        let second = resolve_column(keys, first.0, rw);
        lemma_resolve_column_props(keys, no_used, lw);
        lemma_resolve_column_props(keys, first.0, rw);
        lemma_count_all_false(no_used, 0);
        if first.1.len() == 0 && second.1.len() == 0 {
            let ev = even_indices(n);
            let od = odd_indices(n);
            let c = ev + od;
            assert(c.len() == n) by {
                assert(ev.len() + od.len() == n);
            }
            assert forall|i: int| 0 <= i < c.len() implies (c[i] as int) < n by {
                if i < ev.len() {
                    assert(c[i] == ev[i]);
                    assert(2 * i < n);
                    assert(0 <= 2 * i && 2 * i <= usize::MAX);
                    assert(ev[i] as int == 2 * i);
                } else {
                    assert(c[i] == od[i - ev.len()]);
                    assert(2 * (i - ev.len()) + 1 < n);
                    assert(0 <= 2 * (i - ev.len()) + 1 && 2 * (i - ev.len()) + 1 <= usize::MAX);
                    assert(od[i - ev.len()] as int == 2 * (i - ev.len()) + 1);
                }
            }
            assert forall|i: int, j: int| 0 <= i < j < c.len() implies c[i] != c[j] by {
                assert((c[i] as int) < n && (c[j] as int) < n);
                if i < ev.len() && j < ev.len() {
                    assert(c[i] as int == 2 * i && c[j] as int == 2 * j);
                } else if i < ev.len() {
                    assert(c[i] as int == 2 * i && c[j] as int == 2 * (j - ev.len()) + 1);
                } else {
                    assert(c[i] as int == 2 * (i - ev.len()) + 1);
                    assert(c[j] as int == 2 * (j - ev.len()) + 1);
                }
            }
        } else {
            lemma_unused_indices_props(second.0, 0);
            let fresh = unused_indices(second.0, 0);
            let lcol = first.1 + fresh;
            let c = lcol + second.1;
            assert(count_true_from(second.0, 0) == first.1.len() + second.1.len());
            assert(fresh.len() == n - first.1.len() - second.1.len());
            assert(c.len() == n);
            assert forall|i: int| 0 <= i < c.len() implies (c[i] as int) < n by {
                if i < first.1.len() {
                    assert(c[i] == first.1[i]);
                } else if i < lcol.len() {
                    assert(c[i] == fresh[i - first.1.len()]);
                } else {
                    assert(c[i] == second.1[i - lcol.len()]);
                }
            }
            // Which part an index of the concatenation falls in decides its
            // marker history: first-column picks are set by the first pass,
            // second-column picks only by the second, fresh ones never.
            assert forall|i: int, j: int| 0 <= i < j < c.len() implies c[i] != c[j] by {
                let fl = first.1.len() as int;
                let ll = lcol.len() as int;
                if i < fl {
                    assert(c[i] == first.1[i]);
                    assert(first.0[first.1[i] as int]);
                    assert(second.0[first.1[i] as int]);
                    if j < fl {
                        assert(c[j] == first.1[j]);
                    } else if j < ll {
                        assert(c[j] == fresh[j - fl]);
                        assert(!second.0[fresh[j - fl] as int]);
                    } else {
                        assert(c[j] == second.1[j - ll]);
                        assert(!first.0[second.1[j - ll] as int]);
                    }
                } else if i < ll {
                    assert(c[i] == fresh[i - fl]);
                    assert(!second.0[fresh[i - fl] as int]);
                    if j < ll {
                        assert(c[j] == fresh[j - fl]);
                        assert(fresh[i - fl] < fresh[j - fl]);
                    } else {
                        assert(c[j] == second.1[j - ll]);
                        assert(second.0[second.1[j - ll] as int]);
                    }
                } else {
                    assert(c[i] == second.1[i - ll]);
                    assert(c[j] == second.1[j - ll]);
                }
            }
        }
    }
}

/// New entries absent from a persisted layout land in the left column,
/// after the indices the layout matched, in their relative collection
/// order: the tail of the resolved left list is exactly the ascending
/// list of the live indices no persisted key matched.
pub proof fn lemma_new_entries_go_left(keys: Seq<Seq<u8>>, lw: Seq<Seq<u8>>, rw: Seq<Seq<u8>>)
    requires
        keys.len() <= usize::MAX,
        keys.len() > 0,
    ensures
        ({
            let no_used: Seq<bool> = Seq::new(keys.len(), |i: int| false);
            let first = resolve_column(keys, no_used, lw);
            let second = resolve_column(keys, first.0, rw);
            let s = resolve_indices_spec(keys, lw, rw);
            let fresh = unused_indices(second.0, 0);
            (first.1.len() > 0 || second.1.len() > 0) ==> {
                &&& s.0 == first.1 + fresh
                &&& forall|t: int|
                    0 <= t < fresh.len() ==> (fresh[t] as int) < keys.len() && !second.0[
                        fresh[t] as int
                    ]
                &&& forall|t1: int, t2: int| 0 <= t1 < t2 < fresh.len() ==> fresh[t1] < fresh[t2]
                &&& forall|j: int|
                    0 <= j < keys.len() && !second.0[j] ==> exists|t: int|
                        0 <= t < fresh.len() && fresh[t] as int == j
            }
        }),
{
    let no_used: Seq<bool> = Seq::new(keys.len(), |i: int| false);
    let first = resolve_column(keys, no_used, lw);
    let second = resolve_column(keys, first.0, rw);
    lemma_resolve_column_props(keys, no_used, lw);
    lemma_resolve_column_props(keys, first.0, rw);
    lemma_unused_indices_props(second.0, 0);
}

/// Markers that are set exactly below a cut.
spec fn mark_prefix(n: int, s: int) -> Seq<bool> {
    Seq::new(if n >= 0 {
        n as nat
    } else {
        0nat
    }, |i: int| i < s)
}

proof fn lemma_find_unused_at(keys: Seq<Seq<u8>>, used: Seq<bool>, k: Seq<u8>, i: int, s: int)
    requires
        0 <= i <= s < keys.len(),
        used.len() == keys.len(),
        !used[s],
        keys[s] == k,
        forall|t: int| i <= t < s ==> used[t] || keys[t] != k,
    ensures
        find_unused(keys, used, k, i) == Option::Some(s),
    decreases s - i,
{
    if i < s {
        lemma_find_unused_at(keys, used, k, i + 1, s);
    }
}

/// Resolving a column whose wanted keys are exactly the live keys from a
/// cut onward, with exactly the keys below the cut already used, matches
/// each wanted key to its own index: the layout that mirrors the live
/// order reconciles to the identity.
proof fn lemma_resolve_identity_column(keys: Seq<Seq<u8>>, s: int, m: int)
    requires
        keys.len() <= usize::MAX,
        forall|i: int, j: int| 0 <= i < j < keys.len() ==> keys[i] != keys[j],
        0 <= s,
        0 <= m,
        s + m <= keys.len(),
    ensures
        resolve_column(keys, mark_prefix(keys.len() as int, s), keys.subrange(s, s + m)) == (
            mark_prefix(keys.len() as int, s + m),
            Seq::new(m as nat, |t: int| (s + t) as usize),
        ),
    decreases m,
{
    let n = keys.len() as int;
    let used = mark_prefix(n, s);
    let wanted = keys.subrange(s, s + m);
    if m == 0 {
        assert(wanted.len() == 0);
        assert(Seq::new(0nat, |t: int| (s + t) as usize) =~= Seq::<usize>::empty());
    } else {
        assert(wanted[0] == keys[s]);
        lemma_find_unused_at(keys, used, keys[s], 0, s);
        assert(find_unused(keys, used, wanted[0], 0) == Option::Some(s));
        assert(used.update(s, true) =~= mark_prefix(n, s + 1));
        assert(wanted.drop_first() =~= keys.subrange(s + 1, s + m));
        lemma_resolve_identity_column(keys, s + 1, m - 1);
        let rest = resolve_column(keys, mark_prefix(n, s + 1), keys.subrange(s + 1, s + m));
        assert(rest.1 == Seq::new((m - 1) as nat, |t: int| (s + 1 + t) as usize));
        assert(seq![s as usize] + rest.1 =~= Seq::new(m as nat, |t: int| (s + t) as usize));
    }
}

/// Reconciliation is idempotent. A collection with distinct keys, split
/// at `k` and persisted as the layout whose left keys are the first `k`
/// live keys and whose right keys are the rest, reconciles to the
/// identity split: left gets indices `0..k` in order, right `k..n`, so
/// reordering by that split changes nothing.
pub proof fn lemma_reconcile_idempotent(keys: Seq<Seq<u8>>, k: int)
    requires
        keys.len() <= usize::MAX,
        forall|i: int, j: int| 0 <= i < j < keys.len() ==> keys[i] != keys[j],
        0 <= k <= keys.len(),
    ensures
        ({
            let s = resolve_indices_spec(keys, keys.take(k), keys.skip(k));
            &&& s.0 == Seq::new(k as nat, |i: int| i as usize)
            &&& s.1 == Seq::new((keys.len() - k) as nat, |i: int| (k + i) as usize)
        }),
{
    let n = keys.len() as int;
    if n == 0 {
        assert(Seq::new(0nat, |i: int| i as usize) =~= Seq::<usize>::empty());
    } else {
        let no_used: Seq<bool> = Seq::new(keys.len(), |i: int| false);
        assert(no_used =~= mark_prefix(n, 0));
        assert(keys.take(k) =~= keys.subrange(0, k));
        assert(keys.skip(k) =~= keys.subrange(k, n));
        lemma_resolve_identity_column(keys, 0, k);
        let first = resolve_column(keys, no_used, keys.take(k));
        assert(first.0 == mark_prefix(n, k));
        assert(first.1 == Seq::new(k as nat, |t: int| t as usize));
        lemma_resolve_identity_column(keys, k, n - k);
        let second = resolve_column(keys, first.0, keys.skip(k));
        assert(second.0 == mark_prefix(n, n));
        assert(second.1 == Seq::new((n - k) as nat, |t: int| (k + t) as usize));
        assert(first.1.len() + second.1.len() == n);
        assert(first.1.len() > 0 || second.1.len() > 0);
        assert(unused_indices(second.0, 0) =~= Seq::<usize>::empty()) by {
            lemma_unused_indices_props(second.0, 0);
            let un = unused_indices(second.0, 0);
            if un.len() > 0 {
                assert(!second.0[un[0] as int]);
            }
        }
        let s = resolve_indices_spec(keys, keys.take(k), keys.skip(k));
        assert(s.0 =~= Seq::new(k as nat, |i: int| i as usize));
    }
}

/// Some unused live entry carries the key `k`.
pub open spec fn key_available(keys: Seq<Seq<u8>>, used: Seq<bool>, k: Seq<u8>) -> bool {
    exists|j: int| 0 <= j < keys.len() && !used[j] && #[trigger] keys[j] == k
}

/// Reconciliation is idempotent at the collection level: reconciling any
/// layout against a collection with distinct keys, reordering the
/// collection by the resolved split, and deriving the layout anew from
/// that split, a second reconciliation yields the identity split, and
/// reordering by it changes nothing.
pub proof fn lemma_reconcile_reorder_fixpoint(
    apps: Seq<PinnedApp>,
    lw: Seq<Seq<u8>>,
    rw: Seq<Seq<u8>>,
)
    requires
        apps.len() <= usize::MAX,
        crate::pins::distinct_keys(apps),
    ensures
        ({
            let s = resolve_indices_spec(keys_of(apps), lw, rw);
            let order = s.0 + s.1;
            let apps2 = Seq::new(order.len(), |i: int| apps[order[i] as int]);
            let k = s.0.len() as int;
            let s2 = resolve_indices_spec(
                keys_of(apps2),
                keys_of(apps2).take(k),
                keys_of(apps2).skip(k),
            );
            &&& s2.0 == Seq::new(k as nat, |i: int| i as usize)
            &&& s2.1 == Seq::new((apps.len() - k) as nat, |i: int| (k + i) as usize)
            &&& Seq::new((s2.0 + s2.1).len(), |i: int| apps2[(s2.0 + s2.1)[i] as int]) == apps2
        }),
{
    let keys = keys_of(apps);
    let n = apps.len() as int;
    lemma_resolve_partition(keys, lw, rw);
    let s = resolve_indices_spec(keys, lw, rw);
    let order = s.0 + s.1;
    assert(is_permutation(order, apps.len()));
    let apps2 = Seq::new(order.len(), |i: int| apps[order[i] as int]);
    let keys2 = keys_of(apps2);
    assert(keys2.len() == n);
    assert forall|i: int, j: int| 0 <= i < j < keys2.len() implies keys2[i] != keys2[j] by {
        assert(keys2[i] == apps2[i].spec_key());
        assert(keys2[j] == apps2[j].spec_key());
        assert(apps2[i] == apps[order[i] as int]);
        assert(apps2[j] == apps[order[j] as int]);
        assert(order[i] != order[j]);
    }
    let k = s.0.len() as int;
    assert(0 <= k <= n);
    lemma_reconcile_idempotent(keys2, k);
    let s2 = resolve_indices_spec(keys2, keys2.take(k), keys2.skip(k));
    let c = s2.0 + s2.1;
    assert forall|i: int| 0 <= i < c.len() implies c[i] as int == i by {
        if i < k {
            assert(c[i] == s2.0[i]);
        } else {
            assert(c[i] == s2.1[i - k]);
        }
    }
    assert(Seq::new(c.len(), |i: int| apps2[c[i] as int]) =~= apps2);
}

/// Resolving a column all of whose wanted keys are carried by some unused
/// live entry — the live keys being distinct, and the wanted keys
/// distinct among themselves — matches every wanted key: the picked
/// indices carry exactly the wanted keys, in order.
proof fn lemma_resolve_column_exact(keys: Seq<Seq<u8>>, used: Seq<bool>, wanted: Seq<Seq<u8>>)
    requires
        used.len() == keys.len(),
        keys.len() <= usize::MAX,
        forall|i: int, j: int| 0 <= i < j < keys.len() ==> keys[i] != keys[j],
        forall|t1: int, t2: int| 0 <= t1 < t2 < wanted.len() ==> wanted[t1] != wanted[t2],
        forall|t: int| 0 <= t < wanted.len() ==> key_available(keys, used, #[trigger] wanted[t]),
    ensures
        resolve_column(keys, used, wanted).1.len() == wanted.len(),
        forall|t: int|
            0 <= t < wanted.len() ==> ((#[trigger] resolve_column(keys, used, wanted).1[
                t
            ]) as int) < keys.len() && keys[resolve_column(keys, used, wanted).1[t] as int]
                == wanted[t],
    decreases wanted.len(),
{
    if wanted.len() > 0 {
        assert(key_available(keys, used, wanted[0]));
        let j0 = choose|j: int| 0 <= j < keys.len() && !used[j] && #[trigger] keys[j] == wanted[0];
        lemma_find_unused_props(keys, used, wanted[0], 0);
        match find_unused(keys, used, wanted[0], 0) {
            Option::Some(i) => {
                let used1 = used.update(i, true);
                assert forall|t: int|
                    0 <= t < wanted.drop_first().len() implies key_available(
                        keys,
                        used1,
                        #[trigger] wanted.drop_first()[t],
                    ) by {
                    assert(wanted.drop_first()[t] == wanted[t + 1]);
                    assert(key_available(keys, used, wanted[t + 1]));
                    let j = choose|j: int|
                        0 <= j < keys.len() && !used[j] && #[trigger] keys[j] == wanted[t + 1];
                    assert(keys[i] == wanted[0]);
                    assert(wanted[t + 1] != wanted[0]);
                    assert(j != i);
                    assert(0 <= j < keys.len() && !used1[j] && keys[j] == wanted.drop_first()[t]);
                }
                lemma_resolve_column_exact(keys, used1, wanted.drop_first());
                let rest = resolve_column(keys, used1, wanted.drop_first());
                let outcome = resolve_column(keys, used, wanted);
                assert(outcome.1 == seq![i as usize] + rest.1);
                assert forall|t: int|
                    0 <= t < wanted.len() implies (outcome.1[t] as int) < keys.len() && keys[
                    outcome.1[t] as int
                ] == wanted[t] by {
                    if t == 0 {
                        assert(outcome.1[0] as int == i);
                    } else {
                        assert(outcome.1[t] == rest.1[t - 1]);
                        assert((rest.1[t - 1] as int) < keys.len() && keys[rest.1[t
                            - 1] as int] == wanted.drop_first()[t - 1]);
                        assert(wanted.drop_first()[t - 1] == wanted[t]);
                    }
                }
            },
            Option::None => {
                assert(used[j0] || keys[j0] != wanted[0]);
                assert(false);
            },
        }
    }
}

/// Round trip: when every persisted key is carried by a live entry, the
/// keys (live and persisted alike) are distinct, and the layout accounts
/// for the whole collection, then reordering by the reconciled split and
/// re-deriving the layout from the new order reproduces the persisted
/// left and right key lists exactly.
pub proof fn lemma_layout_round_trip(keys: Seq<Seq<u8>>, lw: Seq<Seq<u8>>, rw: Seq<Seq<u8>>)
    requires
        keys.len() <= usize::MAX,
        forall|i: int, j: int| 0 <= i < j < keys.len() ==> keys[i] != keys[j],
        forall|t1: int, t2: int|
            0 <= t1 < t2 < (lw + rw).len() ==> (lw + rw)[t1] != (lw + rw)[t2],
        forall|t: int| 0 <= t < (lw + rw).len() ==> keys.contains((lw + rw)[t]),
        (lw + rw).len() == keys.len(),
    ensures
        ({
            let s = resolve_indices_spec(keys, lw, rw);
            let order = s.0 + s.1;
            let keys2 = Seq::new(order.len(), |i: int| keys[order[i] as int]);
            keys2.take(lw.len() as int) == lw && keys2.skip(lw.len() as int) == rw
        }),
{
    let n = keys.len() as int;
    if n == 0 {
        assert(lw.len() == 0 && rw.len() == 0);
        let s = resolve_indices_spec(keys, lw, rw);
        let order = s.0 + s.1;
        let keys2 = Seq::new(order.len(), |i: int| keys[order[i] as int]);
        assert(keys2.take(0) =~= lw);
        assert(keys2.skip(0) =~= rw);
    } else {
        lemma_resolve_partition(keys, lw, rw);
        let no_used: Seq<bool> = Seq::new(keys.len(), |i: int| false);
        let first = resolve_column(keys, no_used, lw);
        let second = resolve_column(keys, first.0, rw);
        lemma_resolve_column_props(keys, no_used, lw);
        lemma_resolve_column_props(keys, first.0, rw);
        lemma_count_all_false(no_used, 0);

        assert forall|t: int|
            0 <= t < lw.len() implies key_available(keys, no_used, #[trigger] lw[t]) by {
            assert((lw + rw)[t] == lw[t]);
            assert(keys.contains(lw[t]));
            let j = choose|j: int| 0 <= j < keys.len() && keys[j] == lw[t];
            assert(0 <= j < keys.len() && !no_used[j] && keys[j] == lw[t]);
        }
        assert forall|t1: int, t2: int|
            0 <= t1 < t2 < lw.len() implies lw[t1] != lw[t2] by {
            assert((lw + rw)[t1] == lw[t1] && (lw + rw)[t2] == lw[t2]);
        }
        lemma_resolve_column_exact(keys, no_used, lw);
        assert(first.1.len() == lw.len());

        assert forall|t1: int, t2: int|
            0 <= t1 < t2 < rw.len() implies rw[t1] != rw[t2] by {
            assert((lw + rw)[lw.len() + t1] == rw[t1] && (lw + rw)[lw.len() + t2] == rw[t2]);
        }
        assert forall|t: int|
            0 <= t < rw.len() implies key_available(keys, first.0, #[trigger] rw[t]) by {
            assert((lw + rw)[lw.len() + t] == rw[t]);
            assert(keys.contains(rw[t]));
            let j = choose|j: int| 0 <= j < keys.len() && keys[j] == rw[t];
            if first.0[j] {
                assert(first.0[j] == (no_used[j] || exists|u: int|
                    0 <= u < first.1.len() && first.1[u] as int == j));
                let u = choose|u: int| 0 <= u < first.1.len() && first.1[u] as int == j;
                assert(0 <= u < lw.len());
                assert(keys[first.1[u] as int] == lw[u]);
                assert((lw + rw)[u] == lw[u]);
                assert(lw[u] == rw[t]);
                assert((lw + rw)[u] == (lw + rw)[lw.len() + t]);
                assert(false);
            }
            assert(0 <= j < keys.len() && !first.0[j] && keys[j] == rw[t]);
        }
        lemma_resolve_column_exact(keys, first.0, rw);
        assert(second.1.len() == rw.len());

        assert(count_true_from(second.0, 0) == lw.len() + rw.len());
        lemma_unused_indices_props(second.0, 0);
        let fresh = unused_indices(second.0, 0);
        assert(fresh.len() == 0);
        assert(first.1 + fresh =~= first.1);

        assert(lw.len() + rw.len() == n);
        assert(first.1.len() > 0 || second.1.len() > 0);
        let s = resolve_indices_spec(keys, lw, rw);
        assert(s.0 == first.1 && s.1 == second.1);
        let order = s.0 + s.1;
        let keys2 = Seq::new(order.len(), |i: int| keys[order[i] as int]);
        assert forall|t: int| 0 <= t < lw.len() implies keys2[t] == lw[t] by {
            assert(order[t] == first.1[t]);
            assert(keys[first.1[t] as int] == lw[t]);
        }
        assert forall|t: int| 0 <= t < rw.len() implies keys2[lw.len() + t] == rw[t] by {
            assert(order[lw.len() + t] == second.1[t]);
            assert(keys[second.1[t] as int] == rw[t]);
        }
        assert(keys2.take(lw.len() as int) =~= lw);
        assert(keys2.skip(lw.len() as int) =~= rw);
    }
}

/// The first unused live index whose key equals `target`, if any.
pub fn find_unused_index_by_key(keys: &Vec<Vec<u8>>, target: &Vec<u8>, used: &Vec<bool>) -> (r:
    Option<usize>)
    requires
        used@.len() == keys@.len(),
    ensures
        r is Some <==> find_unused(views_of(keys@), used@, target@, 0) is Some,
        r matches Some(i) ==> find_unused(views_of(keys@), used@, target@, 0) == Option::Some(
            i as int,
        ) && i < keys@.len(),
{
    let mut i: usize = 0;
    while i < keys.len()
        invariant
            i <= keys@.len(),
            used@.len() == keys@.len(),
            find_unused(views_of(keys@), used@, target@, 0) == find_unused(
                views_of(keys@),
                used@,
                target@,
                i as int,
            ),
        decreases keys@.len() - i,
    {
        if !used[i] && crate::keys::bytes_eq(&keys[i], target) {
            return Option::Some(i);
        }
        i = i + 1;
    }
    Option::None
}

/// Computes the identity keys of the live entries, in order.
fn compute_keys(apps: &Vec<PinnedApp>) -> (r: Vec<Vec<u8>>)
    ensures
        views_of(r@) == keys_of(apps@),
{
    let mut r: Vec<Vec<u8>> = Vec::new();
    let mut i: usize = 0;
    while i < apps.len()
        invariant
            i <= apps@.len(),
            r@.len() == i,
            forall|j: int| 0 <= j < i ==> r@[j]@ == apps@[j].spec_key(),
        decreases apps@.len() - i,
    {
        let a = &apps[i];
        r.push(a.key());
        i = i + 1;
    }
    proof {
        assert(views_of(r@) =~= keys_of(apps@));
    }
    r
}

/// Resolves one persisted column against the live keys, marking matched
/// indices used and collecting them in order.
fn resolve_one_column(
    keys: &Vec<Vec<u8>>,
    entries: &Vec<TwoColumnEntry>,
    used: &mut Vec<bool>,
    out: &mut Vec<usize>,
)
    requires
        old(used)@.len() == keys@.len(),
        old(out)@.len() == 0,
    ensures
        final(used)@.len() == keys@.len(),
        (final(used)@, final(out)@) == resolve_column(
            views_of(keys@),
            old(used)@,
            entry_keys(entries@),
        ),
{
    let ghost kv = views_of(keys@);
    let ghost wanted = entry_keys(entries@);
    let ghost used0 = used@;
    proof {
        assert(wanted.skip(0) =~= wanted);
        assert(out@ =~= Seq::<usize>::empty());
        assert(Seq::<usize>::empty() + resolve_column(kv, used0, wanted).1 =~= resolve_column(
            kv,
            used0,
            wanted,
        ).1);
    }
    let mut e: usize = 0;
    while e < entries.len()
        invariant
            e <= entries@.len(),
            wanted == entry_keys(entries@),
            kv == views_of(keys@),
            wanted.len() == entries@.len(),
            used@.len() == keys@.len(),
            resolve_column(kv, used0, wanted) == {
                let rest = resolve_column(kv, used@, wanted.skip(e as int));
                (rest.0, out@ + rest.1)
            },
        decreases entries@.len() - e,
    {
        let entry_key = (&entries[e]).key();
        proof {
            assert(wanted.skip(e as int)[0] == wanted[e as int]);
            assert(wanted.skip(e as int).drop_first() =~= wanted.skip(e as int + 1));
            assert(wanted[e as int] == entry_key@);
        }
        match find_unused_index_by_key(keys, &entry_key, used) {
            Option::Some(i) => {
                used[i] = true;
                out.push(i);
            },
            Option::None => {},
        }
        e = e + 1;
    }
    proof {
        assert(wanted.skip(entries@.len() as int) =~= Seq::<Seq<u8>>::empty());
        assert(out@ + Seq::<usize>::empty() =~= out@);
    }
}

/// Recomputes which live indices belong to the left and right columns
/// from an optionally persisted layout; see [`resolve_indices_spec`].
/// Every live index lands in exactly one column.
pub fn resolve_two_column_indices(apps: &Vec<PinnedApp>, layout: Option<&TwoColumnLayout>) -> (r:
    (Vec<usize>, Vec<usize>))
    ensures
        ({
            let spec = resolve_indices_spec(
                keys_of(apps@),
                layout_key_lists(layout).0,
                layout_key_lists(layout).1,
            );
            r.0@ == spec.0 && r.1@ == spec.1
        }),
        is_permutation(r.0@ + r.1@, apps@.len()),
{
    let n = apps.len();
    proof {
        lemma_resolve_partition(
            keys_of(apps@),
            layout_key_lists(layout).0,
            layout_key_lists(layout).1,
        );
    }
    if n == 0 {
        proof {
            assert(Seq::<usize>::empty() + Seq::<usize>::empty() =~= Seq::<usize>::empty());
        }
        return (Vec::new(), Vec::new());
    }

    let keys = compute_keys(apps);
    let mut used: Vec<bool> = Vec::new();
    let mut z: usize = 0;
    while z < n
        invariant
            z <= n,
            used@.len() == z,
            forall|j: int| 0 <= j < z ==> used@[j] == false,
        decreases n - z,
    {
        used.push(false);
        z = z + 1;
    }
    proof {
        assert(used@ =~= Seq::new(keys_of(apps@).len(), |i: int| false));
    }

    let mut left: Vec<usize> = Vec::new();
    let mut right: Vec<usize> = Vec::new();
    match layout {
        Option::Some(l) => {
            resolve_one_column(&keys, &l.left, &mut used, &mut left);
            resolve_one_column(&keys, &l.right, &mut used, &mut right);
        },
        Option::None => {
            proof {
                assert(entry_keys(Seq::<TwoColumnEntry>::empty()) =~= Seq::<Seq<u8>>::empty());
            }
        },
    }

    if left.len() == 0 && right.len() == 0 {
        let mut idx: usize = 0;
        while idx < n
            invariant
                idx <= n,
                left@ =~= even_indices(idx as int),
                right@ =~= odd_indices(idx as int),
            decreases n - idx,
        {
            if idx % 2 == 0 {
                left.push(idx);
            } else {
                right.push(idx);
            }
            idx = idx + 1;
            proof {
                assert(left@ =~= even_indices(idx as int));
                assert(right@ =~= odd_indices(idx as int));
            }
        }
        return (left, right);
    }

    let ghost matched_left = left@;
    let ghost u2 = used@;
    let mut idx: usize = 0;
    while idx < n
        invariant
            idx <= n,
            n == used@.len(),
            used@ == u2,
            left@ + unused_indices(u2, idx as int) == matched_left + unused_indices(u2, 0),
        decreases n - idx,
    {
        if !used[idx] {
            proof {
                assert(unused_indices(u2, idx as int) == seq![idx] + unused_indices(
                    u2,
                    idx as int + 1,
                ));
            }
            left.push(idx);
            proof {
                assert(left@ + unused_indices(u2, idx as int + 1) =~= matched_left
                    + unused_indices(u2, 0));
            }
        }
        idx = idx + 1;
    }
    proof {
        assert(unused_indices(u2, n as int) =~= Seq::<usize>::empty());
        assert(left@ =~= left@ + Seq::<usize>::empty());
        assert(left@ == matched_left + unused_indices(u2, 0));
    }
    (left, right)
}

/// Reorders the collection to hold the left column's entries first, in
/// order, then the right column's. Index lists that are not exactly a
/// permutation of the collection's indices leave it unchanged.
pub fn reorder_pinned_apps_by_columns(
    col: &mut PinnedCollection,
    left: &Vec<usize>,
    right: &Vec<usize>,
)
    requires
        old(col).wf(),
    ensures
        final(col).wf(),
        is_permutation(left@ + right@, old(col).apps@.len()) ==> final(col).apps@ == Seq::new(
            (left@ + right@).len(),
            |i: int| old(col).apps@[(left@ + right@)[i] as int],
        ),
        !is_permutation(left@ + right@, old(col).apps@.len()) ==> final(col).apps@ == old(
            col,
        ).apps@,
{
    let mut order: Vec<usize> = Vec::new();
    let mut i: usize = 0;
    while i < left.len()
        invariant
            i <= left@.len(),
            order@ == left@.take(i as int),
        decreases left@.len() - i,
    {
        order.push(left[i]);
        i = i + 1;
        proof {
            assert(left@.take(i as int) =~= left@.take(i - 1).push(left@[i - 1]));
        }
    }
    proof {
        assert(left@.take(left@.len() as int) =~= left@);
    }
    let mut j: usize = 0;
    while j < right.len()
        invariant
            j <= right@.len(),
            order@ == left@ + right@.take(j as int),
        decreases right@.len() - j,
    {
        order.push(right[j]);
        j = j + 1;
        proof {
            assert(left@ + right@.take(j as int) =~= (left@ + right@.take(j - 1)).push(
                right@[j - 1],
            ));
        }
    }
    proof {
        assert(left@ + right@.take(right@.len() as int) =~= left@ + right@);
    }
    let _applied = col.reorder(&order);
}

/// Whether a layout entry records the same launch target as a pin.
pub open spec fn entry_matches_app(e: TwoColumnEntry, a: PinnedApp) -> bool {
    e.path@ == a.path@ && opt_owned(e.args) == opt_owned(a.launch_args) && opt_owned(
        e.working_dir,
    ) == opt_owned(a.working_dir)
}

/// A layout entry that records a pin's launch target carries the pin's key.
pub proof fn lemma_entry_key_matches(e: TwoColumnEntry, a: PinnedApp)
    requires
        entry_matches_app(e, a),
    ensures
        e.spec_key() == a.spec_key(),
{
}

pub fn two_column_entry_from_app(a: &PinnedApp) -> (r: TwoColumnEntry)
    ensures
        entry_matches_app(r, *a),
        r.spec_key() == a.spec_key(),
{
    TwoColumnEntry {
        path: bytes_copy(&a.path),
        args: opt_bytes_copy(&a.launch_args),
        working_dir: opt_bytes_copy(&a.working_dir),
    }
}

/// Derives the layout to persist from the collection as currently split:
/// the first `left_len` entries (clamped to the collection's length) form
/// the left key list, the rest the right one.
pub fn two_column_layout_from_split(apps: &Vec<PinnedApp>, left_len: usize) -> (r: TwoColumnLayout)
    ensures
        ({
            let split = if left_len <= apps@.len() {
                left_len as int
            } else {
                apps@.len() as int
            };
            &&& r.left@.len() == split
            &&& r.right@.len() == apps@.len() - split
            &&& forall|i: int| 0 <= i < split ==> entry_matches_app(r.left@[i], apps@[i])
            &&& forall|i: int|
                0 <= i < apps@.len() - split ==> entry_matches_app(r.right@[i], apps@[split + i])
            &&& entry_keys(r.left@) == keys_of(apps@).take(split)
            &&& entry_keys(r.right@) == keys_of(apps@).skip(split)
        }),
{
    let split = if left_len <= apps.len() {
        left_len
    } else {
        apps.len()
    };
    let mut left: Vec<TwoColumnEntry> = Vec::new();
    let mut i: usize = 0;
    while i < split
        invariant
            i <= split <= apps@.len(),
            left@.len() == i,
            forall|j: int| 0 <= j < i ==> entry_matches_app(left@[j], apps@[j]),
        decreases split - i,
    {
        left.push(two_column_entry_from_app(&apps[i]));
        i = i + 1;
    }
    let mut right: Vec<TwoColumnEntry> = Vec::new();
    let mut j: usize = split;
    while j < apps.len()
        invariant
            split <= j <= apps@.len(),
            right@.len() == j - split,
            forall|t: int| 0 <= t < j - split ==> entry_matches_app(right@[t], apps@[split + t]),
        decreases apps@.len() - j,
    {
        right.push(two_column_entry_from_app(&apps[j]));
        j = j + 1;
    }
    proof {
        assert(entry_keys(left@) =~= keys_of(apps@).take(split as int));
        assert(entry_keys(right@) =~= keys_of(apps@).skip(split as int));
    }
    TwoColumnLayout { left, right }
}

/// Reconciles the collection against an optionally persisted layout,
/// reorders it to the resolved split (left column's entries first), and
/// derives the layout to persist from the new order. Runs when
/// two-column mode is turned on or off and after every structural change
/// while it is on.
pub fn sync_two_column_layout(col: &mut PinnedCollection, layout: Option<&TwoColumnLayout>) -> (r:
    TwoColumnLayout)
    requires
        old(col).wf(),
    ensures
        final(col).wf(),
        ({
            let s = resolve_indices_spec(
                keys_of(old(col).apps@),
                layout_key_lists(layout).0,
                layout_key_lists(layout).1,
            );
            let order = s.0 + s.1;
            &&& final(col).apps@ == Seq::new(
                order.len(),
                |i: int| old(col).apps@[order[i] as int],
            )
            &&& r.left@.len() == s.0.len()
            &&& entry_keys(r.left@) == keys_of(final(col).apps@).take(s.0.len() as int)
            &&& entry_keys(r.right@) == keys_of(final(col).apps@).skip(s.0.len() as int)
        }),
{
    let (left, right) = resolve_two_column_indices(&col.apps, layout);
    reorder_pinned_apps_by_columns(col, &left, &right);
    proof {
        let s = resolve_indices_spec(
            keys_of(old(col).apps@),
            layout_key_lists(layout).0,
            layout_key_lists(layout).1,
        );
        assert(left@ + right@ == s.0 + s.1);
        assert(left@.len() <= (left@ + right@).len());
    }
    two_column_layout_from_split(&col.apps, left.len())
}

/// The first position of `x` in a list of indices, or -1 if absent.
pub open spec fn first_pos(s: Seq<usize>, x: usize) -> int
    decreases s.len(),
{
    if s.len() == 0 {
        -1
    } else if s[0] == x {
        0
    } else {
        let p = first_pos(s.drop_first(), x);
        if p < 0 {
            -1
        } else {
            1 + p
        }
    }
}

/// Where the first occurrence of an index sits: within bounds, carrying
/// the index, nothing before it carrying it; absent means no occurrence.
pub proof fn lemma_first_pos_props(s: Seq<usize>, x: usize)
    ensures
        s.contains(x) ==> 0 <= first_pos(s, x) < s.len() && s[first_pos(s, x)] == x && forall|
            j: int,
        | 0 <= j < first_pos(s, x) ==> s[j] != x,
        !s.contains(x) ==> first_pos(s, x) == -1,
    decreases s.len(),
{
    if s.len() > 0 && s[0] != x {
        lemma_first_pos_props(s.drop_first(), x);
        assert(s.contains(x) ==> s.drop_first().contains(x)) by {
            if s.contains(x) {
                let i = choose|i: int| 0 <= i < s.len() && s[i] == x;
                assert(s.drop_first()[i - 1] == x);
            }
        }
        assert(s.drop_first().contains(x) ==> s.contains(x)) by {
            if s.drop_first().contains(x) {
                let i = choose|i: int| 0 <= i < s.drop_first().len() && s.drop_first()[i] == x;
                assert(s[i + 1] == x);
            }
        }
        if s.contains(x) {
            let p = first_pos(s.drop_first(), x);
            assert(s.drop_first()[p] == x);
            assert(s[p + 1] == s.drop_first()[p]);
            assert(first_pos(s, x) == 1 + p);
            assert forall|j: int| 0 <= j < first_pos(s, x) implies s[j] != x by {
                if j > 0 {
                    assert(s.drop_first()[j - 1] != x);
                    assert(s[j] == s.drop_first()[j - 1]);
                }
            }
        }
    }
}

/// Which column a live index sits in (0 left, 1 right; the left column
/// searched first) and its first slot there.
pub open spec fn column_slot_of(index: usize, left: Seq<usize>, right: Seq<usize>) -> Option<
    (usize, usize),
> {
    if left.contains(index) {
        Option::Some((0usize, first_pos(left, index) as usize))
    } else if right.contains(index) {
        Option::Some((1usize, first_pos(right, index) as usize))
    } else {
        Option::None
    }
}

/// The first position of `x` in a list of indices, if any.
pub fn find_position(v: &Vec<usize>, x: usize) -> (r: Option<usize>)
    ensures
        r is Some <==> v@.contains(x),
        r matches Some(p) ==> p as int == first_pos(v@, x) && p < v@.len() && v@[p as int] == x
            && forall|j: int| 0 <= j < p ==> v@[j] != x,
{
    proof {
        lemma_first_pos_props(v@, x);
    }
    let mut i: usize = 0;
    while i < v.len()
        invariant
            i <= v@.len(),
            forall|j: int| 0 <= j < i ==> v@[j] != x,
        decreases v@.len() - i,
    {
        if v[i] == x {
            proof {
                lemma_first_pos_props(v@, x);
                assert(v@.contains(x));
                let p = first_pos(v@, x);
                if p < i as int {
                    assert(v@[p] != x);
                } else if p > i as int {
                    assert(v@[i as int] != x);
                }
            }
            return Option::Some(i);
        }
        i = i + 1;
    }
    Option::None
}

/// Locates a live index in the two column lists; see [`column_slot_of`].
pub fn find_column_slot(index: usize, left: &Vec<usize>, right: &Vec<usize>) -> (r: Option<
    (usize, usize),
>)
    ensures
        r == column_slot_of(index, left@, right@),
{
    match find_position(left, index) {
        Option::Some(p) => Option::Some((0, p)),
        Option::None => {
            match find_position(right, index) {
                Option::Some(p) => Option::Some((1, p)),
                Option::None => Option::None,
            }
        },
    }
}

} // verus!
