//! The ordered collection of pinned entries.
//!
//! The collection holds at most [`MAX_PINNED_APPS`] entries and never two
//! entries with the same identity key. Order is insertion order unless
//! explicitly reordered.

use vstd::prelude::*;

use crate::keys::{
    bytes_copy, default_display_name, launch_key, normalize_launch_key, opt_owned, trim_bytes,
    trimmed,
};

verus! {

/// The pin-count ceiling of the collection.
pub const MAX_PINNED_APPS: usize = 20;

/// How far an entry's icon has come; advances forward and never regresses.
#[derive(Clone, Copy, PartialEq, Eq, Structural, Debug)]
pub enum IconState {
    NotRequested,
    Requested,
    Loaded,
}

/// The position of an icon state in its forward order.
pub open spec fn icon_rank(s: IconState) -> int {
    match s {
        IconState::NotRequested => 0,
        IconState::Requested => 1,
        IconState::Loaded => 2,
    }
}

/// One pinned launch target.
#[derive(Debug)]
pub struct PinnedApp {
    /// User-facing label; defaults to the path's file stem.
    pub name: Vec<u8>,
    /// Absolute filesystem path of the launch target.
    pub path: Vec<u8>,
    /// Optional free-text argument string.
    pub launch_args: Option<Vec<u8>>,
    /// Optional working-directory override.
    pub working_dir: Option<Vec<u8>>,
    /// How far this entry's icon has come.
    pub icon_state: IconState,
}

/// The bytes of the fallback label `Unknown`.
pub open spec fn unknown_name() -> Seq<u8> {
    seq![85u8, 110u8, 107u8, 110u8, 111u8, 119u8, 110u8]
}

/// The label an entry gets: a non-blank override as given, else the path's
/// file stem when non-blank, else `Unknown`.
pub open spec fn chosen_name(path: Seq<u8>, name_override: Option<Seq<u8>>) -> Seq<u8> {
    if name_override matches Some(o) && trimmed(o).len() > 0 {
        name_override->0
    } else if trimmed(crate::keys::path_stem(path)).len() > 0 {
        crate::keys::path_stem(path)
    } else {
        unknown_name()
    }
}

impl PinnedApp {
    /// The identity key of this entry.
    pub open spec fn spec_key(&self) -> Seq<u8> {
        launch_key(self.path@, opt_owned(self.launch_args), opt_owned(self.working_dir))
    }

    /// Computes the identity key of this entry.
    pub fn key(&self) -> (r: Vec<u8>)
        ensures
            r@ == self.spec_key(),
    {
        normalize_launch_key(&self.path, self.launch_args.as_ref(), self.working_dir.as_ref())
    }

    /// A pin of a bare path, with no overrides.
    pub fn from_path(path: Vec<u8>) -> (r: PinnedApp)
        ensures
            r.path@ == path@,
            r.launch_args is None,
            r.working_dir is None,
            r.icon_state == IconState::NotRequested,
            r.name@ == chosen_name(path@, Option::None),
    {
        Self::new(path, Option::None, Option::None, Option::None)
    }

    /// A pin with optional label, argument and working-directory overrides.
    pub fn new(
        path: Vec<u8>,
        name_override: Option<Vec<u8>>,
        launch_args: Option<Vec<u8>>,
        working_dir: Option<Vec<u8>>,
    ) -> (r: PinnedApp)
        ensures
            r.path@ == path@,
            opt_owned(r.launch_args) == opt_owned(launch_args),
            opt_owned(r.working_dir) == opt_owned(working_dir),
            r.icon_state == IconState::NotRequested,
            r.name@ == chosen_name(path@, crate::keys::opt_owned(name_override)),
    {
        let name: Vec<u8> = {
            let override_ok = match &name_override {
                Option::Some(o) => {
                    let t = trim_bytes(o);
                    t.len() > 0
                },
                Option::None => false,
            };
            if override_ok {
                match name_override {
                    Option::Some(o) => o,
                    Option::None => Vec::new(),
                }
            } else {
                match default_display_name(&path) {
                    Option::Some(_) => crate::keys::path_file_stem(&path),
                    Option::None => {
                        let mut u: Vec<u8> = Vec::new();
                        u.push(85);
                        u.push(110);
                        u.push(107);
                        u.push(110);
                        u.push(111);
                        u.push(119);
                        u.push(110);
                        proof {
                            assert(u@ =~= unknown_name());
                        }
                        u
                    },
                }
            }
        };
        PinnedApp { name, path, launch_args, working_dir, icon_state: IconState::NotRequested }
    }
}

/// The identity keys of a sequence of entries, in order.
pub open spec fn keys_of(apps: Seq<PinnedApp>) -> Seq<Seq<u8>> {
    apps.map_values(|a: PinnedApp| a.spec_key())
}

/// No two entries share an identity key.
pub open spec fn distinct_keys(apps: Seq<PinnedApp>) -> bool {
    forall|i: int, j: int|
        0 <= i < j < apps.len() ==> apps[i].spec_key() != apps[j].spec_key()
}

/// Some entry carries the given identity key.
pub open spec fn has_key(apps: Seq<PinnedApp>, k: Seq<u8>) -> bool {
    exists|i: int| 0 <= i < apps.len() && apps[i].spec_key() == k
}

/// The outcome of trying to add a pin.
#[derive(Clone, Copy, PartialEq, Eq, Structural, Debug)]
pub enum AddPinResult {
    /// The pin was appended to the collection.
    Added,
    /// An entry with the same identity key is already pinned.
    Duplicate,
    /// The path is neither a directory nor an `exe`/`lnk` file.
    Unsupported,
    /// The path names a shortcut whose target could not be resolved.
    ShortcutUnresolved,
    /// The path does not exist.
    Missing,
    /// The collection already holds [`MAX_PINNED_APPS`] entries.
    LimitReached,
}

/// The ordered, deduplicated collection of pinned entries.
pub struct PinnedCollection {
    pub apps: Vec<PinnedApp>,
}

impl PinnedCollection {
    /// The collection's invariant: at most [`MAX_PINNED_APPS`] entries, no
    /// two with the same identity key.
    pub open spec fn wf(&self) -> bool {
        self.apps@.len() <= MAX_PINNED_APPS && distinct_keys(self.apps@)
    }

    pub fn new() -> (r: PinnedCollection)
        ensures
            r.apps@.len() == 0,
            r.wf(),
    {
        PinnedCollection { apps: Vec::new() }
    }

    pub fn len(&self) -> (r: usize)
        ensures
            r == self.apps@.len(),
    {
        self.apps.len()
    }

    /// The first index whose entry carries the given key, if any.
    pub fn index_of_key(&self, k: &Vec<u8>) -> (r: Option<usize>)
        ensures
            r is Some <==> has_key(self.apps@, k@),
            r matches Some(i) ==> i < self.apps@.len() && self.apps@[i as int].spec_key() == k@
                && forall|j: int| 0 <= j < i ==> self.apps@[j].spec_key() != k@,
    {
        let mut i: usize = 0;
        while i < self.apps.len()
            invariant
                i <= self.apps@.len(),
                forall|j: int| 0 <= j < i ==> self.apps@[j].spec_key() != k@,
            decreases self.apps@.len() - i,
        {
            let a = &self.apps[i];
            let ak = a.key();
            if crate::keys::bytes_eq(&ak, k) {
                return Option::Some(i);
            }
            i = i + 1;
        }
        Option::None
    }

    /// Whether some entry carries the given key.
    pub fn contains_key(&self, k: &Vec<u8>) -> (r: bool)
        ensures
            r == has_key(self.apps@, k@),
    {
        self.index_of_key(k).is_some()
    }

    /// Tries to append a pin. Rejected when the collection is full or the
    /// entry's key is already present; the limit is checked first.
    pub fn try_add(&mut self, app: PinnedApp) -> (r: AddPinResult)
        requires
            old(self).wf(),
        ensures
            final(self).wf(),
            old(self).apps@.len() >= MAX_PINNED_APPS ==> r == AddPinResult::LimitReached
                && final(self).apps@ == old(self).apps@,
            old(self).apps@.len() < MAX_PINNED_APPS && has_key(old(self).apps@, app.spec_key())
                ==> r == AddPinResult::Duplicate && final(self).apps@ == old(self).apps@,
            old(self).apps@.len() < MAX_PINNED_APPS && !has_key(old(self).apps@, app.spec_key())
                ==> r == AddPinResult::Added && final(self).apps@ == old(self).apps@.push(app),
    {
        if self.apps.len() >= MAX_PINNED_APPS {
            return AddPinResult::LimitReached;
        }
        let k = app.key();
        if self.contains_key(&k) {
            return AddPinResult::Duplicate;
        }
        proof {
            let s = self.apps@;
            assert forall|i: int, j: int|
                0 <= i < j < s.push(app).len() implies s.push(app)[i].spec_key() != s.push(
                app,
            )[j].spec_key() by {
                if j == s.len() {
                    assert(!has_key(s, app.spec_key()));
                    assert(s.push(app)[i] == s[i]);
                }
            }
        }
        self.apps.push(app);
        AddPinResult::Added
    }

    /// Removes the entry at `index` and shifts the rest left.
    pub fn remove_at(&mut self, index: usize) -> (r: PinnedApp)
        requires
            old(self).wf(),
            index < old(self).apps@.len(),
        ensures
            final(self).wf(),
            final(self).apps@ == old(self).apps@.remove(index as int),
            r == old(self).apps@[index as int],
    {
        let r = self.apps.remove(index);
        proof {
            let s = old(self).apps@;
            let t = self.apps@;
            assert forall|i: int, j: int|
                0 <= i < j < t.len() implies t[i].spec_key() != t[j].spec_key() by {
                let si: int = if i < index { i } else { i + 1 };
                let sj: int = if j < index { j } else { j + 1 };
                assert(t[i] == s[si]);
                assert(t[j] == s[sj]);
            }
        }
        r
    }

    /// Replaces the collection order by a permutation of `0..len`: entry
    /// `i` of the result is the old entry `order[i]`. A vector that is not
    /// exactly a permutation (wrong length, out-of-range index, duplicate)
    /// is rejected and the collection is unchanged.
    pub fn reorder(&mut self, order: &Vec<usize>) -> (r: bool)
        requires
            old(self).wf(),
        ensures
            final(self).wf(),
            r == is_permutation(order@, old(self).apps@.len()),
            r ==> final(self).apps@ == Seq::new(
                order@.len() as nat,
                |i: int| old(self).apps@[order@[i] as int],
            ),
            !r ==> final(self).apps@ == old(self).apps@,
    {
        let n = self.apps.len();
        if order.len() != n {
            return false;
        }
        let mut seen: Vec<bool> = Vec::new();
        let mut z: usize = 0;
        while z < n
            invariant
                z <= n,
                seen@.len() == z,
                forall|j: int| 0 <= j < z ==> seen@[j] == false,
            decreases n - z,
        {
            seen.push(false);
            z = z + 1;
        }
        let mut i: usize = 0;
        while i < n
            invariant
                i <= n,
                n == order@.len(),
                n == old(self).apps@.len(),
                self.apps@ == old(self).apps@,
                old(self).wf(),
                seen@.len() == n,
                forall|t: int| 0 <= t < i ==> (order@[t] as int) < n,
                forall|t1: int, t2: int| 0 <= t1 < t2 < i ==> order@[t1] != order@[t2],
                forall|j: int|
                    0 <= j < n ==> (seen@[j] == exists|t: int|
                        0 <= t < i && order@[t] as int == j),
            decreases n - i,
        {
            let idx = order[i];
            if idx >= n {
                proof {
                    assert(!is_permutation(order@, old(self).apps@.len()));
                }
                return false;
            }
            if seen[idx] {
                proof {
                    let t = choose|t: int| 0 <= t < i && order@[t] as int == idx as int;
                    assert(order@[t] == order@[i as int]);
                    assert(!is_permutation(order@, old(self).apps@.len()));
                }
                return false;
            }
            seen[idx] = true;
            i = i + 1;
        }
        proof {
            assert(is_permutation(order@, old(self).apps@.len()));
        }

        let ghost orig = self.apps@;
        let mut source: Vec<Option<PinnedApp>> = Vec::new();
        while self.apps.len() > 0
            invariant
                orig == old(self).apps@,
                n == orig.len(),
                n == order@.len(),
                is_permutation(order@, n as nat),
                distinct_keys(orig),
                source@.len() + self.apps@.len() == orig.len(),
                forall|j: int| 0 <= j < source@.len() ==> source@[j] == Option::Some(orig[j]),
                forall|j: int|
                    0 <= j < self.apps@.len() ==> self.apps@[j] == orig[source@.len() + j],
            decreases self.apps@.len(),
        {
            let item = self.apps.remove(0);
            source.push(Option::Some(item));
        }

        let mut i: usize = 0;
        while i < n
            invariant
                i <= n,
                n == orig.len(),
                n == order@.len(),
                source@.len() == n,
                is_permutation(order@, n as nat),
                distinct_keys(orig),
                self.apps@.len() == i,
                forall|t: int| 0 <= t < i ==> self.apps@[t] == orig[order@[t] as int],
                forall|j: int|
                    0 <= j < n ==> source@[j] == (if exists|t: int|
                        0 <= t < i && order@[t] as int == j {
                        Option::<PinnedApp>::None
                    } else {
                        Option::Some(orig[j])
                    }),
            decreases n - i,
        {
            let idx = order[i];
            proof {
                if exists|t: int| 0 <= t < i && order@[t] as int == idx as int {
                    let t = choose|t: int| 0 <= t < i && order@[t] as int == idx as int;
                    assert(order@[t] == order@[i as int]);
                    assert(false);
                }
            }
            let mut tmp: Option<PinnedApp> = Option::None;
            source.set_and_swap(idx, &mut tmp);
            let item = tmp.unwrap();
            self.apps.push(item);
            i = i + 1;
            proof {
                assert forall|j: int|
                    0 <= j < n implies source@[j] == (if exists|t: int|
                        0 <= t < i && order@[t] as int == j {
                        Option::<PinnedApp>::None
                    } else {
                        Option::Some(orig[j])
                    }) by {
                    if j == idx as int {
                        assert(order@[i - 1] as int == j);
                    }
                }
            }
        }
        proof {
            assert(self.apps@ =~= Seq::new(order@.len() as nat, |i: int| orig[order@[i] as int]));
            assert forall|i: int, j: int|
                0 <= i < j < self.apps@.len() implies self.apps@[i].spec_key()
                != self.apps@[j].spec_key() by {
                assert(self.apps@[i] == orig[order@[i] as int]);
                assert(self.apps@[j] == orig[order@[j] as int]);
                assert(order@[i] != order@[j]);
            }
        }
        true
    }

    /// Marks the entry at `index` as having its icon requested, handing
    /// back the request to forward, unless an icon was already requested
    /// or loaded.
    pub fn take_icon_request(&mut self, index: usize, size: u32) -> (r: Option<IconRequest>)
        requires
            old(self).wf(),
            index < old(self).apps@.len(),
        ensures
            final(self).wf(),
            final(self).apps@.len() == old(self).apps@.len(),
            old(self).apps@[index as int].icon_state == IconState::NotRequested ==> {
                &&& r matches Some(req) && req.path@ == old(self).apps@[index as int].path@
                    && req.size == size
                &&& final(self).apps@ == old(self).apps@.update(
                    index as int,
                    PinnedApp {
                        icon_state: IconState::Requested,
                        ..old(self).apps@[index as int]
                    },
                )
            },
            old(self).apps@[index as int].icon_state != IconState::NotRequested ==> r is None
                && final(self).apps@ == old(self).apps@,
            forall|j: int|
                0 <= j < old(self).apps@.len() ==> icon_rank(final(self).apps@[j].icon_state)
                    >= icon_rank(old(self).apps@[j].icon_state),
    {
        let state = self.apps[index].icon_state;
        if !matches!(state, IconState::NotRequested) {
            return Option::None;
        }
        let a = &self.apps[index];
        let req = IconRequest {
            path: bytes_copy(&a.path),
            name_hint: Option::Some(bytes_copy(&a.name)),
            size,
        };
        let old_entry = self.apps.remove(index);
        let updated = PinnedApp { icon_state: IconState::Requested, ..old_entry };
        self.apps.insert(index, updated);
        proof {
            assert(self.apps@ =~= old(self).apps@.update(
                index as int,
                PinnedApp { icon_state: IconState::Requested, ..old(self).apps@[index as int] },
            ));
            lemma_update_same_keys(old(self).apps@, self.apps@);
        }
        Option::Some(req)
    }

    /// Applies a decoded-icon event: the first entry whose path equals the
    /// event's path advances to `Loaded` when an image came; a stale event
    /// for a since-removed path is discarded.
    pub fn apply_icon_ready(&mut self, path: &Vec<u8>, has_image: bool)
        requires
            old(self).wf(),
        ensures
            final(self).wf(),
            final(self).apps@.len() == old(self).apps@.len(),
            forall|j: int|
                0 <= j < old(self).apps@.len() ==> icon_rank(final(self).apps@[j].icon_state)
                    >= icon_rank(old(self).apps@[j].icon_state),
            (has_image && exists|i: int|
                0 <= i < old(self).apps@.len() && old(self).apps@[i].path@ == path@) ==> {
                let i = first_path_match(old(self).apps@, path@);
                final(self).apps@ == old(self).apps@.update(
                    i,
                    PinnedApp { icon_state: IconState::Loaded, ..old(self).apps@[i] },
                )
            },
            !(has_image && exists|i: int|
                0 <= i < old(self).apps@.len() && old(self).apps@[i].path@ == path@)
                ==> final(self).apps@ == old(self).apps@,
    {
        if !has_image {
            return ;
        }
        let mut i: usize = 0;
        while i < self.apps.len()
            invariant
                i <= self.apps@.len(),
                self.apps@ == old(self).apps@,
                old(self).wf(),
                has_image,
                forall|j: int| 0 <= j < i ==> self.apps@[j].path@ != path@,
            decreases self.apps@.len() - i,
        {
            if crate::keys::bytes_eq(&self.apps[i].path, path) {
                proof {
                    lemma_first_path_match(self.apps@, path@, i as int);
                    assert(0 <= (i as int) && (i as int) < old(self).apps@.len() && old(
                        self,
                    ).apps@[i as int].path@ == path@);
                }
                let old_entry = self.apps.remove(i);
                let updated = PinnedApp { icon_state: IconState::Loaded, ..old_entry };
                self.apps.insert(i, updated);
                proof {
                    assert(self.apps@ =~= old(self).apps@.update(
                        i as int,
                        PinnedApp { icon_state: IconState::Loaded, ..old(self).apps@[i as int] },
                    ));
                    lemma_update_same_keys(old(self).apps@, self.apps@);
                }
                return ;
            }
            i = i + 1;
        }
    }
}

/// The least index whose entry has the given path.
pub open spec fn first_path_match(apps: Seq<PinnedApp>, path: Seq<u8>) -> int
    decreases apps.len(),
{
    if apps.len() == 0 {
        0
    } else if apps[0].path@ == path {
        0
    } else {
        1 + first_path_match(apps.drop_first(), path)
    }
}

proof fn lemma_first_path_match(apps: Seq<PinnedApp>, path: Seq<u8>, i: int)
    requires
        0 <= i < apps.len(),
        apps[i].path@ == path,
        forall|j: int| 0 <= j < i ==> apps[j].path@ != path,
    ensures
        first_path_match(apps, path) == i,
    decreases i,
{
    if i > 0 {
        lemma_first_path_match(apps.drop_first(), path, i - 1);
    }
}

/// Two entry sequences of equal length whose entries pairwise share path,
/// arguments and working directory have the same keys; updating only an
/// icon state therefore preserves key distinctness.
proof fn lemma_update_same_keys(s: Seq<PinnedApp>, t: Seq<PinnedApp>)
    requires
        s.len() == t.len(),
        forall|j: int|
            0 <= j < s.len() ==> t[j].path == s[j].path && t[j].launch_args == s[j].launch_args
                && t[j].working_dir == s[j].working_dir,
        distinct_keys(s),
    ensures
        distinct_keys(t),
{
    assert forall|i: int, j: int|
        0 <= i < j < t.len() implies t[i].spec_key() != t[j].spec_key() by {
        assert(t[i].spec_key() == s[i].spec_key());
        assert(t[j].spec_key() == s[j].spec_key());
    }
}

/// `order` is exactly a permutation of `0..n`: right length, every element
/// in range, no element twice.
pub open spec fn is_permutation(order: Seq<usize>, n: nat) -> bool {
    &&& order.len() == n
    &&& forall|i: int| 0 <= i < order.len() ==> (order[i] as int) < n
    &&& forall|i: int, j: int| 0 <= i < j < order.len() ==> order[i] != order[j]
}

/// What loading an arbitrary pin list into the collection keeps: entries
/// in order, dropping one whose key was already kept or that would pass
/// the ceiling.
pub open spec fn sanitize_apps(apps: Seq<PinnedApp>, kept: Seq<PinnedApp>) -> Seq<PinnedApp>
    decreases apps.len(),
{
    if apps.len() == 0 {
        kept
    } else if kept.len() >= MAX_PINNED_APPS || has_key(kept, apps[0].spec_key()) {
        sanitize_apps(apps.drop_first(), kept)
    } else {
        sanitize_apps(apps.drop_first(), kept.push(apps[0]))
    }
}

impl PinnedCollection {
    /// Loads a pin list into a well-formed collection, dropping key
    /// duplicates and anything past the ceiling; see [`sanitize_apps`].
    pub fn from_apps(apps: Vec<PinnedApp>) -> (r: PinnedCollection)
        ensures
            r.wf(),
            r.apps@ == sanitize_apps(apps@, Seq::empty()),
    {
        let ghost orig = apps@;
        let mut apps = apps;
        let mut col = PinnedCollection::new();
        proof {
            assert(orig.skip(0) =~= orig);
            assert(col.apps@ =~= Seq::<PinnedApp>::empty());
        }
        let ghost k: int = 0;
        while apps.len() > 0
            invariant
                0 <= k <= orig.len(),
                apps@ == orig.skip(k),
                col.wf(),
                sanitize_apps(orig, Seq::empty()) == sanitize_apps(orig.skip(k), col.apps@),
            decreases apps@.len(),
        {
            proof {
                assert(orig.skip(k)[0] == orig[k]);
                assert(orig.skip(k).drop_first() =~= orig.skip(k + 1));
            }
            let item = apps.remove(0);
            let _outcome = col.try_add(item);
            proof {
                k = k + 1;
            }
        }
        proof {
            assert(sanitize_apps(orig.skip(orig.len() as int), col.apps@) == col.apps@);
        }
        col
    }
}

/// The rejection, if any, that adding a pin raises before the collection
/// is consulted: the pin ceiling first, then the path's existence, then
/// shortcut resolution, then path support.
pub fn classify_pin_rejection(
    len: usize,
    path_exists: bool,
    is_shortcut: bool,
    shortcut_resolved: bool,
    supported: bool,
) -> (r: Option<AddPinResult>)
    ensures
        r == (if len >= MAX_PINNED_APPS {
            Option::Some(AddPinResult::LimitReached)
        } else if !path_exists {
            Option::Some(AddPinResult::Missing)
        } else if is_shortcut && !shortcut_resolved {
            Option::Some(AddPinResult::ShortcutUnresolved)
        } else if !supported {
            Option::Some(AddPinResult::Unsupported)
        } else {
            Option::None
        }),
{
    if len >= MAX_PINNED_APPS {
        Option::Some(AddPinResult::LimitReached)
    } else if !path_exists {
        Option::Some(AddPinResult::Missing)
    } else if is_shortcut && !shortcut_resolved {
        Option::Some(AddPinResult::ShortcutUnresolved)
    } else if !supported {
        Option::Some(AddPinResult::Unsupported)
    } else {
        Option::None
    }
}

/// How a separately held selection index reacts to a removal: selecting
/// the removed entry clears the selection, a later entry shifts down by
/// one, an earlier one is unchanged.
pub fn adjust_selection_after_remove(selection: Option<usize>, removed: usize) -> (r: Option<
    usize,
>)
    ensures
        selection is None ==> r is None,
        selection matches Some(s) ==> r == (if s == removed {
            Option::<usize>::None
        } else if s > removed {
            Option::Some((s - 1) as usize)
        } else {
            Option::Some(s)
        }),
{
    match selection {
        Option::None => Option::None,
        Option::Some(s) => {
            if s == removed {
                Option::None
            } else if s > removed {
                Option::Some(s - 1)
            } else {
                Option::Some(s)
            }
        },
    }
}

/// A request to the icon subsystem: decode an icon for `path`, hinted by
/// the entry's display name, at the given square size.
pub struct IconRequest {
    pub path: Vec<u8>,
    pub name_hint: Option<Vec<u8>>,
    pub size: u32,
}

} // verus!
