//! Persisted pin lists and their reconciliation at startup.
//!
//! A persisted configuration carries a list of pinned paths and a side
//! list of per-pin launch overrides, matched by the lowercased path. At
//! startup every persisted shortcut pin is rewritten to its resolved
//! target (a one-time migration), duplicates are dropped keeping the
//! first, and overrides that merely restate defaults are shed. The
//! shortcut resolutions themselves come from the platform; the migration
//! is a function of their values.

use vstd::prelude::*;

use crate::keys::{
    bytes_copy, bytes_eq, default_display_name, default_name_of, is_lnk_path, is_shortcut_path,
    lower_bytes, normalize_path_key, normalize_text_opt, opt_bytes_copy, opt_owned, path_file_stem,
    path_stem, trimmed,
};
use crate::pins::{chosen_name, IconState, PinnedApp};

verus! {

/// One pin's persisted launch overrides, keyed by its lowercased path.
#[derive(Debug)]
pub struct PinnedLaunchMeta {
    pub path: Vec<u8>,
    pub display_name: Option<Vec<u8>>,
    pub args: Option<Vec<u8>>,
    pub working_dir: Option<Vec<u8>>,
}

impl PinnedLaunchMeta {
    /// The lowercased path this override record is matched by.
    pub open spec fn spec_key(&self) -> Seq<u8> {
        lower_bytes(self.path@)
    }

    /// Computes the record's matching key.
    pub fn key(&self) -> (r: Vec<u8>)
        ensures
            r@ == self.spec_key(),
    {
        normalize_path_key(&self.path)
    }
}

/// What resolving a shortcut file yields: its target and optional launch
/// overrides. The platform resolver produces these; the engine only
/// consumes their values.
#[derive(Debug)]
pub struct ShortcutResolution {
    pub target_path: Vec<u8>,
    pub arguments: Option<Vec<u8>>,
    pub working_dir: Option<Vec<u8>>,
}

/// A meta record's fields as plain values.
pub open spec fn meta_rec(m: PinnedLaunchMeta) -> (
    Seq<u8>,
    Option<Seq<u8>>,
    Option<Seq<u8>>,
    Option<Seq<u8>>,
) {
    (m.path@, opt_owned(m.display_name), opt_owned(m.args), opt_owned(m.working_dir))
}

/// The views of a sequence of meta records.
pub open spec fn metas_of(ms: Seq<PinnedLaunchMeta>) -> Seq<
    (Seq<u8>, Option<Seq<u8>>, Option<Seq<u8>>, Option<Seq<u8>>),
> {
    ms.map_values(|m: PinnedLaunchMeta| meta_rec(m))
}

/// Text normalization of an optional field: trimmed, empty meaning
/// absent.
pub open spec fn norm_opt(o: Option<Seq<u8>>) -> Option<Seq<u8>> {
    match o {
        Option::Some(s) => if trimmed(s).len() == 0 {
            Option::None
        } else {
            Option::Some(trimmed(s))
        },
        Option::None => Option::None,
    }
}

/// The override record a path is matched to: the last persisted record
/// whose key equals the given one wins.
pub open spec fn last_meta_with_key(metas: Seq<PinnedLaunchMeta>, key: Seq<u8>) -> Option<
    PinnedLaunchMeta,
>
    decreases metas.len(),
{
    if metas.len() == 0 {
        Option::None
    } else if lower_bytes(metas.last().path@) == key {
        Option::Some(metas.last())
    } else {
        last_meta_with_key(metas.drop_last(), key)
    }
}

/// What migrating one persisted pin yields: the path it will be stored
/// under, and the override record to keep for it, if any field survives.
/// Overrides come from the matching persisted record, normalized; a
/// shortcut pin takes its display name from its own file stem; a
/// resolution replaces the path and overrides the arguments and working
/// directory where it provides them; and a display name equal to the
/// path's default is shed.
pub open spec fn migrate_step(
    p: Seq<u8>,
    res: Option<ShortcutResolution>,
    metas: Seq<PinnedLaunchMeta>,
) -> (Seq<u8>, Option<(Seq<u8>, Option<Seq<u8>>, Option<Seq<u8>>, Option<Seq<u8>>)>) {
    let m = last_meta_with_key(metas, lower_bytes(p));
    let display0 = match m {
        Option::Some(mm) => norm_opt(opt_owned(mm.display_name)),
        Option::None => Option::None,
    };
    let args0 = match m {
        Option::Some(mm) => norm_opt(opt_owned(mm.args)),
        Option::None => Option::None,
    };
    let wd0 = match m {
        Option::Some(mm) => opt_owned(mm.working_dir),
        Option::None => Option::None,
    };
    let display1 = if is_shortcut_path(p) {
        norm_opt(Option::Some(path_stem(p)))
    } else {
        display0
    };
    let rp = match res {
        Option::Some(r) => r.target_path@,
        Option::None => p,
    };
    let args1 = match res {
        Option::Some(r) => match norm_opt(opt_owned(r.arguments)) {
            Option::Some(v) => Option::Some(v),
            Option::None => args0,
        },
        Option::None => args0,
    };
    let wd1 = match res {
        Option::Some(r) => match opt_owned(r.working_dir) {
            Option::Some(v) => Option::Some(v),
            Option::None => wd0,
        },
        Option::None => wd0,
    };
    let display2 = if display1 is Some && display1 == default_name_of(rp) {
        Option::<Seq<u8>>::None
    } else {
        display1
    };
    let kept = if display2 is Some || args1 is Some || wd1 is Some {
        Option::Some((rp, display2, args1, wd1))
    } else {
        Option::None
    };
    (rp, kept)
}

/// What migrating the whole persisted pin list yields: each pin migrated
/// in order by [`migrate_step`], pins whose migrated key was already seen
/// dropped (first occurrence wins).
pub open spec fn migrate_spec(
    paths: Seq<Vec<u8>>,
    resolutions: Seq<Option<ShortcutResolution>>,
    metas: Seq<PinnedLaunchMeta>,
    seen: Set<Seq<u8>>,
) -> (Seq<Seq<u8>>, Seq<(Seq<u8>, Option<Seq<u8>>, Option<Seq<u8>>, Option<Seq<u8>>)>)
    decreases paths.len(),
{
    if paths.len() == 0 || paths.len() != resolutions.len() {
        (Seq::empty(), Seq::empty())
    } else {
        let step = migrate_step(paths[0]@, resolutions[0], metas);
        let key = lower_bytes(step.0);
        if seen.contains(key) {
            migrate_spec(paths.drop_first(), resolutions.drop_first(), metas, seen)
        } else {
            let rest = migrate_spec(
                paths.drop_first(),
                resolutions.drop_first(),
                metas,
                seen.insert(key),
            );
            (
                seq![step.0] + rest.0,
                (match step.1 {
                    Option::Some(rec) => seq![rec],
                    Option::None => Seq::empty(),
                }) + rest.1,
            )
        }
    }
}

/// Deduplication of override records by key, first occurrence winning.
pub open spec fn dedupe_recs(
    recs: Seq<(Seq<u8>, Option<Seq<u8>>, Option<Seq<u8>>, Option<Seq<u8>>)>,
    seen: Set<Seq<u8>>,
) -> Seq<(Seq<u8>, Option<Seq<u8>>, Option<Seq<u8>>, Option<Seq<u8>>)>
    decreases recs.len(),
{
    if recs.len() == 0 {
        Seq::empty()
    } else {
        let key = lower_bytes(recs[0].0);
        if seen.contains(key) {
            dedupe_recs(recs.drop_first(), seen)
        } else {
            seq![recs[0]] + dedupe_recs(recs.drop_first(), seen.insert(key))
        }
    }
}

/// Whether a key was already taken.
fn seen_contains(seen: &Vec<Vec<u8>>, key: &Vec<u8>) -> (r: bool)
    ensures
        r == exists|j: int| 0 <= j < seen@.len() && seen@[j]@ == key@,
{
    let mut i: usize = 0;
    while i < seen.len()
        invariant
            i <= seen@.len(),
            forall|j: int| 0 <= j < i ==> seen@[j]@ != key@,
        decreases seen@.len() - i,
    {
        if bytes_eq(&seen[i], key) {
            proof {
                assert(seen@[i as int]@ == key@);
            }
            return true;
        }
        i = i + 1;
    }
    false
}

/// The last persisted record matching a key, if any.
fn find_last_meta(metas: &Vec<PinnedLaunchMeta>, key: &Vec<u8>) -> (r: Option<usize>)
    ensures
        r is None <==> last_meta_with_key(metas@, key@) is None,
        r matches Some(i) ==> i < metas@.len() && last_meta_with_key(metas@, key@)
            == Option::Some(metas@[i as int]),
{
    let ghost full = metas@;
    proof {
        assert(full.take(full.len() as int) =~= full);
    }
    let mut i: usize = metas.len();
    while i > 0
        invariant
            i <= metas@.len(),
            last_meta_with_key(metas@, key@) == last_meta_with_key(metas@.take(i as int), key@),
        decreases i,
    {
        proof {
            assert(metas@.take(i as int).last() == metas@[i - 1]);
            assert(metas@.take(i as int).drop_last() =~= metas@.take(i - 1));
        }
        let mk = (&metas[i - 1]).key();
        if bytes_eq(&mk, key) {
            return Option::Some(i - 1);
        }
        i = i - 1;
    }
    proof {
        assert(metas@.take(0) =~= Seq::<PinnedLaunchMeta>::empty());
    }
    Option::None
}

/// Rewrites the persisted pin list to resolved targets, dropping
/// duplicates and default-restating overrides; see [`migrate_spec`]. The
/// caller supplies, aligned with the paths, the platform's resolution of
/// each (present only when a shortcut resolved to an existing target).
pub fn migrate_config_paths(
    paths: &Vec<Vec<u8>>,
    launch_meta: &Vec<PinnedLaunchMeta>,
    resolutions: Vec<Option<ShortcutResolution>>,
) -> (r: (Vec<Vec<u8>>, Vec<PinnedLaunchMeta>))
    requires
        resolutions@.len() == paths@.len(),
    ensures
        ({
            let spec = migrate_spec(paths@, resolutions@, launch_meta@, Set::empty());
            crate::layout::views_of(r.0@) == spec.0 && metas_of(r.1@) == spec.1
        }),
{
    let ghost res0 = resolutions@;
    let ghost spec_full = migrate_spec(paths@, res0, launch_meta@, Set::empty());
    let mut migrated: Vec<Vec<u8>> = Vec::new();
    let mut out_meta: Vec<PinnedLaunchMeta> = Vec::new();
    let mut seen: Vec<Vec<u8>> = Vec::new();
    let ghost mut gseen = Set::<Seq<u8>>::empty();
    let mut resolutions = resolutions;
    let mut i: usize = 0;
    let n = paths.len();
    proof {
        assert(paths@.skip(0) =~= paths@);
        assert(res0.skip(0) =~= res0);
        assert(crate::layout::views_of(migrated@) + spec_full.0 =~= spec_full.0);
        assert(metas_of(out_meta@) + spec_full.1 =~= spec_full.1);
    }
    while i < n
        invariant
            i <= n,
            n == paths@.len(),
            res0.len() == n,
            resolutions@.len() == n,
            forall|j: int| i <= j < n ==> resolutions@[j] == res0[j],
            forall|j: int| 0 <= j < seen@.len() ==> gseen.contains(seen@[j]@),
            forall|k: Seq<u8>|
                gseen.contains(k) ==> exists|j: int| 0 <= j < seen@.len() && seen@[j]@ == k,
            spec_full == migrate_spec(paths@, res0, launch_meta@, Set::empty()),
            ({
                let rest = migrate_spec(
                    paths@.skip(i as int),
                    res0.skip(i as int),
                    launch_meta@,
                    gseen,
                );
                spec_full.0 == crate::layout::views_of(migrated@) + rest.0 && spec_full.1
                    == metas_of(out_meta@) + rest.1
            }),
        decreases n - i,
    {
        proof {
            assert(paths@.skip(i as int)[0] == paths@[i as int]);
            assert(res0.skip(i as int)[0] == res0[i as int]);
            assert(paths@.skip(i as int).drop_first() =~= paths@.skip(i as int + 1));
            assert(res0.skip(i as int).drop_first() =~= res0.skip(i as int + 1));
        }
        let ghost step = migrate_step(paths@[i as int]@, res0[i as int], launch_meta@);
        let p = &paths[i];
        let key_before = normalize_path_key(p);
        let midx = find_last_meta(launch_meta, &key_before);
        let mut display: Option<Vec<u8>> = Option::None;
        let mut args: Option<Vec<u8>> = Option::None;
        let mut wd: Option<Vec<u8>> = Option::None;
        match midx {
            Option::Some(j) => {
                let m = &launch_meta[j];
                display = match &m.display_name {
                    Option::Some(d) => normalize_text_opt(d),
                    Option::None => Option::None,
                };
                args = match &m.args {
                    Option::Some(a) => normalize_text_opt(a),
                    Option::None => Option::None,
                };
                wd = opt_bytes_copy(&m.working_dir);
            },
            Option::None => {},
        }
        if is_lnk_path(p) {
            let stem = path_file_stem(p);
            display = normalize_text_opt(&stem);
        }
        let mut res_i: Option<ShortcutResolution> = Option::None;
        resolutions.set_and_swap(i, &mut res_i);
        proof {
            assert(res_i == res0[i as int]);
        }
        let rp: Vec<u8> = match &res_i {
            Option::Some(res) => {
                let res_args = match &res.arguments {
                    Option::Some(a) => normalize_text_opt(a),
                    Option::None => Option::None,
                };
                match res_args {
                    Option::Some(v) => {
                        args = Option::Some(v);
                    },
                    Option::None => {},
                }
                if res.working_dir.is_some() {
                    wd = opt_bytes_copy(&res.working_dir);
                }
                bytes_copy(&res.target_path)
            },
            Option::None => bytes_copy(p),
        };
        let key = normalize_path_key(&rp);
        proof {
            assert(step.0 == rp@);
            assert(key@ == lower_bytes(step.0));
        }
        if !seen_contains(&seen, &key) {
            match default_display_name(&rp) {
                Option::Some(dn) => {
                    let shed = match &display {
                        Option::Some(d) => bytes_eq(d, &dn),
                        Option::None => false,
                    };
                    if shed {
                        display = Option::None;
                    }
                },
                Option::None => {},
            }
            proof {
                assert(step.1 matches Some(rec) ==> rec == (
                    rp@,
                    opt_owned(display),
                    opt_owned(args),
                    opt_owned(wd),
                ));
                assert(step.1 is None ==> display is None && args is None && wd is None);
            }
            let keep = display.is_some() || args.is_some() || wd.is_some();
            if keep {
                out_meta.push(
                    PinnedLaunchMeta {
                        path: bytes_copy(&rp),
                        display_name: display,
                        args,
                        working_dir: wd,
                    },
                );
            }
            migrated.push(rp);
            let ghost seen_pre = seen@;
            seen.push(key);
            proof {
                gseen = gseen.insert(lower_bytes(step.0));
                assert(seen@[seen@.len() - 1]@ == lower_bytes(step.0));
                assert forall|k: Seq<u8>| gseen.contains(k) implies exists|j: int|
                    0 <= j < seen@.len() && seen@[j]@ == k by {
                    if k == lower_bytes(step.0) {
                        assert(seen@[seen@.len() - 1]@ == k);
                    } else {
                        let j = choose|j: int| 0 <= j < seen_pre.len() && seen_pre[j]@ == k;
                        assert(seen@[j]@ == k);
                    }
                }
            }
        }
        i = i + 1;
    }
    proof {
        assert(paths@.skip(n as int) =~= Seq::<Vec<u8>>::empty());
        assert(crate::layout::views_of(migrated@) + Seq::<Seq<u8>>::empty() =~= crate::layout::views_of(migrated@));
        assert(metas_of(out_meta@) + Seq::<
            (Seq<u8>, Option<Seq<u8>>, Option<Seq<u8>>, Option<Seq<u8>>),
        >::empty() =~= metas_of(out_meta@));
    }
    (migrated, out_meta)
}

/// Drops override records whose key an earlier record already used.
pub fn dedupe_launch_meta(items: Vec<PinnedLaunchMeta>) -> (r: Vec<PinnedLaunchMeta>)
    ensures
        metas_of(r@) == dedupe_recs(metas_of(items@), Set::empty()),
{
    let ghost orig = items@;
    let mut items = items;
    let mut out: Vec<PinnedLaunchMeta> = Vec::new();
    let mut seen: Vec<Vec<u8>> = Vec::new();
    let ghost mut gseen = Set::<Seq<u8>>::empty();
    proof {
        assert(orig.skip(0) =~= orig);
        assert(metas_of(orig).skip(0) =~= metas_of(orig));
        assert(metas_of(out@) + dedupe_recs(metas_of(orig), Set::empty()) =~= dedupe_recs(
            metas_of(orig),
            Set::empty(),
        ));
    }
    let ghost k: int = 0;
    while items.len() > 0
        invariant
            0 <= k <= orig.len(),
            items@ == orig.skip(k),
            forall|j: int| 0 <= j < seen@.len() ==> gseen.contains(seen@[j]@),
            forall|key: Seq<u8>|
                gseen.contains(key) ==> exists|j: int| 0 <= j < seen@.len() && seen@[j]@ == key,
            dedupe_recs(metas_of(orig), Set::empty()) == metas_of(out@) + dedupe_recs(
                metas_of(orig).skip(k),
                gseen,
            ),
        decreases items@.len(),
    {
        proof {
            assert(metas_of(orig).skip(k)[0] == meta_rec(orig[k]));
            assert(metas_of(orig).skip(k).drop_first() =~= metas_of(orig).skip(k + 1));
            assert(orig.skip(k)[0] == orig[k]);
            assert(orig.skip(k).drop_first() =~= orig.skip(k + 1));
        }
        let item = items.remove(0);
        let key = item.key();
        if !seen_contains(&seen, &key) {
            out.push(item);
            let ghost seen_pre = seen@;
            seen.push(key);
            proof {
                gseen = gseen.insert(lower_bytes(meta_rec(orig[k]).0));
                assert(seen@[seen@.len() - 1]@ == lower_bytes(meta_rec(orig[k]).0));
                assert forall|kk: Seq<u8>| gseen.contains(kk) implies exists|j: int|
                    0 <= j < seen@.len() && seen@[j]@ == kk by {
                    if kk == lower_bytes(meta_rec(orig[k]).0) {
                        assert(seen@[seen@.len() - 1]@ == kk);
                    } else {
                        let j = choose|j: int| 0 <= j < seen_pre.len() && seen_pre[j]@ == kk;
                        assert(seen@[j]@ == kk);
                    }
                }
            }
        }
        proof {
            k = k + 1;
        }
    }
    proof {
        assert(metas_of(orig).skip(orig.len() as int) =~= Seq::<
            (Seq<u8>, Option<Seq<u8>>, Option<Seq<u8>>, Option<Seq<u8>>),
        >::empty());
        assert(metas_of(out@) + Seq::<
            (Seq<u8>, Option<Seq<u8>>, Option<Seq<u8>>, Option<Seq<u8>>),
        >::empty() =~= metas_of(out@));
    }
    out
}

/// How a pin built from the persisted lists relates to its path: it takes
/// the last matching override record's fields, or none, and its label
/// follows the usual choice.
pub open spec fn app_matches_config(
    app: PinnedApp,
    path: Seq<u8>,
    metas: Seq<PinnedLaunchMeta>,
) -> bool {
    let m = last_meta_with_key(metas, lower_bytes(path));
    &&& app.path@ == path
    &&& app.icon_state == IconState::NotRequested
    &&& match m {
        Option::Some(mm) => opt_owned(app.launch_args) == opt_owned(mm.args) && opt_owned(
            app.working_dir,
        ) == opt_owned(mm.working_dir) && app.name@ == chosen_name(
            path,
            opt_owned(mm.display_name),
        ),
        Option::None => app.launch_args is None && app.working_dir is None && app.name@
            == chosen_name(path, Option::None),
    }
}

/// Builds the live pin list from the persisted path list and override
/// records, each path taking the last matching record's fields.
pub fn build_pinned_from_config(paths: &Vec<Vec<u8>>, launch_meta: &Vec<PinnedLaunchMeta>) -> (r:
    Vec<PinnedApp>)
    ensures
        r@.len() == paths@.len(),
        forall|i: int| 0 <= i < r@.len() ==> app_matches_config(r@[i], paths@[i]@, launch_meta@),
{
    let mut r: Vec<PinnedApp> = Vec::new();
    let mut i: usize = 0;
    while i < paths.len()
        invariant
            i <= paths@.len(),
            r@.len() == i,
            forall|j: int| 0 <= j < i ==> app_matches_config(r@[j], paths@[j]@, launch_meta@),
        decreases paths@.len() - i,
    {
        let p = &paths[i];
        let key = normalize_path_key(p);
        let app = match find_last_meta(launch_meta, &key) {
            Option::Some(j) => {
                let m = &launch_meta[j];
                PinnedApp::new(
                    bytes_copy(p),
                    opt_bytes_copy(&m.display_name),
                    opt_bytes_copy(&m.args),
                    opt_bytes_copy(&m.working_dir),
                )
            },
            Option::None => PinnedApp::from_path(bytes_copy(p)),
        };
        r.push(app);
        i = i + 1;
    }
    r
}

/// The override record the collection persists for a pin, if any field
/// departs from the defaults: trimmed arguments, the working directory,
/// and a trimmed display name unless it merely restates the path's stem.
pub open spec fn config_meta_of(app: PinnedApp) -> Option<
    (Seq<u8>, Option<Seq<u8>>, Option<Seq<u8>>, Option<Seq<u8>>),
> {
    let args = norm_opt(opt_owned(app.launch_args));
    let wd = opt_owned(app.working_dir);
    let display = match norm_opt(Option::Some(app.name@)) {
        Option::Some(d) => if default_name_of(app.path@) == Option::Some(d) {
            Option::<Seq<u8>>::None
        } else {
            Option::Some(d)
        },
        Option::None => Option::None,
    };
    if display is None && args is None && wd is None {
        Option::None
    } else {
        Option::Some((app.path@, display, args, wd))
    }
}

/// The override records the whole collection persists, in order.
pub open spec fn config_metas_of(apps: Seq<PinnedApp>) -> Seq<
    (Seq<u8>, Option<Seq<u8>>, Option<Seq<u8>>, Option<Seq<u8>>),
>
    decreases apps.len(),
{
    if apps.len() == 0 {
        Seq::empty()
    } else {
        (match config_meta_of(apps[0]) {
            Option::Some(rec) => seq![rec],
            Option::None => Seq::empty(),
        }) + config_metas_of(apps.drop_first())
    }
}

/// The paths of a pin list, in order.
pub open spec fn paths_of(apps: Seq<PinnedApp>) -> Seq<Seq<u8>> {
    apps.map_values(|a: PinnedApp| a.path@)
}

/// What the collection writes back to the configuration: its path list in
/// order, and an override record for each pin that departs from the
/// defaults; see [`config_metas_of`].
pub fn pins_to_config(apps: &Vec<PinnedApp>) -> (r: (Vec<Vec<u8>>, Vec<PinnedLaunchMeta>))
    ensures
        crate::layout::views_of(r.0@) == paths_of(apps@),
        metas_of(r.1@) == config_metas_of(apps@),
{
    let mut out_paths: Vec<Vec<u8>> = Vec::new();
    let mut out_meta: Vec<PinnedLaunchMeta> = Vec::new();
    proof {
        assert(apps@.skip(0) =~= apps@);
        assert(metas_of(out_meta@) + config_metas_of(apps@) =~= config_metas_of(apps@));
    }
    let mut i: usize = 0;
    while i < apps.len()
        invariant
            i <= apps@.len(),
            out_paths@.len() == i,
            forall|j: int| 0 <= j < i ==> out_paths@[j]@ == apps@[j].path@,
            config_metas_of(apps@) == metas_of(out_meta@) + config_metas_of(apps@.skip(i as int)),
        decreases apps@.len() - i,
    {
        proof {
            assert(apps@.skip(i as int)[0] == apps@[i as int]);
            assert(apps@.skip(i as int).drop_first() =~= apps@.skip(i as int + 1));
        }
        let a = &apps[i];
        out_paths.push(bytes_copy(&a.path));
        let args = match &a.launch_args {
            Option::Some(x) => normalize_text_opt(x),
            Option::None => Option::None,
        };
        let wd = opt_bytes_copy(&a.working_dir);
        let display = match normalize_text_opt(&a.name) {
            Option::Some(d) => {
                let is_default = match default_display_name(&a.path) {
                    Option::Some(dn) => bytes_eq(&d, &dn),
                    Option::None => false,
                };
                if is_default {
                    Option::None
                } else {
                    Option::Some(d)
                }
            },
            Option::None => Option::None,
        };
        if display.is_some() || args.is_some() || wd.is_some() {
            out_meta.push(
                PinnedLaunchMeta {
                    path: bytes_copy(&a.path),
                    display_name: display,
                    args,
                    working_dir: wd,
                },
            );
        }
        i = i + 1;
    }
    proof {
        assert(apps@.skip(apps@.len() as int) =~= Seq::<PinnedApp>::empty());
        assert(metas_of(out_meta@) + Seq::<
            (Seq<u8>, Option<Seq<u8>>, Option<Seq<u8>>, Option<Seq<u8>>),
        >::empty() =~= metas_of(out_meta@));
        assert(crate::layout::views_of(out_paths@) =~= paths_of(apps@));
    }
    (out_paths, out_meta)
}

} // verus!
