//! The remote resolver: given the CLI's intent and the current directory's
//! entry list, deterministically picks or creates the entry to act on,
//! applying the precedence rules (explicit arguments, then the preferred
//! flag, then a single entry, then interactive selection) and performing at
//! most one store mutation.
//!
//! Interactive steps are answered by the caller: when the resolver asks for
//! host and directory, or for a selection, the caller obtains them and calls
//! again with the answer placed in the intent.

use vstd::prelude::*;

use crate::config::{
    first_name_idx, generated_name, has_name, names_of, CliIntent, CliIntentModel, RemoteEntry,
    RemoteEntryModel,
};
use crate::errors::SyncError;
use crate::store::RemoteMap;
use crate::text::str_eq;

verus! {

/// What the resolver decided.
pub enum Resolution {
    /// Act on this entry; `save` says whether the store was mutated and must
    /// be persisted.
    UseEntry { entry: RemoteEntry, save: bool },
    /// No entry exists and none was named: obtain host and directory
    /// interactively, then resolve again with them set in the intent.
    NeedHostDir,
    /// Several entries exist and none is distinguished: obtain a selection
    /// interactively, then resolve again with the chosen name in the intent.
    NeedSelection,
}

/// Model of the resolver's outcome: the chosen entry, whether a save is owed,
/// and the directory's entry list afterwards.
pub enum OutcomeModel {
    Use { entry: RemoteEntryModel, save: bool, list: Seq<RemoteEntryModel> },
    AskHostDir,
    AskSelection,
    Fail { error: SyncError },
}

/// The list with every preferred flag cleared.
pub open spec fn cleared(es: Seq<RemoteEntryModel>) -> Seq<RemoteEntryModel> {
    es.map_values(|e: RemoteEntryModel| RemoteEntryModel { preferred: false, ..e })
}

/// The entry built from explicit host and directory arguments.
pub open spec fn new_entry_model(
    name: Seq<char>,
    host: Seq<char>,
    dir: Seq<char>,
    a: CliIntentModel,
) -> RemoteEntryModel {
    RemoteEntryModel {
        name: name,
        remote_host: host,
        remote_dir: dir,
        override_paths: a.override_paths,
        post_sync_command: a.post_command,
        preferred: a.preferred,
        ignore_patterns: a.ignore_patterns,
    }
}

/// An entry with the intent's mutating fields written over it; absent fields
/// leave the stored values untouched.
pub open spec fn updated_entry(e: RemoteEntryModel, a: CliIntentModel) -> RemoteEntryModel {
    RemoteEntryModel {
        name: e.name,
        remote_host: e.remote_host,
        remote_dir: e.remote_dir,
        override_paths: if a.override_paths.len() > 0 {
            a.override_paths
        } else {
            e.override_paths
        },
        post_sync_command: match a.post_command {
            Some(c) => Some(c),
            None => e.post_sync_command,
        },
        preferred: e.preferred || a.preferred,
        ignore_patterns: if a.ignore_patterns.len() > 0 {
            a.ignore_patterns
        } else {
            e.ignore_patterns
        },
    }
}

/// The intent carries at least one mutating field.
pub open spec fn any_update(a: CliIntentModel) -> bool {
    a.override_paths.len() > 0 || a.post_command is Some || a.preferred
        || a.ignore_patterns.len() > 0
}

/// Replace the first entry of the same name in place, or append.
pub open spec fn upsert(es: Seq<RemoteEntryModel>, e: RemoteEntryModel) -> Seq<RemoteEntryModel> {
    if has_name(es, e.name) {
        es.update(first_name_idx(es, e.name), e)
    } else {
        es.push(e)
    }
}

pub open spec fn has_preferred(es: Seq<RemoteEntryModel>) -> bool {
    exists|i: int| 0 <= i < es.len() && es[i].preferred
}

pub open spec fn is_first_pref_idx(es: Seq<RemoteEntryModel>, i: int) -> bool {
    0 <= i < es.len() && es[i].preferred && forall|k: int| 0 <= k < i ==> !es[k].preferred
}

pub open spec fn first_pref_idx(es: Seq<RemoteEntryModel>) -> int {
    choose|i: int| is_first_pref_idx(es, i)
}

/// The resolver's decision procedure over the intent and the directory's
/// current entry list.
pub open spec fn resolver_spec(a: CliIntentModel, es: Seq<RemoteEntryModel>) -> OutcomeModel {
    if (a.remote_host is Some) != (a.remote_dir is Some) {
        OutcomeModel::Fail { error: SyncError::PartialHostDir }
    } else if a.remote_host is Some && a.remote_dir is Some {
        let h = match a.remote_host {
            Some(h) => h,
            None => Seq::empty(),
        };
        let d = match a.remote_dir {
            Some(d) => d,
            None => Seq::empty(),
        };
        let nm = match a.name {
            Some(n) => n,
            None => generated_name(h, names_of(es)),
        };
        let e = new_entry_model(nm, h, d, a);
        let base = if a.preferred {
            cleared(es)
        } else {
            es
        };
        OutcomeModel::Use { entry: e, save: true, list: upsert(base, e) }
    } else if es.len() == 0 {
        OutcomeModel::AskHostDir
    } else if es.len() == 1 {
        let ue = updated_entry(es[0], a);
        OutcomeModel::Use { entry: ue, save: true, list: seq![ue] }
    } else if a.preferred && a.name is None {
        OutcomeModel::Fail { error: SyncError::NameRequiredForPreferred }
    } else {
        let target: Option<Seq<char>> = if a.preferred {
            a.name
        } else if has_preferred(es) {
            Some(es[first_pref_idx(es)].name)
        } else {
            a.name
        };
        match target {
            None => OutcomeModel::AskSelection,
            Some(nm) => if !has_name(es, nm) {
                OutcomeModel::Fail { error: SyncError::RemoteNotFound }
            } else {
                let i = first_name_idx(es, nm);
                if any_update(a) {
                    let ue = updated_entry(es[i], a);
                    let base = if a.preferred {
                        cleared(es)
                    } else {
                        es
                    };
                    OutcomeModel::Use { entry: ue, save: true, list: base.update(i, ue) }
                } else {
                    OutcomeModel::Use { entry: es[i], save: false, list: es }
                }
            },
        }
    }
}

/// Law: when the intent sets the preferred flag and the resolver acts on an
/// entry, the saved list has exactly one preferred entry — the one acted on —
/// whatever the flags were before.
pub proof fn lemma_preferred_unique(a: CliIntentModel, es: Seq<RemoteEntryModel>)
    requires
        a.preferred,
        crate::config::names_unique(es),
    ensures
        match resolver_spec(a, es) {
            OutcomeModel::Use { entry, save, list } => save && entry.preferred && exists|k: int|
                0 <= k < list.len() && list[k] == entry && forall|t: int|
                    0 <= t < list.len() && t != k ==> !list[t].preferred,
            _ => true,
        },
{
    match resolver_spec(a, es) {
        OutcomeModel::Use { entry, save, list } => {
            if a.remote_host is Some && a.remote_dir is Some {
                let base = cleared(es);
                assert(forall|t: int| 0 <= t < base.len() ==> !base[t].preferred);
                assert(forall|t: int| 0 <= t < base.len() ==> base[t].name == es[t].name);
                if has_name(base, entry.name) {
                    let w = choose|w: int| 0 <= w < base.len() && base[w].name == entry.name;
                    assert(crate::config::is_first_name_idx(base, entry.name, w)) by {
                        assert forall|k: int| 0 <= k < w implies base[k].name != entry.name by {
                            assert(es[k].name != es[w].name);
                        }
                    }
                    let i = first_name_idx(base, entry.name);
                    assert(crate::config::is_first_name_idx(base, entry.name, i));
                    assert(list =~= base.update(i, entry));
                    assert(list[i] == entry);
                    assert(forall|t: int| 0 <= t < list.len() && t != i ==> !list[t].preferred);
                } else {
                    assert(list =~= base.push(entry));
                    assert(list[list.len() - 1] == entry);
                    assert(forall|t: int|
                        0 <= t < list.len() - 1 ==> !list[t].preferred);
                }
            } else if es.len() == 1 {
                assert(list =~= seq![updated_entry(es[0], a)]);
                assert(list[0] == entry);
            } else {
                let nm = match a.name {
                    Some(n) => n,
                    None => Seq::empty(),
                };
                assert(has_name(es, nm));
                let i = first_name_idx(es, nm);
                assert(crate::config::is_first_name_idx(es, nm, i)) by {
                    let w = choose|w: int| 0 <= w < es.len() && es[w].name == nm;
                    assert(crate::config::is_first_name_idx(es, nm, w)) by {
                        assert forall|k: int| 0 <= k < w implies es[k].name != nm by {
                            assert(es[k].name != es[w].name);
                        }
                    }
                }
                let base = cleared(es);
                assert(forall|t: int| 0 <= t < base.len() ==> !base[t].preferred);
                assert(list =~= base.update(i, updated_entry(es[i], a)));
                assert(list[i] == entry);
                assert(forall|t: int| 0 <= t < list.len() && t != i ==> !list[t].preferred);
            }
        },
        _ => {},
    }
}

/// Law: an entry created from explicit host and directory without a CLI name
/// gets a generated name, which never matches an existing entry: it is
/// appended, and every entry already stored survives. Holds as long as no
/// stored numbered suffix has reached the generator's index cap.
pub proof fn lemma_generated_entry_appends(
    a: CliIntentModel,
    host: Seq<char>,
    es: Seq<RemoteEntryModel>,
)
    requires
        a.remote_host == Some(host),
        a.remote_dir is Some,
        a.name is None,
        forall|i: int|
            0 <= i < es.len() ==> #[trigger] crate::config::name_contribution(
                es[i].name,
                crate::config::base_of(host),
            ) <= crate::config::NAME_INDEX_CAP as nat,
    ensures
        match resolver_spec(a, es) {
            OutcomeModel::Use { entry, save, list } => list.len() == es.len() + 1
                && list.last() == entry && forall|i: int|
                0 <= i < es.len() ==> #[trigger] list[i].name == es[i].name,
            _ => false,
        },
{
    let h = host;
    let names = names_of(es);
    assert(forall|i: int| 0 <= i < names.len() ==> names[i] == es[i].name);
    assert forall|i: int| 0 <= i < names.len() implies #[trigger] crate::config::name_contribution(
        names[i],
        crate::config::base_of(host),
    ) <= crate::config::NAME_INDEX_CAP as nat by {
        assert(crate::config::name_contribution(es[i].name, crate::config::base_of(host))
            <= crate::config::NAME_INDEX_CAP as nat);
    }
    crate::config::lemma_generated_name_fresh(host, names);
    let nm = generated_name(h, names);
    let base = if a.preferred {
        cleared(es)
    } else {
        es
    };
    assert(forall|i: int| 0 <= i < base.len() ==> base[i].name == es[i].name);
    if has_name(base, nm) {
        let w = choose|w: int| 0 <= w < base.len() && base[w].name == nm;
        assert(names[w] == nm);
        assert(false);
    }
}

/// Clones a list with every preferred flag cleared.
fn cleared_list(es: &Vec<RemoteEntry>) -> (r: Vec<RemoteEntry>)
    ensures
        r.deep_view() =~= cleared(es.deep_view()),
{
    let ghost esv = es.deep_view();
    let n = es.len();
    let mut r: Vec<RemoteEntry> = Vec::new();
    let mut i: usize = 0;
    while i < n
        invariant
            i <= n == esv.len(),
            es.deep_view() == esv,
            es@.len() == n,
            forall|k: int| 0 <= k < n ==> esv[k] == es@[k]@,
            r.deep_view() =~= cleared(esv.take(i as int)),
        decreases n - i,
    {
        let mut c = es[i].clone();
        c.preferred = false;
        r.push(c);
        proof {
            assert(cleared(esv.take(i as int + 1)) =~= cleared(esv.take(i as int)).push(
                RemoteEntryModel { preferred: false, ..esv[i as int] },
            ));
        }
        i = i + 1;
    }
    proof {
        assert(esv.take(n as int) =~= esv);
    }
    r
}

/// Clones a whole entry list.
fn clone_entries(es: &Vec<RemoteEntry>) -> (r: Vec<RemoteEntry>)
    ensures
        r.deep_view() =~= es.deep_view(),
{
    let ghost esv = es.deep_view();
    let n = es.len();
    let mut r: Vec<RemoteEntry> = Vec::new();
    let mut i: usize = 0;
    while i < n
        invariant
            i <= n == esv.len(),
            es.deep_view() == esv,
            es@.len() == n,
            forall|k: int| 0 <= k < n ==> esv[k] == es@[k]@,
            r.deep_view() =~= esv.take(i as int),
        decreases n - i,
    {
        r.push(es[i].clone());
        proof {
            assert(esv.take(i as int + 1).drop_last() =~= esv.take(i as int));
        }
        i = i + 1;
    }
    proof {
        assert(esv.take(n as int) =~= esv);
    }
    r
}

/// The position of the first entry of the given name.
fn find_name(es: &Vec<RemoteEntry>, n: &str) -> (r: Option<usize>)
    ensures
        match r {
            Some(i) => crate::config::is_first_name_idx(es.deep_view(), n@, i as int)
                && first_name_idx(es.deep_view(), n@) == i as int,
            None => !has_name(es.deep_view(), n@),
        },
{
    let len = es.len();
    let mut i: usize = 0;
    while i < len
        invariant
            i <= len == es@.len(),
            forall|k: int| 0 <= k < i ==> es.deep_view()[k].name != n@,
        decreases len - i,
    {
        if str_eq(es[i].name.as_str(), n) {
            proof {
                assert(crate::config::is_first_name_idx(es.deep_view(), n@, i as int));
                crate::config::lemma_first_name_idx_unique(es.deep_view(), n@, i as int);
            }
            return Some(i);
        }
        i = i + 1;
    }
    None
}

/// The position of the first entry marked preferred.
fn find_pref(es: &Vec<RemoteEntry>) -> (r: Option<usize>)
    ensures
        match r {
            Some(i) => is_first_pref_idx(es.deep_view(), i as int) && first_pref_idx(es.deep_view())
                == i as int,
            None => !has_preferred(es.deep_view()),
        },
{
    let len = es.len();
    let mut i: usize = 0;
    while i < len
        invariant
            i <= len == es@.len(),
            forall|k: int| 0 <= k < i ==> !es.deep_view()[k].preferred,
        decreases len - i,
    {
        if es[i].preferred {
            proof {
                assert(is_first_pref_idx(es.deep_view(), i as int));
                let j = first_pref_idx(es.deep_view());
                assert(is_first_pref_idx(es.deep_view(), j));
                if j != i as int {
                    assert(false);
                }
            }
            return Some(i);
        }
        i = i + 1;
    }
    None
}

/// An entry with the intent's mutating fields written over it.
fn apply_updates(e: &RemoteEntry, args: &CliIntent) -> (r: RemoteEntry)
    ensures
        r@ == updated_entry(e@, args@),
{
    let r = RemoteEntry {
        name: e.name.clone(),
        remote_host: e.remote_host.clone(),
        remote_dir: e.remote_dir.clone(),
        override_paths: if args.override_paths.len() > 0 {
            crate::config::clone_strings(&args.override_paths)
        } else {
            crate::config::clone_strings(&e.override_paths)
        },
        post_sync_command: match args.post_command {
            Some(ref c) => Some(c.clone()),
            None => match e.post_sync_command {
                Some(ref c) => Some(c.clone()),
                None => None,
            },
        },
        preferred: e.preferred || args.preferred,
        ignore_patterns: if args.ignore_patterns.len() > 0 {
            crate::config::clone_strings(&args.ignore_patterns)
        } else {
            crate::config::clone_strings(&e.ignore_patterns)
        },
    };
    assert(r@ =~= updated_entry(e@, args@));
    r
}

/// Determines which remote configuration to use for the current directory,
/// mutating the store as the decision procedure demands. The caller persists
/// the store when the outcome says a save is owed, and answers interactive
/// outcomes by resolving again with the answer in the intent.
pub fn determine_remote_config(args: &CliIntent, cache: &mut RemoteMap, current_dir: &str) -> (r:
    Result<Resolution, SyncError>)
    requires
        old(cache).wf(),
        old(cache)@.dom().contains(current_dir@),
    ensures
        final(cache).wf(),
        match resolver_spec(args@, old(cache)@[current_dir@]) {
            OutcomeModel::Use { entry, save, list } => (r matches Ok(Resolution::UseEntry {
                entry: e2,
                save: s2,
            }) && e2@ == entry && s2 == save) && (if save {
                final(cache)@ =~= old(cache)@.insert(current_dir@, list)
            } else {
                final(cache)@ == old(cache)@
            }),
            OutcomeModel::AskHostDir => r matches Ok(Resolution::NeedHostDir) && final(cache)@
                == old(cache)@,
            OutcomeModel::AskSelection => r matches Ok(Resolution::NeedSelection) && final(cache)@
                == old(cache)@,
            OutcomeModel::Fail { error } => r matches Err(e2) && e2 == error && final(cache)@
                == old(cache)@,
        },
{
    let ghost es0 = old(cache)@[current_dir@];
    match (&args.remote_host, &args.remote_dir) {
        (Some(h), Some(d)) => {
            let name: String = match &args.name {
                Some(nm) => nm.clone(),
                None => crate::config::generate_unique_name(h.as_str(), cache, current_dir),
            };
            let entry = RemoteEntry {
                name: name.clone(),
                remote_host: h.clone(),
                remote_dir: d.clone(),
                override_paths: crate::config::clone_strings(&args.override_paths),
                post_sync_command: match args.post_command {
                    Some(ref c) => Some(c.clone()),
                    None => None,
                },
                preferred: args.preferred,
                ignore_patterns: crate::config::clone_strings(&args.ignore_patterns),
            };
            let es = match cache.get(current_dir) {
                Some(es) => es,
                None => {
                    proof {
                        assert(false);
                    }
                    return Err(SyncError::PartialHostDir);
                },
            };
            proof {
                assert(es.deep_view() == es0);
            }
            let mut list = if args.preferred {
                cleared_list(es)
            } else {
                clone_entries(es)
            };
            let ghost base = list.deep_view();
            proof {
                assert(forall|k: int| 0 <= k < base.len() ==> base[k].name == es0[k].name);
                if has_name(base, entry@.name) {
                    let w = choose|w: int| 0 <= w < base.len() && base[w].name == entry@.name;
                    assert(es0[w].name == entry@.name);
                }
                if has_name(es0, entry@.name) {
                    let w = choose|w: int| 0 <= w < es0.len() && es0[w].name == entry@.name;
                    assert(base[w].name == entry@.name);
                }
            }
            match find_name(&list, name.as_str()) {
                Some(i) => {
                    proof {
                        assert(has_name(base, entry@.name));
                    }
                    list[i] = entry.clone();
                    proof {
                        assert(list.deep_view() =~= base.update(
                            first_name_idx(base, entry@.name),
                            entry@,
                        ));
                    }
                },
                None => {
                    list.push(entry.clone());
                    proof {
                        assert(list.deep_view() =~= base.push(entry@));
                    }
                },
            }
            proof {
                assert(list.deep_view() =~= upsert(base, entry@));
            }
            cache.insert(current_dir.to_owned(), list);
            Ok(Resolution::UseEntry { entry, save: true })
        },
        (None, None) => {
            let es = match cache.get(current_dir) {
                Some(es) => es,
                None => {
                    proof {
                        assert(false);
                    }
                    return Err(SyncError::PartialHostDir);
                },
            };
            proof {
                assert(es.deep_view() == es0);
            }
            if es.len() == 0 {
                return Ok(Resolution::NeedHostDir);
            }
            if es.len() == 1 {
                let ue = apply_updates(&es[0], args);
                let mut list: Vec<RemoteEntry> = Vec::new();
                list.push(ue.clone());
                proof {
                    assert(list.deep_view() =~= seq![updated_entry(es0[0], args@)]);
                }
                cache.insert(current_dir.to_owned(), list);
                return Ok(Resolution::UseEntry { entry: ue, save: true });
            }
            if args.preferred && matches!(&args.name, None) {
                return Err(SyncError::NameRequiredForPreferred);
            }
            let name: String = if args.preferred {
                match &args.name {
                    Some(nm) => nm.clone(),
                    None => {
                        proof {
                            assert(false);
                        }
                        return Err(SyncError::NameRequiredForPreferred);
                    },
                }
            } else {
                match find_pref(es) {
                    Some(p) => es[p].name.clone(),
                    None => {
                        match &args.name {
                            Some(nm) => nm.clone(),
                            None => {
                                return Ok(Resolution::NeedSelection);
                            },
                        }
                    },
                }
            };
            let i = match find_name(es, name.as_str()) {
                Some(i) => i,
                None => {
                    return Err(SyncError::RemoteNotFound);
                },
            };
            proof {
                if !(args@.preferred) && has_preferred(es0) {
                    assert(es0[first_pref_idx(es0)].name == name@);
                }
            }
            if args.override_paths.len() > 0 || matches!(&args.post_command, Some(_))
                || args.preferred || args.ignore_patterns.len() > 0 {
                let ue = apply_updates(&es[i], args);
                let mut list = if args.preferred {
                    cleared_list(es)
                } else {
                    clone_entries(es)
                };
                let ghost base = list.deep_view();
                list[i] = ue.clone();
                proof {
                    assert(list.deep_view() =~= base.update(i as int, updated_entry(
                        es0[i as int],
                        args@,
                    )));
                }
                cache.insert(current_dir.to_owned(), list);
                Ok(Resolution::UseEntry { entry: ue, save: true })
            } else {
                let entry = es[i].clone();
                Ok(Resolution::UseEntry { entry, save: false })
            }
        },
        _ => Err(SyncError::PartialHostDir),
    }
}

} // verus!
