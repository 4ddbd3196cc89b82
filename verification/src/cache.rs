//! The migration engine: the versioned cache envelope, the legacy schema,
//! the migrator registry, and the reading and writing of the cache document.

use vstd::prelude::*;

use crate::config::{RemoteEntry, RemoteEntryModel};
use crate::json::{
    json_field_models, json_model, json_models, lemma_json_field_models_len, lemma_json_models_len,
    print_json, render_json, Json, JsonField, JsonModel,
};
use crate::store::RemoteMap;
use crate::text::{chars_string, str_chars, str_eq};

verus! {

/// The versioned on-disk wrapper around the entry map: the sole
/// representation once migrated.
pub struct VersionedCache {
    pub version: String,
    pub entries: RemoteMap,
}

/// One target of the legacy, pre-versioning cache: a single unnamed entry
/// per directory.
#[verifier::ext_equal]
pub struct LegacyEntryModel {
    pub remote_host: Seq<char>,
    pub remote_dir: Seq<char>,
    pub override_paths: Seq<Seq<char>>,
    pub post_sync_command: Option<Seq<char>>,
}

pub struct LegacyEntry {
    pub remote_host: String,
    pub remote_dir: String,
    pub override_paths: Vec<String>,
    pub post_sync_command: Option<String>,
}

impl View for LegacyEntry {
    type V = LegacyEntryModel;

    open spec fn view(&self) -> LegacyEntryModel {
        LegacyEntryModel {
            remote_host: self.remote_host@,
            remote_dir: self.remote_dir@,
            override_paths: self.override_paths.deep_view(),
            post_sync_command: match self.post_sync_command {
                Some(ref c) => Some(c@),
                None => None,
            },
        }
    }
}

// ------------------------------------------------------------------
// Reading schema values out of a JSON document.
// ------------------------------------------------------------------

/// First-match lookup among an object's fields.
pub open spec fn obj_lookup(fs: Seq<(Seq<char>, JsonModel)>, k: Seq<char>) -> Option<JsonModel>
    decreases fs.len(),
{
    if fs.len() == 0 {
        None
    } else if fs[0].0 == k {
        Some(fs[0].1)
    } else {
        obj_lookup(fs.drop_first(), k)
    }
}

pub open spec fn sj_strings(items: Seq<JsonModel>) -> Option<Seq<Seq<char>>>
    decreases items.len(),
{
    if items.len() == 0 {
        Some(Seq::empty())
    } else {
        match (sj_strings(items.drop_last()), items.last()) {
            (Some(ss), JsonModel::Str(s)) => Some(ss.push(s)),
            _ => None,
        }
    }
}

/// An optional list-of-strings field: absent means empty.
pub open spec fn sj_opt_string_list(o: Option<JsonModel>) -> Option<Seq<Seq<char>>> {
    match o {
        None => Some(Seq::empty()),
        Some(JsonModel::Arr(items)) => sj_strings(items),
        Some(_) => None,
    }
}

/// An optional string field: absent and null both mean none.
pub open spec fn sj_opt_string(o: Option<JsonModel>) -> Option<Option<Seq<char>>> {
    match o {
        None => Some(None),
        Some(JsonModel::Null) => Some(None),
        Some(JsonModel::Str(s)) => Some(Some(s)),
        Some(_) => None,
    }
}

/// An optional boolean field: absent means false.
pub open spec fn sj_opt_bool(o: Option<JsonModel>) -> Option<bool> {
    match o {
        None => Some(false),
        Some(JsonModel::Bool(b)) => Some(b),
        Some(_) => None,
    }
}

/// A current-schema entry read from a JSON object.
pub open spec fn sj_entry(j: JsonModel) -> Option<RemoteEntryModel> {
    match j {
        JsonModel::Obj(fs) => match (
            obj_lookup(fs, "name"@),
            obj_lookup(fs, "remote_host"@),
            obj_lookup(fs, "remote_dir"@),
        ) {
            (Some(JsonModel::Str(nm)), Some(JsonModel::Str(h)), Some(JsonModel::Str(d))) => match (
                sj_opt_string_list(obj_lookup(fs, "override_paths"@)),
                sj_opt_string(obj_lookup(fs, "post_sync_command"@)),
                sj_opt_bool(obj_lookup(fs, "preferred"@)),
                sj_opt_string_list(obj_lookup(fs, "ignore_patterns"@)),
            ) {
                (Some(op), Some(pc), Some(pf), Some(ip)) => Some(
                    RemoteEntryModel {
                        name: nm,
                        remote_host: h,
                        remote_dir: d,
                        override_paths: op,
                        post_sync_command: pc,
                        preferred: pf,
                        ignore_patterns: ip,
                    },
                ),
                _ => None,
            },
            _ => None,
        },
        _ => None,
    }
}

pub open spec fn sj_entry_seq(items: Seq<JsonModel>) -> Option<Seq<RemoteEntryModel>>
    decreases items.len(),
{
    if items.len() == 0 {
        Some(Seq::empty())
    } else {
        match (sj_entry_seq(items.drop_last()), sj_entry(items.last())) {
            (Some(es), Some(e)) => Some(es.push(e)),
            _ => None,
        }
    }
}

/// The directory pairs of the envelope's `entries` object.
pub open spec fn sj_dir_pairs(fs: Seq<(Seq<char>, JsonModel)>) -> Option<
    Seq<(Seq<char>, Seq<RemoteEntryModel>)>,
>
    decreases fs.len(),
{
    if fs.len() == 0 {
        Some(Seq::empty())
    } else {
        let rest = sj_dir_pairs(fs.drop_last());
        let last = fs.last();
        match last.1 {
            JsonModel::Arr(items) => match (rest, sj_entry_seq(items)) {
                (Some(ps), Some(es)) => Some(ps.push((last.0, es))),
                _ => None,
            },
            _ => None,
        }
    }
}

/// The versioned envelope: its version string and its directory pairs.
pub open spec fn sj_envelope(j: JsonModel) -> Option<
    (Seq<char>, Seq<(Seq<char>, Seq<RemoteEntryModel>)>),
> {
    match j {
        JsonModel::Obj(fs) => match (obj_lookup(fs, "version"@), obj_lookup(fs, "entries"@)) {
            (Some(JsonModel::Str(v)), Some(JsonModel::Obj(efs))) => match sj_dir_pairs(efs) {
                Some(ps) => Some((v, ps)),
                None => None,
            },
            _ => None,
        },
        _ => None,
    }
}

/// A legacy entry read from a JSON object.
pub open spec fn sj_legacy_entry(j: JsonModel) -> Option<LegacyEntryModel> {
    match j {
        JsonModel::Obj(fs) => match (
            obj_lookup(fs, "remote_host"@),
            obj_lookup(fs, "remote_dir"@),
        ) {
            (Some(JsonModel::Str(h)), Some(JsonModel::Str(d))) => match (
                sj_opt_string_list(obj_lookup(fs, "override_paths"@)),
                sj_opt_string(obj_lookup(fs, "post_sync_command"@)),
            ) {
                (Some(op), Some(pc)) => Some(
                    LegacyEntryModel {
                        remote_host: h,
                        remote_dir: d,
                        override_paths: op,
                        post_sync_command: pc,
                    },
                ),
                _ => None,
            },
            _ => None,
        },
        _ => None,
    }
}

/// The whole legacy document: one unnamed entry per directory.
pub open spec fn sj_legacy_pairs(fs: Seq<(Seq<char>, JsonModel)>) -> Option<
    Seq<(Seq<char>, LegacyEntryModel)>,
>
    decreases fs.len(),
{
    if fs.len() == 0 {
        Some(Seq::empty())
    } else {
        match (sj_legacy_pairs(fs.drop_last()), sj_legacy_entry(fs.last().1)) {
            (Some(ps), Some(e)) => Some(ps.push((fs.last().0, e))),
            _ => None,
        }
    }
}

pub open spec fn sj_legacy(j: JsonModel) -> Option<Seq<(Seq<char>, LegacyEntryModel)>> {
    match j {
        JsonModel::Obj(fs) => sj_legacy_pairs(fs),
        _ => None,
    }
}

// ------------------------------------------------------------------
// Building the map that pairs describe: a later pair of the same
// directory wins, as the document's reader stores them in order.
// ------------------------------------------------------------------

pub open spec fn pairs_to_map(ps: Seq<(Seq<char>, Seq<RemoteEntryModel>)>) -> Map<
    Seq<char>,
    Seq<RemoteEntryModel>,
>
    decreases ps.len(),
{
    if ps.len() == 0 {
        Map::empty()
    } else {
        pairs_to_map(ps.drop_last()).insert(ps.last().0, ps.last().1)
    }
}

// ------------------------------------------------------------------
// The conversion performed by the legacy migrator.
// ------------------------------------------------------------------

/// The name synthesized for a converted legacy entry: the host, an
/// underscore, and the directory with every `/` replaced by `_`.
pub open spec fn legacy_name(host: Seq<char>, dir: Seq<char>) -> Seq<char> {
    host + seq!['_'] + dir.map_values(|c: char| if c == '/' { '_' } else { c })
}

/// A legacy entry in the current shape: the transfer fields verbatim, a
/// synthesized name, not preferred, no ignore patterns.
pub open spec fn convert_legacy_entry(e: LegacyEntryModel) -> RemoteEntryModel {
    RemoteEntryModel {
        name: legacy_name(e.remote_host, e.remote_dir),
        remote_host: e.remote_host,
        remote_dir: e.remote_dir,
        override_paths: e.override_paths,
        post_sync_command: e.post_sync_command,
        preferred: false,
        ignore_patterns: Seq::empty(),
    }
}

pub open spec fn convert_legacy_pairs(ps: Seq<(Seq<char>, LegacyEntryModel)>) -> Seq<
    (Seq<char>, Seq<RemoteEntryModel>),
> {
    ps.map_values(|p: (Seq<char>, LegacyEntryModel)| (p.0, seq![convert_legacy_entry(p.1)]))
}

// ------------------------------------------------------------------
// Building the JSON document that is saved.
// ------------------------------------------------------------------

pub open spec fn strings_json(ss: Seq<Seq<char>>) -> Seq<JsonModel> {
    ss.map_values(|s: Seq<char>| JsonModel::Str(s))
}

/// The JSON object an entry is written as.
pub open spec fn entry_json(e: RemoteEntryModel) -> JsonModel {
    JsonModel::Obj(
        seq![
            ("name"@, JsonModel::Str(e.name)),
            ("remote_host"@, JsonModel::Str(e.remote_host)),
            ("remote_dir"@, JsonModel::Str(e.remote_dir)),
            ("override_paths"@, JsonModel::Arr(strings_json(e.override_paths))),
            (
                "post_sync_command"@,
                match e.post_sync_command {
                    Some(c) => JsonModel::Str(c),
                    None => JsonModel::Null,
                },
            ),
            ("preferred"@, JsonModel::Bool(e.preferred)),
            ("ignore_patterns"@, JsonModel::Arr(strings_json(e.ignore_patterns))),
        ],
    )
}

pub open spec fn entries_json(es: Seq<RemoteEntryModel>) -> Seq<JsonModel> {
    es.map_values(|e: RemoteEntryModel| entry_json(e))
}

/// The directory pairs of a store, in stored order.
pub open spec fn pairs_model(m: RemoteMap) -> Seq<(Seq<char>, Seq<RemoteEntryModel>)> {
    m.dirs@.map_values(|de: crate::store::DirEntries| (de.dir@, de.entries.deep_view()))
}

pub open spec fn dir_pairs_json(ps: Seq<(Seq<char>, Seq<RemoteEntryModel>)>) -> Seq<
    (Seq<char>, JsonModel),
> {
    ps.map_values(
        |p: (Seq<char>, Seq<RemoteEntryModel>)| (p.0, JsonModel::Arr(entries_json(p.1))),
    )
}

/// The whole envelope document.
pub open spec fn envelope_json(version: Seq<char>, ps: Seq<(Seq<char>, Seq<RemoteEntryModel>)>)
    -> JsonModel {
    JsonModel::Obj(
        seq![
            ("version"@, JsonModel::Str(version)),
            ("entries"@, JsonModel::Obj(dir_pairs_json(ps))),
        ],
    )
}

// ------------------------------------------------------------------
// Exec readers.
// ------------------------------------------------------------------

/// The value of an object's first field of the given key.
fn obj_get<'a>(fields: &'a Vec<JsonField>, key: &str) -> (r: Option<&'a Json>)
    ensures
        match r {
            Some(v) => obj_lookup(json_field_models(fields@), key@) == Some(json_model(*v)),
            None => obj_lookup(json_field_models(fields@), key@) is None,
        },
{
    let ghost ms = json_field_models(fields@);
    proof {
        lemma_json_field_models_len(fields@);
    }
    let n = fields.len();
    let mut i: usize = 0;
    proof {
        assert(ms.skip(0) =~= ms);
    }
    while i < n
        invariant
            i <= n == fields@.len(),
            ms == json_field_models(fields@),
            ms.len() == n,
            forall|k: int| 0 <= k < n ==> ms[k] == (fields@[k].key@, json_model(fields@[k].value)),
            obj_lookup(ms, key@) == obj_lookup(ms.skip(i as int), key@),
        decreases n - i,
    {
        proof {
            assert(ms.skip(i as int).drop_first() =~= ms.skip(i as int + 1));
            assert(ms.skip(i as int)[0] == ms[i as int]);
        }
        if str_eq(fields[i].key.as_str(), key) {
            return Some(&fields[i].value);
        }
        i = i + 1;
    }
    proof {
        assert(ms.skip(n as int) =~= Seq::<(Seq<char>, JsonModel)>::empty());
    }
    None
}

pub proof fn lemma_sj_strings_bad(items: Seq<JsonModel>, k: int)
    requires
        0 <= k < items.len(),
        !(items[k] is Str),
    ensures
        sj_strings(items) is None,
    decreases items.len(),
{
    if k < items.len() - 1 {
        assert(items.drop_last()[k] == items[k]);
        lemma_sj_strings_bad(items.drop_last(), k);
    }
}

/// A required string field.
fn read_string_field(fields: &Vec<JsonField>, key: &str) -> (r: Option<String>)
    ensures
        match r {
            Some(s) => obj_lookup(json_field_models(fields@), key@) == Some(JsonModel::Str(s@)),
            None => match obj_lookup(json_field_models(fields@), key@) {
                Some(JsonModel::Str(_)) => false,
                _ => true,
            },
        },
{
    match obj_get(fields, key) {
        Some(v) => match v {
            Json::Str(s) => Some(s.clone()),
            _ => None,
        },
        None => None,
    }
}

/// An optional list-of-strings field: absent means empty.
fn read_string_list_field(fields: &Vec<JsonField>, key: &str) -> (r: Option<Vec<String>>)
    ensures
        match r {
            Some(v) => sj_opt_string_list(obj_lookup(json_field_models(fields@), key@)) == Some(
                v.deep_view(),
            ),
            None => sj_opt_string_list(obj_lookup(json_field_models(fields@), key@)) is None,
        },
{
    let v = match obj_get(fields, key) {
        None => {
            let out: Vec<String> = Vec::new();
            proof {
                assert(out.deep_view() =~= Seq::<Seq<char>>::empty());
            }
            return Some(out);
        },
        Some(v) => v,
    };
    let items = match v {
        Json::Arr(items) => items,
        _ => {
            proof {
                assert(!(json_model(*v) is Arr));
            }
            return None;
        },
    };
    proof {
        assert(json_model(*v) == JsonModel::Arr(json_models(items@)));
    }
    let ghost ims = json_models(items@);
    proof {
        lemma_json_models_len(items@);
    }
    let n = items.len();
    let mut out: Vec<String> = Vec::new();
    let mut i: usize = 0;
    while i < n
        invariant
            i <= n == items@.len(),
            ims == json_models(items@),
            ims.len() == n,
            forall|k: int| 0 <= k < n ==> ims[k] == json_model(items@[k]),
            json_model(*v) == JsonModel::Arr(ims),
            obj_lookup(json_field_models(fields@), key@) == Some(json_model(*v)),
            sj_strings(ims.take(i as int)) == Some(out.deep_view()),
        decreases n - i,
    {
        let ghost pre = ims.take(i as int);
        let ghost post = ims.take(i as int + 1);
        proof {
            assert(post.drop_last() =~= pre);
            assert(post.last() == ims[i as int]);
        }
        match &items[i] {
            Json::Str(s) => {
                out.push(s.clone());
            },
            _ => {
                proof {
                    lemma_sj_strings_bad(ims, i as int);
                }
                return None;
            },
        }
        i = i + 1;
    }
    proof {
        assert(ims.take(n as int) =~= ims);
    }
    Some(out)
}

/// An optional string field: absent and null both mean none.
fn read_opt_string_field(fields: &Vec<JsonField>, key: &str) -> (r: Option<Option<String>>)
    ensures
        match r {
            Some(oc) => sj_opt_string(obj_lookup(json_field_models(fields@), key@)) == Some(
                match oc {
                    Some(c) => Some(c@),
                    None => None,
                },
            ),
            None => sj_opt_string(obj_lookup(json_field_models(fields@), key@)) is None,
        },
{
    match obj_get(fields, key) {
        None => Some(None),
        Some(v) => match v {
            Json::Null => Some(None),
            Json::Str(s) => Some(Some(s.clone())),
            _ => None,
        },
    }
}

/// An optional boolean field: absent means false.
fn read_bool_field(fields: &Vec<JsonField>, key: &str) -> (r: Option<bool>)
    ensures
        match r {
            Some(b) => sj_opt_bool(obj_lookup(json_field_models(fields@), key@)) == Some(b),
            None => sj_opt_bool(obj_lookup(json_field_models(fields@), key@)) is None,
        },
{
    match obj_get(fields, key) {
        None => Some(false),
        Some(v) => match v {
            Json::Bool(b) => Some(*b),
            _ => None,
        },
    }
}

/// A current-schema entry read from a JSON value.
fn entry_from_json(j: &Json) -> (r: Option<RemoteEntry>)
    ensures
        match r {
            Some(e) => sj_entry(json_model(*j)) == Some(e@),
            None => sj_entry(json_model(*j)) is None,
        },
{
    let fields = match j {
        Json::Obj(fields) => fields,
        _ => {
            return None;
        },
    };
    let name = match read_string_field(fields, "name") {
        Some(s) => s,
        None => {
            return None;
        },
    };
    let remote_host = match read_string_field(fields, "remote_host") {
        Some(s) => s,
        None => {
            return None;
        },
    };
    let remote_dir = match read_string_field(fields, "remote_dir") {
        Some(s) => s,
        None => {
            return None;
        },
    };
    let override_paths = match read_string_list_field(fields, "override_paths") {
        Some(v) => v,
        None => {
            return None;
        },
    };
    let post_sync_command = match read_opt_string_field(fields, "post_sync_command") {
        Some(c) => c,
        None => {
            return None;
        },
    };
    let preferred = match read_bool_field(fields, "preferred") {
        Some(b) => b,
        None => {
            return None;
        },
    };
    let ignore_patterns = match read_string_list_field(fields, "ignore_patterns") {
        Some(v) => v,
        None => {
            return None;
        },
    };
    let e = RemoteEntry {
        name,
        remote_host,
        remote_dir,
        override_paths,
        post_sync_command,
        preferred,
        ignore_patterns,
    };
    proof {
        assert(sj_entry(json_model(*j)) == Some(e@));
    }
    Some(e)
}

pub proof fn lemma_sj_entry_seq_bad(items: Seq<JsonModel>, k: int)
    requires
        0 <= k < items.len(),
        sj_entry(items[k]) is None,
    ensures
        sj_entry_seq(items) is None,
    decreases items.len(),
{
    if k < items.len() - 1 {
        assert(items.drop_last()[k] == items[k]);
        lemma_sj_entry_seq_bad(items.drop_last(), k);
    }
}

/// An entry list read from a JSON value.
fn entries_from_json(j: &Json) -> (r: Option<Vec<RemoteEntry>>)
    ensures
        match r {
            Some(v) => match json_model(*j) {
                JsonModel::Arr(items) => sj_entry_seq(items) == Some(v.deep_view()),
                _ => false,
            },
            None => match json_model(*j) {
                JsonModel::Arr(items) => sj_entry_seq(items) is None,
                _ => true,
            },
        },
{
    let items = match j {
        Json::Arr(items) => items,
        _ => {
            proof {
                assert(!(json_model(*j) is Arr));
            }
            return None;
        },
    };
    proof {
        assert(json_model(*j) == JsonModel::Arr(json_models(items@)));
    }
    let ghost ims = json_models(items@);
    proof {
        lemma_json_models_len(items@);
    }
    let n = items.len();
    let mut out: Vec<RemoteEntry> = Vec::new();
    let mut i: usize = 0;
    while i < n
        invariant
            i <= n == items@.len(),
            ims == json_models(items@),
            ims.len() == n,
            forall|k: int| 0 <= k < n ==> ims[k] == json_model(items@[k]),
            json_model(*j) == JsonModel::Arr(ims),
            sj_entry_seq(ims.take(i as int)) == Some(out.deep_view()),
        decreases n - i,
    {
        let ghost pre = ims.take(i as int);
        let ghost post = ims.take(i as int + 1);
        proof {
            assert(post.drop_last() =~= pre);
            assert(post.last() == ims[i as int]);
        }
        match entry_from_json(&items[i]) {
            Some(e) => {
                out.push(e);
            },
            None => {
                proof {
                    lemma_sj_entry_seq_bad(ims, i as int);
                }
                return None;
            },
        }
        i = i + 1;
    }
    proof {
        assert(ims.take(n as int) =~= ims);
    }
    Some(out)
}

/// Whether one directory pair of the envelope's entries object is readable.
pub open spec fn dir_pair_ok(p: (Seq<char>, JsonModel)) -> bool {
    match p.1 {
        JsonModel::Arr(items) => sj_entry_seq(items) is Some,
        _ => false,
    }
}

pub proof fn lemma_sj_dir_pairs_bad(fs: Seq<(Seq<char>, JsonModel)>, k: int)
    requires
        0 <= k < fs.len(),
        !dir_pair_ok(fs[k]),
    ensures
        sj_dir_pairs(fs) is None,
    decreases fs.len(),
{
    if k < fs.len() - 1 {
        assert(fs.drop_last()[k] == fs[k]);
        lemma_sj_dir_pairs_bad(fs.drop_last(), k);
    }
}

/// The store read from the envelope's entries object. A later pair of the
/// same directory wins.
fn store_from_obj(fields: &Vec<JsonField>) -> (r: Option<RemoteMap>)
    ensures
        match r {
            Some(m) => m.wf() && match sj_dir_pairs(json_field_models(fields@)) {
                Some(ps) => m@ =~= pairs_to_map(ps),
                None => false,
            },
            None => sj_dir_pairs(json_field_models(fields@)) is None,
        },
{
    let ghost ms = json_field_models(fields@);
    proof {
        lemma_json_field_models_len(fields@);
    }
    let n = fields.len();
    let mut m = RemoteMap::new();
    let ghost mut ps: Seq<(Seq<char>, Seq<RemoteEntryModel>)> = Seq::empty();
    let mut i: usize = 0;
    while i < n
        invariant
            i <= n == fields@.len(),
            ms == json_field_models(fields@),
            ms.len() == n,
            forall|k: int| 0 <= k < n ==> ms[k] == (fields@[k].key@, json_model(fields@[k].value)),
            m.wf(),
            sj_dir_pairs(ms.take(i as int)) == Some(ps),
            m@ =~= pairs_to_map(ps),
        decreases n - i,
    {
        let ghost pre = ms.take(i as int);
        let ghost post = ms.take(i as int + 1);
        proof {
            assert(post.drop_last() =~= pre);
            assert(post.last() == ms[i as int]);
        }
        let es = match entries_from_json(&fields[i].value) {
            Some(es) => es,
            None => {
                proof {
                    lemma_sj_dir_pairs_bad(ms, i as int);
                }
                return None;
            },
        };
        let ghost ps0 = ps;
        proof {
            ps = ps.push((fields@[i as int].key@, es.deep_view()));
            assert(ps.drop_last() =~= ps0);
            assert(ps.last() == (fields@[i as int].key@, es.deep_view()));
            assert(pairs_to_map(ps) =~= pairs_to_map(ps0).insert(
                fields@[i as int].key@,
                es.deep_view(),
            ));
        }
        m.insert(fields[i].key.clone(), es);
        i = i + 1;
    }
    proof {
        assert(ms.take(n as int) =~= ms);
    }
    Some(m)
}

/// The versioned envelope read from a whole document.
fn envelope_from_json(j: &Json) -> (r: Option<VersionedCache>)
    ensures
        match r {
            Some(vc) => vc.entries.wf() && match sj_envelope(json_model(*j)) {
                Some(e) => vc.version@ == e.0 && vc.entries@ =~= pairs_to_map(e.1),
                None => false,
            },
            None => sj_envelope(json_model(*j)) is None,
        },
{
    let fields = match j {
        Json::Obj(fields) => fields,
        _ => {
            return None;
        },
    };
    let version = match read_string_field(fields, "version") {
        Some(v) => v,
        None => {
            return None;
        },
    };
    let entries_val = match obj_get(fields, "entries") {
        Some(v) => v,
        None => {
            return None;
        },
    };
    let efields = match entries_val {
        Json::Obj(efields) => efields,
        _ => {
            return None;
        },
    };
    let m = match store_from_obj(efields) {
        Some(m) => m,
        None => {
            return None;
        },
    };
    Some(VersionedCache { version, entries: m })
}

// ------------------------------------------------------------------
// The legacy migrator.
// ------------------------------------------------------------------

/// One directory of a parsed legacy document.
pub struct LegacyDirPair {
    pub dir: String,
    pub entry: LegacyEntry,
}

impl DeepView for LegacyDirPair {
    type V = (Seq<char>, LegacyEntryModel);

    open spec fn deep_view(&self) -> (Seq<char>, LegacyEntryModel) {
        (self.dir@, self.entry@)
    }
}

/// A legacy entry read from a JSON value.
fn legacy_entry_from_json(j: &Json) -> (r: Option<LegacyEntry>)
    ensures
        match r {
            Some(e) => sj_legacy_entry(json_model(*j)) == Some(e@),
            None => sj_legacy_entry(json_model(*j)) is None,
        },
{
    let fields = match j {
        Json::Obj(fields) => fields,
        _ => {
            return None;
        },
    };
    let remote_host = match read_string_field(fields, "remote_host") {
        Some(s) => s,
        None => {
            return None;
        },
    };
    let remote_dir = match read_string_field(fields, "remote_dir") {
        Some(s) => s,
        None => {
            return None;
        },
    };
    let override_paths = match read_string_list_field(fields, "override_paths") {
        Some(v) => v,
        None => {
            return None;
        },
    };
    let post_sync_command = match read_opt_string_field(fields, "post_sync_command") {
        Some(c) => c,
        None => {
            return None;
        },
    };
    let e = LegacyEntry { remote_host, remote_dir, override_paths, post_sync_command };
    proof {
        assert(sj_legacy_entry(json_model(*j)) == Some(e@));
    }
    Some(e)
}

pub proof fn lemma_sj_legacy_pairs_bad(fs: Seq<(Seq<char>, JsonModel)>, k: int)
    requires
        0 <= k < fs.len(),
        sj_legacy_entry(fs[k].1) is None,
    ensures
        sj_legacy_pairs(fs) is None,
    decreases fs.len(),
{
    if k < fs.len() - 1 {
        assert(fs.drop_last()[k] == fs[k]);
        lemma_sj_legacy_pairs_bad(fs.drop_last(), k);
    }
}

/// A whole legacy document read from a JSON value.
fn legacy_pairs_from_json(j: &Json) -> (r: Option<Vec<LegacyDirPair>>)
    ensures
        match r {
            Some(v) => sj_legacy(json_model(*j)) == Some(v.deep_view()),
            None => sj_legacy(json_model(*j)) is None,
        },
{
    let fields = match j {
        Json::Obj(fields) => fields,
        _ => {
            return None;
        },
    };
    let ghost ms = json_field_models(fields@);
    proof {
        lemma_json_field_models_len(fields@);
        assert(json_model(*j) == JsonModel::Obj(ms));
    }
    let n = fields.len();
    let mut out: Vec<LegacyDirPair> = Vec::new();
    let mut i: usize = 0;
    while i < n
        invariant
            i <= n == fields@.len(),
            ms == json_field_models(fields@),
            ms.len() == n,
            forall|k: int| 0 <= k < n ==> ms[k] == (fields@[k].key@, json_model(fields@[k].value)),
            json_model(*j) == JsonModel::Obj(ms),
            sj_legacy_pairs(ms.take(i as int)) == Some(out.deep_view()),
        decreases n - i,
    {
        let ghost pre = ms.take(i as int);
        let ghost post = ms.take(i as int + 1);
        proof {
            assert(post.drop_last() =~= pre);
            assert(post.last() == ms[i as int]);
        }
        match legacy_entry_from_json(&fields[i].value) {
            Some(e) => {
                out.push(LegacyDirPair { dir: fields[i].key.clone(), entry: e });
            },
            None => {
                proof {
                    lemma_sj_legacy_pairs_bad(ms, i as int);
                }
                return None;
            },
        }
        i = i + 1;
    }
    proof {
        assert(ms.take(n as int) =~= ms);
    }
    Some(out)
}

/// The name a converted legacy entry gets: the host, an underscore, and the
/// directory with every `/` replaced by `_`.
fn legacy_entry_name(host: &str, dir: &str) -> (r: String)
    ensures
        r@ == legacy_name(host@, dir@),
{
    let mut cs = str_chars(host);
    cs.push('_');
    let dc = str_chars(dir);
    let n = dc.len();
    let mut k: usize = 0;
    while k < n
        invariant
            k <= n == dc@.len(),
            dc@ == dir@,
            cs@ =~= host@ + seq!['_'] + dir@.take(k as int).map_values(
                |c: char| if c == '/' { '_' } else { c },
            ),
        decreases n - k,
    {
        let c = dc[k];
        cs.push(
            if c == '/' {
                '_'
            } else {
                c
            },
        );
        proof {
            let f = |c: char| if c == '/' { '_' } else { c };
            assert(dir@.take(k as int + 1).map_values(f) =~= dir@.take(k as int).map_values(f).push(
                f(dir@[k as int]),
            ));
        }
        k = k + 1;
    }
    proof {
        assert(dir@.take(n as int) =~= dir@);
    }
    chars_string(&cs)
}

/// A strategy that recognizes one legacy cache schema and converts it to the
/// current one.
pub enum Migrator {
    /// The unversioned, pre-envelope schema.
    Legacy,
}

impl Migrator {
    /// Whether this migrator recognizes the document.
    pub open spec fn accepts(self, j: JsonModel) -> bool {
        match self {
            Migrator::Legacy => sj_legacy(j) is Some,
        }
    }

    /// The store a recognized document migrates to.
    pub open spec fn migrated_map(self, j: JsonModel) -> Map<Seq<char>, Seq<RemoteEntryModel>> {
        match self {
            Migrator::Legacy => match sj_legacy(j) {
                Some(ps) => pairs_to_map(convert_legacy_pairs(ps)),
                None => Map::empty(),
            },
        }
    }

    pub open spec fn version_model(self) -> Seq<char> {
        match self {
            Migrator::Legacy => "0.1.0"@,
        }
    }

    /// The schema version this migrator upgrades from.
    pub fn version(&self) -> (r: &'static str)
        ensures
            r@ == self.version_model(),
    {
        match self {
            Migrator::Legacy => "0.1.0",
        }
    }

    /// Whether the document parses under this migrator's legacy schema.
    pub fn can_migrate(&self, data: &Json) -> (r: bool)
        ensures
            r == self.accepts(json_model(*data)),
    {
        match self {
            Migrator::Legacy => legacy_pairs_from_json(data).is_some(),
        }
    }

    /// Parses the document under the legacy schema and converts every entry
    /// into the current shape.
    pub fn migrate(&self, data: &Json) -> (r: Option<RemoteMap>)
        ensures
            (r is Some) == self.accepts(json_model(*data)),
            match r {
                Some(m) => m.wf() && m@ =~= self.migrated_map(json_model(*data)),
                None => true,
            },
    {
        match self {
            Migrator::Legacy => match legacy_pairs_from_json(data) {
                Some(ps) => Some(self.convert_legacy_cache(&ps)),
                None => None,
            },
        }
    }

    /// Converts parsed legacy directories into the current store: each entry
    /// keeps its transfer fields verbatim, gets a synthesized name, is not
    /// preferred, and has no ignore patterns.
    pub fn convert_legacy_cache(&self, pairs: &Vec<LegacyDirPair>) -> (r: RemoteMap)
        ensures
            r.wf(),
            r@ =~= pairs_to_map(convert_legacy_pairs(pairs.deep_view())),
    {
        let ghost lp = pairs.deep_view();
        let n = pairs.len();
        let mut m = RemoteMap::new();
        let ghost mut ps: Seq<(Seq<char>, Seq<RemoteEntryModel>)> = Seq::empty();
        proof {
            assert(convert_legacy_pairs(lp.take(0)) =~= ps);
        }
        let mut i: usize = 0;
        while i < n
            invariant
                i <= n == lp.len(),
                pairs.deep_view() == lp,
                pairs@.len() == n,
                forall|k: int| 0 <= k < n ==> lp[k] == pairs@[k].deep_view(),
                ps =~= convert_legacy_pairs(lp.take(i as int)),
                m.wf(),
                m@ =~= pairs_to_map(ps),
            decreases n - i,
        {
            let p = &pairs[i];
            let name = legacy_entry_name(p.entry.remote_host.as_str(), p.entry.remote_dir.as_str());
            let entry = RemoteEntry {
                name,
                remote_host: p.entry.remote_host.clone(),
                remote_dir: p.entry.remote_dir.clone(),
                override_paths: crate::config::clone_strings(&p.entry.override_paths),
                post_sync_command: match p.entry.post_sync_command {
                    Some(ref c) => Some(c.clone()),
                    None => None,
                },
                preferred: false,
                ignore_patterns: Vec::new(),
            };
            let mut es: Vec<RemoteEntry> = Vec::new();
            es.push(entry);
            proof {
                assert(es.deep_view() =~~= seq![convert_legacy_entry(lp[i as int].1)]);
            }
            let ghost ps0 = ps;
            proof {
                ps = ps.push((lp[i as int].0, es.deep_view()));
                assert(ps.drop_last() =~= ps0);
                assert(pairs_to_map(ps) =~= pairs_to_map(ps0).insert(
                    lp[i as int].0,
                    es.deep_view(),
                ));
                assert(ps =~= convert_legacy_pairs(lp.take(i as int + 1)));
            }
            m.insert(p.dir.clone(), es);
            i = i + 1;
        }
        proof {
            assert(lp.take(n as int) =~= lp);
        }
        m
    }
}

// ------------------------------------------------------------------
// Exec builders.
// ------------------------------------------------------------------

fn strings_to_json(v: &Vec<String>) -> (r: Vec<Json>)
    ensures
        json_models(r@) =~= strings_json(v.deep_view()),
{
    let n = v.len();
    let mut r: Vec<Json> = Vec::new();
    proof {
        assert(json_models(r@) =~= strings_json(v.deep_view().take(0)));
    }
    let mut i: usize = 0;
    while i < n
        invariant
            i <= n == v@.len(),
            json_models(r@) =~= strings_json(v.deep_view().take(i as int)),
        decreases n - i,
    {
        let ghost r0 = r@;
        let js = Json::Str(v[i].clone());
        proof {
            assert(json_model(js) == JsonModel::Str(v@[i as int]@));
        }
        r.push(js);
        proof {
            assert(r@.drop_last() =~= r0);
            assert(r@.last() == js);
            assert(json_models(r@) =~= json_models(r0).push(JsonModel::Str(v@[i as int]@)));
            assert(v.deep_view()[i as int] == v@[i as int]@);
            assert(strings_json(v.deep_view().take(i as int + 1)) =~= strings_json(
                v.deep_view().take(i as int),
            ).push(JsonModel::Str(v@[i as int]@)));
        }
        i = i + 1;
    }
    proof {
        assert(v.deep_view().take(n as int) =~= v.deep_view());
    }
    r
}

/// The JSON object an entry is written as.
fn entry_to_json(e: &RemoteEntry) -> (r: Json)
    ensures
        json_model(r) == entry_json(e@),
{
    let mut fields: Vec<JsonField> = Vec::new();
    fields.push(JsonField { key: "name".to_owned(), value: Json::Str(e.name.clone()) });
    fields.push(
        JsonField { key: "remote_host".to_owned(), value: Json::Str(e.remote_host.clone()) },
    );
    fields.push(JsonField { key: "remote_dir".to_owned(), value: Json::Str(e.remote_dir.clone()) });
    fields.push(
        JsonField {
            key: "override_paths".to_owned(),
            value: Json::Arr(strings_to_json(&e.override_paths)),
        },
    );
    fields.push(
        JsonField {
            key: "post_sync_command".to_owned(),
            value: match e.post_sync_command {
                Some(ref c) => Json::Str(c.clone()),
                None => Json::Null,
            },
        },
    );
    fields.push(JsonField { key: "preferred".to_owned(), value: Json::Bool(e.preferred) });
    fields.push(
        JsonField {
            key: "ignore_patterns".to_owned(),
            value: Json::Arr(strings_to_json(&e.ignore_patterns)),
        },
    );
    let r = Json::Obj(fields);
    proof {
        lemma_json_field_models_len(fields@);
        assert(json_model(r) == JsonModel::Obj(json_field_models(fields@)));
        match entry_json(e@) {
            JsonModel::Obj(want) => {
                assert(json_field_models(fields@) =~~= want);
            },
            _ => {
                assert(false);
            },
        }
    }
    r
}

fn entries_to_json(es: &Vec<RemoteEntry>) -> (r: Vec<Json>)
    ensures
        json_models(r@) =~= entries_json(es.deep_view()),
{
    let n = es.len();
    let mut r: Vec<Json> = Vec::new();
    proof {
        assert(json_models(r@) =~= entries_json(es.deep_view().take(0)));
    }
    let mut i: usize = 0;
    while i < n
        invariant
            i <= n == es@.len(),
            json_models(r@) =~= entries_json(es.deep_view().take(i as int)),
        decreases n - i,
    {
        let ghost r0 = r@;
        let js = entry_to_json(&es[i]);
        r.push(js);
        proof {
            assert(r@.drop_last() =~= r0);
            assert(r@.last() == js);
            assert(json_models(r@) =~= json_models(r0).push(entry_json(es@[i as int]@)));
            assert(es.deep_view()[i as int] == es@[i as int]@);
            assert(entries_json(es.deep_view().take(i as int + 1)) =~= entries_json(
                es.deep_view().take(i as int),
            ).push(entry_json(es@[i as int]@)));
        }
        i = i + 1;
    }
    proof {
        assert(es.deep_view().take(n as int) =~= es.deep_view());
    }
    r
}

// ------------------------------------------------------------------
// The migration registry.
// ------------------------------------------------------------------

/// What reading the cache document concluded, and what the caller owes the
/// file on disk afterwards.
pub enum LoadOutcome {
    /// The file does not exist: the first run starts with an empty store.
    Missing,
    /// Neither the envelope nor any migrator recognized the document: start
    /// with an empty store after a warning.
    Unrecognized,
    /// A current-version envelope was read.
    CurrentVersion,
    /// An envelope of another version was read; its entries are treated as
    /// compatible until a version-to-version migration is registered here.
    OtherVersion { version: String },
    /// A migrator upgraded the document: the caller must back the original
    /// file up before overwriting it.
    Migrated { from_version: String },
}

pub open spec fn is_first_accepting(ms: Seq<Migrator>, j: JsonModel, i: int) -> bool {
    0 <= i < ms.len() && ms[i].accepts(j) && forall|k: int| 0 <= k < i ==> !ms[k].accepts(j)
}

pub open spec fn some_accepting(ms: Seq<Migrator>, j: JsonModel) -> bool {
    exists|i: int| 0 <= i < ms.len() && ms[i].accepts(j)
}

pub open spec fn first_accepting(ms: Seq<Migrator>, j: JsonModel) -> int {
    choose|i: int| is_first_accepting(ms, j, i)
}

/// The migration registry: the migrators in registration order, earliest
/// schema first, and the running program's version.
pub struct MigrationManager {
    pub migrators: Vec<Migrator>,
    pub current_version: String,
}

impl MigrationManager {
    pub fn new(current_version: String) -> (r: MigrationManager)
        ensures
            r.current_version@ == current_version@,
            r.migrators@ =~= seq![Migrator::Legacy],
    {
        let mut manager = MigrationManager { migrators: Vec::new(), current_version };
        manager.register_migrator(Migrator::Legacy);
        manager
    }

    /// Appends a migrator; migrators are tried in registration order.
    pub fn register_migrator(&mut self, migrator: Migrator)
        ensures
            final(self).migrators@ == old(self).migrators@.push(migrator),
            final(self).current_version == old(self).current_version,
    {
        self.migrators.push(migrator);
    }

    /// Reads the store out of the parsed cache document: an absent file is an
    /// empty store, a current or other-version envelope is used as it stands,
    /// an unversioned document is migrated by the first migrator that
    /// recognizes it, and anything else is an empty store.
    pub fn read_cache(&self, data: Option<&Json>, file_present: bool) -> (r: (
        RemoteMap,
        LoadOutcome,
    ))
        requires
            !file_present ==> data is None,
        ensures
            r.0.wf(),
            !file_present ==> r.0@ =~= Map::<Seq<char>, Seq<RemoteEntryModel>>::empty() && r.1
                is Missing,
            file_present && data is None ==> r.0@ =~= Map::<
                Seq<char>,
                Seq<RemoteEntryModel>,
            >::empty() && r.1 is Unrecognized,
            match data {
                Some(j) => match sj_envelope(json_model(*j)) {
                    Some(env) => r.0@ =~= pairs_to_map(env.1) && (if env.0
                        == self.current_version@ {
                        r.1 is CurrentVersion
                    } else {
                        r.1 matches LoadOutcome::OtherVersion { version } && version@ == env.0
                    }),
                    None => if some_accepting(self.migrators@, json_model(*j)) {
                        r.0@ =~= self.migrators@[first_accepting(
                            self.migrators@,
                            json_model(*j),
                        )].migrated_map(json_model(*j)) && (r.1 matches LoadOutcome::Migrated {
                            from_version,
                        } && from_version@ == self.migrators@[first_accepting(
                            self.migrators@,
                            json_model(*j),
                        )].version_model())
                    } else {
                        r.0@ =~= Map::<Seq<char>, Seq<RemoteEntryModel>>::empty() && r.1
                            is Unrecognized
                    },
                },
                None => true,
            },
    {
        if !file_present {
            return (RemoteMap::new(), LoadOutcome::Missing);
        }
        let j = match data {
            Some(j) => j,
            None => {
                return (RemoteMap::new(), LoadOutcome::Unrecognized);
            },
        };
        match envelope_from_json(j) {
            Some(vc) => {
                if str_eq(vc.version.as_str(), self.current_version.as_str()) {
                    return (vc.entries, LoadOutcome::CurrentVersion);
                }
                return (vc.entries, LoadOutcome::OtherVersion { version: vc.version });
            },
            None => {},
        }
        let n = self.migrators.len();
        let mut i: usize = 0;
        while i < n
            invariant
                i <= n == self.migrators@.len(),
                file_present,
                data == Some(j),
                sj_envelope(json_model(*j)) is None,
                forall|k: int| 0 <= k < i ==> !self.migrators@[k].accepts(json_model(*j)),
            decreases n - i,
        {
            if self.migrators[i].can_migrate(j) {
                proof {
                    assert(is_first_accepting(self.migrators@, json_model(*j), i as int));
                    let f = first_accepting(self.migrators@, json_model(*j));
                    assert(is_first_accepting(self.migrators@, json_model(*j), f));
                    if f != i as int {
                        assert(false);
                    }
                }
                match self.migrators[i].migrate(j) {
                    Some(m) => {
                        let from_version = self.migrators[i].version().to_owned();
                        return (m, LoadOutcome::Migrated { from_version });
                    },
                    None => {
                        proof {
                            assert(false);
                        }
                        return (RemoteMap::new(), LoadOutcome::Unrecognized);
                    },
                }
            }
            proof {
                assert(!self.migrators@[i as int].accepts(json_model(*j)));
            }
            i = i + 1;
        }
        proof {
            if some_accepting(self.migrators@, json_model(*j)) {
                let w = choose|w: int|
                    0 <= w < self.migrators@.len() && self.migrators@[w].accepts(json_model(*j));
                assert(false);
            }
        }
        (RemoteMap::new(), LoadOutcome::Unrecognized)
    }

    /// Renders the whole store as the current version's envelope document;
    /// the caller replaces the file with exactly this text.
    pub fn save_cache(&self, entries: &RemoteMap) -> (out: Vec<char>)
        ensures
            out@ == print_json(envelope_json(self.current_version@, pairs_model(*entries))),
    {
        let ghost ps = pairs_model(*entries);
        let n = entries.dirs.len();
        let mut efields: Vec<JsonField> = Vec::new();
        proof {
            assert(json_field_models(efields@) =~= dir_pairs_json(ps.take(0)));
        }
        let mut i: usize = 0;
        while i < n
            invariant
                i <= n == entries.dirs@.len(),
                ps == pairs_model(*entries),
                ps.len() == n,
                json_field_models(efields@) =~= dir_pairs_json(ps.take(i as int)),
            decreases n - i,
        {
            let ghost e0 = efields@;
            let de = &entries.dirs[i];
            let arr = entries_to_json(&de.entries);
            proof {
                assert(ps[i as int] == (
                    entries.dirs@[i as int].dir@,
                    entries.dirs@[i as int].entries.deep_view(),
                ));
                assert(json_models(arr@) =~= entries_json(ps[i as int].1));
            }
            let value = Json::Arr(arr);
            proof {
                assert(json_model(value) == JsonModel::Arr(entries_json(ps[i as int].1)));
            }
            efields.push(JsonField { key: de.dir.clone(), value });
            proof {
                assert(efields@.drop_last() =~= e0);
                assert(json_field_models(efields@) =~= json_field_models(e0).push(
                    (ps[i as int].0, JsonModel::Arr(entries_json(ps[i as int].1))),
                ));
                assert(dir_pairs_json(ps.take(i as int + 1)) =~= dir_pairs_json(
                    ps.take(i as int),
                ).push((ps[i as int].0, JsonModel::Arr(entries_json(ps[i as int].1)))));
            }
            i = i + 1;
        }
        proof {
            assert(ps.take(n as int) =~= ps);
        }
        let mut fields: Vec<JsonField> = Vec::new();
        fields.push(
            JsonField { key: "version".to_owned(), value: Json::Str(self.current_version.clone()) },
        );
        fields.push(JsonField { key: "entries".to_owned(), value: Json::Obj(efields) });
        let doc = Json::Obj(fields);
        proof {
            lemma_json_field_models_len(fields@);
            match envelope_json(self.current_version@, ps) {
                JsonModel::Obj(want) => {
                    assert(json_field_models(fields@) =~~= want);
                },
                _ => {
                    assert(false);
                },
            }
        }
        render_json(&doc)
    }
}

// ------------------------------------------------------------------
// Round-trip laws: what is saved is read back unchanged.
// ------------------------------------------------------------------

pub proof fn lemma_obj_lookup_at(fs: Seq<(Seq<char>, JsonModel)>, i: int)
    requires
        0 <= i < fs.len(),
        forall|k: int| 0 <= k < i ==> fs[k].0 != fs[i].0,
    ensures
        obj_lookup(fs, fs[i].0) == Some(fs[i].1),
    decreases i,
{
    if i > 0 {
        assert(forall|k: int| 0 <= k < i - 1 ==> fs.drop_first()[k] == fs[k + 1]);
        lemma_obj_lookup_at(fs.drop_first(), i - 1);
        assert(fs.drop_first()[i - 1] == fs[i]);
    }
}

pub proof fn lemma_sj_strings_roundtrip(ss: Seq<Seq<char>>)
    ensures
        sj_strings(strings_json(ss)) == Some(ss),
    decreases ss.len(),
{
    if ss.len() == 0 {
        assert(strings_json(ss) =~= Seq::<JsonModel>::empty());
    } else {
        lemma_sj_strings_roundtrip(ss.drop_last());
        assert(strings_json(ss).drop_last() =~= strings_json(ss.drop_last()));
        assert(strings_json(ss).last() == JsonModel::Str(ss.last()));
        assert(ss.drop_last().push(ss.last()) =~= ss);
    }
}

/// Law: the object an entry is written as reads back as exactly that entry.
pub proof fn lemma_entry_roundtrip(e: RemoteEntryModel)
    ensures
        sj_entry(entry_json(e)) == Some(e),
{
    reveal_strlit("name");
    reveal_strlit("remote_host");
    reveal_strlit("remote_dir");
    reveal_strlit("override_paths");
    reveal_strlit("post_sync_command");
    reveal_strlit("preferred");
    reveal_strlit("ignore_patterns");
    assert("name"@.len() == 4 && "remote_host"@.len() == 11 && "remote_dir"@.len() == 10
        && "override_paths"@.len() == 14 && "post_sync_command"@.len() == 17
        && "preferred"@.len() == 9 && "ignore_patterns"@.len() == 15);
    assert("name"@ != "remote_host"@ && "name"@ != "remote_dir"@ && "name"@
        != "override_paths"@ && "name"@ != "post_sync_command"@ && "name"@ != "preferred"@
        && "name"@ != "ignore_patterns"@);
    assert("remote_host"@ != "remote_dir"@ && "remote_host"@ != "override_paths"@
        && "remote_host"@ != "post_sync_command"@ && "remote_host"@ != "preferred"@
        && "remote_host"@ != "ignore_patterns"@);
    assert("remote_dir"@ != "override_paths"@ && "remote_dir"@ != "post_sync_command"@
        && "remote_dir"@ != "preferred"@ && "remote_dir"@ != "ignore_patterns"@);
    assert("override_paths"@ != "post_sync_command"@ && "override_paths"@ != "preferred"@
        && "override_paths"@ != "ignore_patterns"@);
    assert("post_sync_command"@ != "preferred"@ && "post_sync_command"@ != "ignore_patterns"@);
    assert("preferred"@ != "ignore_patterns"@);
    match entry_json(e) {
        JsonModel::Obj(fs) => {
            lemma_obj_lookup_at(fs, 0);
            lemma_obj_lookup_at(fs, 1);
            lemma_obj_lookup_at(fs, 2);
            lemma_obj_lookup_at(fs, 3);
            lemma_obj_lookup_at(fs, 4);
            lemma_obj_lookup_at(fs, 5);
            lemma_obj_lookup_at(fs, 6);
            lemma_sj_strings_roundtrip(e.override_paths);
            lemma_sj_strings_roundtrip(e.ignore_patterns);
            assert(sj_entry(entry_json(e)) =~~= Some(e));
        },
        _ => {
            assert(false);
        },
    }
}

pub proof fn lemma_entries_roundtrip(es: Seq<RemoteEntryModel>)
    ensures
        sj_entry_seq(entries_json(es)) == Some(es),
    decreases es.len(),
{
    if es.len() == 0 {
        assert(entries_json(es) =~= Seq::<JsonModel>::empty());
    } else {
        lemma_entries_roundtrip(es.drop_last());
        lemma_entry_roundtrip(es.last());
        assert(entries_json(es).drop_last() =~= entries_json(es.drop_last()));
        assert(entries_json(es).last() == entry_json(es.last()));
        assert(es.drop_last().push(es.last()) =~= es);
    }
}

pub proof fn lemma_dir_pairs_roundtrip(ps: Seq<(Seq<char>, Seq<RemoteEntryModel>)>)
    ensures
        sj_dir_pairs(dir_pairs_json(ps)) == Some(ps),
    decreases ps.len(),
{
    if ps.len() == 0 {
        assert(dir_pairs_json(ps) =~= Seq::<(Seq<char>, JsonModel)>::empty());
    } else {
        lemma_dir_pairs_roundtrip(ps.drop_last());
        lemma_entries_roundtrip(ps.last().1);
        assert(dir_pairs_json(ps).drop_last() =~= dir_pairs_json(ps.drop_last()));
        assert(dir_pairs_json(ps).last() == (
            ps.last().0,
            JsonModel::Arr(entries_json(ps.last().1)),
        ));
        assert(ps.drop_last().push(ps.last()) =~= ps);
    }
}

/// Law: the envelope a store is saved as reads back as the same version and
/// the same directory pairs.
pub proof fn lemma_envelope_roundtrip(version: Seq<char>, ps: Seq<(Seq<char>, Seq<RemoteEntryModel>)>)
    ensures
        sj_envelope(envelope_json(version, ps)) == Some((version, ps)),
{
    reveal_strlit("version");
    reveal_strlit("entries");
    assert("version"@ != "entries"@) by {
        assert("version"@[0] == 'v' && "entries"@[0] == 'e');
    }
    match envelope_json(version, ps) {
        JsonModel::Obj(fs) => {
            lemma_obj_lookup_at(fs, 0);
            lemma_obj_lookup_at(fs, 1);
            lemma_dir_pairs_roundtrip(ps);
        },
        _ => {
            assert(false);
        },
    }
}

pub proof fn lemma_ptm_last(ps: Seq<(Seq<char>, Seq<RemoteEntryModel>)>, i: int)
    requires
        0 <= i < ps.len(),
        forall|j: int| i < j < ps.len() ==> ps[j].0 != ps[i].0,
    ensures
        pairs_to_map(ps).dom().contains(ps[i].0),
        pairs_to_map(ps)[ps[i].0] == ps[i].1,
    decreases ps.len(),
{
    if i < ps.len() - 1 {
        assert(forall|j: int| 0 <= j < ps.len() - 1 ==> ps.drop_last()[j] == ps[j]);
        lemma_ptm_last(ps.drop_last(), i);
    }
}

pub proof fn lemma_ptm_dom(ps: Seq<(Seq<char>, Seq<RemoteEntryModel>)>)
    ensures
        forall|k: Seq<char>|
            #[trigger] pairs_to_map(ps).dom().contains(k) <==> exists|i: int|
                0 <= i < ps.len() && ps[i].0 == k,
    decreases ps.len(),
{
    if ps.len() > 0 {
        lemma_ptm_dom(ps.drop_last());
        let pre = ps.drop_last();
        assert(pairs_to_map(ps) == pairs_to_map(pre).insert(ps.last().0, ps.last().1));
        assert forall|k: Seq<char>| #[trigger] pairs_to_map(ps).dom().contains(k) implies exists|
            i: int,
        | 0 <= i < ps.len() && ps[i].0 == k by {
            if k == ps.last().0 {
                assert(ps[ps.len() - 1].0 == k);
            } else {
                assert(pairs_to_map(pre).dom().contains(k));
                let w = choose|i: int| 0 <= i < pre.len() && pre[i].0 == k;
                assert(ps[w].0 == k);
            }
        }
        assert forall|k: Seq<char>| (exists|i: int| 0 <= i < ps.len() && ps[i].0 == k)
            implies #[trigger] pairs_to_map(ps).dom().contains(k) by {
            let w = choose|i: int| 0 <= i < ps.len() && ps[i].0 == k;
            if w < ps.len() - 1 {
                assert(pre[w].0 == k);
                assert(pairs_to_map(pre).dom().contains(k));
            }
        }
    }
}

/// Law: rebuilding a store from its saved directory pairs yields the same
/// store. With the envelope round trip above, saving a store and loading the
/// saved document under the same version is the identity.
pub proof fn lemma_store_roundtrip(m: RemoteMap)
    requires
        m.wf(),
    ensures
        pairs_to_map(pairs_model(m)) =~= m@,
{
    let ps = pairs_model(m);
    lemma_ptm_dom(ps);
    assert forall|d: Seq<char>| #[trigger] m@.dom().contains(d) implies pairs_to_map(
        ps,
    ).dom().contains(d) && pairs_to_map(ps)[d] == m@[d] by {
        let i = m.idx_of(d);
        assert(0 <= i < m.dirs@.len() && m.dirs@[i].dir@ == d);
        m.lemma_dir_at(i);
        assert(ps[i] == (m.dirs@[i].dir@, m.dirs@[i].entries.deep_view()));
        assert forall|j: int| i < j < ps.len() implies ps[j].0 != ps[i].0 by {
            assert(ps[j] == (m.dirs@[j].dir@, m.dirs@[j].entries.deep_view()));
        }
        lemma_ptm_last(ps, i);
    }
    assert forall|d: Seq<char>| #[trigger] pairs_to_map(ps).dom().contains(d) implies m@.dom().contains(
        d,
    ) by {
        let w = choose|i: int| 0 <= i < ps.len() && ps[i].0 == d;
        assert(ps[w] == (m.dirs@[w].dir@, m.dirs@[w].entries.deep_view()));
        assert(m.has_dir(d));
    }
    assert(pairs_to_map(ps) =~= m@);
}

/// Law: a converted legacy entry keeps its transfer fields verbatim, is not
/// preferred, has no ignore patterns, and is named from its host and
/// directory.
pub proof fn lemma_legacy_entry_conversion(e: LegacyEntryModel)
    ensures
        convert_legacy_entry(e).remote_host == e.remote_host,
        convert_legacy_entry(e).remote_dir == e.remote_dir,
        convert_legacy_entry(e).override_paths == e.override_paths,
        convert_legacy_entry(e).post_sync_command == e.post_sync_command,
        convert_legacy_entry(e).preferred == false,
        convert_legacy_entry(e).ignore_patterns == Seq::<Seq<char>>::empty(),
        convert_legacy_entry(e).name == legacy_name(e.remote_host, e.remote_dir),
{
}

} // verus!
