//! The data model: one named remote sync target bound to a local directory,
//! and the generation of unique entry names.

use vstd::prelude::*;

use crate::store::RemoteMap;
use crate::text::{
    all_digits, chars_string, dec_chars, dec_val, is_digit, digit_val, lemma_dec_chars_val,
    render_dec, str_chars, str_eq,
};

verus! {

/// Mathematical model of a [`RemoteEntry`]: every string as a sequence of
/// characters.
#[verifier::ext_equal]
pub struct RemoteEntryModel {
    pub name: Seq<char>,
    pub remote_host: Seq<char>,
    pub remote_dir: Seq<char>,
    pub override_paths: Seq<Seq<char>>,
    pub post_sync_command: Option<Seq<char>>,
    pub preferred: bool,
    pub ignore_patterns: Seq<Seq<char>>,
}

/// One named remote sync target.
///
/// `name` is the stable handle for selection, update and removal; within one
/// directory's entry list names are unique. At most one entry of a directory
/// carries `preferred`.
pub struct RemoteEntry {
    pub name: String,
    pub remote_host: String,
    pub remote_dir: String,
    pub override_paths: Vec<String>,
    pub post_sync_command: Option<String>,
    pub preferred: bool,
    pub ignore_patterns: Vec<String>,
}

impl View for RemoteEntry {
    type V = RemoteEntryModel;

    open spec fn view(&self) -> RemoteEntryModel {
        RemoteEntryModel {
            name: self.name@,
            remote_host: self.remote_host@,
            remote_dir: self.remote_dir@,
            override_paths: self.override_paths.deep_view(),
            post_sync_command: match self.post_sync_command {
                Some(ref c) => Some(c@),
                None => None,
            },
            preferred: self.preferred,
            ignore_patterns: self.ignore_patterns.deep_view(),
        }
    }
}

impl DeepView for RemoteEntry {
    type V = RemoteEntryModel;

    open spec fn deep_view(&self) -> RemoteEntryModel {
        self@
    }
}

impl Clone for RemoteEntry {
    fn clone(&self) -> (r: Self)
        ensures
            r@ == self@,
    {
        let r = RemoteEntry {
            name: self.name.clone(),
            remote_host: self.remote_host.clone(),
            remote_dir: self.remote_dir.clone(),
            override_paths: clone_strings(&self.override_paths),
            post_sync_command: match self.post_sync_command {
                Some(ref c) => Some(c.clone()),
                None => None,
            },
            preferred: self.preferred,
            ignore_patterns: clone_strings(&self.ignore_patterns),
        };
        assert(r@ =~= self@);
        r
    }
}

/// Clones a vector of strings, keeping every element's characters.
pub fn clone_strings(v: &Vec<String>) -> (r: Vec<String>)
    ensures
        r.deep_view() =~= v.deep_view(),
{
    let mut r: Vec<String> = Vec::new();
    let mut i: usize = 0;
    while i < v.len()
        invariant
            i <= v.len(),
            r@.len() == i,
            forall|k: int| 0 <= k < i ==> r@[k]@ == v@[k]@,
        decreases v.len() - i,
    {
        r.push(v[i].clone());
        i = i + 1;
    }
    assert(r.deep_view() =~= v.deep_view());
    r
}

/// Indices read from numbered name suffixes saturate here; the generator never
/// hands out an index above this bound plus one.
pub const NAME_INDEX_CAP: u64 = 1000000000000000000;

/// Length of the base name: the host's characters up to its first `:`.
pub open spec fn base_len(h: Seq<char>) -> int
    decreases h.len(),
{
    if h.len() == 0 {
        0
    } else if h[0] == ':' {
        0
    } else {
        1 + base_len(h.drop_first())
    }
}

/// The base name derived from a host string: everything before the first `:`.
pub open spec fn base_of(h: Seq<char>) -> Seq<char> {
    h.take(base_len(h))
}

pub proof fn lemma_base_len(h: Seq<char>)
    ensures
        0 <= base_len(h) <= h.len(),
        forall|k: int| 0 <= k < base_len(h) ==> h[k] != ':',
        base_len(h) < h.len() ==> h[base_len(h)] == ':',
    decreases h.len(),
{
    if h.len() == 0 {
    } else if h[0] == ':' {
    } else {
        lemma_base_len(h.drop_first());
        assert forall|k: int| 0 <= k < base_len(h) implies h[k] != ':' by {
            if k > 0 {
                assert(h.drop_first()[k - 1] == h[k]);
            }
        }
        if base_len(h) < h.len() {
            assert(h.drop_first()[base_len(h) - 1] == h[base_len(h)]);
        }
    }
}

/// A digit-string value, saturated at the index cap.
pub open spec fn sat_val(s: Seq<char>) -> nat {
    if dec_val(s) > NAME_INDEX_CAP as nat {
        NAME_INDEX_CAP as nat
    } else {
        dec_val(s)
    }
}

pub open spec fn indexed_suffix(name: Seq<char>, base: Seq<char>) -> Seq<char> {
    name.skip(base.len() as int + 1)
}

/// `name` has the shape `<base>_<digits>`.
pub open spec fn is_indexed_name(name: Seq<char>, base: Seq<char>) -> bool {
    &&& name.len() > base.len() + 1
    &&& name.take(base.len() as int) == base
    &&& name[base.len() as int] == '_'
    &&& all_digits(indexed_suffix(name, base))
}

/// What one existing name claims: the next index that would avoid it.
pub open spec fn name_contribution(name: Seq<char>, base: Seq<char>) -> nat {
    if name == base {
        1
    } else if is_indexed_name(name, base) {
        sat_val(indexed_suffix(name, base)) + 1
    } else {
        0
    }
}

/// The first index free of every existing name's claim.
pub open spec fn highest_index(names: Seq<Seq<char>>, base: Seq<char>) -> nat
    decreases names.len(),
{
    if names.len() == 0 {
        0
    } else {
        let rest = highest_index(names.drop_last(), base);
        let c = name_contribution(names.last(), base);
        if c > rest {
            c
        } else {
            rest
        }
    }
}

pub open spec fn name_taken(names: Seq<Seq<char>>, n: Seq<char>) -> bool {
    exists|i: int| 0 <= i < names.len() && names[i] == n
}

/// The name the generator returns for a host among existing names.
pub open spec fn generated_name(host: Seq<char>, names: Seq<Seq<char>>) -> Seq<char> {
    let base = base_of(host);
    if !name_taken(names, base) {
        base
    } else {
        base + seq!['_'] + dec_chars(highest_index(names, base))
    }
}

pub open spec fn names_of(es: Seq<RemoteEntryModel>) -> Seq<Seq<char>> {
    es.map_values(|e: RemoteEntryModel| e.name)
}

/// The names in a directory's entry list; an unknown directory has none.
pub open spec fn dir_names(m: Map<Seq<char>, Seq<RemoteEntryModel>>, d: Seq<char>) -> Seq<Seq<char>> {
    if m.dom().contains(d) {
        names_of(m[d])
    } else {
        Seq::empty()
    }
}

/// Generates a name for a new entry of `current_dir` from the host string:
/// the host up to its first `:`, numbered if that base name is already used.
pub fn generate_unique_name(host: &str, cache: &RemoteMap, current_dir: &str) -> (r: String)
    requires
        cache.wf(),
    ensures
        r@ == generated_name(host@, dir_names(cache@, current_dir@)),
{
    let hchars = str_chars(host);
    let mut blen: usize = 0;
    while blen < hchars.len() && hchars[blen] != ':'
        invariant
            blen <= hchars@.len(),
            hchars@ == host@,
            forall|k: int| 0 <= k < blen ==> host@[k] != ':',
        decreases hchars@.len() - blen,
    {
        blen = blen + 1;
    }
    proof {
        lemma_base_len(host@);
        assert(blen == base_len(host@));
    }
    let mut base_chars: Vec<char> = Vec::new();
    let mut k: usize = 0;
    while k < blen
        invariant
            k <= blen <= hchars@.len(),
            hchars@ == host@,
            base_chars@ =~= host@.take(k as int),
        decreases blen - k,
    {
        base_chars.push(hchars[k]);
        k = k + 1;
    }
    let base = chars_string(&base_chars);
    proof {
        assert(base@ =~= base_of(host@));
    }
    let ghost names = dir_names(cache@, current_dir@);
    let entries_opt = cache.get(current_dir);
    let entries = match entries_opt {
        None => {
            proof {
                assert(!name_taken(names, base@));
            }
            return base;
        },
        Some(es) => es,
    };
    proof {
        assert(names =~= names_of(entries.deep_view()));
    }
    let n = entries.len();
    let mut taken = false;
    let mut i: usize = 0;
    while i < n
        invariant
            i <= n == entries@.len(),
            names == names_of(entries.deep_view()),
            names.len() == n,
            forall|k2: int| 0 <= k2 < n ==> names[k2] == entries@[k2].name@,
            taken == name_taken(names.take(i as int), base@),
        decreases n - i,
    {
        let same = str_eq(entries[i].name.as_str(), base.as_str());
        proof {
            let pre = names.take(i as int);
            let post = names.take(i as int + 1);
            assert(post.drop_last() =~= pre);
            assert(post.last() == names[i as int]);
            if name_taken(pre, base@) {
                let w = choose|w: int| 0 <= w < pre.len() && pre[w] == base@;
                assert(post[w] == base@);
            }
            if same {
                assert(post[i as int] == base@);
            }
            if name_taken(post, base@) && !name_taken(pre, base@) && !same {
                let w = choose|w: int| 0 <= w < post.len() && post[w] == base@;
                assert(0 <= w < pre.len() && pre[w] == base@);
            }
        }
        if same {
            taken = true;
        }
        i = i + 1;
    }
    proof {
        assert(names.take(n as int) =~= names);
    }
    if !taken {
        return base;
    }
    let mut high: u64 = 0;
    let mut i2: usize = 0;
    while i2 < n
        invariant
            i2 <= n == entries@.len(),
            names == names_of(entries.deep_view()),
            names.len() == n,
            forall|k2: int| 0 <= k2 < n ==> names[k2] == entries@[k2].name@,
            base@ == base_of(host@),
            base_chars@ == base@,
            blen == base@.len(),
            high == highest_index(names.take(i2 as int), base@),
            high <= NAME_INDEX_CAP + 1,
        decreases n - i2,
    {
        let c = entry_name_contribution(&entries[i2].name, &base, &base_chars);
        proof {
            let pre = names.take(i2 as int);
            let post = names.take(i2 as int + 1);
            assert(post.drop_last() =~= pre);
            assert(post.last() == names[i2 as int]);
        }
        if c > high {
            high = c;
        }
        i2 = i2 + 1;
    }
    proof {
        assert(names.take(n as int) =~= names);
    }
    let mut out = base;
    out.append("_");
    let digits = render_dec(high);
    let dstr = chars_string(&digits);
    out.append(dstr.as_str());
    proof {
        reveal_strlit("_");
        assert("_"@ =~= seq!['_']);
        assert(out@ =~= base_of(host@) + seq!['_'] + dec_chars(high as nat));
    }
    out
}

/// What one stored name claims against the base name: see [`name_contribution`].
fn entry_name_contribution(name: &String, base: &String, base_chars: &Vec<char>) -> (c: u64)
    requires
        base_chars@ == base@,
    ensures
        c == name_contribution(name@, base@),
        c <= NAME_INDEX_CAP + 1,
{
    if str_eq(name.as_str(), base.as_str()) {
        return 1;
    }
    let nm = str_chars(name.as_str());
    let blen = base_chars.len();
    if !(nm.len() > blen && nm.len() - blen > 1) {
        proof {
            assert(!is_indexed_name(name@, base@));
        }
        return 0;
    }
    let mut k: usize = 0;
    while k < blen
        invariant
            k <= blen == base@.len() < nm@.len(),
            nm@ == name@,
            base_chars@ == base@,
            forall|j: int| 0 <= j < k ==> name@[j] == base@[j],
        decreases blen - k,
    {
        if nm[k] != base_chars[k] {
            proof {
                assert(name@.take(base@.len() as int)[k as int] != base@[k as int]);
                assert(!is_indexed_name(name@, base@));
            }
            return 0;
        }
        k = k + 1;
    }
    if nm[blen] != '_' {
        proof {
            assert(!is_indexed_name(name@, base@));
        }
        return 0;
    }
    proof {
        assert(name@.take(base@.len() as int) =~= base@);
    }
    let ghost suf = indexed_suffix(name@, base@);
    let mut acc: u64 = 0;
    let mut j: usize = blen + 1;
    while j < nm.len()
        invariant
            blen + 1 <= j <= nm@.len(),
            blen == base@.len(),
            nm@ == name@,
            suf == indexed_suffix(name@, base@),
            suf.len() == nm@.len() - blen - 1,
            forall|t: int| 0 <= t < suf.len() ==> suf[t] == name@[blen + 1 + t],
            all_digits(suf.take(j - blen - 1)),
            acc == sat_val(suf.take(j - blen - 1)),
            acc <= NAME_INDEX_CAP,
        decreases nm@.len() - j,
    {
        let ch = nm[j];
        let d: u64 = match ch {
            '0' => 0,
            '1' => 1,
            '2' => 2,
            '3' => 3,
            '4' => 4,
            '5' => 5,
            '6' => 6,
            '7' => 7,
            '8' => 8,
            '9' => 9,
            _ => {
                proof {
                    assert(suf[j - blen - 1] == ch);
                    assert(!is_digit(ch));
                    assert(!all_digits(suf));
                    assert(!is_indexed_name(name@, base@));
                    assert(name@ != base@);
                }
                return 0;
            },
        };
        proof {
            assert(is_digit(ch) && digit_val(ch) == d);
        }
        let ghost pre = suf.take(j - blen - 1);
        let ghost post = suf.take(j - blen);
        proof {
            assert(post.drop_last() =~= pre);
            assert(post.last() == suf[j - blen - 1] == ch);
            assert(dec_val(post) == dec_val(pre) * 10 + d);
        }
        if acc < NAME_INDEX_CAP {
            proof {
                assert(acc == dec_val(pre));
            }
            let t = acc * 10 + d;
            acc = if t > NAME_INDEX_CAP {
                NAME_INDEX_CAP
            } else {
                t
            };
        } else {
            proof {
                assert(dec_val(pre) >= NAME_INDEX_CAP as nat);
                assert(dec_val(post) >= dec_val(pre) * 10) by (nonlinear_arith)
                    requires
                        dec_val(post) == dec_val(pre) * 10 + d,
                        d >= 0,
                ;
                assert(dec_val(pre) * 10 >= NAME_INDEX_CAP as nat) by (nonlinear_arith)
                    requires
                        dec_val(pre) >= NAME_INDEX_CAP as nat,
                ;
            }
        }
        j = j + 1;
    }
    proof {
        assert(suf.take(nm@.len() - blen - 1) =~= suf);
        assert(is_indexed_name(name@, base@));
        assert(name@ != base@);
    }
    acc + 1
}

pub proof fn lemma_highest_index_ub(names: Seq<Seq<char>>, base: Seq<char>, i: int)
    requires
        0 <= i < names.len(),
    ensures
        name_contribution(names[i], base) <= highest_index(names, base),
    decreases names.len(),
{
    if i == names.len() - 1 {
    } else {
        lemma_highest_index_ub(names.drop_last(), base, i);
        assert(names.drop_last()[i] == names[i]);
    }
}

pub proof fn lemma_highest_index_cap(names: Seq<Seq<char>>, base: Seq<char>, cap: nat)
    requires
        forall|i: int| 0 <= i < names.len() ==> name_contribution(names[i], base) <= cap,
    ensures
        highest_index(names, base) <= cap,
    decreases names.len(),
{
    if names.len() == 0 {
    } else {
        assert(forall|i: int|
            0 <= i < names.drop_last().len() ==> names.drop_last()[i] == names[i]);
        lemma_highest_index_cap(names.drop_last(), base, cap);
        assert(names.last() == names[names.len() - 1]);
    }
}

/// Law: a generated name never collides with an existing name of the same
/// directory, provided no existing numbered suffix has reached the index cap.
pub proof fn lemma_generated_name_fresh(host: Seq<char>, names: Seq<Seq<char>>)
    requires
        forall|i: int|
            0 <= i < names.len() ==> #[trigger] name_contribution(names[i], base_of(host))
                <= NAME_INDEX_CAP as nat,
    ensures
        !name_taken(names, generated_name(host, names)),
{
    let base = base_of(host);
    if !name_taken(names, base) {
    } else {
        let h = highest_index(names, base);
        let r = generated_name(host, names);
        lemma_dec_chars_val(h);
        assert(r =~= base + seq!['_'] + dec_chars(h));
        assert(r.len() == base.len() + 1 + dec_chars(h).len());
        if name_taken(names, r) {
            let i = choose|i: int| 0 <= i < names.len() && names[i] == r;
            assert(r != base);
            assert(r.take(base.len() as int) =~= base);
            assert(r[base.len() as int] == '_');
            assert(indexed_suffix(r, base) =~= dec_chars(h));
            assert(is_indexed_name(r, base));
            assert(name_contribution(r, base) == sat_val(dec_chars(h)) + 1);
            lemma_highest_index_ub(names, base, i);
            lemma_highest_index_cap(names, base, NAME_INDEX_CAP as nat);
            assert(sat_val(dec_chars(h)) == h);
            assert(false);
        }
    }
}

/// Some entry of the list carries the name.
pub open spec fn has_name(es: Seq<RemoteEntryModel>, n: Seq<char>) -> bool {
    exists|i: int| 0 <= i < es.len() && es[i].name == n
}

/// `i` is the position of the first entry named `n`.
pub open spec fn is_first_name_idx(es: Seq<RemoteEntryModel>, n: Seq<char>, i: int) -> bool {
    0 <= i < es.len() && es[i].name == n && forall|k: int| 0 <= k < i ==> es[k].name != n
}

/// The position of the first entry named `n`.
pub open spec fn first_name_idx(es: Seq<RemoteEntryModel>, n: Seq<char>) -> int {
    choose|i: int| is_first_name_idx(es, n, i)
}

pub proof fn lemma_first_name_idx_unique(es: Seq<RemoteEntryModel>, n: Seq<char>, i: int)
    requires
        is_first_name_idx(es, n, i),
    ensures
        first_name_idx(es, n) == i,
{
    let j = first_name_idx(es, n);
    assert(is_first_name_idx(es, n, j));
    if j != i {
        assert(false);
    }
}

/// Model of the CLI's intent: what the command line asked of the resolver.
#[verifier::ext_equal]
pub struct CliIntentModel {
    pub remote_host: Option<Seq<char>>,
    pub remote_dir: Option<Seq<char>>,
    pub name: Option<Seq<char>>,
    pub override_paths: Seq<Seq<char>>,
    pub post_command: Option<Seq<char>>,
    pub preferred: bool,
    pub ignore_patterns: Seq<Seq<char>>,
}

/// What the command line asked of the resolver, as plain values.
pub struct CliIntent {
    pub remote_host: Option<String>,
    pub remote_dir: Option<String>,
    pub name: Option<String>,
    pub override_paths: Vec<String>,
    pub post_command: Option<String>,
    pub preferred: bool,
    pub ignore_patterns: Vec<String>,
}

impl View for CliIntent {
    type V = CliIntentModel;

    open spec fn view(&self) -> CliIntentModel {
        CliIntentModel {
            remote_host: match self.remote_host {
                Some(ref h) => Some(h@),
                None => None,
            },
            remote_dir: match self.remote_dir {
                Some(ref d) => Some(d@),
                None => None,
            },
            name: match self.name {
                Some(ref n) => Some(n@),
                None => None,
            },
            override_paths: self.override_paths.deep_view(),
            post_command: match self.post_command {
                Some(ref c) => Some(c@),
                None => None,
            },
            preferred: self.preferred,
            ignore_patterns: self.ignore_patterns.deep_view(),
        }
    }
}

/// All entry names of the list differ.
pub open spec fn names_unique(es: Seq<RemoteEntryModel>) -> bool {
    forall|i: int, j: int| 0 <= i < j < es.len() ==> es[i].name != es[j].name
}

/// The list without every entry of the given name, order kept.
pub open spec fn remove_named(es: Seq<RemoteEntryModel>, n: Seq<char>) -> Seq<RemoteEntryModel>
    decreases es.len(),
{
    if es.len() == 0 {
        es
    } else {
        let rest = remove_named(es.drop_last(), n);
        if es.last().name == n {
            rest
        } else {
            rest.push(es.last())
        }
    }
}

/// Law: removing a present name from a list of unique names shrinks it by
/// exactly one entry.
pub proof fn lemma_remove_named_len(es: Seq<RemoteEntryModel>, n: Seq<char>)
    requires
        names_unique(es),
        has_name(es, n),
    ensures
        remove_named(es, n).len() == es.len() - 1,
    decreases es.len(),
{
    lemma_remove_named_keeps(es.drop_last(), n);
    if es.last().name == n {
        if has_name(es.drop_last(), n) {
            let i = choose|i: int| 0 <= i < es.len() - 1 && es.drop_last()[i].name == n;
            assert(es[i].name == es[es.len() - 1].name);
            assert(false);
        }
    } else {
        let i = choose|i: int| 0 <= i < es.len() && es[i].name == n;
        assert(es.drop_last()[i].name == n);
        lemma_remove_named_len(es.drop_last(), n);
    }
}

/// A name that is absent from a list is untouched by removal.
pub proof fn lemma_remove_named_keeps(es: Seq<RemoteEntryModel>, n: Seq<char>)
    ensures
        !has_name(es, n) ==> remove_named(es, n) =~= es,
    decreases es.len(),
{
    if es.len() > 0 {
        lemma_remove_named_keeps(es.drop_last(), n);
        if !has_name(es, n) {
            assert(forall|i: int|
                0 <= i < es.len() - 1 ==> es.drop_last()[i] == es[i]);
            assert(!has_name(es.drop_last(), n));
            assert(es[es.len() - 1].name != n);
            assert(remove_named(es, n) =~= es.drop_last().push(es.last()));
        }
    }
}

/// Deletes the entry of the given name from the directory's list. Fails, and
/// leaves the store as it was, when the directory has no list or no entry
/// carries the name.
pub fn remove_remote(cache: &mut RemoteMap, current_dir: &str, name: &str) -> (r: Result<
    (),
    crate::errors::SyncError,
>)
    requires
        old(cache).wf(),
    ensures
        final(cache).wf(),
        match r {
            Ok(_) => old(cache)@.dom().contains(current_dir@) && has_name(
                old(cache)@[current_dir@],
                name@,
            ) && final(cache)@ =~= old(cache)@.insert(
                current_dir@,
                remove_named(old(cache)@[current_dir@], name@),
            ),
            Err(e) => {
                &&& final(cache)@ == old(cache)@
                &&& (e == crate::errors::SyncError::NoRemotesForDirectory <==> !old(
                    cache,
                )@.dom().contains(current_dir@))
                &&& (e == crate::errors::SyncError::RemoteNotFound <==> old(
                    cache,
                )@.dom().contains(current_dir@) && !has_name(old(cache)@[current_dir@], name@))
                &&& (e == crate::errors::SyncError::NoRemotesForDirectory || e
                    == crate::errors::SyncError::RemoteNotFound)
            },
        },
{
    let entries = match cache.get(current_dir) {
        None => {
            return Err(crate::errors::SyncError::NoRemotesForDirectory);
        },
        Some(es) => es,
    };
    let ghost esv = entries.deep_view();
    let n = entries.len();
    let mut out: Vec<RemoteEntry> = Vec::new();
    let mut found = false;
    let mut i: usize = 0;
    while i < n
        invariant
            i <= n == esv.len(),
            entries.deep_view() == esv,
            entries@.len() == n,
            forall|k: int| 0 <= k < n ==> esv[k] == entries@[k]@,
            out.deep_view() =~= remove_named(esv.take(i as int), name@),
            found == has_name(esv.take(i as int), name@),
        decreases n - i,
    {
        let ghost pre = esv.take(i as int);
        let ghost post = esv.take(i as int + 1);
        proof {
            assert(post.drop_last() =~= pre);
            assert(post.last() == esv[i as int]);
            if has_name(pre, name@) {
                let w = choose|w: int| 0 <= w < pre.len() && pre[w].name == name@;
                assert(post[w].name == name@);
            }
            if has_name(post, name@) && !has_name(pre, name@) && esv[i as int].name != name@ {
                let w = choose|w: int| 0 <= w < post.len() && post[w].name == name@;
                assert(0 <= w < pre.len() && pre[w].name == name@);
            }
        }
        if str_eq(entries[i].name.as_str(), name) {
            found = true;
        } else {
            out.push(entries[i].clone());
        }
        i = i + 1;
    }
    proof {
        assert(esv.take(n as int) =~= esv);
    }
    if !found {
        return Err(crate::errors::SyncError::RemoteNotFound);
    }
    cache.insert(current_dir.to_owned(), out);
    Ok(())
}

/// Model of one listed row.
#[verifier::ext_equal]
pub struct ListedRemoteModel {
    pub name: Seq<char>,
    pub preferred: bool,
    pub remote_host: Seq<char>,
    pub remote_dir: Seq<char>,
}

/// One row of the read-only enumeration of a directory's entries.
pub struct ListedRemote {
    pub name: String,
    pub preferred: bool,
    pub remote_host: String,
    pub remote_dir: String,
}

impl View for ListedRemote {
    type V = ListedRemoteModel;

    open spec fn view(&self) -> ListedRemoteModel {
        ListedRemoteModel {
            name: self.name@,
            preferred: self.preferred,
            remote_host: self.remote_host@,
            remote_dir: self.remote_dir@,
        }
    }
}

impl DeepView for ListedRemote {
    type V = ListedRemoteModel;

    open spec fn deep_view(&self) -> ListedRemoteModel {
        self@
    }
}

/// The row an entry is shown as.
pub open spec fn listed_row(e: RemoteEntryModel) -> ListedRemoteModel {
    ListedRemoteModel {
        name: e.name,
        preferred: e.preferred,
        remote_host: e.remote_host,
        remote_dir: e.remote_dir,
    }
}

/// The rows a whole entry list is shown as.
pub open spec fn listed_rows(es: Seq<RemoteEntryModel>) -> Seq<ListedRemoteModel> {
    es.map_values(|e: RemoteEntryModel| listed_row(e))
}

/// Read-only enumeration of a directory's entries in stored order, each
/// annotated with whether it is the preferred one. An unknown directory
/// lists nothing.
pub fn list_remotes(cache: &RemoteMap, current_dir: &str) -> (r: Vec<ListedRemote>)
    requires
        cache.wf(),
    ensures
        r.deep_view() =~= listed_rows(dir_entry_list(cache@, current_dir@)),
{
    let entries = match cache.get(current_dir) {
        None => {
            let r: Vec<ListedRemote> = Vec::new();
            return r;
        },
        Some(es) => es,
    };
    let ghost esv = entries.deep_view();
    let n = entries.len();
    let mut r: Vec<ListedRemote> = Vec::new();
    let mut i: usize = 0;
    while i < n
        invariant
            i <= n == esv.len(),
            entries.deep_view() == esv,
            entries@.len() == n,
            forall|k: int| 0 <= k < n ==> esv[k] == entries@[k]@,
            r.deep_view() =~= listed_rows(esv.take(i as int)),
        decreases n - i,
    {
        let e = &entries[i];
        r.push(
            ListedRemote {
                name: e.name.clone(),
                preferred: e.preferred,
                remote_host: e.remote_host.clone(),
                remote_dir: e.remote_dir.clone(),
            },
        );
        proof {
            assert(listed_rows(esv.take(i as int + 1)) =~= listed_rows(esv.take(i as int)).push(
                listed_row(esv[i as int]),
            ));
        }
        i = i + 1;
    }
    proof {
        assert(esv.take(n as int) =~= esv);
    }
    r
}

/// The entry list stored for a directory; an unknown directory has none.
pub open spec fn dir_entry_list(
    m: Map<Seq<char>, Seq<RemoteEntryModel>>,
    d: Seq<char>,
) -> Seq<RemoteEntryModel> {
    if m.dom().contains(d) {
        m[d]
    } else {
        Seq::empty()
    }
}

/// Validates a one-based interactive selection and resolves it to the chosen
/// entry's name.
pub fn select_remote(entries: &Vec<RemoteEntry>, selection: usize) -> (r: Result<
    String,
    crate::errors::SyncError,
>)
    ensures
        match r {
            Ok(name) => 1 <= selection <= entries@.len() && name@ == entries@[selection - 1].name@,
            Err(e) => {
                &&& e == crate::errors::SyncError::SelectionOutOfRange
                &&& !(1 <= selection <= entries@.len())
            },
        },
{
    if selection == 0 || selection > entries.len() {
        return Err(crate::errors::SyncError::SelectionOutOfRange);
    }
    Ok(entries[selection - 1].name.clone())
}

} // verus!
