//! Known-good load profiles: after a model loads, its fit plan is kept under
//! the key `"<hardware fingerprint>:<model fingerprint>"`, and a later load
//! on matching hardware reuses it. Reading and writing the file are the
//! caller's; the store here is the map itself.
use vstd::prelude::*;
use crate::fit::FitPlan;
use crate::text::{concat_str, str_eq, string_from_str};

verus! {

/// A validated load profile.
#[derive(Debug, Clone)]
pub struct KnownGoodProfile {
    pub hardware_fingerprint: String,
    pub model_fingerprint: String,
    pub plan: FitPlan,
    /// ISO-8601 time of the last validation.
    pub validated_at: String,
}

/// The key a profile is stored under.
pub open spec fn profile_key(hardware: Seq<char>, model: Seq<char>) -> Seq<char> {
    hardware + ":"@ + model
}

pub fn profile_key_exec(hardware: &str, model: &str) -> (r: String)
    ensures
        r@ == profile_key(hardware@, model@),
{
    let a = concat_str(hardware, ":");
    concat_str(a.as_str(), model)
}

/// The profile stored under `k`.
pub open spec fn lookup(es: Seq<(Seq<char>, KnownGoodProfile)>, k: Seq<char>) -> Option<KnownGoodProfile>
    decreases es.len(),
{
    if es.len() == 0 {
        None
    } else if es.last().0 == k {
        Some(es.last().1)
    } else {
        lookup(es.drop_last(), k)
    }
}

pub open spec fn keys_unique(es: Seq<(Seq<char>, KnownGoodProfile)>) -> bool {
    forall|i: int, j: int| 0 <= i < j < es.len() ==> es[i].0 != es[j].0
}

/// The store of known-good profiles.
pub struct ProfileStore {
    /// Where the store is kept on disk.
    path: String,
    entries: Vec<(String, KnownGoodProfile)>,
}

proof fn lemma_lookup_found(es: Seq<(Seq<char>, KnownGoodProfile)>, i: int)
    requires
        keys_unique(es),
        0 <= i < es.len(),
    ensures
        lookup(es, es[i].0) == Some(es[i].1),
    decreases es.len(),
{
    if i < es.len() - 1 {
        assert(es.last().0 != es[i].0);
        assert(keys_unique(es.drop_last()));
        lemma_lookup_found(es.drop_last(), i);
    }
}

proof fn lemma_lookup_absent(es: Seq<(Seq<char>, KnownGoodProfile)>, k: Seq<char>)
    requires
        forall|i: int| 0 <= i < es.len() ==> es[i].0 != k,
    ensures
        lookup(es, k) is None,
    decreases es.len(),
{
    if es.len() > 0 {
        lemma_lookup_absent(es.drop_last(), k);
    }
}

proof fn lemma_lookup_other_after_update(es: Seq<(Seq<char>, KnownGoodProfile)>, i: int, v: KnownGoodProfile, k: Seq<char>)
    requires
        0 <= i < es.len(),
        k != es[i].0,
    ensures
        lookup(es.update(i, (es[i].0, v)), k) == lookup(es, k),
    decreases es.len(),
{
    if es.len() > 0 {
        if i < es.len() - 1 {
            assert(es.update(i, (es[i].0, v)).drop_last() =~= es.drop_last().update(i, (es[i].0, v)));
            lemma_lookup_other_after_update(es.drop_last(), i, v, k);
        } else {
            assert(es.update(i, (es[i].0, v)).drop_last() =~= es.drop_last());
        }
    }
}

impl ProfileStore {
    /// The stored profiles with their keys.
    pub closed spec fn entries_view(&self) -> Seq<(Seq<char>, KnownGoodProfile)> {
        self.entries@.map_values(|e: (String, KnownGoodProfile)| (e.0@, e.1))
    }

    /// Where the store is kept on disk.
    pub closed spec fn path_view(&self) -> Seq<char> {
        self.path@
    }

    pub fn path(&self) -> (r: &str)
        ensures
            r@ == self.path_view(),
    {
        self.path.as_str()
    }

    /// Each key is stored once.
    pub closed spec fn wf(&self) -> bool {
        keys_unique(self.entries_view())
    }

    /// The profile stored under key `k`.
    pub open spec fn profile_at(&self, k: Seq<char>) -> Option<KnownGoodProfile> {
        lookup(self.entries_view(), k)
    }

    /// The number of distinct keys stored.
    pub closed spec fn size(&self) -> nat {
        self.entries@.len()
    }

    /// An empty store kept at `path`.
    pub fn new(path: &str) -> (r: ProfileStore)
        ensures
            r.wf(),
            r.path_view() == path@,
            r.size() == 0,
            forall|k: Seq<char>| r.profile_at(k) is None,
    {
        ProfileStore { path: string_from_str(path), entries: Vec::new() }
    }

    fn find(&self, key: &str) -> (r: Option<usize>)
        requires
            self.wf(),
        ensures
            match r {
                Some(i) => i < self.entries@.len() && self.entries@[i as int].0@ == key@,
                None => forall|i: int| 0 <= i < self.entries@.len() ==> self.entries@[i].0@ != key@,
            },
    {
        let mut i: usize = 0;
        while i < self.entries.len()
            invariant
                i <= self.entries@.len(),
                forall|j: int| 0 <= j < i ==> self.entries@[j].0@ != key@,
            decreases self.entries.len() - i,
        {
            if str_eq(self.entries[i].0.as_str(), key) {
                return Some(i);
            }
            i = i + 1;
        }
        None
    }

    /// The cached profile for this hardware and model.
    pub fn get(&self, hardware_fingerprint: &str, model_fingerprint: &str) -> (r: Option<&KnownGoodProfile>)
        requires
            self.wf(),
        ensures
            match r {
                Some(p) => self.profile_at(profile_key(hardware_fingerprint@, model_fingerprint@)) == Some(*p),
                None => self.profile_at(profile_key(hardware_fingerprint@, model_fingerprint@)) is None,
            },
    {
        let key = profile_key_exec(hardware_fingerprint, model_fingerprint);
        match self.find(key.as_str()) {
            Some(i) => {
                proof {
                    assert(self.entries_view()[i as int] == (self.entries@[i as int].0@, self.entries@[i as int].1));
                    lemma_lookup_found(self.entries_view(), i as int);
                }
                Some(&self.entries[i].1)
            },
            None => {
                proof {
                    assert forall|j: int| 0 <= j < self.entries_view().len() implies self.entries_view()[j].0 != key@ by {
                        assert(self.entries_view()[j].0 == self.entries@[j].0@);
                    }
                    lemma_lookup_absent(self.entries_view(), key@);
                }
                None
            },
        }
    }

    /// Stores `value` under key `key`, replacing what was there.
    pub fn insert(&mut self, key: String, value: KnownGoodProfile)
        requires
            old(self).wf(),
        ensures
            final(self).wf(),
            final(self).path_view() == old(self).path_view(),
            final(self).profile_at(key@) == Some(value),
            forall|k: Seq<char>| k != key@ ==> final(self).profile_at(k) == old(self).profile_at(k),
            final(self).size() == old(self).size() + if old(self).profile_at(key@) is Some { 0int } else { 1int },
    {
        let ghost old_view = self.entries_view();
        let ghost kv = key@;
        match self.find(key.as_str()) {
            Some(i) => {
                proof {
                    assert(old_view[i as int].0 == kv);
                    lemma_lookup_found(old_view, i as int);
                }
                self.entries.set(i, (key, value));
                proof {
                    assert(self.entries_view() =~= old_view.update(i as int, (kv, value)));
                    assert forall|k: Seq<char>| k != kv implies lookup(self.entries_view(), k) == lookup(old_view, k) by {
                        lemma_lookup_other_after_update(old_view, i as int, value, k);
                    }
                    lemma_lookup_found(self.entries_view(), i as int);
                }
            },
            None => {
                proof {
                    assert forall|j: int| 0 <= j < old_view.len() implies old_view[j].0 != kv by {
                        assert(old_view[j].0 == self.entries@[j].0@);
                    }
                    lemma_lookup_absent(old_view, kv);
                }
                self.entries.push((key, value));
                proof {
                    assert(self.entries_view() =~= old_view.push((kv, value)));
                    assert(self.entries_view().drop_last() =~= old_view);
                }
            },
        }
    }

    /// Stores a successful profile under its own hardware and model key.
    pub fn put(&mut self, profile: KnownGoodProfile)
        requires
            old(self).wf(),
        ensures
            final(self).wf(),
            final(self).path_view() == old(self).path_view(),
            final(self).profile_at(profile_key(profile.hardware_fingerprint@, profile.model_fingerprint@)) == Some(profile),
            forall|k: Seq<char>| k != profile_key(profile.hardware_fingerprint@, profile.model_fingerprint@)
                ==> final(self).profile_at(k) == old(self).profile_at(k),
    {
        let key = profile_key_exec(profile.hardware_fingerprint.as_str(), profile.model_fingerprint.as_str());
        self.insert(key, profile);
    }

    /// A store kept at `path` holding the given keyed profiles, later pairs
    /// replacing earlier ones with the same key.
    pub fn from_pairs(path: &str, pairs: Vec<(String, KnownGoodProfile)>) -> (r: ProfileStore)
        ensures
            r.wf(),
            r.path_view() == path@,
            forall|k: Seq<char>| #[trigger] r.profile_at(k)
                == lookup(pairs@.map_values(|e: (String, KnownGoodProfile)| (e.0@, e.1)), k),
    {
        let ghost pv = pairs@.map_values(|e: (String, KnownGoodProfile)| (e.0@, e.1));
        let mut store = ProfileStore::new(path);
        let mut rest = pairs;
        let mut done: usize = 0;
        let n = rest.len();
        assert(rest@ =~= pairs@.subrange(0, n as int));
        while rest.len() > 0
            invariant
                store.wf(),
                store.path_view() == path@,
                done + rest@.len() == n,
                n == pairs@.len(),
                pv == pairs@.map_values(|e: (String, KnownGoodProfile)| (e.0@, e.1)),
                rest@ == pairs@.subrange(done as int, n as int),
                forall|k: Seq<char>| #[trigger] store.profile_at(k) == lookup(pv.subrange(0, done as int), k),
            decreases rest.len(),
        {
            let (k, v) = rest.remove(0);
            assert((k, v) == pairs@[done as int]);
            let ghost kv = k@;
            store.insert(k, v);
            done = done + 1;
            assert(pv.subrange(0, done as int).drop_last() =~= pv.subrange(0, done - 1));
            assert(rest@ =~= pairs@.subrange(done as int, n as int));
        }
        assert(pv.subrange(0, n as int) =~= pv);
        store
    }

    /// Number of cached profiles.
    pub fn len(&self) -> (r: usize)
        ensures
            r == self.size(),
    {
        self.entries.len()
    }

    pub fn is_empty(&self) -> (r: bool)
        ensures
            r == (self.size() == 0),
    {
        self.entries.len() == 0
    }

    /// The stored profiles with their keys, for writing the store out.
    pub fn pairs(&self) -> (r: &Vec<(String, KnownGoodProfile)>)
        ensures
            r@.map_values(|e: (String, KnownGoodProfile)| (e.0@, e.1)) == self.entries_view(),
    {
        &self.entries
    }
}

/// Where the profile store is kept by default.
pub fn default_profile_store_path() -> (r: &'static str)
    ensures
        r@ == "/var/lib/gguf-switchboard/model-profiles.json"@,
{
    "/var/lib/gguf-switchboard/model-profiles.json"
}

} // verus!
