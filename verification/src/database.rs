//! The materialized store: one isolated namespace per topic, each a keyed
//! map from raw key bytes to the latest value bytes.
//!
//! A later write with the same key in the same namespace overwrites the
//! prior value; a write with an absent value removes the entry. Routing a
//! record to a namespace that was never declared when the store was
//! opened is a configuration defect and is reported, not applied.

use vstd::prelude::*;
use vstd::slice::slice_to_vec;

use crate::error::KafkaRocksDBError;
use crate::settings::{str_eq, Settings};

verus! {

/// The store's mathematical shape: topic name, then key bytes, to value
/// bytes.
pub type StoreView = Map<Seq<char>, Map<Seq<u8>, Seq<u8>>>;

/// One stored pair inside a namespace.
pub struct StoredEntry {
    pub key: Vec<u8>,
    pub value: Vec<u8>,
}

/// One namespace: the entries materialized for one topic.
pub struct Namespace {
    pub name: String,
    pub entries: Vec<StoredEntry>,
}

/// The map a sequence of stored entries denotes.
pub open spec fn entries_map(s: Seq<StoredEntry>) -> Map<Seq<u8>, Seq<u8>>
    decreases s.len(),
{
    if s.len() == 0 {
        Map::empty()
    } else {
        entries_map(s.drop_last()).insert(s.last().key@, s.last().value@)
    }
}

/// No two entries share a key.
pub open spec fn entry_keys_unique(s: Seq<StoredEntry>) -> bool {
    forall|i: int, j: int| 0 <= i < j < s.len() ==> s[i].key@ != s[j].key@
}

/// No two namespaces share a name.
pub open spec fn namespace_names_unique(s: Seq<Namespace>) -> bool {
    forall|i: int, j: int| 0 <= i < j < s.len() ==> s[i].name@ != s[j].name@
}

/// The store a sequence of namespaces denotes.
pub open spec fn namespaces_map(s: Seq<Namespace>) -> StoreView
    decreases s.len(),
{
    if s.len() == 0 {
        Map::empty()
    } else {
        namespaces_map(s.drop_last()).insert(s.last().name@, entries_map(s.last().entries@))
    }
}

proof fn lemma_entries_map_absent(s: Seq<StoredEntry>, k: Seq<u8>)
    requires
        forall|i: int| 0 <= i < s.len() ==> s[i].key@ != k,
    ensures
        !entries_map(s).dom().contains(k),
    decreases s.len(),
{
    if s.len() > 0 {
        lemma_entries_map_absent(s.drop_last(), k);
    }
}

proof fn lemma_entries_map_index(s: Seq<StoredEntry>, i: int)
    requires
        entry_keys_unique(s),
        0 <= i < s.len(),
    ensures
        entries_map(s).dom().contains(s[i].key@),
        entries_map(s)[s[i].key@] == s[i].value@,
    decreases s.len(),
{
    if i < s.len() - 1 {
        lemma_entries_map_index(s.drop_last(), i);
    }
}

proof fn lemma_entries_map_update(s: Seq<StoredEntry>, i: int, e: StoredEntry)
    requires
        entry_keys_unique(s),
        0 <= i < s.len(),
        e.key@ == s[i].key@,
    ensures
        entries_map(s.update(i, e)) == entries_map(s).insert(e.key@, e.value@),
    decreases s.len(),
{
    if i == s.len() - 1 {
        assert(s.update(i, e).drop_last() =~= s.drop_last());
        assert(entries_map(s.update(i, e)) =~= entries_map(s).insert(e.key@, e.value@));
    } else {
        assert(s.update(i, e).drop_last() =~= s.drop_last().update(i, e));
        lemma_entries_map_update(s.drop_last(), i, e);
        assert(s.last().key@ != e.key@);
        assert(entries_map(s.update(i, e)) =~= entries_map(s).insert(e.key@, e.value@));
    }
}

proof fn lemma_entries_map_remove(s: Seq<StoredEntry>, i: int)
    requires
        entry_keys_unique(s),
        0 <= i < s.len(),
    ensures
        entries_map(s.remove(i)) == entries_map(s).remove(s[i].key@),
    decreases s.len(),
{
    if i == s.len() - 1 {
        assert(s.remove(i) =~= s.drop_last());
        lemma_entries_map_absent(s.drop_last(), s[i].key@);
        assert(entries_map(s.remove(i)) =~= entries_map(s).remove(s[i].key@));
    } else {
        assert(s.remove(i).drop_last() =~= s.drop_last().remove(i));
        assert(s.remove(i).last() == s.last());
        lemma_entries_map_remove(s.drop_last(), i);
        assert(s.last().key@ != s[i].key@);
        assert(entries_map(s.remove(i)) =~= entries_map(s).remove(s[i].key@));
    }
}

proof fn lemma_namespaces_map_contains(s: Seq<Namespace>, i: int)
    requires
        0 <= i < s.len(),
    ensures
        namespaces_map(s).dom().contains(s[i].name@),
    decreases s.len(),
{
    if i < s.len() - 1 {
        lemma_namespaces_map_contains(s.drop_last(), i);
    }
}

proof fn lemma_namespaces_map_absent(s: Seq<Namespace>, t: Seq<char>)
    requires
        forall|i: int| 0 <= i < s.len() ==> s[i].name@ != t,
    ensures
        !namespaces_map(s).dom().contains(t),
    decreases s.len(),
{
    if s.len() > 0 {
        lemma_namespaces_map_absent(s.drop_last(), t);
    }
}

proof fn lemma_namespaces_map_index(s: Seq<Namespace>, i: int)
    requires
        namespace_names_unique(s),
        0 <= i < s.len(),
    ensures
        namespaces_map(s).dom().contains(s[i].name@),
        namespaces_map(s)[s[i].name@] == entries_map(s[i].entries@),
    decreases s.len(),
{
    if i < s.len() - 1 {
        lemma_namespaces_map_index(s.drop_last(), i);
    }
}

proof fn lemma_namespaces_map_update(s: Seq<Namespace>, i: int, ns: Namespace)
    requires
        namespace_names_unique(s),
        0 <= i < s.len(),
        ns.name@ == s[i].name@,
    ensures
        namespaces_map(s.update(i, ns)) == namespaces_map(s).insert(
            ns.name@,
            entries_map(ns.entries@),
        ),
    decreases s.len(),
{
    if i == s.len() - 1 {
        assert(s.update(i, ns).drop_last() =~= s.drop_last());
        assert(namespaces_map(s.update(i, ns)) =~= namespaces_map(s).insert(
            ns.name@,
            entries_map(ns.entries@),
        ));
    } else {
        assert(s.update(i, ns).drop_last() =~= s.drop_last().update(i, ns));
        lemma_namespaces_map_update(s.drop_last(), i, ns);
        assert(s.last().name@ != ns.name@);
        assert(namespaces_map(s.update(i, ns)) =~= namespaces_map(s).insert(
            ns.name@,
            entries_map(ns.entries@),
        ));
    }
}

/// Compares two byte strings.
fn bytes_eq(a: &[u8], b: &[u8]) -> (r: bool)
    ensures
        r == (a@ == b@),
{
    let n = a.len();
    if n != b.len() {
        return false;
    }
    let mut i: usize = 0;
    while i < n
        invariant
            i <= n,
            n == a@.len(),
            n == b@.len(),
            forall|j: int| 0 <= j < i ==> a@[j] == b@[j],
        decreases n - i,
    {
        if a[i] != b[i] {
            return false;
        }
        i = i + 1;
    }
    proof {
        assert(a@ =~= b@);
    }
    true
}

impl Namespace {
    /// The position of the entry holding `key`, if any.
    fn find(&self, key: &[u8]) -> (r: Option<usize>)
        ensures
            match r {
                Some(i) => i < self.entries@.len() && self.entries@[i as int].key@ == key@,
                None => forall|j: int|
                    0 <= j < self.entries@.len() ==> self.entries@[j].key@ != key@,
            },
    {
        let n = self.entries.len();
        let mut i: usize = 0;
        while i < n
            invariant
                i <= n,
                n == self.entries@.len(),
                forall|j: int| 0 <= j < i ==> self.entries@[j].key@ != key@,
            decreases n - i,
        {
            if bytes_eq(self.entries[i].key.as_slice(), key) {
                return Some(i);
            }
            i = i + 1;
        }
        None
    }

    /// Durably upserts `key` to `value` in this namespace.
    fn upsert(&mut self, key: &[u8], value: &[u8])
        requires
            entry_keys_unique(old(self).entries@),
        ensures
            entry_keys_unique(final(self).entries@),
            final(self).name == old(self).name,
            entries_map(final(self).entries@) == entries_map(old(self).entries@).insert(
                key@,
                value@,
            ),
    {
        let e = StoredEntry { key: slice_to_vec(key), value: slice_to_vec(value) };
        match self.find(key) {
            Some(i) => {
                let ghost before = self.entries@;
                self.entries[i] = e;
                proof {
                    assert(entry_keys_unique(self.entries@));
                    lemma_entries_map_update(before, i as int, self.entries@[i as int]);
                }
            },
            None => {
                let ghost before = self.entries@;
                self.entries.push(e);
                proof {
                    assert(self.entries@.drop_last() =~= before);
                    assert(entry_keys_unique(self.entries@));
                }
            },
        }
    }

    /// Durably removes `key` from this namespace; absence is a no-op.
    fn delete(&mut self, key: &[u8])
        requires
            entry_keys_unique(old(self).entries@),
        ensures
            entry_keys_unique(final(self).entries@),
            final(self).name == old(self).name,
            entries_map(final(self).entries@) == entries_map(old(self).entries@).remove(key@),
    {
        match self.find(key) {
            Some(i) => {
                let ghost before = self.entries@;
                self.entries.remove(i);
                proof {
                    assert(entry_keys_unique(self.entries@)) by {
                        assert(forall|x: int, y: int|
                            0 <= x < y < self.entries@.len() ==> self.entries@[x].key@
                                != self.entries@[y].key@) by {
                            assert(forall|x: int|
                                0 <= x < self.entries@.len() ==> self.entries@[x] == if x < i {
                                    before[x]
                                } else {
                                    before[x + 1]
                                });
                        }
                    }
                    lemma_entries_map_remove(before, i as int);
                }
            },
            None => {
                proof {
                    lemma_entries_map_absent(self.entries@, key@);
                    assert(entries_map(self.entries@).remove(key@) =~= entries_map(
                        self.entries@,
                    ));
                }
            },
        }
    }
}

/// The set of topic names a configured topic list denotes.
pub open spec fn topics_set(ts: Seq<String>) -> Set<Seq<char>> {
    Set::new(|t: Seq<char>| exists|i: int| 0 <= i < ts.len() && ts[i]@ == t)
}

proof fn lemma_topics_set_take_step(ts: Seq<String>, i: int)
    requires
        0 <= i < ts.len(),
    ensures
        topics_set(ts.take(i + 1)) == topics_set(ts.take(i)).insert(ts[i]@),
{
    assert forall|x: Seq<char>| topics_set(ts.take(i + 1)).contains(x) implies topics_set(
        ts.take(i),
    ).insert(ts[i]@).contains(x) by {
        let j = choose|j: int| 0 <= j < ts.take(i + 1).len() && #[trigger] ts.take(i + 1)[j]@ == x;
        if j < i {
            assert(ts.take(i)[j]@ == x);
        }
    }
    assert forall|x: Seq<char>| topics_set(ts.take(i)).insert(ts[i]@).contains(x) implies
        topics_set(ts.take(i + 1)).contains(x) by {
        if x == ts[i]@ {
            assert(ts.take(i + 1)[i]@ == x);
        } else {
            let j = choose|j: int| 0 <= j < ts.take(i).len() && ts.take(i)[j]@ == x;
            assert(ts.take(i + 1)[j]@ == x);
        }
    }
    assert(topics_set(ts.take(i + 1)) =~= topics_set(ts.take(i)).insert(ts[i]@));
}

/// What one write means for a namespace: a present value upserts the key,
/// an absent value removes it.
pub open spec fn apply_value(
    ns: Map<Seq<u8>, Seq<u8>>,
    key: Seq<u8>,
    value: Option<Seq<u8>>,
) -> Map<Seq<u8>, Seq<u8>> {
    match value {
        Option::Some(v) => ns.insert(key, v),
        Option::None => ns.remove(key),
    }
}

/// The view of an optional borrowed byte string.
pub open spec fn opt_bytes_view(value: Option<&[u8]>) -> Option<Seq<u8>> {
    match value {
        Option::Some(v) => Option::Some(v@),
        Option::None => Option::None,
    }
}

/// The materialized store.
pub struct Database {
    namespaces: Vec<Namespace>,
}

impl Database {
    /// Namespace names are distinct and each namespace's keys are
    /// distinct.
    pub closed spec fn wf(&self) -> bool {
        &&& namespace_names_unique(self.namespaces@)
        &&& forall|i: int|
            0 <= i < self.namespaces@.len() ==> entry_keys_unique(
                #[trigger] self.namespaces@[i].entries@,
            )
    }

    /// The position of the namespace named `topic`, if any.
    fn find_namespace(&self, topic: &str) -> (r: Option<usize>)
        ensures
            match r {
                Some(i) => i < self.namespaces@.len() && self.namespaces@[i as int].name@
                    == topic@,
                None => forall|j: int|
                    0 <= j < self.namespaces@.len() ==> self.namespaces@[j].name@ != topic@,
            },
    {
        let n = self.namespaces.len();
        let mut i: usize = 0;
        while i < n
            invariant
                i <= n,
                n == self.namespaces@.len(),
                forall|j: int| 0 <= j < i ==> self.namespaces@[j].name@ != topic@,
            decreases n - i,
        {
            if str_eq(self.namespaces[i].name.as_str(), topic) {
                return Some(i);
            }
            i = i + 1;
        }
        None
    }

    /// Whether `topic` was declared when the store was opened.
    pub fn has_namespace(&self, topic: &str) -> (r: bool)
        ensures
            r == self@.dom().contains(topic@),
    {
        match self.find_namespace(topic) {
            Some(i) => {
                proof {
                    lemma_namespaces_map_contains(self.namespaces@, i as int);
                }
                true
            },
            None => {
                proof {
                    lemma_namespaces_map_absent(self.namespaces@, topic@);
                }
                false
            },
        }
    }

    /// Opens the store over the configured topic list: one namespace per
    /// distinct topic, each empty; a topic named twice gets one
    /// namespace.
    pub fn new(config: &Settings) -> (db: Database)
        ensures
            db.wf(),
            db@.dom() == topics_set(config.topics@),
            forall|t: Seq<char>| #[trigger]
                db@.dom().contains(t) ==> db@[t] == Map::<Seq<u8>, Seq<u8>>::empty(),
    {
        let mut db = Database { namespaces: Vec::new() };
        let n = config.topics.len();
        let mut i: usize = 0;
        proof {
            assert(db@.dom() =~= topics_set(config.topics@.take(0)));
        }
        while i < n
            invariant
                i <= n,
                n == config.topics@.len(),
                db.wf(),
                db@.dom() == topics_set(config.topics@.take(i as int)),
                forall|t: Seq<char>| #[trigger]
                    db@.dom().contains(t) ==> db@[t] == Map::<Seq<u8>, Seq<u8>>::empty(),
            decreases n - i,
        {
            let t = &config.topics[i];
            match db.find_namespace(t.as_str()) {
                Some(j) => {
                    proof {
                        lemma_namespaces_map_contains(db.namespaces@, j as int);
                        lemma_topics_set_take_step(config.topics@, i as int);
                        assert(db@.dom() =~= topics_set(config.topics@.take(i + 1)));
                    }
                },
                None => {
                    let ghost before = db.namespaces@;
                    db.namespaces.push(Namespace { name: t.clone(), entries: Vec::new() });
                    proof {
                        assert(db.namespaces@.drop_last() =~= before);
                        assert(entries_map(db.namespaces@.last().entries@) =~= Map::<
                            Seq<u8>,
                            Seq<u8>,
                        >::empty());
                        assert(namespace_names_unique(db.namespaces@));
                        lemma_topics_set_take_step(config.topics@, i as int);
                        assert(db@.dom() =~= topics_set(config.topics@.take(i + 1)));
                    }
                },
            }
            i = i + 1;
        }
        proof {
            assert(config.topics@.take(n as int) =~= config.topics@);
        }
        db
    }

    /// Applies one write: routes `topic` to its namespace, then upserts
    /// `key` when `value` is present and removes it when absent. The
    /// change is confined to that namespace; an undeclared topic leaves
    /// the store unchanged and is reported.
    pub fn update(&mut self, topic: &str, key: &[u8], value: Option<&[u8]>) -> (r: Result<
        (),
        KafkaRocksDBError,
    >)
        requires
            old(self).wf(),
        ensures
            final(self).wf(),
            final(self)@.dom() == old(self)@.dom(),
            r is Ok <==> old(self)@.dom().contains(topic@),
            old(self)@.dom().contains(topic@) ==> final(self)@ == old(self)@.insert(
                topic@,
                apply_value(old(self)@[topic@], key@, opt_bytes_view(value)),
            ),
            !old(self)@.dom().contains(topic@) ==> final(self)@ == old(self)@ && (
            r matches Err(KafkaRocksDBError::ColumnFamilyNotFound(t)) && t@ == topic@),
    {
        match self.find_namespace(topic) {
            None => {
                proof {
                    lemma_namespaces_map_absent(self.namespaces@, topic@);
                }
                Err(KafkaRocksDBError::ColumnFamilyNotFound(topic.to_owned()))
            },
            Some(i) => {
                let ghost before = self.namespaces@;
                proof {
                    lemma_namespaces_map_index(before, i as int);
                }
                let ns = &mut self.namespaces[i];
                match value {
                    Some(v) => ns.upsert(key, v),
                    None => ns.delete(key),
                }
                proof {
                    assert(self.namespaces@ =~= before.update(
                        i as int,
                        self.namespaces@[i as int],
                    ));
                    lemma_namespaces_map_update(before, i as int, self.namespaces@[i as int]);
                    assert(self.wf());
                    assert(self@.dom() =~= namespaces_map(before).dom());
                }
                Ok(())
            },
        }
    }

    /// The value materialized for `key` in `topic`'s namespace, if any.
    pub fn get(&self, topic: &str, key: &[u8]) -> (r: Option<&Vec<u8>>)
        requires
            self.wf(),
        ensures
            match r {
                Some(v) => self@.dom().contains(topic@) && self@[topic@].dom().contains(key@)
                    && v@ == self@[topic@][key@],
                None => !self@.dom().contains(topic@) || !self@[topic@].dom().contains(key@),
            },
    {
        match self.find_namespace(topic) {
            None => {
                proof {
                    lemma_namespaces_map_absent(self.namespaces@, topic@);
                }
                None
            },
            Some(i) => {
                proof {
                    lemma_namespaces_map_index(self.namespaces@, i as int);
                }
                let ns = &self.namespaces[i];
                match ns.find(key) {
                    None => {
                        proof {
                            lemma_entries_map_absent(ns.entries@, key@);
                        }
                        None
                    },
                    Some(j) => {
                        proof {
                            lemma_entries_map_index(ns.entries@, j as int);
                        }
                        Some(&ns.entries[j].value)
                    },
                }
            },
        }
    }
}

impl View for Database {
    type V = StoreView;

    closed spec fn view(&self) -> StoreView {
        namespaces_map(self.namespaces@)
    }
}

} // verus!
