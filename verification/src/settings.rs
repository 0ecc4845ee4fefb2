//! Configuration of the pipeline: the topic list, the log client's
//! key-value settings, the store directory and the metrics listen address.
//!
//! Reading the configuration file and the process environment is outside
//! work; this module holds the shapes and the merge rules: later settings
//! override earlier ones, and environment entries prefixed `KR_KAFKA_`
//! become log-client settings under a normalized key.

use vstd::prelude::*;

verus! {

/// One key-value setting for the log client.
pub struct ConfigEntry {
    pub key: String,
    pub value: String,
}

/// The settings handed to the log client, in the order they were given.
/// A later entry with the same key overrides an earlier one, so the map
/// this sequence denotes is the fold of its insertions.
pub struct ConfigMap {
    pub entries: Vec<ConfigEntry>,
}

/// The mapping a sequence of settings denotes: each entry inserted in
/// order, so the last occurrence of a key wins.
pub open spec fn settings_map_of(s: Seq<ConfigEntry>) -> Map<Seq<char>, Seq<char>>
    decreases s.len(),
{
    if s.len() == 0 {
        Map::empty()
    } else {
        settings_map_of(s.drop_last()).insert(s.last().key@, s.last().value@)
    }
}

impl View for ConfigMap {
    type V = Map<Seq<char>, Seq<char>>;

    open spec fn view(&self) -> Map<Seq<char>, Seq<char>> {
        settings_map_of(self.entries@)
    }
}

/// A sequence of settings none of which carries the key `k` denotes a map
/// without `k`.
proof fn lemma_settings_map_absent(s: Seq<ConfigEntry>, k: Seq<char>)
    requires
        forall|i: int| 0 <= i < s.len() ==> s[i].key@ != k,
    ensures
        !settings_map_of(s).dom().contains(k),
    decreases s.len(),
{
    if s.len() > 0 {
        lemma_settings_map_absent(s.drop_last(), k);
    }
}

/// Entries beyond position `i` that do not carry the key `k` do not
/// change what the denoted map says at `k`.
proof fn lemma_settings_map_take_agree(s: Seq<ConfigEntry>, k: Seq<char>, i: int)
    requires
        0 <= i <= s.len(),
        forall|j: int| i <= j < s.len() ==> s[j].key@ != k,
    ensures
        settings_map_of(s).dom().contains(k) == settings_map_of(s.take(i)).dom().contains(k),
        settings_map_of(s).dom().contains(k) ==> settings_map_of(s)[k] == settings_map_of(
            s.take(i),
        )[k],
    decreases s.len() - i,
{
    if i < s.len() {
        assert(s.drop_last() == s.take(s.len() - 1));
        lemma_settings_map_take_agree(s.take(s.len() - 1), k, i);
        assert(s.take(s.len() - 1).take(i) == s.take(i));
    } else {
        assert(s.take(i) == s);
    }
}

impl ConfigMap {
    /// An empty settings map.
    pub fn new() -> (r: ConfigMap)
        ensures
            r@ == Map::<Seq<char>, Seq<char>>::empty(),
            r.entries@.len() == 0,
    {
        ConfigMap { entries: Vec::new() }
    }

    /// Appends a setting; it overrides any earlier entry with this key.
    pub fn insert(&mut self, key: String, value: String)
        ensures
            final(self)@ == old(self)@.insert(key@, value@),
            final(self).entries@ == old(self).entries@.push(
                ConfigEntry { key: key, value: value },
            ),
    {
        let ghost before = self.entries@;
        self.entries.push(ConfigEntry { key, value });
        proof {
            assert(self.entries@.drop_last() =~= before);
        }
    }

    /// The value the map holds for `key`: the last entry with that key.
    pub fn get(&self, key: &str) -> (r: Option<&String>)
        ensures
            match r {
                Some(v) => self@.dom().contains(key@) && v@ == self@[key@],
                None => !self@.dom().contains(key@),
            },
    {
        let n = self.entries.len();
        let mut i: usize = n;
        while i > 0
            invariant
                i <= n,
                n == self.entries@.len(),
                forall|j: int| i <= j < n ==> self.entries@[j].key@ != key@,
            decreases i,
        {
            i = i - 1;
            if str_eq(self.entries[i].key.as_str(), key) {
                proof {
                    lemma_settings_map_take_agree(self.entries@, key@, i + 1);
                    assert(self.entries@.take(i + 1).drop_last() =~= self.entries@.take(i as int));
                    assert(self.entries@.take(i + 1).last() == self.entries@[i as int]);
                }
                return Some(&self.entries[i].value);
            }
        }
        proof {
            lemma_settings_map_absent(self.entries@, key@);
        }
        None
    }
}

/// Where the store keeps its files.
pub struct RocksDBSettings {
    pub directory: String,
}

/// Where the metrics endpoint listens.
pub struct PrometheusExporterSettings {
    pub address: String,
}

/// Everything the pipeline is configured with.
pub struct Settings {
    pub topics: Vec<String>,
    pub kafka: ConfigMap,
    pub rocksdb: RocksDBSettings,
    pub prometheus: PrometheusExporterSettings,
}

proof fn lemma_union_insert(
    m: Map<Seq<char>, Seq<char>>,
    n: Map<Seq<char>, Seq<char>>,
    k: Seq<char>,
    v: Seq<char>,
)
    ensures
        m.union_prefer_right(n.insert(k, v)) == m.union_prefer_right(n).insert(k, v),
{
    assert(m.union_prefer_right(n.insert(k, v)) =~= m.union_prefer_right(n).insert(k, v));
}

impl Settings {
    /// Lays the given log-client settings over the configured ones: each
    /// entry is inserted in order, overriding any configured value for the
    /// same key. Nothing else in the settings changes.
    pub fn override_kafka_settings(&mut self, kafka_settings: ConfigMap)
        ensures
            final(self).kafka@ == old(self).kafka@.union_prefer_right(kafka_settings@),
            final(self).topics == old(self).topics,
            final(self).rocksdb == old(self).rocksdb,
            final(self).prometheus == old(self).prometheus,
    {
        let ghost m0 = self.kafka@;
        let ghost all = kafka_settings.entries@;
        let n = kafka_settings.entries.len();
        let mut i: usize = 0;
        proof {
            assert(all.take(0) =~= Seq::<ConfigEntry>::empty());
            assert(m0.union_prefer_right(Map::empty()) =~= m0);
        }
        while i < n
            invariant
                i <= n,
                n == kafka_settings.entries@.len(),
                all == kafka_settings.entries@,
                self.kafka@ == m0.union_prefer_right(settings_map_of(all.take(i as int))),
                self.topics == old(self).topics,
                self.rocksdb == old(self).rocksdb,
                self.prometheus == old(self).prometheus,
            decreases n - i,
        {
            let e = &kafka_settings.entries[i];
            let k = e.key.clone();
            let v = e.value.clone();
            self.kafka.insert(k, v);
            proof {
                assert(all.take(i + 1).drop_last() =~= all.take(i as int));
                assert(all.take(i + 1).last() == all[i as int]);
                lemma_union_insert(
                    m0,
                    settings_map_of(all.take(i as int)),
                    all[i as int].key@,
                    all[i as int].value@,
                );
            }
            i = i + 1;
        }
        proof {
            assert(all.take(n as int) =~= all);
        }
    }
}

/// Relies on String::push: appends exactly the given character.
#[verifier::external_body]
fn push_char(s: &mut String, c: char)
    ensures
        final(s)@ == old(s)@.push(c),
{
    s.push(c)
}

/// What lowercasing a string returns, named: the result of
/// `str::to_lowercase`, a function of the characters alone.
pub uninterp spec fn lower_of(s: Seq<char>) -> Seq<char>;

/// Relies on str::to_lowercase: the result depends on the characters
/// alone.
#[verifier::external_body]
fn lowercase(s: &str) -> (r: String)
    ensures
        r@ == lower_of(s@),
{
    s.to_lowercase()
}

/// An underscore becomes the dot of the log client's setting syntax;
/// every other character is kept.
pub open spec fn spec_dot_char(c: char) -> char {
    if c == '_' {
        '.'
    } else {
        c
    }
}

/// A whole key with its underscores turned into dots.
pub open spec fn spec_dotted(s: Seq<char>) -> Seq<char> {
    s.map(|t: int, c: char| spec_dot_char(c))
}

/// Whether an environment variable addresses the log client: its name
/// starts with the nine characters `KR_KAFKA_`.
pub open spec fn spec_is_kafka_var(k: Seq<char>) -> bool {
    k.len() >= 9 && k.subrange(0, 9) == "KR_KAFKA_"@
}

/// The log-client setting key an environment name denotes: the name
/// after the prefix, underscores as dots, then lowercased.
pub open spec fn spec_normalize_key(k: Seq<char>) -> Seq<char> {
    lower_of(spec_dotted(k.skip(9)))
}

/// The log-client settings a sequence of environment variables denotes:
/// each variable with the prefix, under its normalized key, later ones
/// winning.
pub open spec fn env_kafka_map(s: Seq<ConfigEntry>) -> Map<Seq<char>, Seq<char>>
    decreases s.len(),
{
    if s.len() == 0 {
        Map::empty()
    } else {
        let m = env_kafka_map(s.drop_last());
        if spec_is_kafka_var(s.last().key@) {
            m.insert(spec_normalize_key(s.last().key@), s.last().value@)
        } else {
            m
        }
    }
}

fn dot_char(c: char) -> (r: char)
    ensures
        r == spec_dot_char(c),
{
    if c == '_' {
        '.'
    } else {
        c
    }
}

/// Whether this environment name addresses the log client.
pub fn is_kafka_env_key(k: &str) -> (r: bool)
    ensures
        r == spec_is_kafka_var(k@),
{
    proof {
        reveal_strlit("KR_KAFKA_");
    }
    let p = "KR_KAFKA_";
    let n = k.unicode_len();
    if n < 9 {
        return false;
    }
    let mut j: usize = 0;
    while j < 9
        invariant
            j <= 9,
            n == k@.len(),
            n >= 9,
            p@ == "KR_KAFKA_"@,
            p@.len() == 9,
            forall|t: int| 0 <= t < j ==> k@[t] == p@[t],
        decreases 9 - j,
    {
        if k.get_char(j) != p.get_char(j) {
            proof {
                assert(k@.subrange(0, 9)[j as int] == k@[j as int]);
            }
            return false;
        }
        j = j + 1;
    }
    proof {
        assert(k@.subrange(0, 9) =~= p@);
    }
    true
}

/// The normalized log-client key of an environment name with the prefix.
pub fn normalized_kafka_key(k: &str) -> (r: String)
    requires
        spec_is_kafka_var(k@),
    ensures
        r@ == spec_normalize_key(k@),
{
    let n = k.unicode_len();
    let rem = k.substring_char(9, n);
    let m = rem.unicode_len();
    let mut dotted = String::new();
    let mut i: usize = 0;
    while i < m
        invariant
            i <= m,
            m == rem@.len(),
            dotted@ == spec_dotted(rem@.take(i as int)),
        decreases m - i,
    {
        let c = rem.get_char(i);
        let d = dot_char(c);
        push_char(&mut dotted, d);
        proof {
            assert(spec_dotted(rem@.take(i + 1)) =~= spec_dotted(rem@.take(i as int)).push(
                spec_dot_char(rem@[i as int]),
            ));
        }
        i = i + 1;
    }
    proof {
        assert(rem@.take(m as int) =~= rem@);
        assert(rem@ =~= k@.skip(9));
    }
    lowercase(dotted.as_str())
}

/// Turns the process environment, handed over as name-value pairs, into
/// log-client settings: every variable prefixed `KR_KAFKA_` contributes
/// its value under its normalized key; everything else is ignored.
pub fn kafka_environment_settings(vars: &Vec<ConfigEntry>) -> (r: ConfigMap)
    ensures
        r@ == env_kafka_map(vars@),
{
    let mut out = ConfigMap::new();
    let n = vars.len();
    let mut i: usize = 0;
    proof {
        assert(vars@.take(0) =~= Seq::<ConfigEntry>::empty());
    }
    while i < n
        invariant
            i <= n,
            n == vars@.len(),
            out@ == env_kafka_map(vars@.take(i as int)),
        decreases n - i,
    {
        let e = &vars[i];
        if is_kafka_env_key(e.key.as_str()) {
            let nk = normalized_kafka_key(e.key.as_str());
            out.insert(nk, e.value.clone());
        }
        proof {
            assert(vars@.take(i + 1).drop_last() =~= vars@.take(i as int));
            assert(vars@.take(i + 1).last() == vars@[i as int]);
        }
        i = i + 1;
    }
    proof {
        assert(vars@.take(n as int) =~= vars@);
    }
    out
}

/// Compares two strings character by character.
pub fn str_eq(a: &str, b: &str) -> (r: bool)
    ensures
        r == (a@ == b@),
{
    let n = a.unicode_len();
    if n != b.unicode_len() {
        return false;
    }
    let mut i: usize = 0;
    while i < n
        invariant
            i <= n,
            n == a@.len(),
            n == b@.len(),
            forall|j: int| 0 <= j < i ==> a@[j] == b@[j],
        decreases n - i,
    {
        if a.get_char(i) != b.get_char(i) {
            return false;
        }
        i = i + 1;
    }
    proof {
        assert(a@ =~= b@);
    }
    true
}

} // verus!
