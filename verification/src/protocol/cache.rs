//! A time-limited cache of tool results, for tools that only read.

use vstd::prelude::*;
use crate::json::string_view;
use crate::text::{ascii_digit, ascii_letter, push_char, starts_with, str_chars, StringExecFns};

verus! {

/// Declares `std::time::Instant`, the monotonic clock reading the cache
/// measures ages from.
#[verifier::external_type_specification]
#[verifier::external_body]
pub struct ExInstant(std::time::Instant);

/// Declares `serde_json::Error`, what serialising a value can fail with.
#[verifier::external_type_specification]
#[verifier::external_body]
pub struct ExJsonError(serde_json::Error);

/// `Instant::now`: a reading of the monotonic clock; nothing is promised of
/// it.
#[verifier::external_body]
fn instant_now() -> std::time::Instant {
    std::time::Instant::now()
}

/// `Instant::elapsed`, in nanoseconds (saturating at `u64::MAX`). It reads
/// the clock, so nothing is promised of it.
#[verifier::external_body]
fn nanos_since(origin: &std::time::Instant) -> u64 {
    u64::try_from(origin.elapsed().as_nanos()).unwrap_or(u64::MAX)
}

/// What `serde_json::to_string` writes for a JSON value: its compact text,
/// or `None` where writing fails.
pub uninterp spec fn json_text_of(v: serde_json::Value) -> Option<Seq<char>>;

/// `serde_json::to_string` on a JSON value: the text it writes is named
/// `json_text_of`, and an error comes exactly where that name is `None`.
#[verifier::external_body]
pub(crate) fn to_json_string(v: &serde_json::Value) -> (r: Result<String, serde_json::Error>)
    ensures
        match r {
            Ok(t) => json_text_of(*v) == Some(t@),
            Err(_) => json_text_of(*v) is None,
        },
{
    serde_json::to_string(v)
}

/// The arguments of a call as JSON text: what `serde_json` writes, or the
/// empty text where that fails; none when there are no arguments.
pub open spec fn arguments_text(arguments: Option<serde_json::Value>) -> Option<Seq<char>> {
    match arguments {
        Some(v) => Some(
            match json_text_of(v) {
                Some(t) => t,
                None => Seq::empty(),
            },
        ),
        None => None,
    }
}

/// What `glob::Pattern::new(pattern)` followed by `Pattern::matches(name)`
/// answers; false where the pattern does not compile.
pub uninterp spec fn glob_crate_matches(pattern: Seq<char>, name: Seq<char>) -> bool;

/// A pattern character that `glob` takes literally on every platform: an
/// ASCII letter or digit, `_` or `-`.
pub open spec fn literal_glob_char(c: char) -> bool {
    ascii_letter(c) || ascii_digit(c) || c == '_' || c == '-'
}

/// Whether a cache pattern takes in a tool name: a pattern of literal
/// characters only the equal name, `*` every name, and any other pattern
/// the names `glob` matches it with.
pub open spec fn pattern_admits(pattern: Seq<char>, name: Seq<char>) -> bool {
    if forall|i: int| 0 <= i < pattern.len() ==> literal_glob_char(#[trigger] pattern[i]) {
        name == pattern
    } else if pattern == seq!['*'] {
        true
    } else {
        glob_crate_matches(pattern, name)
    }
}

/// Compiles the pattern with `glob::Pattern::new` and tests the name with
/// `Pattern::matches`; a pattern that does not compile matches nothing. The
/// answer depends on the two strings alone and is named
/// `glob_crate_matches`; of the glob syntax only two facts are stated: a
/// pattern of literal characters matches exactly the equal name, and `*`
/// matches every name (default options: no literal separator or leading
/// dot is required).
#[verifier::external_body]
fn glob_pattern_matches(pattern: &str, name: &str) -> (r: bool)
    ensures
        r == glob_crate_matches(pattern@, name@),
        (forall|i: int| 0 <= i < pattern@.len() ==> literal_glob_char(#[trigger] pattern@[i])) ==> (r
            <==> name@ == pattern@),
        pattern@ == seq!['*'] ==> r,
{
    glob::Pattern::new(pattern).map(|p| p.matches(name)).unwrap_or(false)
}

/// Nanoseconds in a second.
pub const NANOS_PER_SEC: u64 = 1_000_000_000;

/// Name prefixes of the tools cached when no pattern is configured: the
/// ones that only read.
pub open spec fn read_prefixes() -> Seq<Seq<char>> {
    seq!["list_"@, "get_"@, "search_"@, "query_"@, "describe_"@, "show_"@, "count_"@, "check_"@]
}

/// Whether results of the named tool are cached: with no patterns, when
/// its name starts with a read prefix; otherwise when a pattern matches it.
pub open spec fn cacheable(patterns: Seq<Seq<char>>, name: Seq<char>) -> bool {
    if patterns.len() == 0 {
        exists|i: int| 0 <= i < read_prefixes().len() && #[trigger] read_prefixes()[i].is_prefix_of(name)
    } else {
        exists|i: int| 0 <= i < patterns.len() && #[trigger] pattern_admits(patterns[i], name)
    }
}

/// The key of a call: the tool name, a colon, then the arguments as JSON
/// text, or `()` when there are none.
pub open spec fn cache_key_of(tool: Seq<char>, arguments_json: Option<Seq<char>>) -> Seq<char> {
    match arguments_json {
        Some(j) => tool + seq![':'] + j,
        None => tool + seq![':', '(', ')'],
    }
}

/// The model of a cached result.
pub struct EntryView {
    pub key: Seq<char>,
    pub value: serde_json::Value,
    pub inserted_at: u64,
    pub ttl_secs: u64,
    pub hits: u64,
}

/// Whether the entry is older than its time to live at `now` (both in
/// nanoseconds on the cache's clock).
pub open spec fn expired(e: EntryView, now: u64) -> bool {
    now - e.inserted_at > e.ttl_secs * NANOS_PER_SEC
}

/// Index of the entry with the key.
pub open spec fn key_pos(entries: Seq<EntryView>, key: Seq<char>) -> Option<int> {
    if exists|i: int| 0 <= i < entries.len() && entries[i].key == key {
        Some(choose|i: int| 0 <= i < entries.len() && entries[i].key == key)
    } else {
        None
    }
}

/// No two entries have the same key.
pub open spec fn keys_unique(entries: Seq<EntryView>) -> bool {
    forall|i: int, j: int|
        0 <= i < entries.len() && 0 <= j < entries.len() && i != j ==> #[trigger] entries[i].key
            != #[trigger] entries[j].key
}

/// The entries that satisfy `keep`, in order.
pub open spec fn keep_where(entries: Seq<EntryView>, keep: spec_fn(EntryView) -> bool) -> Seq<EntryView>
    decreases entries.len(),
{
    if entries.len() == 0 {
        Seq::empty()
    } else if keep(entries.last()) {
        keep_where(entries.drop_last(), keep).push(entries.last())
    } else {
        keep_where(entries.drop_last(), keep)
    }
}

/// The entries not yet expired at `now`, in order.
pub open spec fn unexpired(entries: Seq<EntryView>, now: u64) -> Seq<EntryView> {
    keep_where(entries, |e: EntryView| !expired(e, now))
}

/// Index of the first of the oldest entries.
pub open spec fn oldest_index(entries: Seq<EntryView>) -> int
    decreases entries.len(),
{
    if entries.len() <= 1 {
        0
    } else {
        let j = oldest_index(entries.drop_last());
        if entries.last().inserted_at < entries[j].inserted_at {
            entries.len() - 1
        } else {
            j
        }
    }
}

/// The entries after making room for one more: when full, the expired ones
/// go, and if it is still full, the oldest one.
pub open spec fn make_room(entries: Seq<EntryView>, max_entries: nat, now: u64) -> Seq<EntryView> {
    if entries.len() >= max_entries {
        let live = unexpired(entries, now);
        if live.len() >= max_entries && live.len() > 0 {
            live.remove(oldest_index(live))
        } else {
            live
        }
    } else {
        entries
    }
}

/// The most entries a cache of capacity `max_entries` holds: that many,
/// or one for a capacity of zero.
pub open spec fn room_limit(max_entries: nat) -> nat {
    if max_entries == 0 {
        1
    } else {
        max_entries
    }
}

/// The entries with `e` stored under its key, replacing an entry with the
/// same key.
pub open spec fn upsert(entries: Seq<EntryView>, e: EntryView) -> Seq<EntryView> {
    match key_pos(entries, e.key) {
        Some(i) => entries.update(i, e),
        None => entries.push(e),
    }
}

/// The entries after storing a result under `key` at `now`.
pub open spec fn stored(
    entries: Seq<EntryView>,
    max_entries: nat,
    key: Seq<char>,
    value: serde_json::Value,
    ttl_secs: u64,
    now: u64,
) -> Seq<EntryView> {
    upsert(
        make_room(entries, max_entries, now),
        EntryView { key, value, inserted_at: now, ttl_secs, hits: 0 },
    )
}

/// What a lookup of `key` at `now` answers: the cached value, if present
/// and not expired.
pub open spec fn lookup(entries: Seq<EntryView>, key: Seq<char>, now: u64) -> Option<serde_json::Value> {
    match key_pos(entries, key) {
        Some(i) => if expired(entries[i], now) {
            None
        } else {
            Some(entries[i].value)
        },
        None => None,
    }
}

/// The entries after a lookup of `key` at `now`: a hit is counted, and an
/// expired entry is dropped.
pub open spec fn looked_up(entries: Seq<EntryView>, key: Seq<char>, now: u64) -> Seq<EntryView> {
    match key_pos(entries, key) {
        Some(i) => if expired(entries[i], now) {
            entries.remove(i)
        } else {
            entries.update(i, EntryView { hits: (entries[i].hits + 1) as u64, ..entries[i] })
        },
        None => entries,
    }
}

/// The entries whose key does not start with `prefix`, in order.
pub open spec fn without_prefix(entries: Seq<EntryView>, prefix: Seq<char>) -> Seq<EntryView> {
    keep_where(entries, |e: EntryView| !prefix.is_prefix_of(e.key))
}

/// How many entries are expired at `now`.
pub open spec fn expired_count(entries: Seq<EntryView>, now: u64) -> nat
    decreases entries.len(),
{
    if entries.len() == 0 {
        0
    } else {
        expired_count(entries.drop_last(), now) + if expired(entries.last(), now) { 1nat } else { 0nat }
    }
}

/// The hits of all entries together.
pub open spec fn hits_total(entries: Seq<EntryView>) -> nat
    decreases entries.len(),
{
    if entries.len() == 0 {
        0
    } else {
        hits_total(entries.drop_last()) + entries.last().hits as nat
    }
}

struct CacheEntry {
    key: String,
    value: serde_json::Value,
    inserted_at: u64,
    ttl_secs: u64,
    hits: u64,
}

impl View for CacheEntry {
    type V = EntryView;

    closed spec fn view(&self) -> EntryView {
        EntryView {
            key: self.key@,
            value: self.value,
            inserted_at: self.inserted_at,
            ttl_secs: self.ttl_secs,
            hits: self.hits,
        }
    }
}

/// The models of a sequence of entries.
spec fn entry_models(v: Seq<CacheEntry>) -> Seq<EntryView> {
    v.map_values(|e: CacheEntry| e@)
}

/// Figures about the cache's content.
pub struct CacheStats {
    pub total_entries: usize,
    pub expired_entries: usize,
    pub total_hits: u64,
}

/// A cache of tool results, each kept for a time to live, up to a number of
/// entries.
pub struct ToolCache {
    entries: Vec<CacheEntry>,
    default_ttl_secs: u64,
    max_entries: usize,
    cacheable_patterns: Vec<String>,
    origin: std::time::Instant,
    last_reading: u64,
}

proof fn lemma_keep_where_sub(entries: Seq<EntryView>, keep: spec_fn(EntryView) -> bool)
    ensures
        keep_where(entries, keep).len() <= entries.len(),
        forall|i: int|
            0 <= i < keep_where(entries, keep).len() ==> entries.contains(
                #[trigger] keep_where(entries, keep)[i],
            ) && keep(keep_where(entries, keep)[i]),
        keys_unique(entries) ==> keys_unique(keep_where(entries, keep)),
    decreases entries.len(),
{
    if entries.len() > 0 {
        let d = entries.drop_last();
        lemma_keep_where_sub(d, keep);
        let k = keep_where(entries, keep);
        let kd = keep_where(d, keep);
        assert forall|i: int| 0 <= i < k.len() implies entries.contains(#[trigger] k[i]) && keep(k[i]) by {
            if i < kd.len() {
                assert(k[i] == kd[i]);
                let j = choose|j: int| 0 <= j < d.len() && d[j] == kd[i];
                assert(entries[j] == k[i]);
            } else {
                assert(k[i] == entries[entries.len() - 1]);
            }
        }
        if keys_unique(entries) && keep(entries.last()) {
            assert forall|a: int, b: int| 0 <= a < k.len() && 0 <= b < k.len() && a != b implies #[trigger] k[a].key
                != #[trigger] k[b].key by {
                if a < kd.len() && b < kd.len() {
                    assert(k[a] == kd[a] && k[b] == kd[b]);
                } else {
                    let x = if a < kd.len() { a } else { b };
                    assert(x < kd.len());
                    let j = choose|j: int| 0 <= j < d.len() && d[j] == kd[x];
                    assert(entries[j].key != entries[entries.len() - 1].key);
                }
            }
        }
    }
}

impl ToolCache {
    /// The cached entries.
    pub closed spec fn entries_view(&self) -> Seq<EntryView> {
        entry_models(self.entries@)
    }

    /// The time to live of new entries, in seconds.
    pub closed spec fn ttl(&self) -> u64 {
        self.default_ttl_secs
    }

    /// How many entries the cache holds before it makes room.
    pub closed spec fn capacity(&self) -> nat {
        self.max_entries as nat
    }

    /// The latest clock reading the cache has acted on, in nanoseconds
    /// since it was made; later readings are never taken as earlier.
    pub closed spec fn clock(&self) -> u64 {
        self.last_reading
    }

    /// The configured patterns of cacheable tools.
    pub closed spec fn patterns(&self) -> Seq<Seq<char>> {
        self.cacheable_patterns@.map_values(|p: String| p@)
    }

    /// The cache's invariant: no key twice, and never more entries than it
    /// holds (or one, for a capacity of zero).
    pub open spec fn wf(&self) -> bool {
        &&& keys_unique(self.entries_view())
        &&& self.entries_view().len() <= room_limit(self.capacity())
    }

    /// A cache with no entries, keeping results `ttl_seconds` seconds, for
    /// up to `max_entries` entries, of the tools that `patterns` match (or,
    /// with no patterns, of the tools that only read).
    pub fn new(ttl_seconds: u64, max_entries: usize, patterns: Vec<String>) -> (r: Self)
        ensures
            r.wf(),
            r.entries_view().len() == 0,
            r.ttl() == ttl_seconds,
            r.capacity() == max_entries,
            r.patterns() == patterns@.map_values(|p: String| p@),
            r.clock() == 0,
    {
        let r = ToolCache {
            entries: Vec::new(),
            default_ttl_secs: ttl_seconds,
            max_entries,
            cacheable_patterns: patterns,
            origin: instant_now(),
            last_reading: 0,
        };
        proof {
            assert(r.entries_view() =~= Seq::<EntryView>::empty());
        }
        r
    }

    /// Whether results of the named tool are cached.
    pub fn is_cacheable(&self, tool_name: &str) -> (r: bool)
        ensures
            r == cacheable(self.patterns(), tool_name@),
    {
        let ghost pats = self.patterns();
        assert(pats.len() == self.cacheable_patterns.len());
        if self.cacheable_patterns.len() == 0 {
            let prefixes: [&str; 8] = [
                "list_", "get_", "search_", "query_", "describe_", "show_", "count_", "check_",
            ];
            proof {
                assert(prefixes@.map_values(|p: &str| p@) =~= read_prefixes());
            }
            let name = str_chars(tool_name);
            let mut i: usize = 0;
            while i < 8
                invariant
                    i <= 8,
                    pats == self.patterns(),
                    pats.len() == 0,
                    prefixes@.map_values(|p: &str| p@) == read_prefixes(),
                    name@ == tool_name@,
                    forall|j: int| 0 <= j < i ==> !(#[trigger] read_prefixes()[j]).is_prefix_of(tool_name@),
                decreases 8 - i,
            {
                let p = str_chars(prefixes[i]);
                if starts_with(&name, &p) {
                    proof {
                        assert(pats.len() == 0);
                        assert(read_prefixes().len() == 8);
                        assert(read_prefixes()[i as int].is_prefix_of(tool_name@));
                    }
                    return true;
                }
                i = i + 1;
            }
            proof {
                assert(pats.len() == 0);
            }
            false
        } else {
            let mut i: usize = 0;
            while i < self.cacheable_patterns.len()
                invariant
                    i <= self.cacheable_patterns.len(),
                    pats == self.patterns(),
                    pats.len() == self.cacheable_patterns.len(),
                    forall|j: int| 0 <= j < i ==> !pattern_admits(#[trigger] pats[j], tool_name@),
                decreases self.cacheable_patterns.len() - i,
            {
                if glob_pattern_matches(self.cacheable_patterns[i].as_str(), tool_name) {
                    proof {
                        assert(pattern_admits(pats[i as int], tool_name@));
                    }
                    return true;
                }
                i = i + 1;
            }
            false
        }
    }
}

impl ToolCache {
    fn find_key(&self, key: &String) -> (r: Option<usize>)
        requires
            keys_unique(self.entries_view()),
        ensures
            r matches Some(i) ==> key_pos(self.entries_view(), key@) == Some(i as int) && i
                < self.entries.len(),
            r is None ==> key_pos(self.entries_view(), key@) is None,
    {
        let ghost ev = self.entries_view();
        let mut i: usize = 0;
        while i < self.entries.len()
            invariant
                i <= self.entries.len(),
                ev == self.entries_view(),
                ev.len() == self.entries.len(),
                keys_unique(ev),
                forall|j: int| 0 <= j < i ==> ev[j].key != key@,
            decreases self.entries.len() - i,
        {
            if self.entries[i].key == *key {
                proof {
                    assert(ev[i as int].key == key@);
                    let k = key_pos(ev, key@)->0;
                    if k != i {
                        assert(ev[k].key != ev[i as int].key);
                    }
                }
                return Some(i);
            }
            i = i + 1;
        }
        None
    }

    fn is_expired(e: &CacheEntry, now: u64) -> (r: bool)
        ensures
            r == expired(e@, now),
    {
        let age: u64 = if now > e.inserted_at { now - e.inserted_at } else { 0 };
        (age as u128) > (e.ttl_secs as u128) * (NANOS_PER_SEC as u128)
    }

    /// Drops the entries expired at `now`.
    fn remove_expired(&mut self, now: u64)
        requires
            keys_unique(old(self).entries_view()),
        ensures
            keys_unique(final(self).entries_view()),
            final(self).entries_view() == unexpired(old(self).entries_view(), now),
            final(self).ttl() == old(self).ttl(),
            final(self).capacity() == old(self).capacity(),
            final(self).patterns() == old(self).patterns(),
            final(self).clock() == old(self).clock(),
    {
        let ghost orig = self.entries_view();
        let ghost keep = |e: EntryView| !expired(e, now);
        let n = self.entries.len();
        proof {
            assert(orig.take(0) =~= Seq::<EntryView>::empty());
            assert(orig.subrange(0, n as int) =~= orig);
        }
        let mut i: usize = 0;
        let mut k: usize = 0;
        while k < n
            invariant
                k <= n,
                n == orig.len(),
                keep == (|e: EntryView| !expired(e, now)),
                i == keep_where(orig.take(k as int), keep).len(),
                self.entries_view().len() == self.entries.len(),
                self.entries_view() == keep_where(orig.take(k as int), keep) + orig.subrange(
                    k as int,
                    n as int,
                ),
                self.ttl() == old(self).ttl(),
                self.capacity() == old(self).capacity(),
                self.patterns() == old(self).patterns(),
                self.clock() == old(self).clock(),
            decreases n - k,
        {
            let ghost before = self.entries_view();
            proof {
                assert(orig.take(k + 1).drop_last() =~= orig.take(k as int));
                assert(orig.take(k + 1).last() == orig[k as int]);
                assert(before[i as int] == orig[k as int]);
                assert(i < self.entries.len());
            }
            if Self::is_expired(&self.entries[i], now) {
                self.entries.remove(i);
                proof {
                    assert(!keep(orig[k as int]));
                    assert(keep_where(orig.take(k + 1), keep) == keep_where(orig.take(k as int), keep));
                    assert(self.entries_view() =~= before.remove(i as int));
                    assert(self.entries_view() =~= keep_where(orig.take(k + 1), keep) + orig.subrange(
                        k + 1,
                        n as int,
                    ));
                }
            } else {
                proof {
                    assert(keep(orig[k as int]));
                    assert(keep_where(orig.take(k + 1), keep) == keep_where(orig.take(k as int), keep).push(orig[k as int]));
                    assert(self.entries_view() =~= keep_where(orig.take(k + 1), keep) + orig.subrange(
                        k + 1,
                        n as int,
                    ));
                }
                i = i + 1;
            }
            k = k + 1;
        }
        proof {
            assert(orig.take(n as int) =~= orig);
            assert(self.entries_view() =~= keep_where(orig, keep));
            lemma_keep_where_sub(orig, keep);
        }
    }

    /// Drops the first of the oldest entries.
    fn remove_oldest(&mut self)
        requires
            keys_unique(old(self).entries_view()),
            old(self).entries_view().len() > 0,
        ensures
            keys_unique(final(self).entries_view()),
            final(self).entries_view() == old(self).entries_view().remove(
                oldest_index(old(self).entries_view()),
            ),
            final(self).ttl() == old(self).ttl(),
            final(self).capacity() == old(self).capacity(),
            final(self).patterns() == old(self).patterns(),
            final(self).clock() == old(self).clock(),
    {
        let ghost ev = self.entries_view();
        let mut j: usize = 0;
        let mut i: usize = 1;
        while i < self.entries.len()
            invariant
                1 <= i <= self.entries.len(),
                ev == self.entries_view(),
                ev.len() == self.entries.len(),
                j == oldest_index(ev.take(i as int)),
                j < i,
            decreases self.entries.len() - i,
        {
            proof {
                assert(ev.take(i + 1).drop_last() =~= ev.take(i as int));
            }
            if self.entries[i].inserted_at < self.entries[j].inserted_at {
                j = i;
            }
            i = i + 1;
        }
        proof {
            assert(ev.take(i as int) =~= ev);
        }
        self.entries.remove(j);
        proof {
            assert(self.entries_view() =~= ev.remove(j as int));
            assert forall|a: int, b: int|
                0 <= a < self.entries_view().len() && 0 <= b < self.entries_view().len() && a != b
                    implies #[trigger] self.entries_view()[a].key != #[trigger] self.entries_view()[b].key by {
                let a2 = if a < j { a } else { a + 1 };
                let b2 = if b < j { b } else { b + 1 };
                assert(ev[a2].key != ev[b2].key);
            }
        }
    }

    /// Stores the entry under its key, replacing an entry with the same key.
    fn upsert_entry(&mut self, e: CacheEntry)
        requires
            keys_unique(old(self).entries_view()),
        ensures
            keys_unique(final(self).entries_view()),
            final(self).entries_view() == upsert(old(self).entries_view(), e@),
            final(self).ttl() == old(self).ttl(),
            final(self).capacity() == old(self).capacity(),
            final(self).patterns() == old(self).patterns(),
            final(self).clock() == old(self).clock(),
    {
        let ghost ev = self.entries_view();
        let ghost ev_e = e@;
        match self.find_key(&e.key) {
            Some(i) => {
                self.entries.set(i, e);
                proof {
                    assert(self.entries_view() =~= ev.update(i as int, ev_e));
                    assert forall|a: int, b: int|
                        0 <= a < self.entries_view().len() && 0 <= b < self.entries_view().len() && a != b
                            implies #[trigger] self.entries_view()[a].key != #[trigger] self.entries_view()[b].key by {
                        assert(ev[a].key != ev[b].key);
                    }
                }
            },
            None => {
                self.entries.push(e);
                proof {
                    assert(self.entries_view() =~= ev.push(ev_e));
                    assert forall|a: int, b: int|
                        0 <= a < self.entries_view().len() && 0 <= b < self.entries_view().len() && a != b
                            implies #[trigger] self.entries_view()[a].key != #[trigger] self.entries_view()[b].key by {
                        if a < ev.len() && b < ev.len() {
                            assert(ev[a].key != ev[b].key);
                        } else if a < ev.len() {
                            assert(ev[a].key != ev_e.key);
                        } else {
                            assert(ev[b].key != ev_e.key);
                        }
                    }
                }
            },
        }
    }
}

/// Whether the entry with the key, if any, can count one more hit.
pub open spec fn can_hit(entries: Seq<EntryView>, key: Seq<char>) -> bool {
    key_pos(entries, key) matches Some(i) ==> entries[i].hits < u64::MAX
}

impl ToolCache {
    fn lookup_key(&mut self, key: &String, now: u64) -> (r: Option<serde_json::Value>)
        requires
            old(self).wf(),
            can_hit(old(self).entries_view(), key@),
        ensures
            final(self).wf(),
            r == lookup(old(self).entries_view(), key@, now),
            final(self).entries_view() == looked_up(old(self).entries_view(), key@, now),
            final(self).ttl() == old(self).ttl(),
            final(self).capacity() == old(self).capacity(),
            final(self).patterns() == old(self).patterns(),
            final(self).clock() == old(self).clock(),
    {
        let ghost ev = self.entries_view();
        match self.find_key(key) {
            Some(i) => {
                if Self::is_expired(&self.entries[i], now) {
                    self.entries.remove(i);
                    proof {
                        assert(self.entries_view() =~= ev.remove(i as int));
                        assert forall|a: int, b: int|
                            0 <= a < self.entries_view().len() && 0 <= b < self.entries_view().len() && a != b
                                implies #[trigger] self.entries_view()[a].key != #[trigger] self.entries_view()[b].key by {
                            let a2 = if a < i { a } else { a + 1 };
                            let b2 = if b < i { b } else { b + 1 };
                            assert(ev[a2].key != ev[b2].key);
                        }
                    }
                    None
                } else {
                    let hits = self.entries[i].hits;
                    self.entries[i].hits = hits + 1;
                    let v = self.entries[i].value.clone();
                    proof {
                        assert(self.entries_view() =~= ev.update(
                            i as int,
                            EntryView { hits: (ev[i as int].hits + 1) as u64, ..ev[i as int] },
                        ));
                        assert forall|a: int, b: int|
                            0 <= a < self.entries_view().len() && 0 <= b < self.entries_view().len() && a != b
                                implies #[trigger] self.entries_view()[a].key != #[trigger] self.entries_view()[b].key by {
                            assert(ev[a].key != ev[b].key);
                        }
                    }
                    Some(v)
                }
            },
            None => None,
        }
    }

    fn store_key(&mut self, key: String, value: serde_json::Value, now: u64)
        requires
            old(self).wf(),
        ensures
            final(self).wf(),
            final(self).entries_view() == stored(
                old(self).entries_view(),
                old(self).capacity(),
                key@,
                value,
                old(self).ttl(),
                now,
            ),
            final(self).ttl() == old(self).ttl(),
            final(self).capacity() == old(self).capacity(),
            final(self).patterns() == old(self).patterns(),
            final(self).clock() == old(self).clock(),
    {
        let ghost ev = self.entries_view();
        if self.entries.len() >= self.max_entries {
            self.remove_expired(now);
            let ghost live = self.entries_view();
            if self.entries.len() >= self.max_entries && self.entries.len() > 0 {
                self.remove_oldest();
            }
            proof {
                assert(self.entries_view() == make_room(ev, old(self).capacity(), now));
            }
        }
        let entry = CacheEntry {
            key,
            value,
            inserted_at: now,
            ttl_secs: self.default_ttl_secs,
            hits: 0,
        };
        self.upsert_entry(entry);
        proof {
            law_store_respects_capacity(ev, old(self).capacity(), key@, value, old(self).ttl(), now);
        }
    }

    /// Looks up the cached result of a call at time `now` (nanoseconds on
    /// the cache's clock), given the call's arguments as JSON text: a hit is
    /// counted, an expired entry dropped. Tools that are not cached are
    /// never found.
    pub fn get_at(&mut self, tool_name: &str, arguments_json: Option<&str>, now: u64) -> (r: Option<serde_json::Value>)
        requires
            old(self).wf(),
            can_hit(
                old(self).entries_view(),
                cache_key_of(
                    tool_name@,
                    match arguments_json {
                        Some(j) => Some(j@),
                        None => None,
                    },
                ),
            ),
        ensures
            final(self).wf(),
            final(self).ttl() == old(self).ttl(),
            final(self).capacity() == old(self).capacity(),
            final(self).patterns() == old(self).patterns(),
            final(self).clock() == old(self).clock(),
            ({
                let key = cache_key_of(
                    tool_name@,
                    match arguments_json {
                        Some(j) => Some(j@),
                        None => None,
                    },
                );
                if cacheable(old(self).patterns(), tool_name@) {
                    &&& r == lookup(old(self).entries_view(), key, now)
                    &&& final(self).entries_view() == looked_up(old(self).entries_view(), key, now)
                } else {
                    &&& r is None
                    &&& final(self).entries_view() == old(self).entries_view()
                }
            }),
    {
        if !self.is_cacheable(tool_name) {
            return None;
        }
        let key = cache_key(tool_name, arguments_json);
        self.lookup_key(&key, now)
    }

    /// Stores the result of a call at time `now` (nanoseconds on the cache's
    /// clock), given the call's arguments as JSON text, making room first
    /// when the cache is full. Results of tools that are not cached are
    /// dropped.
    pub fn put_at(&mut self, tool_name: &str, arguments_json: Option<&str>, value: serde_json::Value, now: u64)
        requires
            old(self).wf(),
        ensures
            final(self).wf(),
            final(self).ttl() == old(self).ttl(),
            final(self).capacity() == old(self).capacity(),
            final(self).patterns() == old(self).patterns(),
            final(self).clock() == old(self).clock(),
            final(self).entries_view() == if cacheable(old(self).patterns(), tool_name@) {
                stored(
                    old(self).entries_view(),
                    old(self).capacity(),
                    cache_key_of(
                        tool_name@,
                        match arguments_json {
                            Some(j) => Some(j@),
                            None => None,
                        },
                    ),
                    value,
                    old(self).ttl(),
                    now,
                )
            } else {
                old(self).entries_view()
            },
    {
        if !self.is_cacheable(tool_name) {
            return;
        }
        let key = cache_key(tool_name, arguments_json);
        self.store_key(key, value, now);
    }

    /// Reads the clock: the time since the cache was made, never earlier
    /// than the latest reading already acted on.
    fn read_clock(&mut self) -> (r: u64)
        ensures
            r >= old(self).clock(),
            final(self).clock() == r,
            final(self).entries_view() == old(self).entries_view(),
            final(self).ttl() == old(self).ttl(),
            final(self).capacity() == old(self).capacity(),
            final(self).patterns() == old(self).patterns(),
    {
        let reading = nanos_since(&self.origin);
        if reading > self.last_reading {
            self.last_reading = reading;
        }
        self.last_reading
    }

    /// Looks up the cached result of a call now, keyed by the tool name and
    /// the arguments' JSON text. The clock is read first: the reading is
    /// not earlier than any before it, and becomes the cache's `clock`.
    pub fn get(&mut self, tool_name: &str, arguments: &Option<serde_json::Value>) -> (r: Option<serde_json::Value>)
        requires
            old(self).wf(),
            forall|i: int|
                0 <= i < old(self).entries_view().len() ==> (#[trigger] old(self).entries_view()[i]).hits
                    < u64::MAX,
        ensures
            final(self).wf(),
            final(self).ttl() == old(self).ttl(),
            final(self).capacity() == old(self).capacity(),
            final(self).patterns() == old(self).patterns(),
            final(self).clock() >= old(self).clock(),
            !cacheable(old(self).patterns(), tool_name@) ==> r is None && final(self).entries_view()
                == old(self).entries_view(),
            cacheable(old(self).patterns(), tool_name@) ==> r == lookup(
                old(self).entries_view(),
                cache_key_of(tool_name@, arguments_text(*arguments)),
                final(self).clock(),
            ) && final(self).entries_view() == looked_up(
                old(self).entries_view(),
                cache_key_of(tool_name@, arguments_text(*arguments)),
                final(self).clock(),
            ),
    {
        let now = self.read_clock();
        let json = arguments_json(arguments);
        let ghost jv = arguments_text(*arguments);
        let ghost ev = self.entries_view();
        proof {
            let key = cache_key_of(tool_name@, jv);
            if let Some(i) = key_pos(ev, key) {
                assert(ev[i].hits < u64::MAX);
            }
        }
        match &json {
            Some(j) => self.get_at(tool_name, Some(j.as_str()), now),
            None => self.get_at(tool_name, None, now),
        }
    }

    /// Stores the result of a call now, keyed by the tool name and the
    /// arguments' JSON text. The clock is read first, as for `get`.
    pub fn put(&mut self, tool_name: &str, arguments: &Option<serde_json::Value>, value: serde_json::Value)
        requires
            old(self).wf(),
        ensures
            final(self).wf(),
            final(self).ttl() == old(self).ttl(),
            final(self).capacity() == old(self).capacity(),
            final(self).patterns() == old(self).patterns(),
            final(self).clock() >= old(self).clock(),
            !cacheable(old(self).patterns(), tool_name@) ==> final(self).entries_view()
                == old(self).entries_view(),
            cacheable(old(self).patterns(), tool_name@) ==> final(self).entries_view() == stored(
                old(self).entries_view(),
                old(self).capacity(),
                cache_key_of(tool_name@, arguments_text(*arguments)),
                value,
                old(self).ttl(),
                final(self).clock(),
            ),
    {
        let now = self.read_clock();
        let json = arguments_json(arguments);
        match &json {
            Some(j) => self.put_at(tool_name, Some(j.as_str()), value, now),
            None => self.put_at(tool_name, None, value, now),
        };
    }

    /// Drops every cached result of the named tool.
    pub fn invalidate(&mut self, tool_name: &str)
        requires
            old(self).wf(),
        ensures
            final(self).wf(),
            final(self).entries_view() == without_prefix(old(self).entries_view(), tool_name@.push(':')),
            final(self).ttl() == old(self).ttl(),
            final(self).capacity() == old(self).capacity(),
            final(self).patterns() == old(self).patterns(),
            final(self).clock() == old(self).clock(),
    {
        let mut prefix = str_chars(tool_name);
        prefix.push(':');
        let ghost pv = prefix@;
        proof {
            assert(pv =~= tool_name@.push(':'));
        }
        let ghost orig = self.entries_view();
        let ghost keep = |e: EntryView| !pv.is_prefix_of(e.key);
        let n = self.entries.len();
        proof {
            assert(orig.take(0) =~= Seq::<EntryView>::empty());
            assert(orig.subrange(0, n as int) =~= orig);
        }
        let mut i: usize = 0;
        let mut k: usize = 0;
        while k < n
            invariant
                k <= n,
                n == orig.len(),
                pv == prefix@,
                keep == (|e: EntryView| !pv.is_prefix_of(e.key)),
                i == keep_where(orig.take(k as int), keep).len(),
                self.entries_view().len() == self.entries.len(),
                self.entries_view() == keep_where(orig.take(k as int), keep) + orig.subrange(
                    k as int,
                    n as int,
                ),
                self.ttl() == old(self).ttl(),
                self.capacity() == old(self).capacity(),
                self.patterns() == old(self).patterns(),
                self.clock() == old(self).clock(),
            decreases n - k,
        {
            let ghost before = self.entries_view();
            proof {
                assert(orig.take(k + 1).drop_last() =~= orig.take(k as int));
                assert(orig.take(k + 1).last() == orig[k as int]);
                assert(before[i as int] == orig[k as int]);
            }
            let key = str_chars(self.entries[i].key.as_str());
            if starts_with(&key, &prefix) {
                self.entries.remove(i);
                proof {
                    assert(!keep(orig[k as int]));
                    assert(keep_where(orig.take(k + 1), keep) == keep_where(orig.take(k as int), keep));
                    assert(self.entries_view() =~= before.remove(i as int));
                    assert(self.entries_view() =~= keep_where(orig.take(k + 1), keep) + orig.subrange(
                        k + 1,
                        n as int,
                    ));
                }
            } else {
                proof {
                    assert(keep(orig[k as int]));
                    assert(keep_where(orig.take(k + 1), keep) == keep_where(orig.take(k as int), keep).push(orig[k as int]));
                    assert(self.entries_view() =~= keep_where(orig.take(k + 1), keep) + orig.subrange(
                        k + 1,
                        n as int,
                    ));
                }
                i = i + 1;
            }
            k = k + 1;
        }
        proof {
            assert(orig.take(n as int) =~= orig);
            assert(self.entries_view() =~= keep_where(orig, keep));
            lemma_keep_where_sub(orig, keep);
        }
    }

    /// Drops every cached result.
    pub fn invalidate_all(&mut self)
        ensures
            final(self).wf(),
            final(self).entries_view().len() == 0,
            final(self).ttl() == old(self).ttl(),
            final(self).capacity() == old(self).capacity(),
            final(self).patterns() == old(self).patterns(),
            final(self).clock() == old(self).clock(),
    {
        self.entries.clear();
        proof {
            assert(self.entries_view() =~= Seq::<EntryView>::empty());
        }
    }

    /// How many entries there are, how many of them are expired at `now`,
    /// and how many hits they have had together.
    pub fn stats_at(&self, now: u64) -> (r: CacheStats)
        requires
            hits_total(self.entries_view()) <= u64::MAX,
        ensures
            r.total_entries == self.entries_view().len(),
            r.expired_entries == expired_count(self.entries_view(), now),
            r.total_hits == hits_total(self.entries_view()),
    {
        let ghost ev = self.entries_view();
        let mut expired_entries: usize = 0;
        let mut total_hits: u64 = 0;
        let mut i: usize = 0;
        while i < self.entries.len()
            invariant
                i <= self.entries.len(),
                ev == self.entries_view(),
                ev.len() == self.entries.len(),
                hits_total(ev) <= u64::MAX,
                expired_entries == expired_count(ev.take(i as int), now),
                total_hits == hits_total(ev.take(i as int)),
                expired_entries <= i,
            decreases self.entries.len() - i,
        {
            proof {
                assert(ev.take(i + 1).drop_last() =~= ev.take(i as int));
                lemma_hits_total_prefix(ev, i as int + 1);
            }
            if Self::is_expired(&self.entries[i], now) {
                expired_entries = expired_entries + 1;
            }
            total_hits = total_hits + self.entries[i].hits;
            i = i + 1;
        }
        proof {
            assert(ev.take(i as int) =~= ev);
        }
        CacheStats { total_entries: self.entries.len(), expired_entries, total_hits }
    }

    /// The cache's figures now; the clock reading comes from outside.
    pub fn stats(&self) -> (r: CacheStats)
        requires
            hits_total(self.entries_view()) <= u64::MAX,
        ensures
            r.total_entries == self.entries_view().len(),
            r.total_hits == hits_total(self.entries_view()),
            exists|now: u64| now >= self.clock() && r.expired_entries == #[trigger] expired_count(self.entries_view(), now),
    {
        let reading = nanos_since(&self.origin);
        let now = if reading < self.last_reading { self.last_reading } else { reading };
        self.stats_at(now)
    }
}

proof fn lemma_hits_total_prefix(s: Seq<EntryView>, k: int)
    requires
        0 <= k <= s.len(),
    ensures
        hits_total(s.take(k)) <= hits_total(s),
    decreases s.len() - k,
{
    if k < s.len() {
        lemma_hits_total_prefix(s, k + 1);
        assert(s.take(k + 1).drop_last() =~= s.take(k));
    } else {
        assert(s.take(k) =~= s);
    }
}

/// The key of a call: `tool:json` for arguments written as JSON text, or
/// `tool:()` for none.
pub fn cache_key(tool_name: &str, arguments_json: Option<&str>) -> (r: String)
    ensures
        r@ == cache_key_of(
            tool_name@,
            match arguments_json {
                Some(j) => Some(j@),
                None => None,
            },
        ),
{
    let mut key = String::from_str(tool_name);
    push_char(&mut key, ':');
    match arguments_json {
        Some(j) => key.append(j),
        None => {
            push_char(&mut key, '(');
            push_char(&mut key, ')');
        },
    }
    proof {
        assert(key@ =~= cache_key_of(
            tool_name@,
            match arguments_json {
                Some(j) => Some(j@),
                None => None,
            },
        ));
    }
    key
}

/// The arguments of a call as JSON text: what `serde_json` writes, or the
/// empty text where it fails; none when there are no arguments.
pub fn arguments_json(arguments: &Option<serde_json::Value>) -> (r: Option<String>)
    ensures
        string_view(r) == arguments_text(*arguments),
{
    match arguments {
        Some(v) => match to_json_string(v) {
            Ok(text) => Some(text),
            Err(_) => Some(String::new()),
        },
        None => None,
    }
}

} // verus!

verus! {

proof fn lemma_keep_where_complete(entries: Seq<EntryView>, keep: spec_fn(EntryView) -> bool, i: int)
    requires
        0 <= i < entries.len(),
        keep(entries[i]),
    ensures
        keep_where(entries, keep).contains(entries[i]),
    decreases entries.len(),
{
    let d = entries.drop_last();
    if i == entries.len() - 1 {
        let k = keep_where(entries, keep);
        assert(k[k.len() - 1] == entries[i]);
    } else {
        lemma_keep_where_complete(d, keep, i);
        let kd = keep_where(d, keep);
        let j = choose|j: int| 0 <= j < kd.len() && kd[j] == d[i];
        if keep(entries.last()) {
            assert(keep_where(entries, keep)[j] == kd[j]);
        }
    }
}

proof fn lemma_remove_keeps_unique(entries: Seq<EntryView>, i: int)
    requires
        keys_unique(entries),
        0 <= i < entries.len(),
    ensures
        keys_unique(entries.remove(i)),
        forall|j: int| 0 <= j < entries.remove(i).len() ==> entries.contains(#[trigger] entries.remove(i)[j]),
{
    let r = entries.remove(i);
    assert forall|a: int, b: int| 0 <= a < r.len() && 0 <= b < r.len() && a != b implies #[trigger] r[a].key
        != #[trigger] r[b].key by {
        let a2 = if a < i { a } else { a + 1 };
        let b2 = if b < i { b } else { b + 1 };
        assert(entries[a2].key != entries[b2].key);
    }
    assert forall|j: int| 0 <= j < r.len() implies entries.contains(#[trigger] r[j]) by {
        let j2 = if j < i { j } else { j + 1 };
        assert(entries[j2] == r[j]);
    }
}

proof fn lemma_make_room(entries: Seq<EntryView>, max_entries: nat, now: u64)
    requires
        keys_unique(entries),
    ensures
        keys_unique(make_room(entries, max_entries, now)),
        make_room(entries, max_entries, now).len() <= entries.len(),
        entries.len() <= (if max_entries == 0 { 1 } else { max_entries }) ==> make_room(
            entries,
            max_entries,
            now,
        ).len() < (if max_entries == 0 { 1 } else { max_entries }),
{
    if entries.len() >= max_entries {
        let live = unexpired(entries, now);
        lemma_keep_where_sub(entries, |e: EntryView| !expired(e, now));
        if live.len() >= max_entries && live.len() > 0 {
            lemma_oldest_index_in_range(live);
            lemma_remove_keeps_unique(live, oldest_index(live));
        }
    }
}

proof fn lemma_oldest_index_in_range(entries: Seq<EntryView>)
    requires
        entries.len() > 0,
    ensures
        0 <= oldest_index(entries) < entries.len(),
    decreases entries.len(),
{
    if entries.len() > 1 {
        lemma_oldest_index_in_range(entries.drop_last());
    }
}

proof fn lemma_upsert(entries: Seq<EntryView>, e: EntryView)
    requires
        keys_unique(entries),
    ensures
        keys_unique(upsert(entries, e)),
        key_pos(upsert(entries, e), e.key) matches Some(i) && upsert(entries, e)[i] == e,
        upsert(entries, e).len() <= entries.len() + 1,
{
    let u = upsert(entries, e);
    let k = match key_pos(entries, e.key) {
        Some(i) => i,
        None => entries.len() as int,
    };
    assert(0 <= k < u.len() && u[k] == e);
    assert forall|a: int, b: int| 0 <= a < u.len() && 0 <= b < u.len() && a != b implies #[trigger] u[a].key
        != #[trigger] u[b].key by {
        if a != k && b != k {
            assert(entries[a].key != entries[b].key);
        } else if a == k {
            if key_pos(entries, e.key) is None {
                assert(entries[b].key != e.key);
            } else {
                assert(entries[b].key != entries[k].key);
            }
        } else {
            if key_pos(entries, e.key) is None {
                assert(entries[a].key != e.key);
            } else {
                assert(entries[a].key != entries[k].key);
            }
        }
    }
    let p = key_pos(u, e.key)->0;
    assert(0 <= p < u.len() && u[p].key == e.key);
    if p != k {
        assert(u[p].key != u[k].key);
    }
}

/// What is stored can be read back: a result stored under a key is what a
/// lookup of that key answers until its time to live has passed.
pub proof fn law_stored_result_is_found(
    entries: Seq<EntryView>,
    max_entries: nat,
    key: Seq<char>,
    value: serde_json::Value,
    ttl_secs: u64,
    stored_at: u64,
    now: u64,
)
    requires
        keys_unique(entries),
        now - stored_at <= ttl_secs * NANOS_PER_SEC,
    ensures
        lookup(stored(entries, max_entries, key, value, ttl_secs, stored_at), key, now) == Some(value),
{
    lemma_make_room(entries, max_entries, stored_at);
    lemma_upsert(
        make_room(entries, max_entries, stored_at),
        EntryView { key, value, inserted_at: stored_at, ttl_secs, hits: 0 },
    );
}

/// What a lookup answers, said directly: the value of the entry with the
/// key when its age is within its time to live, and nothing otherwise; how
/// often the entry was read before plays no part.
pub proof fn law_lookup_finds_live_entries(entries: Seq<EntryView>, key: Seq<char>, now: u64, i: int)
    requires
        keys_unique(entries),
        0 <= i < entries.len(),
        entries[i].key == key,
    ensures
        now - entries[i].inserted_at <= entries[i].ttl_secs * NANOS_PER_SEC ==> lookup(entries, key, now)
            == Some(entries[i].value),
        now - entries[i].inserted_at > entries[i].ttl_secs * NANOS_PER_SEC ==> lookup(entries, key, now)
            is None,
{
    let k = key_pos(entries, key)->0;
    assert(entries[k].key == key);
    if k != i {
        assert(entries[k].key != entries[i].key);
    }
}

/// A key no entry has is never found.
pub proof fn law_lookup_misses_absent_keys(entries: Seq<EntryView>, key: Seq<char>, now: u64)
    requires
        forall|i: int| 0 <= i < entries.len() ==> entries[i].key != key,
    ensures
        lookup(entries, key, now) is None,
{
}

/// A lookup does not disturb later ones: looking a key up at `now` and
/// again at a later `later` answers the second time what a single lookup
/// at `later` would have answered. A cached result is served as often as
/// it is asked for while it lives.
pub proof fn law_lookup_repeats(entries: Seq<EntryView>, key: Seq<char>, now: u64, later: u64)
    requires
        keys_unique(entries),
        now <= later,
    ensures
        lookup(looked_up(entries, key, now), key, later) == lookup(entries, key, later),
        keys_unique(looked_up(entries, key, now)),
{
    match key_pos(entries, key) {
        Some(i) => {
            assert(entries[i].key == key);
            let after = looked_up(entries, key, now);
            if expired(entries[i], now) {
                assert forall|a: int| 0 <= a < after.len() implies after[a].key != key by {
                    let a2 = if a < i { a } else { a + 1 };
                    assert(after[a] == entries[a2]);
                    if a2 != i {
                        assert(entries[a2].key != entries[i].key);
                    }
                }
                assert forall|a: int, b: int| 0 <= a < after.len() && 0 <= b < after.len() && a != b
                    implies #[trigger] after[a].key != #[trigger] after[b].key by {
                    let a2 = if a < i { a } else { a + 1 };
                    let b2 = if b < i { b } else { b + 1 };
                    assert(entries[a2].key != entries[b2].key);
                }
            } else {
                assert forall|a: int, b: int| 0 <= a < after.len() && 0 <= b < after.len() && a != b
                    implies #[trigger] after[a].key != #[trigger] after[b].key by {
                    assert(entries[a].key != entries[b].key);
                }
                law_lookup_finds_live_entries(after, key, later, i);
                law_lookup_finds_live_entries(entries, key, later, i);
            }
        },
        None => {},
    }
}

/// Storing never grows the cache past its capacity (or past one entry, for
/// a capacity of zero): a full cache makes room first.
pub proof fn law_store_respects_capacity(
    entries: Seq<EntryView>,
    max_entries: nat,
    key: Seq<char>,
    value: serde_json::Value,
    ttl_secs: u64,
    now: u64,
)
    requires
        keys_unique(entries),
        entries.len() <= room_limit(max_entries),
    ensures
        stored(entries, max_entries, key, value, ttl_secs, now).len() <= room_limit(max_entries),
{
    lemma_make_room(entries, max_entries, now);
    lemma_upsert(
        make_room(entries, max_entries, now),
        EntryView { key, value, inserted_at: now, ttl_secs, hits: 0 },
    );
}

/// After a tool is invalidated no call of it is found, whatever its
/// arguments, while the entries of every other key stay.
pub proof fn law_invalidate_forgets_tool(
    entries: Seq<EntryView>,
    tool: Seq<char>,
    arguments_json: Option<Seq<char>>,
    now: u64,
)
    requires
        keys_unique(entries),
    ensures
        lookup(without_prefix(entries, tool.push(':')), cache_key_of(tool, arguments_json), now) is None,
        forall|i: int|
            0 <= i < entries.len() && !tool.push(':').is_prefix_of(#[trigger] entries[i].key)
                ==> without_prefix(entries, tool.push(':')).contains(entries[i]),
{
    let prefix = tool.push(':');
    let keep = |e: EntryView| !prefix.is_prefix_of(e.key);
    let w = without_prefix(entries, prefix);
    lemma_keep_where_sub(entries, keep);
    let key = cache_key_of(tool, arguments_json);
    assert(prefix.is_prefix_of(key)) by {
        assert(key.subrange(0, prefix.len() as int) =~= prefix);
    }
    if let Some(i) = key_pos(w, key) {
        assert(keep(w[i]));
    }
    assert forall|i: int| 0 <= i < entries.len() && !prefix.is_prefix_of(#[trigger] entries[i].key) implies w.contains(
        entries[i],
    ) by {
        lemma_keep_where_complete(entries, keep, i);
    }
}

} // verus!
