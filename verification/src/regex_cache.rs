//! Compiled regular expressions, cached by pattern.
//!
//! Compiling a pattern costs far more than matching with it, so each distinct pattern is compiled
//! once per case class and kept. The two case classes are separate maps, each bounded by
//! [`MAX_CACHED_REGEXES`]: on reaching the bound a batch of entries leaves, not the whole map, so a
//! working set just over the bound keeps most of its compiled patterns.

use regex::Regex;
use std::sync::Arc;
use vstd::prelude::*;

verus! {

/// Ceiling on distinct cached patterns per case class.
pub const MAX_CACHED_REGEXES: usize = 1024;

/// How many entries a single overflow evicts.
pub const EVICTION_BATCH: usize = 256;

/// `regex::Regex`, opaque: contracts speak of it through [`regex_source`].
#[verifier::external_type_specification]
#[verifier::external_body]
pub struct ExRegex(regex::Regex);

/// `papaya::HashMap`, opaque: contracts speak of it through [`cached_sources`].
#[verifier::external_type_specification]
#[verifier::external_body]
#[verifier::reject_recursive_types(K)]
#[verifier::reject_recursive_types(V)]
#[verifier::reject_recursive_types(S)]
pub struct ExConcurrentMap<K, V, S>(papaya::HashMap<K, V, S>);

/// `foldhash::fast::RandomState`, opaque.
#[verifier::external_type_specification]
#[verifier::external_body]
pub struct ExRandomState(foldhash::fast::RandomState);

/// The map a case class is cached in.
pub type CacheMap = papaya::HashMap<String, Arc<Regex>, foldhash::fast::RandomState>;

/// The pattern a regex was compiled from, and whether it ignores case.
pub uninterp spec fn regex_source(re: regex::Regex) -> (Seq<char>, bool);

/// Whether `regex::RegexBuilder` compiles the pattern.
pub uninterp spec fn regex_compiles(pattern: Seq<char>, case_insensitive: bool) -> bool;

/// Whether the pattern matches somewhere in the text.
pub uninterp spec fn regex_found(
    pattern: Seq<char>,
    case_insensitive: bool,
    haystack: Seq<char>,
) -> bool;

/// The text with every match of the pattern taken out.
pub uninterp spec fn regex_erased(
    pattern: Seq<char>,
    case_insensitive: bool,
    haystack: Seq<char>,
) -> Seq<char>;

/// What a cache map holds: each key with the source of the regex under it.
pub uninterp spec fn cached_sources(m: CacheMap) -> Map<Seq<char>, (Seq<char>, bool)>;

/// A map that holds nothing.
pub open spec fn no_sources() -> Map<Seq<char>, (Seq<char>, bool)> {
    Map::empty()
}

/// Compiles a pattern with `regex::RegexBuilder::build`, dropping the reason of a failure. Whether
/// it compiles is a function of the pattern and the case flag.
#[verifier::external_body]
fn compile(pattern: &str, case_insensitive: bool) -> (r: Option<Regex>)
    ensures
        (match r {
            Some(re) => regex_compiles(pattern@, case_insensitive) && regex_source(re) == (
                pattern@,
                case_insensitive,
            ),
            None => !regex_compiles(pattern@, case_insensitive),
        }),
{
    regex::RegexBuilder::new(pattern).case_insensitive(case_insensitive).build().ok()
}

/// `regex::Regex::is_match`: whether the pattern the regex was compiled from matches somewhere in
/// the text, a function of the pattern, the case flag and the text.
#[verifier::external_body]
pub(crate) fn found(re: &Regex, haystack: &str) -> (r: bool)
    ensures
        r == regex_found(regex_source(*re).0, regex_source(*re).1, haystack@),
{
    re.is_match(haystack)
}

/// `regex::Regex::replace_all` with an empty replacement: a function of the pattern, the case flag
/// and the text.
#[verifier::external_body]
pub(crate) fn erase(re: &Regex, haystack: &str) -> (r: String)
    ensures
        r@ == regex_erased(regex_source(*re).0, regex_source(*re).1, haystack@),
{
    re.replace_all(haystack, "").into_owned()
}

/// `papaya::HashMap::with_hasher`: a map without entries.
#[verifier::external_body]
fn new_cache_map() -> (m: CacheMap)
    ensures
        cached_sources(m) == no_sources(),
{
    papaya::HashMap::with_hasher(foldhash::fast::RandomState::default())
}

/// `papaya::HashMapRef::get`: the regex under the key, where there is one.
#[verifier::external_body]
fn cache_get(m: &CacheMap, key: &str) -> (r: Option<Arc<Regex>>)
    ensures
        (match r {
            Some(re) => cached_sources(*m).dom().contains(key@) && cached_sources(*m)[key@]
                == regex_source(*re),
            None => !cached_sources(*m).dom().contains(key@),
        }),
{
    m.pin().get(key).map(Arc::clone)
}

/// `papaya::HashMapRef::len`: how many keys the map holds.
#[verifier::external_body]
fn cache_len(m: &CacheMap) -> (n: usize)
    ensures
        n == cached_sources(*m).dom().len(),
{
    m.pin().len()
}

/// `papaya::HashMapRef::keys`: every key, each once, in no particular order.
#[verifier::external_body]
fn cache_keys(m: &CacheMap) -> (keys: Vec<String>)
    ensures
        forall|i: int|
            0 <= i < keys@.len() ==> cached_sources(*m).dom().contains((#[trigger] keys@[i])@),
        forall|i: int, j: int| 0 <= i < j < keys@.len() ==> keys@[i]@ != keys@[j]@,
        keys@.len() == cached_sources(*m).dom().len(),
{
    m.pin().keys().cloned().collect()
}

/// `papaya::HashMapRef::remove`: the key leaves the map.
#[verifier::external_body]
fn cache_remove(m: &mut CacheMap, key: &str)
    ensures
        cached_sources(*final(m)) == cached_sources(*old(m)).remove(key@),
{
    m.pin().remove(key);
}

/// `papaya::HashMapRef::get_or_insert`: the value that stood under the key stays and comes back;
/// where none did, the value given goes in and comes back.
#[verifier::external_body]
fn cache_get_or_insert(m: &mut CacheMap, key: String, value: Arc<Regex>) -> (r: Arc<Regex>)
    ensures
        cached_sources(*old(m)).dom().contains(key@) ==> cached_sources(*final(m))
            == cached_sources(*old(m)) && regex_source(*r) == cached_sources(*old(m))[key@],
        !cached_sources(*old(m)).dom().contains(key@) ==> cached_sources(*final(m))
            == cached_sources(*old(m)).insert(key@, regex_source(*value)) && regex_source(*r)
            == regex_source(*value),
{
    Arc::clone(m.pin().get_or_insert(key, value))
}

/// Every key is a pattern that compiles, and its regex was compiled from it in this case class.
pub open spec fn sources_fit(
    sources: Map<Seq<char>, (Seq<char>, bool)>,
    case_insensitive: bool,
) -> bool {
    forall|k: Seq<char>| #[trigger]
        sources.dom().contains(k) ==> sources[k] == (k, case_insensitive) && regex_compiles(
            k,
            case_insensitive,
        )
}

/// What a lookup does to a class's map. A hit, and a pattern that does not compile, leave it as it
/// was. A miss puts the pattern in; at the ceiling, a batch of entries leaves first.
pub open spec fn fetch_effect(
    before: Map<Seq<char>, (Seq<char>, bool)>,
    after: Map<Seq<char>, (Seq<char>, bool)>,
    pattern: Seq<char>,
    case_insensitive: bool,
) -> bool {
    if before.dom().contains(pattern) || !regex_compiles(pattern, case_insensitive) {
        after == before
    } else if before.dom().len() < MAX_CACHED_REGEXES {
        after == before.insert(pattern, (pattern, case_insensitive))
    } else {
        &&& after.dom().contains(pattern)
        &&& after.dom().subset_of(before.dom().insert(pattern))
        &&& after.dom().len() == before.dom().len() - EVICTION_BATCH + 1
    }
}

/// Compiled patterns, one bounded map per case class.
pub struct RegexCache {
    sensitive: CacheMap,
    insensitive: CacheMap,
}

impl RegexCache {
    /// What a case class holds.
    pub closed spec fn sources(&self, case_insensitive: bool) -> Map<Seq<char>, (Seq<char>, bool)> {
        if case_insensitive {
            cached_sources(self.insensitive)
        } else {
            cached_sources(self.sensitive)
        }
    }

    /// Entries fit their class, and neither class is over its ceiling.
    pub open spec fn wf(&self) -> bool {
        &&& sources_fit(self.sources(true), true)
        &&& sources_fit(self.sources(false), false)
        &&& self.sources(true).dom().finite()
        &&& self.sources(false).dom().finite()
        &&& self.sources(true).dom().len() <= MAX_CACHED_REGEXES
        &&& self.sources(false).dom().len() <= MAX_CACHED_REGEXES
    }

    /// An empty cache.
    pub fn new() -> (c: Self)
        ensures
            c.wf(),
            c.sources(true) == no_sources(),
            c.sources(false) == no_sources(),
    {
        RegexCache { sensitive: new_cache_map(), insensitive: new_cache_map() }
    }

    /// The compiled regex for `pattern`, compiling and caching it on first use.
    ///
    /// The case flag is part of the key. `None` exactly where the pattern does not compile. A hit,
    /// and a pattern that does not compile, leave the cache as it was.
    pub fn cached_regex(&mut self, pattern: &str, case_insensitive: bool) -> (r: Option<Arc<Regex>>)
        requires
            old(self).wf(),
        ensures
            final(self).wf(),
            r is Some == regex_compiles(pattern@, case_insensitive),
            r is Some ==> regex_source(*r->0) == (pattern@, case_insensitive),
            final(self).sources(!case_insensitive) == old(self).sources(!case_insensitive),
            fetch_effect(
                old(self).sources(case_insensitive),
                final(self).sources(case_insensitive),
                pattern@,
                case_insensitive,
            ),
    {
        if case_insensitive {
            fetch(&mut self.insensitive, pattern, true)
        } else {
            fetch(&mut self.sensitive, pattern, false)
        }
    }

    /// How many patterns of a case class are cached.
    pub fn cached_len(&self, case_insensitive: bool) -> (n: usize)
        ensures
            n == self.sources(case_insensitive).dom().len(),
    {
        if case_insensitive {
            cache_len(&self.insensitive)
        } else {
            cache_len(&self.sensitive)
        }
    }

    /// Whether a pattern is cached in a case class. Never compiles.
    pub fn is_cached(&self, pattern: &str, case_insensitive: bool) -> (r: bool)
        ensures
            r == self.sources(case_insensitive).dom().contains(pattern@),
    {
        if case_insensitive {
            cache_get(&self.insensitive, pattern).is_some()
        } else {
            cache_get(&self.sensitive, pattern).is_some()
        }
    }
}

/// Looks a pattern up in one class's map, compiling, evicting and inserting on a miss.
fn fetch(m: &mut CacheMap, pattern: &str, case_insensitive: bool) -> (r: Option<Arc<Regex>>)
    requires
        sources_fit(cached_sources(*old(m)), case_insensitive),
        cached_sources(*old(m)).dom().finite(),
        cached_sources(*old(m)).dom().len() <= MAX_CACHED_REGEXES,
    ensures
        sources_fit(cached_sources(*final(m)), case_insensitive),
        cached_sources(*final(m)).dom().finite(),
        cached_sources(*final(m)).dom().len() <= MAX_CACHED_REGEXES,
        r is Some == regex_compiles(pattern@, case_insensitive),
        r is Some ==> regex_source(*r->0) == (pattern@, case_insensitive),
        fetch_effect(
            cached_sources(*old(m)),
            cached_sources(*final(m)),
            pattern@,
            case_insensitive,
        ),
{
    if let Some(re) = cache_get(m, pattern) {
        return Some(re);
    }
    let compiled: Arc<Regex> = match compile(pattern, case_insensitive) {
        Some(re) => Arc::new(re),
        None => {
            return None;
        },
    };
    let ghost before = cached_sources(*m);
    if cache_len(m) >= MAX_CACHED_REGEXES {
        let victims: Vec<String> = cache_keys(m);
        let mut i: usize = 0;
        while i < EVICTION_BATCH
            invariant
                i <= EVICTION_BATCH,
                before.dom().finite(),
                victims@.len() == before.dom().len() == MAX_CACHED_REGEXES,
                forall|k: int|
                    0 <= k < victims@.len() ==> before.dom().contains((#[trigger] victims@[k])@),
                forall|k: int, l: int|
                    0 <= k < l < victims@.len() ==> victims@[k]@ != victims@[l]@,
                !before.dom().contains(pattern@),
                sources_fit(before, case_insensitive),
                cached_sources(*m).dom().finite(),
                cached_sources(*m).dom().len() == MAX_CACHED_REGEXES - i,
                cached_sources(*m).dom().subset_of(before.dom()),
                sources_fit(cached_sources(*m), case_insensitive),
                forall|k: int|
                    i <= k < victims@.len() ==> cached_sources(*m).dom().contains(
                        (#[trigger] victims@[k])@,
                    ),
            decreases EVICTION_BATCH - i,
        {
            cache_remove(m, victims[i].as_str());
            i += 1;
        }
    }
    Some(cache_get_or_insert(m, pattern.to_owned(), compiled))
}

/// A fetched pattern is cached afterwards, and the map stays within its ceiling.
pub proof fn law_fetch_keeps_the_bound(
    before: Map<Seq<char>, (Seq<char>, bool)>,
    after: Map<Seq<char>, (Seq<char>, bool)>,
    pattern: Seq<char>,
    case_insensitive: bool,
)
    requires
        before.dom().finite(),
        before.dom().len() <= MAX_CACHED_REGEXES,
        fetch_effect(before, after, pattern, case_insensitive),
    ensures
        after.dom().len() <= MAX_CACHED_REGEXES,
        regex_compiles(pattern, case_insensitive) ==> after.dom().contains(pattern),
{
}

/// Fetching a pattern twice changes nothing the second time.
pub proof fn law_second_fetch_is_a_hit(
    before: Map<Seq<char>, (Seq<char>, bool)>,
    once: Map<Seq<char>, (Seq<char>, bool)>,
    twice: Map<Seq<char>, (Seq<char>, bool)>,
    pattern: Seq<char>,
    case_insensitive: bool,
)
    requires
        fetch_effect(before, once, pattern, case_insensitive),
        fetch_effect(once, twice, pattern, case_insensitive),
    ensures
        twice == once,
{
}

/// A pattern that is there, or that does not compile, changes nothing of the cache. A new one is put
/// in, and below the ceiling nothing leaves for it; at the ceiling nothing else comes in.
pub proof fn law_only_new_patterns_change_the_cache(
    before: Map<Seq<char>, (Seq<char>, bool)>,
    after: Map<Seq<char>, (Seq<char>, bool)>,
    pattern: Seq<char>,
    other: Seq<char>,
    case_insensitive: bool,
)
    requires
        fetch_effect(before, after, pattern, case_insensitive),
        other != pattern,
    ensures
        before.dom().contains(pattern) ==> after == before,
        !regex_compiles(pattern, case_insensitive) ==> after == before,
        !before.dom().contains(pattern) && regex_compiles(pattern, case_insensitive)
            ==> after.dom().contains(pattern),
        before.dom().len() < MAX_CACHED_REGEXES && before.dom().contains(other)
            ==> after.dom().contains(other) && after[other] == before[other],
        !before.dom().contains(other) ==> !after.dom().contains(other),
{
}

} // verus!
