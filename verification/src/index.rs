//! The fuzzy index: a compact, read-only map from the canonical and folded
//! forms of the words to their indices, searched with an edit-distance
//! automaton.
//!
//! The map is an `fst::Map` and the automaton an `fst::automaton::Levenshtein`.
//! The library builds the map itself, from entries in key order, so that it
//! only ever reads a map that the map's own builder wrote. What this module
//! takes on trust of the two is said above each item that rests on it;
//! everything else is proved from those statements.

use crate::error::DictionaryError;
use fst::automaton::Levenshtein;
use fst::automaton::LevenshteinError;
use vstd::prelude::*;
use vstd::string::StringSliceAdditionalSpecFns;
use vstd::utf8::encode_utf8;

verus! {

/// `fst::Map`, opaque: the library sees nothing inside it.
#[verifier::external_type_specification]
#[verifier::external_body]
#[verifier::reject_recursive_types(D)]
pub struct ExMap<D>(fst::Map<D>);

/// `fst::automaton::Levenshtein`, opaque.
#[verifier::external_type_specification]
#[verifier::external_body]
pub struct ExLevenshtein(Levenshtein);

/// `fst::automaton::LevenshteinError`, opaque.
#[verifier::external_type_specification]
#[verifier::external_body]
pub struct ExLevenshteinError(LevenshteinError);

/// `fst::Error`, opaque.
#[verifier::external_type_specification]
#[verifier::external_body]
pub struct ExFstError(fst::Error);

/// A running search: an `fst::map::Stream` over the keys that an automaton
/// accepts. It hands out the index of each matching entry, in key order.
#[verifier::external_body]
pub struct MatchStream<'m> {
    inner: fst::map::Stream<'m, Levenshtein>,
}

/// One entry of the index: a key, as bytes, and the index of its word.
pub type IndexEntry = (Seq<u8>, u64);

/// The largest edit distance that a search may ask for.
pub const MAX_DISTANCE: u8 = 2;

/// Whether a map was written by the builder of its own crate, from entries
/// in key order. Only of such a map is anything claimed.
pub uninterp spec fn index_built(map: fst::Map<Vec<u8>>) -> bool;

/// The entries that a map holds, in the byte order of their keys.
pub uninterp spec fn index_entries(map: fst::Map<Vec<u8>>) -> Seq<IndexEntry>;

/// The keys that the automaton for `query` and `distance` accepts, where one
/// can be built: `None` where it would have too many states.
pub uninterp spec fn levenshtein_keys(query: Seq<char>, distance: u32) -> Option<Set<Seq<u8>>>;

/// The keys that an automaton accepts.
pub uninterp spec fn accepted_keys(automaton: Levenshtein) -> Set<Seq<u8>>;

/// The indices that a stream has yet to hand out, in order.
pub uninterp spec fn stream_rest(stream: MatchStream) -> Seq<u64>;

/// A list of entries as plain values.
pub open spec fn entry_views(entries: Seq<(Vec<u8>, u64)>) -> Seq<IndexEntry> {
    entries.map_values(|e: (Vec<u8>, u64)| (e.0@, e.1))
}

/// Whether key `a` stands before key `b` in byte order: at the first place
/// where they differ `a` has the smaller byte, or `a` ends there and `b`
/// goes on.
pub open spec fn key_before(a: Seq<u8>, b: Seq<u8>) -> bool
    decreases a.len(),
{
    if b.len() == 0 {
        false
    } else if a.len() == 0 {
        true
    } else if a[0] != b[0] {
        a[0] < b[0]
    } else {
        key_before(a.skip(1), b.skip(1))
    }
}

/// Whether the keys of `entries` ascend strictly: each stands before the next.
pub open spec fn keys_ascending(entries: Seq<IndexEntry>) -> bool {
    forall|i: int|
        0 <= i < entries.len() - 1 ==> key_before((#[trigger] entries[i]).0, entries[i + 1].0)
}

/// The word indices of `entries`, in order.
pub open spec fn entry_values(entries: Seq<IndexEntry>) -> Seq<u64> {
    entries.map_values(|e: IndexEntry| e.1)
}

/// Whether `entries` holds an entry under `key`.
pub open spec fn has_key(entries: Seq<IndexEntry>, key: Seq<u8>) -> bool {
    exists|i: int| 0 <= i < entries.len() && (#[trigger] entries[i]).0 == key
}

/// The entries whose key is one of `keys`, in the order of the entries.
pub open spec fn accepted_entries(entries: Seq<IndexEntry>, keys: Set<Seq<u8>>) -> Seq<IndexEntry> {
    entries.filter(|e: IndexEntry| keys.contains(e.0))
}

/// The word indices of the entries whose key is one of `keys`, in the order
/// of the entries.
pub open spec fn search_hits(entries: Seq<IndexEntry>, keys: Set<Seq<u8>>) -> Seq<u64> {
    entry_values(accepted_entries(entries, keys))
}

/// The keys that a search for `query` within `distance` accepts, where its
/// automaton can be built. At distance 0 that is the query itself, and
/// nothing else.
pub open spec fn automaton_language(query: Seq<char>, distance: u32) -> Option<Set<Seq<u8>>> {
    match levenshtein_keys(query, distance) {
        None => None,
        Some(keys) => Some(
            if distance == 0 {
                set![encode_utf8(query)]
            } else {
                keys
            },
        ),
    }
}

/// What a search of `entries` for `query` within `distance` finds: the word
/// indices of the accepted entries in key order, or `None` where the distance
/// is beyond [`MAX_DISTANCE`] or the automaton cannot be built.
pub open spec fn fuzzy_hits(entries: Seq<IndexEntry>, query: Seq<char>, distance: u8) -> Option<
    Seq<u64>,
> {
    if distance > MAX_DISTANCE {
        None
    } else {
        match automaton_language(query, distance as u32) {
            None => None,
            Some(keys) => Some(search_hits(entries, keys)),
        }
    }
}

/// Every entry under `key` names the word `index`, and there is such an entry.
pub open spec fn key_names(entries: Seq<IndexEntry>, key: Seq<u8>, index: u64) -> bool {
    &&& has_key(entries, key)
    &&& forall|i: int|
        0 <= i < entries.len() && (#[trigger] entries[i]).0 == key ==> entries[i].1 == index
}

/// No key stands before itself.
pub proof fn key_before_is_strict(a: Seq<u8>)
    ensures
        !key_before(a, a),
    decreases a.len(),
{
    if a.len() > 0 {
        key_before_is_strict(a.skip(1));
    }
}

/// A key that stands before a second, which stands before a third, stands
/// before the third.
pub proof fn key_before_is_transitive(a: Seq<u8>, b: Seq<u8>, c: Seq<u8>)
    requires
        key_before(a, b),
        key_before(b, c),
    ensures
        key_before(a, c),
    decreases a.len(),
{
    if a.len() > 0 && a[0] == b[0] && b[0] == c[0] {
        key_before_is_transitive(a.skip(1), b.skip(1), c.skip(1));
    }
}

/// Where the keys ascend, every entry stands before every later one.
pub proof fn ascending_keys_are_ordered(entries: Seq<IndexEntry>, i: int, j: int)
    requires
        keys_ascending(entries),
        0 <= i < j < entries.len(),
    ensures
        key_before(entries[i].0, entries[j].0),
    decreases j - i,
{
    if i + 1 < j {
        ascending_keys_are_ordered(entries, i, j - 1);
        assert(key_before(entries[j - 1].0, entries[j - 1 + 1].0));
        key_before_is_transitive(entries[i].0, entries[j - 1].0, entries[j].0);
    } else {
        assert(key_before(entries[i].0, entries[i + 1].0));
    }
}

/// Where the keys ascend, no key stands twice: an entry under a key is the
/// only one under it.
pub proof fn ascending_keys_are_unique(entries: Seq<IndexEntry>, i: int)
    requires
        keys_ascending(entries),
        0 <= i < entries.len(),
    ensures
        key_names(entries, entries[i].0, entries[i].1),
{
    assert forall|j: int| 0 <= j < entries.len() && (#[trigger] entries[j]).0 == entries[i].0 implies entries[j].1
        == entries[i].1 by {
        key_before_is_strict(entries[i].0);
        if j < i {
            ascending_keys_are_ordered(entries, j, i);
        } else if i < j {
            ascending_keys_are_ordered(entries, i, j);
        }
    }
}

/// What a filter keeps stood in the sequence it was taken from.
proof fn kept_entries_are_entries(entries: Seq<IndexEntry>, pred: spec_fn(IndexEntry) -> bool)
    ensures
        forall|e: IndexEntry| #[trigger] entries.filter(pred).contains(e) ==> entries.contains(e),
    decreases entries.len(),
{
    reveal(Seq::filter);
    if entries.len() > 0 {
        let init = entries.drop_last();
        kept_entries_are_entries(init, pred);
        assert forall|e: IndexEntry| #[trigger] entries.filter(pred).contains(e) implies entries.contains(
            e,
        ) by {
            let kept = entries.filter(pred);
            let i = choose|i: int| 0 <= i < kept.len() && kept[i] == e;
            if i < init.filter(pred).len() {
                assert(init.filter(pred)[i] == e);
                assert(init.filter(pred).contains(e));
                let j = choose|j: int| 0 <= j < init.len() && init[j] == e;
                assert(entries[j] == e);
            } else {
                assert(entries[entries.len() - 1] == e);
            }
        }
    }
}

/// Whether an entry of `entries` names the word `index` under one of `keys`.
pub open spec fn named_under(entries: Seq<IndexEntry>, keys: Set<Seq<u8>>, index: u64) -> bool {
    exists|e: int|
        0 <= e < entries.len() && (#[trigger] entries[e]).1 == index && keys.contains(entries[e].0)
}

/// Every hit of a search is the word index of an entry whose key the search
/// accepts.
pub proof fn hits_come_from_accepted_entries(entries: Seq<IndexEntry>, keys: Set<Seq<u8>>)
    ensures
        forall|n: int|
            0 <= n < search_hits(entries, keys).len() ==> named_under(
                entries,
                keys,
                #[trigger] search_hits(entries, keys)[n],
            ),
{
    broadcast use vstd::seq_lib::group_filter_ensures;

    let pred = |e: IndexEntry| keys.contains(e.0);
    let kept = accepted_entries(entries, keys);
    kept_entries_are_entries(entries, pred);
    assert forall|n: int| 0 <= n < search_hits(entries, keys).len() implies named_under(
        entries,
        keys,
        #[trigger] search_hits(entries, keys)[n],
    ) by {
        assert(kept.contains(kept[n]));
        assert(pred(kept[n]));
        let e = choose|e: int| 0 <= e < entries.len() && entries[e] == kept[n];
        assert(entries[e].1 == search_hits(entries, keys)[n]);
    }
}

/// A search that accepts the one key `key` finds something where the index
/// has an entry under the key.
pub proof fn hits_where_key(entries: Seq<IndexEntry>, key: Seq<u8>)
    requires
        has_key(entries, key),
    ensures
        search_hits(entries, set![key]).len() > 0,
{
    broadcast use vstd::seq_lib::group_filter_ensures;

    let pred = |e: IndexEntry| set![key].contains(e.0);
    let kept = entries.filter(pred);
    let i = choose|i: int| 0 <= i < entries.len() && (#[trigger] entries[i]).0 == key;
    assert(pred(entries[i]));
    assert(kept.contains(entries[i]));
}

/// A search that accepts the one key `key` finds the word that the key names,
/// and finds it first.
pub proof fn hits_under_key(entries: Seq<IndexEntry>, key: Seq<u8>, index: u64)
    requires
        key_names(entries, key, index),
    ensures
        search_hits(entries, set![key]).len() > 0,
        search_hits(entries, set![key])[0] == index,
{
    hits_where_key(entries, key);
    hits_come_from_accepted_entries(entries, set![key]);
}

/// A search that accepts the one key `key` finds nothing in an index that has
/// no entry under it.
pub proof fn no_hits_without_key(entries: Seq<IndexEntry>, key: Seq<u8>)
    requires
        !has_key(entries, key),
    ensures
        search_hits(entries, set![key]).len() == 0,
{
    hits_come_from_accepted_entries(entries, set![key]);
    if search_hits(entries, set![key]).len() > 0 {
        assert(named_under(entries, set![key], search_hits(entries, set![key])[0]));
    }
}

/// `fst::Map::from_iter`. Trusted: it makes a map exactly where the keys
/// handed in ascend strictly in byte order; the map is then one that the
/// builder wrote, and it holds the entries handed in.
#[verifier::external_body]
fn index_from_entries(entries: Vec<(Vec<u8>, u64)>) -> (r: Result<fst::Map<Vec<u8>>, fst::Error>)
    ensures
        r is Ok <==> keys_ascending(entry_views(entries@)),
        r matches Ok(map) ==> index_built(map) && index_entries(map) == entry_views(entries@),
{
    fst::Map::from_iter(entries)
}

/// `fst::Map::contains_key`. Trusted: of a map that the builder wrote, the
/// result says whether an entry stands under the bytes of `key`.
#[verifier::external_body]
fn index_contains_key(map: &fst::Map<Vec<u8>>, key: &str) -> (r: bool)
    requires
        index_built(*map),
    ensures
        r == has_key(index_entries(*map), key.spec_bytes()),
{
    map.contains_key(key)
}

/// `fst::Map::get`. Trusted: of a map that the builder wrote, the result is
/// the value of an entry under the bytes of `key`, if there is one.
#[verifier::external_body]
fn index_get(map: &fst::Map<Vec<u8>>, key: &str) -> (r: Option<u64>)
    requires
        index_built(*map),
    ensures
        r is Some <==> has_key(index_entries(*map), key.spec_bytes()),
        r matches Some(value) ==> index_entries(*map).contains((key.spec_bytes(), value)),
{
    map.get(key)
}

/// `fst::automaton::Levenshtein::new`. Trusted: whether an automaton is built,
/// and which keys it accepts, depends on the query and the distance alone; an
/// automaton built for distance 0 accepts the bytes of the query and no other
/// key.
#[verifier::external_body]
fn levenshtein_new(query: &str, distance: u32) -> (r: Result<Levenshtein, LevenshteinError>)
    requires
        distance + 2 <= u32::MAX,
    ensures
        r is Ok <==> levenshtein_keys(query@, distance) is Some,
        r matches Ok(automaton) ==> automaton_language(query@, distance) == Some(
            accepted_keys(automaton),
        ),
{
    Levenshtein::new(query, distance)
}

/// `fst::Map::search`, made into a stream. Trusted: of a map that the builder
/// wrote, the stream will hand out the values of the entries whose key the
/// automaton accepts, in key order.
#[verifier::external_body]
fn index_search<'m>(map: &'m fst::Map<Vec<u8>>, automaton: Levenshtein) -> (r: MatchStream<'m>)
    requires
        index_built(*map),
    ensures
        stream_rest(r) == search_hits(index_entries(*map), accepted_keys(automaton)),
{
    MatchStream { inner: fst::IntoStreamer::into_stream(map.search(automaton)) }
}

/// `fst::Streamer::next`, keeping the value. Trusted: it hands out the first
/// of the indices that the stream had left and leaves the others; of a stream
/// with nothing left it hands out nothing.
#[verifier::external_body]
fn stream_next(stream: &mut MatchStream) -> (r: Option<u64>)
    ensures
        stream_rest(*old(stream)).len() == 0 ==> r is None && stream_rest(*final(stream))
            == stream_rest(*old(stream)),
        stream_rest(*old(stream)).len() > 0 ==> r == Some(stream_rest(*old(stream))[0])
            && stream_rest(*final(stream)) == stream_rest(*old(stream)).skip(1),
{
    fst::Streamer::next(&mut stream.inner).map(|(_, value)| value)
}

impl<'m> MatchStream<'m> {
    /// The indices still to come, in order.
    pub open spec fn rest(&self) -> Seq<u64> {
        stream_rest(*self)
    }

    /// Takes the next index off the stream, if one is left.
    pub fn next(&mut self) -> (r: Option<u64>)
        ensures
            r == if old(self).rest().len() > 0 {
                Some(old(self).rest()[0])
            } else {
                None
            },
            final(self).rest() == if old(self).rest().len() > 0 {
                old(self).rest().skip(1)
            } else {
                old(self).rest()
            },
    {
        stream_next(self)
    }
}

/// The fuzzy index itself. It is read-only: nothing is inserted, changed or
/// removed once it is made.
#[derive(Debug)]
pub struct FuzzyIndex {
    map: fst::Map<Vec<u8>>,
}

impl FuzzyIndex {
    /// The entries of the index, in the byte order of their keys.
    pub closed spec fn entries(&self) -> Seq<IndexEntry> {
        index_entries(self.map)
    }

    /// The index holds a map that the builder wrote.
    pub closed spec fn built(&self) -> bool {
        index_built(self.map)
    }

    /// The index holds a map that the builder wrote, and its keys ascend
    /// strictly.
    pub open spec fn wf(&self) -> bool {
        self.built() && keys_ascending(self.entries())
    }

    #[verifier::type_invariant]
    pub(crate) open spec fn inv(&self) -> bool {
        self.wf()
    }

    /// Makes the index of `entries`, which must stand in the strict byte
    /// order of their keys: a list that is out of order, or holds a key
    /// twice, is no valid sorted map and so is corrupt.
    pub fn from_entries(entries: Vec<(Vec<u8>, u64)>) -> (r: Result<FuzzyIndex, DictionaryError>)
        ensures
            r is Ok <==> keys_ascending(entry_views(entries@)),
            r matches Ok(index) ==> index.wf() && index.entries() == entry_views(entries@),
            r matches Err(e) ==> e == DictionaryError::CorruptIndex,
    {
        match index_from_entries(entries) {
            Ok(map) => Ok(FuzzyIndex { map }),
            Err(_) => Err(DictionaryError::CorruptIndex),
        }
    }

    /// Whether the index has an entry under the bytes of `key`.
    pub fn contains_key(&self, key: &str) -> (r: bool)
        ensures
            self.wf(),
            r == has_key(self.entries(), encode_utf8(key@)),
    {
        proof {
            use_type_invariant(self);
        }
        index_contains_key(&self.map, key)
    }

    /// The word that `key` names: the word index of the one entry under the
    /// bytes of `key`, if the index has such an entry.
    pub fn get(&self, key: &str) -> (r: Option<u64>)
        ensures
            self.wf(),
            match r {
                Some(index) => key_names(self.entries(), encode_utf8(key@), index),
                None => !has_key(self.entries(), encode_utf8(key@)),
            },
    {
        proof {
            use_type_invariant(self);
        }
        let found = index_get(&self.map, key);
        proof {
            if let Some(value) = found {
                let entry = (encode_utf8(key@), value);
                let i = choose|i: int| 0 <= i < self.entries().len() && self.entries()[i] == entry;
                ascending_keys_are_unique(self.entries(), i);
            }
        }
        found
    }

    /// Opens a search for the keys within `max_distance` edits of `query`. The
    /// stream hands out the matching entries' word indices in key order, which
    /// is not the order of their distance. A distance beyond [`MAX_DISTANCE`],
    /// or a query too long for an automaton, is unsupported.
    pub fn fuzzy_search(&self, query: &str, max_distance: u8) -> (r: Result<
        MatchStream<'_>,
        DictionaryError,
    >)
        ensures
            self.wf(),
            match r {
                Ok(stream) => fuzzy_hits(self.entries(), query@, max_distance) == Some(
                    stream.rest(),
                ),
                Err(e) => e == DictionaryError::UnsupportedDistance && fuzzy_hits(
                    self.entries(),
                    query@,
                    max_distance,
                ) is None,
            },
    {
        proof {
            use_type_invariant(self);
        }
        if max_distance > MAX_DISTANCE {
            return Err(DictionaryError::UnsupportedDistance);
        }
        match levenshtein_new(query, max_distance as u32) {
            Ok(automaton) => Ok(index_search(&self.map, automaton)),
            Err(_) => Err(DictionaryError::UnsupportedDistance),
        }
    }
}

} // verus!
