//! The word dictionary: loading it from raw resource bytes and resolving
//! queries against it.
//!
//! A dictionary document is `{ "entries": [ <block>, ... ] }`, where each
//! block maps words to IPA transcriptions. Only the first block is consulted
//! by the resolver; the loader still validates every block. Keys must be
//! unique within a block, and are trusted to be lowercase — the resolver
//! folds its query, never the stored keys.

use crate::json::{
    block_is_textual, block_pairs, dictionary_doc, keys_distinct, parse_dictionary_doc, JsonObject,
    JsonValue, ValueModel,
};
use crate::text::{chars_of, lower, lowercase, utf8_to_string};
use vstd::prelude::*;

verus! {

/// Why a bundled resource failed to load.
#[derive(Clone, Copy, Debug, PartialEq, Eq, Structural)]
pub enum LoadError {
    /// No resource bytes exist for the requested locale.
    ResourceMissing,
    /// The resource bytes are not valid UTF-8.
    EncodingError,
    /// The text does not parse as the expected JSON shape.
    MalformedJson,
    /// The dictionary document holds zero entry blocks.
    EmptyDictionary,
}

/// Why a query failed to resolve. The error carries the original,
/// unfolded query for user-facing messaging.
#[derive(Debug)]
pub enum ResolveError {
    WordNotFound(String),
}

/// The word → transcription mapping built from a pair sequence: later pairs
/// would win, but the loader only ever builds it from distinct keys.
pub open spec fn pairs_map(ps: Seq<(Seq<char>, Seq<char>)>) -> Map<Seq<char>, Seq<char>>
    decreases ps.len(),
{
    if ps.len() == 0 {
        Map::empty()
    } else {
        pairs_map(ps.drop_last()).insert(ps.last().0, ps.last().1)
    }
}

/// Every block holds only string values and has no repeated key.
pub open spec fn blocks_ok(blocks: Seq<Seq<(Seq<char>, ValueModel)>>) -> bool {
    forall|k: int|
        0 <= k < blocks.len() ==> block_is_textual(#[trigger] blocks[k]) && keys_distinct(
            blocks[k],
        )
}

/// What loading a dictionary from an optional raw resource yields: the
/// mapping of the first entry block, or the error that names the defect.
pub open spec fn spec_load_dictionary(data: Option<Seq<u8>>) -> Result<
    Map<Seq<char>, Seq<char>>,
    LoadError,
> {
    match data {
        None => Err(LoadError::ResourceMissing),
        Some(bytes) => {
            if !vstd::utf8::valid_utf8(bytes) {
                Err(LoadError::EncodingError)
            } else {
                match parse_dictionary_doc(vstd::utf8::decode_utf8(bytes)) {
                    None => Err(LoadError::MalformedJson),
                    Some(blocks) => {
                        if !blocks_ok(blocks) {
                            Err(LoadError::MalformedJson)
                        } else if blocks.len() == 0 {
                            Err(LoadError::EmptyDictionary)
                        } else {
                            Ok(pairs_map(block_pairs(blocks[0])))
                        }
                    },
                }
            }
        },
    }
}

/// A loaded entry block: a word → IPA transcription mapping with unique
/// keys. Its model is the finite map the pairs describe.
pub struct WordMapping {
    entries: Vec<(String, String)>,
}

impl View for WordMapping {
    type V = Map<Seq<char>, Seq<char>>;

    closed spec fn view(&self) -> Map<Seq<char>, Seq<char>> {
        pairs_map(self.entries.deep_view())
    }
}

impl WordMapping {
    #[verifier::type_invariant]
    spec fn wf(self) -> bool {
        keys_distinct(self.entries.deep_view())
    }

    /// Build a mapping from word → transcription pairs; rejects a pair list
    /// with a repeated word.
    pub fn new(entries: Vec<(String, String)>) -> (r: Option<WordMapping>)
        ensures
            match r {
                Some(m) => keys_distinct(entries.deep_view()) && m@ == pairs_map(
                    entries.deep_view(),
                ),
                None => !keys_distinct(entries.deep_view()),
            },
    {
        if !pair_keys_distinct(&entries) {
            return None;
        }
        Some(WordMapping { entries })
    }
}

fn pair_keys_distinct(v: &Vec<(String, String)>) -> (r: bool)
    ensures
        r == keys_distinct(v.deep_view()),
{
    let ghost ps = v.deep_view();
    let n: usize = v.len();
    let mut a: usize = 0;
    while a < n
        invariant
            n == ps.len(),
            ps == v.deep_view(),
            a <= n,
            forall|x: int, y: int| 0 <= x < y < n && x < a ==> ps[x].0 != ps[y].0,
        decreases n - a,
    {
        let mut b: usize = a + 1;
        while b < n
            invariant
                n == ps.len(),
                ps == v.deep_view(),
                a < b <= n,
                a < n,
                forall|x: int, y: int| 0 <= x < y < n && x < a ==> ps[x].0 != ps[y].0,
                forall|y: int| a < y < b ==> ps[a as int].0 != ps[y].0,
            decreases n - b,
        {
            if v[a].0 == v[b].0 {
                proof {
                    assert(ps[a as int].0 == v@[a as int].0@);
                    assert(ps[b as int].0 == v@[b as int].0@);
                    assert(!keys_distinct(ps));
                }
                return false;
            }
            b = b + 1;
        }
        a = a + 1;
    }
    true
}

pub(crate) fn object_keys_distinct(v: &JsonObject) -> (r: bool)
    ensures
        r == keys_distinct(crate::json::members_view(v@)),
{
    let ghost ps = crate::json::members_view(v@);
    let n: usize = v.len();
    let mut a: usize = 0;
    while a < n
        invariant
            n == ps.len(),
            ps == crate::json::members_view(v@),
            a <= n,
            forall|x: int, y: int| 0 <= x < y < n && x < a ==> ps[x].0 != ps[y].0,
        decreases n - a,
    {
        let mut b: usize = a + 1;
        while b < n
            invariant
                n == ps.len(),
                ps == crate::json::members_view(v@),
                a < b <= n,
                a < n,
                forall|x: int, y: int| 0 <= x < y < n && x < a ==> ps[x].0 != ps[y].0,
                forall|y: int| a < y < b ==> ps[a as int].0 != ps[y].0,
            decreases n - b,
        {
            if v[a].0 == v[b].0 {
                proof {
                    assert(ps[a as int].0 == v@[a as int].0@);
                    assert(ps[b as int].0 == v@[b as int].0@);
                    assert(!keys_distinct(ps));
                }
                return false;
            }
            b = b + 1;
        }
        a = a + 1;
    }
    true
}

fn block_check(o: &JsonObject) -> (r: bool)
    ensures
        r == (block_is_textual(crate::json::members_view(o@)) && keys_distinct(
            crate::json::members_view(o@),
        )),
{
    let ghost mv = crate::json::members_view(o@);
    let n: usize = o.len();
    let mut k: usize = 0;
    while k < n
        invariant
            n == mv.len(),
            mv == crate::json::members_view(o@),
            k <= n,
            forall|x: int| 0 <= x < k ==> (#[trigger] mv[x]).1 is Text,
        decreases n - k,
    {
        match &o[k].1 {
            JsonValue::Text(_) => {},
            JsonValue::List(_) => {
                proof {
                    assert(mv[k as int].1 is List);
                    assert(!block_is_textual(mv));
                }
                return false;
            },
        }
        k = k + 1;
    }
    object_keys_distinct(o)
}

/// Load the word dictionary from the raw bytes of the locale's bundled
/// resource (`None` where no resource exists for the locale). On success the
/// result models exactly the first entry block of the document.
#[verifier::rlimit(100)]
#[verifier::loop_isolation(false)]
pub fn load_dictionary(resource: Option<Vec<u8>>) -> (r: Result<WordMapping, LoadError>)
    ensures
        match r {
            Ok(m) => spec_load_dictionary(resource.deep_view()) == Ok::<
                Map<Seq<char>, Seq<char>>,
                LoadError,
            >(m@),
            Err(e) => spec_load_dictionary(resource.deep_view()) == Err::<
                Map<Seq<char>, Seq<char>>,
                LoadError,
            >(e),
        },
{
    let data: Vec<u8> = match resource {
        None => {
            return Err(LoadError::ResourceMissing);
        },
        Some(d) => d,
    };
    proof {
        assert(data.deep_view() =~= data@);
        assert(resource.deep_view() == Some(data@));
    }
    let text: String = match utf8_to_string(&data) {
        None => {
            return Err(LoadError::EncodingError);
        },
        Some(t) => t,
    };
    let cs: Vec<char> = chars_of(text.as_str());
    let blocks: Vec<JsonObject> = match dictionary_doc(&cs) {
        None => {
            return Err(LoadError::MalformedJson);
        },
        Some(b) => b,
    };
    let ghost bv = crate::json::objects_view(blocks@);
    let n: usize = blocks.len();
    let mut k: usize = 0;
    while k < n
        invariant
            n == blocks@.len(),
            bv == crate::json::objects_view(blocks@),
            k <= n,
            forall|x: int|
                0 <= x < k ==> block_is_textual(#[trigger] bv[x]) && keys_distinct(bv[x]),
        decreases n - k,
    {
        if !block_check(&blocks[k]) {
            proof {
                assert(bv[k as int] == crate::json::members_view(blocks@[k as int]@));
                assert(!blocks_ok(bv));
            }
            return Err(LoadError::MalformedJson);
        }
        proof {
            assert(bv[k as int] == crate::json::members_view(blocks@[k as int]@));
        }
        k = k + 1;
    }
    assert(blocks_ok(bv));
    if blocks.len() == 0 {
        return Err(LoadError::EmptyDictionary);
    }
    let first: &JsonObject = &blocks[0];
    let ghost mv0 = crate::json::members_view(first@);
    proof {
        assert(bv[0] == mv0);
    }
    let mut entries: Vec<(String, String)> = Vec::new();
    let m: usize = first.len();
    let mut j: usize = 0;
    while j < m
        invariant
            m == first@.len(),
            mv0 == crate::json::members_view(first@),
            block_is_textual(mv0),
            j <= m,
            entries.deep_view() == block_pairs(mv0).take(j as int),
        decreases m - j,
    {
        let key: String = first[j].0.clone();
        let value: String = match &first[j].1 {
            JsonValue::Text(t) => t.clone(),
            JsonValue::List(_) => {
                proof {
                    assert(mv0[j as int].1 is List);
                    assert(false);
                }
                return Err(LoadError::MalformedJson);
            },
        };
        entries.push((key, value));
        proof {
            let ghost bp = block_pairs(mv0);
            assert(mv0[j as int] == (first@[j as int].0@, first@[j as int].1@));
            assert(bp[j as int] == (mv0[j as int].0, mv0[j as int].1->Text_0));
            assert(bp.take(j + 1) =~= bp.take(j as int).push(bp[j as int]));
            assert(entries.deep_view() =~= bp.take(j + 1));
        }
        j = j + 1;
    }
    proof {
        assert(entries.deep_view() =~= block_pairs(mv0));
        lemma_keys_distinct_pairs(mv0);
    }
    Ok(WordMapping { entries })
}

/// Distinct member keys carry over to the pair sequence a block yields.
proof fn lemma_keys_distinct_pairs(ms: Seq<(Seq<char>, ValueModel)>)
    requires
        keys_distinct(ms),
    ensures
        keys_distinct(block_pairs(ms)),
{
    assert forall|a: int, b: int|
        0 <= a < b < block_pairs(ms).len() implies (#[trigger] block_pairs(ms)[a]).0 != (
    #[trigger] block_pairs(ms)[b]).0 by {
        assert(ms[a].0 != ms[b].0);
    }
}

/// What resolving yields: the stored transcription of the folded query, or
/// the original query where the mapping holds no entry for it.
pub open spec fn spec_resolve(word: Seq<char>, m: Map<Seq<char>, Seq<char>>) -> Result<
    Seq<char>,
    Seq<char>,
> {
    if m.contains_key(lower(word)) {
        Ok(m[lower(word)])
    } else {
        Err(word)
    }
}

proof fn lemma_pairs_map_index(ps: Seq<(Seq<char>, Seq<char>)>, x: int)
    requires
        keys_distinct(ps),
        0 <= x < ps.len(),
    ensures
        pairs_map(ps).contains_key(ps[x].0),
        pairs_map(ps)[ps[x].0] == ps[x].1,
    decreases ps.len(),
{
    if x < ps.len() - 1 {
        assert(keys_distinct(ps.drop_last()));
        lemma_pairs_map_index(ps.drop_last(), x);
        assert(ps.drop_last()[x] == ps[x]);
        assert(ps.last().0 != ps[x].0);
    }
}

proof fn lemma_pairs_map_no_key(ps: Seq<(Seq<char>, Seq<char>)>, key: Seq<char>)
    requires
        forall|x: int| 0 <= x < ps.len() ==> (#[trigger] ps[x]).0 != key,
    ensures
        !pairs_map(ps).contains_key(key),
    decreases ps.len(),
{
    if ps.len() > 0 {
        lemma_pairs_map_no_key(ps.drop_last(), key);
    }
}

/// Resolve a query against a loaded mapping: fold it to lowercase and probe
/// for an exact match. A miss reports the original, unfolded query.
pub fn resolve(word: &str, mapping: &WordMapping) -> (r: Result<String, ResolveError>)
    ensures
        match r {
            Ok(t) => spec_resolve(word@, mapping@) == Ok::<Seq<char>, Seq<char>>(t@),
            Err(ResolveError::WordNotFound(orig)) => spec_resolve(word@, mapping@) == Err::<
                Seq<char>,
                Seq<char>,
            >(orig@) && orig@ == word@,
        },
{
    proof {
        use_type_invariant(mapping);
    }
    let ghost ps = mapping.entries.deep_view();
    let folded: String = lowercase(word);
    let n: usize = mapping.entries.len();
    let mut k: usize = 0;
    while k < n
        invariant
            n == ps.len(),
            ps == mapping.entries.deep_view(),
            keys_distinct(ps),
            mapping@ == pairs_map(ps),
            folded@ == lower(word@),
            k <= n,
            forall|x: int| 0 <= x < k ==> (#[trigger] ps[x]).0 != folded@,
        decreases n - k,
    {
        if mapping.entries[k].0 == folded {
            proof {
                lemma_pairs_map_index(ps, k as int);
            }
            return Ok(mapping.entries[k].1.clone());
        }
        k = k + 1;
    }
    proof {
        lemma_pairs_map_no_key(ps, folded@);
    }
    Err(ResolveError::WordNotFound(word.to_owned()))
}

impl ResolveError {
    /// The user-facing message for this error.
    pub fn message(&self) -> (r: String)
        ensures
            match self {
                ResolveError::WordNotFound(w) => r@ == not_found_text(w@),
            },
    {
        match self {
            ResolveError::WordNotFound(w) => {
                let mut out: String = "Error: Word '".to_owned();
                out.append(w.as_str());
                out.append("' not found.");
                out
            },
        }
    }
}

/// The message a failed resolution displays.
pub open spec fn not_found_text(w: Seq<char>) -> Seq<char> {
    "Error: Word '"@ + w + "' not found."@
}

/// A word whose folded form stands in the mapping resolves to exactly the
/// stored transcription, however the query itself was cased: folding is
/// idempotent, so the resolver's own folding cannot change the probe.
pub proof fn lemma_resolve_present(w: Seq<char>, m: Map<Seq<char>, Seq<char>>)
    requires
        m.contains_key(lower(w)),
    ensures
        spec_resolve(lower(w), m) == Ok::<Seq<char>, Seq<char>>(m[lower(w)]),
        spec_resolve(w, m) == Ok::<Seq<char>, Seq<char>>(m[lower(w)]),
{
    crate::text::lemma_lower_idempotent(w);
}

/// A word whose folded form stands nowhere in the mapping resolves to
/// word-not-found, carrying the original query.
pub proof fn lemma_resolve_absent(w: Seq<char>, m: Map<Seq<char>, Seq<char>>)
    requires
        !m.contains_key(lower(w)),
    ensures
        spec_resolve(w, m) == Err::<Seq<char>, Seq<char>>(w),
{
}

/// A well-formed dictionary document with zero entry blocks loads as
/// `EmptyDictionary`: a structural defect, unlike an empty catalog.
pub proof fn lemma_empty_dictionary(data: Seq<u8>)
    requires
        vstd::utf8::valid_utf8(data),
        parse_dictionary_doc(vstd::utf8::decode_utf8(data)) == Some(
            Seq::<Seq<(Seq<char>, ValueModel)>>::empty(),
        ),
    ensures
        spec_load_dictionary(Some(data)) == Err::<Map<Seq<char>, Seq<char>>, LoadError>(
            LoadError::EmptyDictionary,
        ),
{
}

/// Text that does not parse as the dictionary shape loads as
/// `MalformedJson`.
pub proof fn lemma_malformed_dictionary(data: Seq<u8>)
    requires
        vstd::utf8::valid_utf8(data),
        parse_dictionary_doc(vstd::utf8::decode_utf8(data)) is None,
    ensures
        spec_load_dictionary(Some(data)) == Err::<Map<Seq<char>, Seq<char>>, LoadError>(
            LoadError::MalformedJson,
        ),
{
}

/// Resolution is case-insensitive: queries with the same folded form hit or
/// miss together, and on a hit they yield the same transcription.
pub proof fn lemma_resolve_case_insensitive(
    w1: Seq<char>,
    w2: Seq<char>,
    m: Map<Seq<char>, Seq<char>>,
)
    requires
        lower(w1) == lower(w2),
    ensures
        spec_resolve(w1, m) is Ok <==> spec_resolve(w2, m) is Ok,
        m.contains_key(lower(w1)) ==> spec_resolve(w1, m) == spec_resolve(w2, m),
{
}

} // verus!
