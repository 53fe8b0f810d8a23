//! The IPA symbol catalog: a reference list of symbols, each with a sound
//! label, a description, and positionally paired example words and
//! transcriptions.
//!
//! A catalog document is a JSON array of objects, each holding exactly the
//! fields `symbol`, `sound`, `description` (strings) and `examples`,
//! `ipa_examples` (arrays of strings), in any order. An empty array is a
//! valid, empty catalog — not an error.

use crate::dictionary::{object_keys_distinct, LoadError};
use crate::json::{
    catalog_doc, keys_distinct, members_view, parse_catalog_doc, JsonObject, JsonValue, ValueModel,
};
use crate::text::{chars_of, utf8_to_string};
use vstd::prelude::*;

verus! {

/// One symbol of the catalog. `examples` and `ipa_examples` are parallel
/// arrays: same index, same example word.
pub struct IpaEntry {
    pub symbol: String,
    pub sound: String,
    pub description: String,
    pub examples: Vec<String>,
    pub ipa_examples: Vec<String>,
}

/// The mathematical model of a catalog entry.
pub ghost struct IpaEntryModel {
    pub symbol: Seq<char>,
    pub sound: Seq<char>,
    pub description: Seq<char>,
    pub examples: Seq<Seq<char>>,
    pub ipa_examples: Seq<Seq<char>>,
}

impl View for IpaEntry {
    type V = IpaEntryModel;

    open spec fn view(&self) -> IpaEntryModel {
        IpaEntryModel {
            symbol: self.symbol@,
            sound: self.sound@,
            description: self.description@,
            examples: self.examples.deep_view(),
            ipa_examples: self.ipa_examples.deep_view(),
        }
    }
}

impl DeepView for IpaEntry {
    type V = IpaEntryModel;

    open spec fn deep_view(&self) -> IpaEntryModel {
        self.view()
    }
}

/// The value of the first member with the given key, if any.
pub open spec fn field_lookup(ms: Seq<(Seq<char>, ValueModel)>, key: Seq<char>) -> Option<
    ValueModel,
>
    decreases ms.len(),
{
    if ms.len() == 0 {
        None
    } else if ms[0].0 == key {
        Some(ms[0].1)
    } else {
        field_lookup(ms.drop_first(), key)
    }
}

/// The field names a catalog entry may hold.
pub open spec fn known_field(k: Seq<char>) -> bool {
    k == "symbol"@ || k == "sound"@ || k == "description"@ || k == "examples"@
        || k == "ipa_examples"@
}

/// The entry an object describes: every key known and unrepeated, the three
/// text fields present as strings, the two example fields present as arrays.
pub open spec fn entry_of_members(ms: Seq<(Seq<char>, ValueModel)>) -> Option<IpaEntryModel> {
    if {
        &&& keys_distinct(ms)
        &&& forall|x: int| 0 <= x < ms.len() ==> known_field((#[trigger] ms[x]).0)
        &&& field_lookup(ms, "symbol"@) matches Some(ValueModel::Text(_))
        &&& field_lookup(ms, "sound"@) matches Some(ValueModel::Text(_))
        &&& field_lookup(ms, "description"@) matches Some(ValueModel::Text(_))
        &&& field_lookup(ms, "examples"@) matches Some(ValueModel::List(_))
        &&& field_lookup(ms, "ipa_examples"@) matches Some(ValueModel::List(_))
    } {
        Some(
            IpaEntryModel {
                symbol: field_lookup(ms, "symbol"@)->Some_0->Text_0,
                sound: field_lookup(ms, "sound"@)->Some_0->Text_0,
                description: field_lookup(ms, "description"@)->Some_0->Text_0,
                examples: field_lookup(ms, "examples"@)->Some_0->List_0,
                ipa_examples: field_lookup(ms, "ipa_examples"@)->Some_0->List_0,
            },
        )
    } else {
        None
    }
}

/// The catalog a parsed object list describes, entry by entry.
pub open spec fn catalog_of_members(os: Seq<Seq<(Seq<char>, ValueModel)>>) -> Option<
    Seq<IpaEntryModel>,
> {
    if forall|k: int| 0 <= k < os.len() ==> entry_of_members(#[trigger] os[k]) is Some {
        Some(Seq::new(os.len(), |k: int| entry_of_members(os[k])->Some_0))
    } else {
        None
    }
}

/// What loading the symbol catalog from an optional raw resource yields.
pub open spec fn spec_load_catalog(data: Option<Seq<u8>>) -> Result<Seq<IpaEntryModel>, LoadError> {
    match data {
        None => Err(LoadError::ResourceMissing),
        Some(bytes) => {
            if !vstd::utf8::valid_utf8(bytes) {
                Err(LoadError::EncodingError)
            } else {
                match parse_catalog_doc(vstd::utf8::decode_utf8(bytes)) {
                    None => Err(LoadError::MalformedJson),
                    Some(os) => {
                        match catalog_of_members(os) {
                            None => Err(LoadError::MalformedJson),
                            Some(es) => Ok(es),
                        }
                    },
                }
            }
        },
    }
}

proof fn lemma_field_lookup_skip(ms: Seq<(Seq<char>, ValueModel)>, k: int, key: Seq<char>)
    requires
        0 <= k < ms.len(),
    ensures
        ms[k].0 == key ==> field_lookup(ms.skip(k), key) == Some(ms[k].1),
        ms[k].0 != key ==> field_lookup(ms.skip(k), key) == field_lookup(ms.skip(k + 1), key),
{
    assert(ms.skip(k).drop_first() =~= ms.skip(k + 1));
    assert(ms.skip(k)[0] == ms[k]);
}

fn field_get<'a>(o: &'a JsonObject, key: &String) -> (r: Option<&'a JsonValue>)
    ensures
        match r {
            Some(v) => field_lookup(members_view(o@), key@) == Some(v@),
            None => field_lookup(members_view(o@), key@) is None,
        },
{
    let ghost mv = members_view(o@);
    let n: usize = o.len();
    let mut k: usize = 0;
    proof {
        assert(mv.skip(0) =~= mv);
    }
    while k < n
        invariant
            n == mv.len(),
            mv == members_view(o@),
            k <= n,
            field_lookup(mv, key@) == field_lookup(mv.skip(k as int), key@),
        decreases n - k,
    {
        proof {
            assert(mv[k as int] == (o@[k as int].0@, o@[k as int].1@));
            lemma_field_lookup_skip(mv, k as int, key@);
        }
        if o[k].0 == *key {
            return Some(&o[k].1);
        }
        k = k + 1;
    }
    proof {
        assert(mv.skip(n as int) =~= Seq::<(Seq<char>, ValueModel)>::empty());
    }
    None
}

fn clone_strings(v: &Vec<String>) -> (r: Vec<String>)
    ensures
        r.deep_view() == v.deep_view(),
{
    let mut out: Vec<String> = Vec::new();
    let n: usize = v.len();
    let mut k: usize = 0;
    while k < n
        invariant
            n == v@.len(),
            k <= n,
            out@.len() == k,
            forall|i: int| 0 <= i < k ==> out.deep_view()[i] == v.deep_view()[i],
        decreases n - k,
    {
        out.push(v[k].clone());
        k = k + 1;
    }
    proof {
        assert(out.deep_view() =~= v.deep_view());
    }
    out
}

fn known_keys_check(o: &JsonObject) -> (r: bool)
    ensures
        r == forall|x: int|
            0 <= x < members_view(o@).len() ==> known_field((#[trigger] members_view(o@)[x]).0),
{
    let ghost mv = members_view(o@);
    let k_symbol: String = "symbol".to_owned();
    let k_sound: String = "sound".to_owned();
    let k_description: String = "description".to_owned();
    let k_examples: String = "examples".to_owned();
    let k_ipa: String = "ipa_examples".to_owned();
    let n: usize = o.len();
    let mut x: usize = 0;
    while x < n
        invariant
            n == mv.len(),
            mv == members_view(o@),
            x <= n,
            k_symbol@ == "symbol"@,
            k_sound@ == "sound"@,
            k_description@ == "description"@,
            k_examples@ == "examples"@,
            k_ipa@ == "ipa_examples"@,
            forall|y: int| 0 <= y < x ==> known_field((#[trigger] mv[y]).0),
        decreases n - x,
    {
        let known: bool = o[x].0 == k_symbol || o[x].0 == k_sound || o[x].0 == k_description
            || o[x].0 == k_examples || o[x].0 == k_ipa;
        if !known {
            proof {
                assert(mv[x as int].0 == o@[x as int].0@);
                assert(!known_field(mv[x as int].0));
            }
            return false;
        }
        x = x + 1;
    }
    true
}

/// Read one catalog entry out of a parsed object, or reject the object.
fn entry_of_object(o: &JsonObject) -> (r: Option<IpaEntry>)
    ensures
        match r {
            Some(e) => entry_of_members(members_view(o@)) == Some(e@),
            None => entry_of_members(members_view(o@)) is None,
        },
{
    let ghost mv = members_view(o@);
    if !object_keys_distinct(o) {
        return None;
    }
    if !known_keys_check(o) {
        return None;
    }
    let k_symbol: String = "symbol".to_owned();
    let k_sound: String = "sound".to_owned();
    let k_description: String = "description".to_owned();
    let k_examples: String = "examples".to_owned();
    let k_ipa: String = "ipa_examples".to_owned();
    let symbol: String = match field_get(o, &k_symbol) {
        Some(JsonValue::Text(t)) => t.clone(),
        _ => {
            return None;
        },
    };
    let sound: String = match field_get(o, &k_sound) {
        Some(JsonValue::Text(t)) => t.clone(),
        _ => {
            return None;
        },
    };
    let description: String = match field_get(o, &k_description) {
        Some(JsonValue::Text(t)) => t.clone(),
        _ => {
            return None;
        },
    };
    let examples: Vec<String> = match field_get(o, &k_examples) {
        Some(JsonValue::List(v)) => clone_strings(v),
        _ => {
            return None;
        },
    };
    let ipa_examples: Vec<String> = match field_get(o, &k_ipa) {
        Some(JsonValue::List(v)) => clone_strings(v),
        _ => {
            return None;
        },
    };
    Some(IpaEntry { symbol, sound, description, examples, ipa_examples })
}

/// Load the symbol catalog from the raw bytes of its bundled resource
/// (`None` where the resource is missing). On success the result models
/// exactly the document's entries, in document order; an empty document
/// yields an empty catalog.
#[verifier::rlimit(100)]
#[verifier::loop_isolation(false)]
pub fn load_symbol_catalog(resource: Option<Vec<u8>>) -> (r: Result<Vec<IpaEntry>, LoadError>)
    ensures
        match r {
            Ok(es) => spec_load_catalog(resource.deep_view()) == Ok::<
                Seq<IpaEntryModel>,
                LoadError,
            >(es.deep_view()),
            Err(e) => spec_load_catalog(resource.deep_view()) == Err::<
                Seq<IpaEntryModel>,
                LoadError,
            >(e),
        },
{
    let data: Vec<u8> = match resource {
        None => {
            return Err(LoadError::ResourceMissing);
        },
        Some(d) => d,
    };
    proof {
        assert(data.deep_view() =~= data@);
        assert(resource.deep_view() == Some(data@));
    }
    let text: String = match utf8_to_string(&data) {
        None => {
            return Err(LoadError::EncodingError);
        },
        Some(t) => t,
    };
    let cs: Vec<char> = chars_of(text.as_str());
    let objects: Vec<JsonObject> = match catalog_doc(&cs) {
        None => {
            return Err(LoadError::MalformedJson);
        },
        Some(os) => os,
    };
    let ghost ov = crate::json::objects_view(objects@);
    let n: usize = objects.len();
    let mut entries: Vec<IpaEntry> = Vec::new();
    let mut k: usize = 0;
    while k < n
        invariant
            n == objects@.len(),
            ov == crate::json::objects_view(objects@),
            k <= n,
            entries.deep_view().len() == k,
            forall|x: int|
                0 <= x < k ==> entry_of_members(#[trigger] ov[x]) == Some(entries.deep_view()[x]),
        decreases n - k,
    {
        proof {
            assert(ov[k as int] == members_view(objects@[k as int]@));
        }
        match entry_of_object(&objects[k]) {
            None => {
                proof {
                    assert(entry_of_members(ov[k as int]) is None);
                    assert(catalog_of_members(ov) is None);
                }
                return Err(LoadError::MalformedJson);
            },
            Some(e) => {
                entries.push(e);
            },
        }
        k = k + 1;
    }
    proof {
        assert(forall|x: int| 0 <= x < n ==> entry_of_members(#[trigger] ov[x]) is Some);
        assert(entries.deep_view() =~= Seq::new(ov.len(), |x: int| entry_of_members(ov[x])->Some_0));
    }
    Ok(entries)
}

/// The example pairs a renderer shows for two parallel lists: word and
/// transcription at equal indices, truncated to the shorter list.
pub open spec fn spec_pairs(a: Seq<Seq<char>>, b: Seq<Seq<char>>) -> Seq<(Seq<char>, Seq<char>)> {
    Seq::new(
        if a.len() <= b.len() {
            a.len()
        } else {
            b.len()
        },
        |k: int| (a[k], b[k]),
    )
}

impl IpaEntry {
    /// The example lines this entry renders: example words zipped with
    /// their transcriptions, in input order, truncated to the shorter of
    /// the two lists — unpaired trailing entries are dropped silently.
    pub fn paired_examples(&self) -> (r: Vec<(String, String)>)
        ensures
            r.deep_view() == spec_pairs(self@.examples, self@.ipa_examples),
    {
        let n: usize = if self.examples.len() <= self.ipa_examples.len() {
            self.examples.len()
        } else {
            self.ipa_examples.len()
        };
        let mut out: Vec<(String, String)> = Vec::new();
        let mut k: usize = 0;
        while k < n
            invariant
                n == spec_pairs(self@.examples, self@.ipa_examples).len(),
                n <= self.examples@.len(),
                n <= self.ipa_examples@.len(),
                k <= n,
                out.deep_view() == spec_pairs(self@.examples, self@.ipa_examples).take(k as int),
            decreases n - k,
        {
            out.push((self.examples[k].clone(), self.ipa_examples[k].clone()));
            proof {
                let ghost sp = spec_pairs(self@.examples, self@.ipa_examples);
                assert(sp.take(k + 1) =~= sp.take(k as int).push(sp[k as int]));
                assert(out.deep_view() =~= sp.take(k + 1));
            }
            k = k + 1;
        }
        proof {
            let ghost sp = spec_pairs(self@.examples, self@.ipa_examples);
            assert(sp.take(n as int) =~= sp);
        }
        out
    }
}

/// A legitimately empty catalog document loads as an empty sequence of
/// entries — not as an error; an empty dictionary, by contrast, is a
/// structural defect.
pub proof fn lemma_empty_catalog(data: Seq<u8>)
    requires
        vstd::utf8::valid_utf8(data),
        parse_catalog_doc(vstd::utf8::decode_utf8(data)) == Some(
            Seq::<Seq<(Seq<char>, ValueModel)>>::empty(),
        ),
    ensures
        spec_load_catalog(Some(data)) == Ok::<Seq<IpaEntryModel>, LoadError>(
            Seq::<IpaEntryModel>::empty(),
        ),
{
    let os = Seq::<Seq<(Seq<char>, ValueModel)>>::empty();
    assert(catalog_of_members(os) == Some(Seq::new(0, |k: int| entry_of_members(os[k])->Some_0)));
    assert(Seq::new(0, |k: int| entry_of_members(os[k])->Some_0) =~= Seq::<IpaEntryModel>::empty());
}

} // verus!
