//! JSON values as the resolvers produce them.

use vstd::prelude::*;

use crate::text::{
    ascending, comes_before, is_before, law_ascending_lists_are_equal, law_texts_are_ordered,
    same_text, texts,
};

verus! {

/// A JSON value.
#[derive(Debug, PartialEq)]
pub enum JsonValue {
    Null,
    Bool(bool),
    /// A number, held as the text that it is written with.
    Number(String),
    String(String),
    Array(Vec<JsonValue>),
    Object(JsonObject),
}

/// The members of a JSON object. Each key occurs once, and the keys are held in order, so that
/// two objects with the same members are equal however these were put in.
#[derive(Debug, PartialEq)]
pub struct JsonObject {
    entries: Vec<(String, JsonValue)>,
}

/// What a JSON value says, with the members of an object taken as a map.
pub enum Json {
    Null,
    Bool(bool),
    Number(Seq<char>),
    String(Seq<char>),
    Array(Seq<Json>),
    Object(Map<Seq<char>, Json>),
}

impl View for JsonValue {
    type V = Json;

    open spec fn view(&self) -> Json {
        json_model(*self)
    }
}

/// What `v` says.
pub open spec fn json_model(v: JsonValue) -> Json
    decreases v,
{
    match v {
        JsonValue::Null => Json::Null,
        JsonValue::Bool(b) => Json::Bool(b),
        JsonValue::Number(s) => Json::Number(s@),
        JsonValue::String(s) => Json::String(s@),
        JsonValue::Array(items) => Json::Array(
            Seq::new(
                items@.len(),
                |i: int|
                    if 0 <= i < items@.len() {
                        json_model(items@[i])
                    } else {
                        Json::Null
                    },
            ),
        ),
        JsonValue::Object(members) => Json::Object(object_model(members)),
    }
}

/// The members of `o` as a map.
pub closed spec fn object_model(o: JsonObject) -> Map<Seq<char>, Json>
    decreases o,
{
    entries_model(o.entries@)
}

/// The pairs as a map; of two pairs with one key the later counts.
closed spec fn entries_model(e: Seq<(String, JsonValue)>) -> Map<Seq<char>, Json>
    decreases e,
{
    if e.len() == 0 {
        Map::empty()
    } else {
        let n = e.len() - 1;
        entries_model(e.subrange(0, n)).insert(e[n].0@, json_model(e[n].1))
    }
}

/// What each of the values says.
pub open spec fn json_models(items: Seq<JsonValue>) -> Seq<Json> {
    items.map_values(|v: JsonValue| json_model(v))
}

pub proof fn lemma_array_model(items: Vec<JsonValue>)
    ensures
        json_model(JsonValue::Array(items)) == Json::Array(json_models(items@)),
{
    let m = json_model(JsonValue::Array(items));
    assert(m is Array);
    assert(m->Array_0 =~= json_models(items@));
}

spec fn keys_differ(e: Seq<(String, JsonValue)>) -> bool {
    forall|i: int, j: int| 0 <= i < j < e.len() ==> #[trigger] e[i].0@ != #[trigger] e[j].0@
}

/// Whether the keys are in order.
spec fn in_order(e: Seq<(String, JsonValue)>) -> bool {
    forall|i: int, j: int|
        0 <= i < j < e.len() ==> comes_before(#[trigger] e[i].0@, #[trigger] e[j].0@)
}

proof fn lemma_ordered_keys_differ(e: Seq<(String, JsonValue)>)
    requires
        in_order(e),
    ensures
        keys_differ(e),
{
    assert forall|i: int, j: int| 0 <= i < j < e.len() implies #[trigger] e[i].0@
        != #[trigger] e[j].0@ by {
        law_texts_are_ordered(e[i].0@, e[j].0@, e[j].0@);
    }
}

proof fn lemma_entries_inserted(e: Seq<(String, JsonValue)>, k: int, key: String, value: JsonValue)
    requires
        0 <= k <= e.len(),
        forall|i: int| 0 <= i < e.len() ==> #[trigger] e[i].0@ != key@,
    ensures
        entries_model(e.insert(k, (key, value))) == entries_model(e).insert(
            key@,
            json_model(value),
        ),
    decreases e.len(),
{
    let f = e.insert(k, (key, value));
    if k == e.len() {
        assert(f.subrange(0, f.len() - 1) =~= e);
    } else {
        let n = e.len() - 1;
        let front = e.subrange(0, n);
        assert forall|i: int| 0 <= i < front.len() implies #[trigger] front[i].0@ != key@ by {
            assert(e[i].0@ != key@);
        }
        lemma_entries_inserted(front, k, key, value);
        assert(f.subrange(0, f.len() - 1) =~= front.insert(k, (key, value)));
        assert(f[f.len() - 1] == e[n]);
        assert(entries_model(f) =~= entries_model(e).insert(key@, json_model(value)));
    }
}

proof fn lemma_entries_absent(e: Seq<(String, JsonValue)>, key: Seq<char>)
    requires
        forall|i: int| 0 <= i < e.len() ==> #[trigger] e[i].0@ != key,
    ensures
        !entries_model(e).dom().contains(key),
    decreases e.len(),
{
    if e.len() > 0 {
        let n = e.len() - 1;
        assert forall|i: int| 0 <= i < n implies #[trigger] e.subrange(0, n)[i].0@ != key by {
            assert(e[i].0@ != key);
        }
        lemma_entries_absent(e.subrange(0, n), key);
    }
}

proof fn lemma_entries_at(e: Seq<(String, JsonValue)>, k: int)
    requires
        keys_differ(e),
        0 <= k < e.len(),
    ensures
        entries_model(e).dom().contains(e[k].0@),
        entries_model(e)[e[k].0@] == json_model(e[k].1),
    decreases e.len(),
{
    let n = e.len() - 1;
    if k < n {
        let front = e.subrange(0, n);
        assert(front[k] == e[k]);
        assert forall|i: int, j: int| 0 <= i < j < front.len() implies #[trigger] front[i].0@
            != #[trigger] front[j].0@ by {
            assert(e[i].0@ != e[j].0@);
        }
        lemma_entries_at(front, k);
        assert(e[k].0@ != e[n].0@);
    }
}

proof fn lemma_entries_replaced(
    e: Seq<(String, JsonValue)>,
    f: Seq<(String, JsonValue)>,
    k: int,
    key: Seq<char>,
)
    requires
        keys_differ(e),
        f.len() == e.len(),
        0 <= k < e.len(),
        e[k].0@ == key,
        f[k].0@ == key,
        forall|i: int| 0 <= i < e.len() && i != k ==> #[trigger] f[i] == e[i],
    ensures
        entries_model(f) == entries_model(e).insert(key, json_model(f[k].1)),
    decreases e.len(),
{
    let n = e.len() - 1;
    let ef = e.subrange(0, n);
    let ff = f.subrange(0, n);
    if k < n {
        assert forall|i: int, j: int| 0 <= i < j < ef.len() implies #[trigger] ef[i].0@
            != #[trigger] ef[j].0@ by {
            assert(e[i].0@ != e[j].0@);
        }
        assert(ff[k] == f[k] && ef[k] == e[k]);
        lemma_entries_replaced(ef, ff, k, key);
        assert(e[k].0@ != e[n].0@);
        assert(f[n] == e[n]);
        assert(entries_model(f) =~= entries_model(e).insert(key, json_model(f[k].1)));
    } else {
        assert(ff =~= ef);
        assert(entries_model(f) =~= entries_model(e).insert(key, json_model(f[k].1)));
    }
}

/// A new key stands between those that come before it and the others.
proof fn lemma_key_between(e: Seq<(String, JsonValue)>, k: int, key: Seq<char>)
    requires
        in_order(e),
        0 <= k <= e.len(),
        forall|i: int| 0 <= i < k ==> comes_before(#[trigger] e[i].0@, key),
        k < e.len() ==> !comes_before(e[k].0@, key) && e[k].0@ != key,
    ensures
        forall|i: int| 0 <= i < e.len() ==> #[trigger] e[i].0@ != key,
        forall|i: int| k <= i < e.len() ==> comes_before(key, #[trigger] e[i].0@),
{
    assert forall|i: int| 0 <= i < e.len() implies #[trigger] e[i].0@ != key && (i >= k
        ==> comes_before(key, e[i].0@)) by {
        law_texts_are_ordered(key, key, key);
        if i >= k {
            law_texts_are_ordered(key, e[k].0@, e[i].0@);
            law_texts_are_ordered(e[k].0@, key, key);
            if i > k {
                assert(comes_before(e[k].0@, e[i].0@));
            }
        }
    }
}

impl View for JsonObject {
    type V = Map<Seq<char>, Json>;

    open spec fn view(&self) -> Map<Seq<char>, Json> {
        object_model(*self)
    }
}

impl JsonObject {
    #[verifier::type_invariant]
    pub closed spec fn well_formed(self) -> bool {
        in_order(self.entries@)
    }

    /// The members, one after the other as they are held.
    pub closed spec fn listed(self) -> Seq<(Seq<char>, Json)> {
        self.entries@.map_values(|e: (String, JsonValue)| (e.0@, json_model(e.1)))
    }

    /// An object without members.
    pub fn new() -> (r: JsonObject)
        ensures
            r@ == Map::<Seq<char>, Json>::empty(),
    {
        let r = JsonObject { entries: Vec::new() };
        assert(r@ =~= Map::<Seq<char>, Json>::empty());
        r
    }

    /// Where the member `key` stands.
    fn position(&self, key: &str) -> (r: Option<usize>)
        ensures
            match r {
                Some(k) => k < self.entries@.len() && self.entries@[k as int].0@ == key@,
                None => forall|i: int|
                    0 <= i < self.entries@.len() ==> #[trigger] self.entries@[i].0@ != key@,
            },
    {
        let mut i: usize = 0;
        while i < self.entries.len()
            invariant
                i <= self.entries@.len(),
                forall|j: int| 0 <= j < i ==> #[trigger] self.entries@[j].0@ != key@,
            decreases self.entries@.len() - i,
        {
            if same_text(self.entries[i].0.as_str(), key) {
                return Some(i);
            }
            i = i + 1;
        }
        None
    }

    /// How many keys come before `key`.
    fn place(&self, key: &str) -> (r: usize)
        ensures
            r <= self.entries@.len(),
            forall|i: int| 0 <= i < r ==> comes_before(#[trigger] self.entries@[i].0@, key@),
            r < self.entries@.len() ==> !comes_before(self.entries@[r as int].0@, key@),
    {
        let mut i: usize = 0;
        while i < self.entries.len() && is_before(self.entries[i].0.as_str(), key)
            invariant
                i <= self.entries@.len(),
                forall|j: int| 0 <= j < i ==> comes_before(#[trigger] self.entries@[j].0@, key@),
            decreases self.entries@.len() - i,
        {
            i = i + 1;
        }
        i
    }

    /// Sets the member `key`, which replaces one of that name.
    pub fn insert(&mut self, key: String, value: JsonValue)
        ensures
            final(self)@ == old(self)@.insert(key@, value@),
    {
        proof {
            use_type_invariant(&*self);
            lemma_ordered_keys_differ(self.entries@);
        }
        let ghost before = self.entries@;
        let mut entries: Vec<(String, JsonValue)> = Vec::new();
        let k: usize = self.place(key.as_str());
        let known = k < self.entries.len() && same_text(self.entries[k].0.as_str(), key.as_str());
        std::mem::swap(&mut entries, &mut self.entries);
        if known {
            entries.set(k, (key, value));
            proof {
                lemma_entries_replaced(before, entries@, k as int, key@);
                assert forall|i: int, j: int| 0 <= i < j < entries@.len() implies comes_before(
                    #[trigger] entries@[i].0@,
                    #[trigger] entries@[j].0@,
                ) by {
                    assert(comes_before(before[i].0@, before[j].0@));
                }
            }
        } else {
            proof {
                lemma_key_between(before, k as int, key@);
                lemma_entries_inserted(before, k as int, key, value);
            }
            entries.insert(k, (key, value));
            proof {
                assert forall|i: int, j: int| 0 <= i < j < entries@.len() implies comes_before(
                    #[trigger] entries@[i].0@,
                    #[trigger] entries@[j].0@,
                ) by {
                    let x = if i > k {
                        i - 1
                    } else {
                        i
                    };
                    let y = if j > k {
                        j - 1
                    } else {
                        j
                    };
                    if i != k {
                        assert(entries@[i] == before[x]);
                    }
                    if j != k {
                        assert(entries@[j] == before[y]);
                    }
                    if i != k && j != k {
                        assert(comes_before(before[x].0@, before[y].0@));
                    }
                }
            }
        }
        self.entries = entries;
    }

    /// The value of the member `key`.
    pub fn get(&self, key: &str) -> (r: Option<&JsonValue>)
        ensures
            r is Some <==> self@.dom().contains(key@),
            r matches Some(v) ==> v@ == self@[key@],
    {
        proof {
            use_type_invariant(self);
            lemma_ordered_keys_differ(self.entries@);
        }
        match self.position(key) {
            Some(k) => {
                proof {
                    lemma_entries_at(self.entries@, k as int);
                }
                Some(&self.entries[k].1)
            },
            None => {
                proof {
                    lemma_entries_absent(self.entries@, key@);
                }
                None
            },
        }
    }

    /// The keys, each once, in order.
    pub fn keys(&self) -> (r: Vec<String>)
        ensures
            forall|k: Seq<char>|
                self@.dom().contains(k) <==> exists|i: int| 0 <= i < r@.len() && #[trigger] r@[i]@ == k,
            ascending(texts(r@)),
    {
        proof {
            use_type_invariant(self);
            lemma_ordered_keys_differ(self.entries@);
        }
        let mut out: Vec<String> = Vec::new();
        let mut i: usize = 0;
        while i < self.entries.len()
            invariant
                i <= self.entries@.len(),
                out@.len() == i,
                forall|j: int| 0 <= j < i ==> #[trigger] out@[j]@ == self.entries@[j].0@,
            decreases self.entries@.len() - i,
        {
            out.push(self.entries[i].0.clone());
            i = i + 1;
        }
        proof {
            assert forall|k: Seq<char>| self@.dom().contains(k) implies exists|i: int|
                0 <= i < out@.len() && #[trigger] out@[i]@ == k by {
                if forall|i: int| 0 <= i < out@.len() ==> #[trigger] out@[i]@ != k {
                    assert forall|i: int| 0 <= i < self.entries@.len() implies #[trigger] self.entries@[i].0@
                        != k by {
                        assert(out@[i]@ != k);
                    }
                    lemma_entries_absent(self.entries@, k);
                }
            }
            assert forall|k: Seq<char>|
                (exists|i: int| 0 <= i < out@.len() && #[trigger] out@[i]@ == k) implies self@.dom().contains(k) by {
                let i = choose|i: int| 0 <= i < out@.len() && #[trigger] out@[i]@ == k;
                lemma_entries_at(self.entries@, i);
            }
            let keys = texts(out@);
            assert forall|i: int, j: int| 0 <= i < j < keys.len() implies comes_before(
                #[trigger] keys[i],
                #[trigger] keys[j],
            ) by {
                assert(keys[i] == out@[i]@ && keys[j] == out@[j]@);
                assert(comes_before(self.entries@[i].0@, self.entries@[j].0@));
            }
        }
        out
    }
}

/// Two objects with the same members hold them in the same order, however they were put in.
pub proof fn law_same_members_are_listed_alike(a: JsonObject, b: JsonObject)
    requires
        a.well_formed(),
        b.well_formed(),
        a@ == b@,
    ensures
        a.listed() == b.listed(),
{
    let ka = entry_keys(a.entries@);
    let kb = entry_keys(b.entries@);
    lemma_keys_of_entries(a.entries@);
    lemma_keys_of_entries(b.entries@);
    assert forall|k: Seq<char>| #[trigger] ka.contains(k) <==> kb.contains(k) by {
        assert(ka.contains(k) <==> a@.dom().contains(k));
        assert(kb.contains(k) <==> b@.dom().contains(k));
    }
    law_ascending_lists_are_equal(ka, kb);
    lemma_ordered_keys_differ(a.entries@);
    lemma_ordered_keys_differ(b.entries@);
    assert(a.listed().len() == ka.len() && b.listed().len() == kb.len());
    assert forall|i: int| 0 <= i < a.listed().len() implies a.listed()[i] == b.listed()[i] by {
        assert(ka[i] == kb[i]);
        lemma_entries_at(a.entries@, i);
        lemma_entries_at(b.entries@, i);
    }
    assert(a.listed() =~= b.listed());
}

spec fn entry_keys(e: Seq<(String, JsonValue)>) -> Seq<Seq<char>> {
    e.map_values(|x: (String, JsonValue)| x.0@)
}

proof fn lemma_keys_of_entries(e: Seq<(String, JsonValue)>)
    requires
        in_order(e),
    ensures
        ascending(entry_keys(e)),
        forall|k: Seq<char>| #[trigger]
            entry_keys(e).contains(k) <==> entries_model(e).dom().contains(k),
{
    let keys = entry_keys(e);
    lemma_ordered_keys_differ(e);
    assert forall|i: int, j: int| 0 <= i < j < keys.len() implies comes_before(
        #[trigger] keys[i],
        #[trigger] keys[j],
    ) by {
        assert(comes_before(e[i].0@, e[j].0@));
    }
    assert forall|k: Seq<char>| #[trigger]
        keys.contains(k) <==> entries_model(e).dom().contains(k) by {
        if keys.contains(k) {
            let i = choose|i: int| 0 <= i < keys.len() && keys[i] == k;
            lemma_entries_at(e, i);
        } else {
            assert forall|i: int| 0 <= i < e.len() implies #[trigger] e[i].0@ != k by {
                assert(keys[i] == e[i].0@);
            }
            lemma_entries_absent(e, k);
        }
    }
}

} // verus!
