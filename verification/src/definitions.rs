//! Code objects, where they are defined, and tables of what is known of them.

use vstd::prelude::*;

use crate::text::same_text;

verus! {

/// Which struct a type is.
#[derive(Clone, Copy, Debug, PartialEq, Eq, Structural, Hash)]
pub enum StructType {
    UserDefined(usize),
    AccountInfo,
    AccountMeta,
    ExternalFunction,
    SolParameters,
}

/// What a field belongs to.
#[derive(Clone, Copy, Debug, PartialEq, Eq, Structural, Hash)]
pub enum FieldOwner {
    Struct(StructType),
    /// The event with this index in Namespace::events.
    Event(usize),
    /// A type that has no fields of its own.
    Other,
}

/// Represents the type of the code object that a reference points to.
/// Here "code object" refers to contracts, functions, structs, enums etc., that are defined and
/// used within a namespace. It is used along with the path of the file where the code object is
/// defined to uniquely identify a code object.
#[derive(Clone, Copy, Debug, PartialEq, Eq, Structural, Hash)]
pub enum DefinitionType {
    // function index in Namespace::functions
    Function(usize),
    // variable id
    Variable(usize),
    // (contract id where the variable is declared, variable id)
    NonLocalVariable(Option<usize>, usize),
    // user-defined struct id
    Struct(StructType),
    // (struct or event, field id)
    Field(FieldOwner, usize),
    // enum index in Namespace::enums
    Enum(usize),
    // (enum index in Namespace::enums, discriminant id)
    Variant(usize, usize),
    // contract index in Namespace::contracts
    Contract(usize),
    // event index in Namespace::events
    Event(usize),
    UserType(usize),
    DynamicBytes,
}

/// Uniquely identifies a code object.
///
/// `def_type` alone does not guarantee uniqueness: two files can be compiled as part of different
/// namespaces, and numbers are reused across them. `def_path` paired with `def_type` does, as no
/// two code objects defined in the same file can have identical `def_type`.
#[derive(Debug, PartialEq, Eq, Hash)]
pub struct DefinitionIndex {
    /// stores the path of the file where the code object is mentioned in source code
    pub def_path: String,
    /// provides information about the type of the code object in question
    pub def_type: DefinitionType,
}

/// A [`DefinitionIndex`] with its path as a sequence of characters.
pub struct Definition {
    pub path: Seq<char>,
    pub def: DefinitionType,
}

impl View for DefinitionIndex {
    type V = Definition;

    open spec fn view(&self) -> Definition {
        Definition { path: self.def_path@, def: self.def_type }
    }
}

pub open spec fn definition_models(indices: Seq<DefinitionIndex>) -> Seq<Definition> {
    indices.map_values(|d: DefinitionIndex| d@)
}

/// What an option of a definition holds.
pub open spec fn optional_definition(d: Option<DefinitionIndex>) -> Option<Definition> {
    match d {
        Some(index) => Some(index@),
        None => None,
    }
}

/// The code object whose file is not known yet.
pub open spec fn unplaced(def: DefinitionType) -> Definition {
    Definition { path: Seq::empty(), def }
}

impl DefinitionIndex {
    /// The code object `def_type`, with the file left open.
    pub fn from(def_type: DefinitionType) -> (r: DefinitionIndex)
        ensures
            r@ == unplaced(def_type),
    {
        let r = DefinitionIndex { def_path: String::new(), def_type };
        assert(r@.path =~= Seq::<char>::empty());
        r
    }

    /// The code object `def_type` in the file at `path`.
    pub fn at(path: &str, def_type: DefinitionType) -> (r: DefinitionIndex)
        ensures
            r@ == (Definition { path: path@, def: def_type }),
    {
        DefinitionIndex { def_path: path.to_string(), def_type }
    }

    /// The same code object once more.
    pub fn copy(&self) -> (r: DefinitionIndex)
        ensures
            r@ == self@,
    {
        DefinitionIndex { def_path: self.def_path.clone(), def_type: self.def_type }
    }

    /// Whether this is the same code object.
    pub fn same(&self, other: &DefinitionIndex) -> (r: bool)
        ensures
            r == (self@ == other@),
    {
        self.def_type == other.def_type && same_text(
            self.def_path.as_str(),
            other.def_path.as_str(),
        )
    }
}

/// A position in a text: a line and a place in it, both counted from zero.
#[derive(Clone, Copy, Debug, PartialEq, Eq, Structural)]
pub struct Position {
    pub line: u32,
    pub character: u32,
}

/// A range of a text.
#[derive(Clone, Copy, Debug, PartialEq, Eq, Structural)]
pub struct Range {
    pub start: Position,
    pub end: Position,
}

/// The place of the first of the pairs from `i` on that has this key.
pub open spec fn key_place<K, V>(pairs: Seq<(K, V)>, key: K, i: nat) -> Option<nat>
    decreases (if i < pairs.len() { pairs.len() - i } else { 0 }),
{
    if i >= pairs.len() {
        None
    } else if pairs[i as int].0 == key {
        Some(i)
    } else {
        key_place(pairs, key, i + 1)
    }
}

/// The value under this key.
pub open spec fn value_at<K, V>(pairs: Seq<(K, V)>, key: K) -> Option<V> {
    match key_place(pairs, key, 0) {
        Some(i) => Some(pairs[i as int].1),
        None => None,
    }
}

/// The pairs with `value` under `key`, in the place of what was there before, or behind the others.
pub open spec fn with_pair<K, V>(pairs: Seq<(K, V)>, key: K, value: V) -> Seq<(K, V)> {
    match key_place(pairs, key, 0) {
        Some(i) => pairs.update(i as int, (key, value)),
        None => pairs.push((key, value)),
    }
}

/// The pairs with the first `n` of `more` put in, one after the other.
pub open spec fn with_pairs<K, V>(pairs: Seq<(K, V)>, more: Seq<(K, V)>, n: nat) -> Seq<(K, V)>
    decreases n,
{
    if n == 0 || n > more.len() {
        pairs
    } else {
        with_pair(with_pairs(pairs, more, (n - 1) as nat), more[n - 1].0, more[n - 1].1)
    }
}

/// No two pairs have one key.
pub open spec fn keys_differ<K, V>(pairs: Seq<(K, V)>) -> bool {
    forall|i: int, j: int|
        0 <= i < j < pairs.len() ==> (#[trigger] pairs[i]).0 != (#[trigger] pairs[j]).0
}

pub proof fn lemma_key_place<K, V>(pairs: Seq<(K, V)>, key: K, i: nat)
    ensures
        match key_place(pairs, key, i) {
            Some(k) => {
                &&& i <= k < pairs.len()
                &&& pairs[k as int].0 == key
                &&& forall|j: int| i <= j < k ==> (#[trigger] pairs[j]).0 != key
            },
            None => forall|j: int| i <= j < pairs.len() ==> (#[trigger] pairs[j]).0 != key,
        },
    decreases (if i < pairs.len() { pairs.len() - i } else { 0 }),
{
    if i < pairs.len() && pairs[i as int].0 != key {
        lemma_key_place(pairs, key, i + 1);
    }
}

/// What was put under a key is found there, what is under the other keys stays, and keys stay
/// different.
pub proof fn law_put_then_find<K, V>(pairs: Seq<(K, V)>, key: K, value: V, other: K)
    requires
        other != key,
    ensures
        value_at(with_pair(pairs, key, value), key) == Some(value),
        value_at(with_pair(pairs, key, value), other) == value_at(pairs, other),
        keys_differ(pairs) ==> keys_differ(with_pair(pairs, key, value)),
{
    let after = with_pair(pairs, key, value);
    lemma_key_place(pairs, key, 0);
    lemma_key_place(after, key, 0);
    lemma_key_place(pairs, other, 0);
    lemma_key_place(after, other, 0);
    match key_place(pairs, key, 0) {
        Some(i) => {
            assert(after[i as int] == (key, value));
            if let Some(j) = key_place(pairs, other, 0) {
                assert(after[j as int] == pairs[j as int]);
            }
            if let Some(j) = key_place(after, other, 0) {
                assert(after[j as int] == pairs[j as int]);
            }
        },
        None => {
            assert(after[pairs.len() as int] == (key, value));
            if let Some(j) = key_place(pairs, other, 0) {
                assert(after[j as int] == pairs[j as int]);
            }
            if let Some(j) = key_place(after, other, 0) {
                assert(after[j as int] == pairs[j as int]);
            }
        },
    }
}

/// Of what is put in one after the other, what was put in under a key is found there.
pub proof fn law_later_pairs_count<K, V>(pairs: Seq<(K, V)>, more: Seq<(K, V)>, n: nat, key: K)
    requires
        n <= more.len(),
        keys_differ(more),
    ensures
        value_at(with_pairs(pairs, more, n), key) == match key_place(more, key, 0) {
            Some(i) if i < n => Some(more[i as int].1),
            _ => value_at(pairs, key),
        },
        keys_differ(pairs) ==> keys_differ(with_pairs(pairs, more, n)),
    decreases n,
{
    lemma_key_place(more, key, 0);
    if n > 0 {
        law_later_pairs_count(pairs, more, (n - 1) as nat, key);
        let before = with_pairs(pairs, more, (n - 1) as nat);
        let last = more[n - 1];
        if last.0 == key {
            lemma_put_finds(before, key, last.1);
            let i = key_place(more, key, 0)->Some_0;
            if i < n - 1 {
                assert(more[i as int].0 != more[n - 1].0);
            }
        } else {
            law_put_then_find(before, last.0, last.1, key);
        }
    }
}

proof fn lemma_put_finds<K, V>(pairs: Seq<(K, V)>, key: K, value: V)
    ensures
        value_at(with_pair(pairs, key, value), key) == Some(value),
        keys_differ(pairs) ==> keys_differ(with_pair(pairs, key, value)),
{
    let after = with_pair(pairs, key, value);
    lemma_key_place(pairs, key, 0);
    lemma_key_place(after, key, 0);
    match key_place(pairs, key, 0) {
        Some(i) => {
            assert(after[i as int] == (key, value));
        },
        None => {
            assert(after[pairs.len() as int] == (key, value));
        },
    }
}

/// The items in the opposite order.
pub(crate) fn reversed<T>(items: Vec<T>) -> (r: Vec<T>)
    ensures
        r@ == items@.reverse(),
{
    let ghost all = items@;
    let ghost n = all.len();
    let mut rest = items;
    let mut turned: Vec<T> = Vec::new();
    while rest.len() > 0
        invariant
            rest@.len() + turned@.len() == n,
            all.len() == n,
            rest@ == all.subrange(0, rest@.len() as int),
            forall|k: int| 0 <= k < turned@.len() ==> #[trigger] turned@[k] == all[n - 1 - k],
        decreases rest@.len(),
    {
        if let Some(item) = rest.pop() {
            turned.push(item);
            assert(rest@ =~= all.subrange(0, rest@.len() as int));
        }
    }
    assert(turned@ =~= all.reverse());
    turned
}

/// What is known of code objects, in the order in which it was first put in. Each occurs once.
#[derive(Debug, PartialEq)]
pub struct Table<V> {
    entries: Vec<(DefinitionIndex, V)>,
}

impl<V> Table<V> {
    /// The code objects with what is known of each.
    pub closed spec fn pairs(self) -> Seq<(Definition, V)> {
        self.entries@.map_values(|e: (DefinitionIndex, V)| (e.0@, e.1))
    }

    #[verifier::type_invariant]
    spec fn distinct(self) -> bool {
        keys_differ(self.pairs())
    }

    pub fn new() -> (r: Table<V>)
        ensures
            r.pairs() == Seq::<(Definition, V)>::empty(),
    {
        let r = Table { entries: Vec::new() };
        assert(r.pairs() =~= Seq::<(Definition, V)>::empty());
        r
    }

    /// Puts in what is known of a code object, in the place of what was known before.
    pub fn insert(&mut self, key: DefinitionIndex, value: V)
        ensures
            final(self).pairs() == with_pair(old(self).pairs(), key@, value),
    {
        proof {
            use_type_invariant(&*self);
        }
        let ghost before = self.pairs();
        proof {
            lemma_put_finds(before, key@, value);
        }
        let mut entries: Vec<(DefinitionIndex, V)> = Vec::new();
        assert(entries@.map_values(|e: (DefinitionIndex, V)| (e.0@, e.1)) =~= Seq::empty());
        std::mem::swap(&mut entries, &mut self.entries);
        let mut i: usize = 0;
        while i < entries.len()
            invariant
                i <= entries@.len(),
                before == entries@.map_values(|e: (DefinitionIndex, V)| (e.0@, e.1)),
                before == old(self).pairs(),
                keys_differ(with_pair(before, key@, value)),
                key_place(before, key@, 0) == key_place(before, key@, i as nat),
            decreases entries@.len() - i,
        {
            if entries[i].0.same(&key) {
                let ghost added = (key@, value);
                entries.set(i, (key, value));
                assert(entries@.map_values(|e: (DefinitionIndex, V)| (e.0@, e.1))
                    =~= before.update(i as int, added));
                self.entries = entries;
                return ;
            }
            i = i + 1;
        }
        let ghost added = (key@, value);
        entries.push((key, value));
        assert(entries@.map_values(|e: (DefinitionIndex, V)| (e.0@, e.1)) =~= before.push(added));
        self.entries = entries;
    }

    /// What is known of a code object.
    pub fn get(&self, key: &DefinitionIndex) -> (r: Option<&V>)
        ensures
            match value_at(self.pairs(), key@) {
                Some(value) => r is Some && *r->Some_0 == value,
                None => r is None,
            },
    {
        let mut i: usize = 0;
        while i < self.entries.len()
            invariant
                i <= self.entries@.len(),
                key_place(self.pairs(), key@, 0) == key_place(self.pairs(), key@, i as nat),
            decreases self.entries@.len() - i,
        {
            if self.entries[i].0.same(key) {
                return Some(&self.entries[i].1);
            }
            i = i + 1;
        }
        None
    }

    /// How many code objects something is known of.
    pub fn len(&self) -> (r: usize)
        ensures
            r == self.pairs().len(),
    {
        self.entries.len()
    }

    /// The code object with number `i`, and what is known of it.
    pub fn entry(&self, i: usize) -> (r: &(DefinitionIndex, V))
        requires
            i < self.pairs().len(),
        ensures
            (r.0@, r.1) == self.pairs()[i as int],
    {
        &self.entries[i]
    }

    /// Replaces what is known of the code object with number `i`.
    pub fn set_value(&mut self, i: usize, value: V)
        requires
            i < old(self).pairs().len(),
        ensures
            final(self).pairs() == old(self).pairs().update(
                i as int,
                (old(self).pairs()[i as int].0, value),
            ),
    {
        proof {
            use_type_invariant(&*self);
        }
        let ghost before = self.pairs();
        let mut entries: Vec<(DefinitionIndex, V)> = Vec::new();
        assert(entries@.map_values(|e: (DefinitionIndex, V)| (e.0@, e.1)) =~= Seq::empty());
        std::mem::swap(&mut entries, &mut self.entries);
        let key = entries[i].0.copy();
        let ghost changed = (key@, value);
        entries.set(i, (key, value));
        assert(entries@.map_values(|e: (DefinitionIndex, V)| (e.0@, e.1)) =~= before.update(
            i as int,
            changed,
        ));
        self.entries = entries;
    }

    /// The entries one by one.
    pub fn into_entries(self) -> (r: Vec<(DefinitionIndex, V)>)
        ensures
            r@.map_values(|e: (DefinitionIndex, V)| (e.0@, e.1)) == self.pairs(),
            keys_differ(self.pairs()),
    {
        proof {
            use_type_invariant(&self);
        }
        self.entries
    }

    /// Puts in all that another table holds; what it knows counts.
    pub fn extend(&mut self, other: Table<V>)
        ensures
            final(self).pairs() == with_pairs(
                old(self).pairs(),
                other.pairs(),
                other.pairs().len(),
            ),
    {
        let ghost start = self.pairs();
        let ghost more = other.pairs();
        let all = other.into_entries();
        let ghost content = all@;
        let ghost n = content.len();
        // taken from the back, they come in order
        let mut entries = reversed(all);
        let mut done: Ghost<nat> = Ghost(0);
        while entries.len() > 0
            invariant
                done@ + entries@.len() == n,
                content.len() == n,
                more.len() == n,
                start == old(self).pairs(),
                forall|k: int|
                    0 <= k < entries@.len() ==> #[trigger] entries@[k] == content[n - 1 - k],
                more == content.map_values(|e: (DefinitionIndex, V)| (e.0@, e.1)),
                self.pairs() == with_pairs(start, more, done@),
            decreases entries@.len(),
        {
            let ghost last = entries@.len() - 1;
            assert(entries@[last] == content[n - 1 - last]);
            if let Some((key, value)) = entries.pop() {
                assert(more[done@ as int] == (key@, value));
                self.insert(key, value);
                proof {
                    done@ = done@ + 1;
                }
            }
        }
    }
}

} // verus!
