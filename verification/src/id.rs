//! Runtime identifiers and the interner that issues them.

use crate::text::str_eq;
use std::collections::HashMap;
use vstd::prelude::*;
use vstd::std_specs::hash::*;

verus! {

/// A compact runtime handle that stands for an interned name.
///
/// Handles are only meaningful together with the [`Interner`] that issued them.
#[derive(Clone, Copy, Debug, PartialEq, Eq, Hash, PartialOrd, Ord, Structural)]
pub struct Id(u64);

impl Id {
    /// The position of this handle in the interner that issued it.
    pub closed spec fn index(self) -> nat {
        self.0 as nat
    }

    /// The handle that stands at position `n`.
    pub closed spec fn at(n: nat) -> Id {
        Id(n as u64)
    }

    /// Two handles with the same position are the same handle.
    pub proof fn lemma_index_injective(a: Id, b: Id)
        requires
            a.index() == b.index(),
        ensures
            a == b,
    {
    }

    /// A handle is the handle at its own position, and positions fit in 64 bits.
    pub proof fn lemma_at_index(self)
        ensures
            Id::at(self.index()) == self,
            self.index() <= u64::MAX,
    {
    }

    /// The handle at a position that fits in 64 bits has that position.
    pub proof fn lemma_index_at(n: nat)
        requires
            n <= u64::MAX,
        ensures
            Id::at(n).index() == n,
    {
    }

    /// The handle as a plain number, as it is written into snapshots.
    pub fn to_raw(self) -> (n: u64)
        ensures
            n == self.index(),
    {
        self.0
    }

    /// The handle that a snapshot recorded under the number `n`.
    pub fn from_raw(n: u64) -> (id: Id)
        ensures
            id.index() == n,
            id == Id::at(n as nat),
    {
        Id(n)
    }
}

/// No name occurs twice in `names`.
pub open spec fn distinct_names(names: Seq<Seq<char>>) -> bool {
    forall|i: int, j: int| 0 <= i < j < names.len() ==> names[i] != names[j]
}

/// The handle under which `names` holds `name`, if it holds it at all.
pub open spec fn lookup(names: Seq<Seq<char>>, name: Seq<char>) -> Option<Id> {
    if names.contains(name) {
        Some(Id::at(names.index_of(name) as nat))
    } else {
        None
    }
}

/// The name that `names` holds under `id`, if the handle was issued.
pub open spec fn name_at(names: Seq<Seq<char>>, id: Id) -> Option<Seq<char>> {
    if id.index() < names.len() {
        Some(names[id.index() as int])
    } else {
        None
    }
}

/// The hash after one more byte.
spec fn mixed(hash: u64, byte: u8) -> u64 {
    (((hash ^ (byte as u64)) as int * 0x100000001b3) % 0x1_0000_0000_0000_0000) as u64
}

/// The hash of a run of bytes.
spec fn hash_bytes(bytes: Seq<u8>) -> u64
    decreases bytes.len(),
{
    if bytes.len() == 0 {
        0xcbf29ce484222325
    } else {
        mixed(hash_bytes(bytes.drop_last()), bytes.last())
    }
}

/// The hash under which the index of an interner files a name.
spec fn name_hash(name: Seq<char>) -> u64 {
    hash_bytes(vstd::utf8::encode_utf8(name))
}

/// The hash under which the index files `name`.
fn hash_name(name: &str) -> (hash: u64)
    ensures
        hash == name_hash(name@),
{
    let bytes = name.as_bytes();
    let mut hash: u64 = 0xcbf29ce484222325;
    let mut i: usize = 0;
    while i < bytes.len()
        invariant
            i <= bytes@.len(),
            hash == hash_bytes(bytes@.take(i as int)),
        decreases bytes@.len() - i,
    {
        let wide = (hash ^ (bytes[i] as u64)) as u128 * 0x100000001b3u128;
        proof {
            assert(bytes@.take(i + 1).drop_last() =~= bytes@.take(i as int));
        }
        hash = (wide % 0x1_0000_0000_0000_0000u128) as u64;
        i += 1;
    }
    assert(bytes@.take(bytes@.len() as int) =~= bytes@);
    hash
}

/// A two-way table between stable names and runtime handles.
///
/// The table only grows: a handle, once issued, resolves to its name for as
/// long as the table lives. An index by hash finds a name without going
/// through the table.
#[derive(Debug)]
pub struct Interner {
    names: Vec<String>,
    index: HashMap<u64, Vec<usize>>,
}

impl View for Interner {
    type V = Seq<Seq<char>>;

    /// The interned names, in the order in which they were issued.
    closed spec fn view(&self) -> Seq<Seq<char>> {
        Seq::new(self.names@.len(), |i: int| self.names@[i]@)
    }
}

impl Interner {
    /// No name is held twice, every position has a handle, and the index
    /// files every position, and nothing else, under the hash of its name.
    pub closed spec fn wf(&self) -> bool {
        &&& distinct_names(self@)
        &&& self@.len() <= u64::MAX
        &&& forall|i: int|
            0 <= i < self@.len() ==> self.index@.contains_key(name_hash(#[trigger] self@[i]))
                && self.index@[name_hash(self@[i])]@.contains(i as usize)
        &&& forall|hash: u64, j: int|
            self.index@.contains_key(hash) && 0 <= j < self.index@[hash]@.len() ==> (
            #[trigger] self.index@[hash]@[j]) < self@.len() && name_hash(
                self@[self.index@[hash]@[j] as int],
            ) == hash
    }

    /// In a well-formed table no name is held twice, and every position has
    /// a handle.
    pub proof fn lemma_wf(&self)
        requires
            self.wf(),
        ensures
            distinct_names(self@),
            self@.len() <= u64::MAX,
    {
    }

    /// An empty table.
    pub fn new() -> (interner: Interner)
        ensures
            interner.wf(),
            interner@ == Seq::<Seq<char>>::empty(),
    {
        let interner = Interner { names: Vec::new(), index: HashMap::new() };
        assert(interner@ =~= Seq::<Seq<char>>::empty());
        interner
    }

    /// The number of names interned so far.
    pub fn len(&self) -> (n: usize)
        ensures
            n == self@.len(),
    {
        self.names.len()
    }

    /// The position of `name` in the table, if it is there.
    fn position(&self, name: &str, hash: u64) -> (found: Option<usize>)
        requires
            self.wf(),
            hash == name_hash(name@),
        ensures
            match found {
                Some(i) => i < self@.len() && self@[i as int] == name@,
                None => !self@.contains(name@),
            },
    {
        broadcast use group_hash_axioms;

        let total = self.names.len();
        match self.index.get(&hash) {
            Some(filed) => {
                let mut j: usize = 0;
                while j < filed.len()
                    invariant
                        self.wf(),
                        total == self@.len(),
                        self.index@.contains_key(hash),
                        self.index@[hash] == *filed,
                        j <= filed@.len(),
                        forall|k: int| 0 <= k < j ==> self@[filed@[k] as int] != name@,
                    decreases filed@.len() - j,
                {
                    let i = filed[j];
                    assert(self.index@[hash]@[j as int] < self@.len());
                    if str_eq(self.names[i].as_str(), name) {
                        return Some(i);
                    }
                    j += 1;
                }
                proof {
                    if self@.contains(name@) {
                        let i = choose|i: int| 0 <= i < self@.len() && self@[i] == name@;
                        assert(self.index@[name_hash(self@[i])]@.contains(i as usize));
                        let k = choose|k: int| 0 <= k < filed@.len() && filed@[k] == i as usize;
                        assert(self@[filed@[k] as int] == name@);
                    }
                }
                None
            },
            None => {
                proof {
                    if self@.contains(name@) {
                        let i = choose|i: int| 0 <= i < self@.len() && self@[i] == name@;
                        assert(self.index@.contains_key(name_hash(self@[i])));
                    }
                }
                None
            },
        }
    }

    /// The handle of `name`, without interning it.
    pub fn get(&self, name: &str) -> (found: Option<Id>)
        requires
            self.wf(),
        ensures
            found == lookup(self@, name@),
            found matches Some(id) ==> name_at(self@, id) == Some(name@),
    {
        match self.position(name, hash_name(name)) {
            Some(i) => {
                proof {
                    let j = self@.index_of(name@);
                    assert(self@[j] == name@);
                    assert(j == i);
                    Id::lemma_index_at(i as nat);
                }
                Some(Id(i as u64))
            },
            None => None,
        }
    }

    /// The handle of `name`, interning it first if it is new.
    pub fn intern(&mut self, name: &str) -> (id: Id)
        requires
            old(self).wf(),
        ensures
            final(self).wf(),
            name_at(final(self)@, id) == Some(name@),
            lookup(final(self)@, name@) == Some(id),
            old(self)@.contains(name@) ==> final(self)@ == old(self)@,
            !old(self)@.contains(name@) ==> final(self)@ == old(self)@.push(name@),
    {
        broadcast use group_hash_axioms;

        let hash = hash_name(name);
        match self.position(name, hash) {
            Some(i) => {
                proof {
                    let j = self@.index_of(name@);
                    assert(self@[j] == name@);
                    assert(j == i);
                    Id::lemma_index_at(i as nat);
                }
                Id(i as u64)
            },
            None => {
                let n = self.names.len();
                let ghost before = self@;
                let ghost filed_before = self.index@;
                let mut filed = match self.index.remove(&hash) {
                    Some(filed) => filed,
                    None => Vec::new(),
                };
                let ghost held = filed@;
                filed.push(n);
                self.index.insert(hash, filed);
                self.names.push(name.to_owned());
                let _grown = self.names.len();
                proof {
                    let after = self@;
                    assert(after =~= before.push(name@));
                    assert(after.len() == _grown);
                    assert(after[n as int] == name@);
                    let j = after.index_of(name@);
                    assert(after[j] == name@);
                    assert(j == n);
                    Id::lemma_index_at(n as nat);
                    assert(self.index@[hash]@ == held.push(n));
                    assert forall|i: int| 0 <= i < after.len() implies self.index@.contains_key(
                        name_hash(#[trigger] after[i]),
                    ) && self.index@[name_hash(after[i])]@.contains(i as usize) by {
                        if i < n {
                            assert(after[i] == before[i]);
                            let at = name_hash(before[i]);
                            assert(filed_before.contains_key(at));
                            assert(filed_before[at]@.contains(i as usize));
                            if at == hash {
                                let k = choose|k: int|
                                    0 <= k < held.len() && held[k] == i as usize;
                                assert(held.push(n)[k] == i as usize);
                            }
                        } else {
                            assert(held.push(n)[held.len() as int] == n);
                        }
                    }
                    assert forall|other: u64, k: int|
                        self.index@.contains_key(other) && 0 <= k < self.index@[other]@.len()
                        implies (#[trigger] self.index@[other]@[k]) < after.len() && name_hash(
                        after[self.index@[other]@[k] as int],
                    ) == other by {
                        if other == hash {
                            if k < held.len() {
                                assert(filed_before.contains_key(hash));
                                assert(filed_before[hash]@[k] < before.len());
                                assert(after[held[k] as int] == before[held[k] as int]);
                            }
                        } else {
                            assert(filed_before.contains_key(other));
                            assert(filed_before[other]@[k] < before.len());
                            assert(after[filed_before[other]@[k] as int]
                                == before[filed_before[other]@[k] as int]);
                        }
                    }
                }
                Id(n as u64)
            },
        }
    }

    /// The name that `id` stands for, if this table issued it.
    pub fn resolve(&self, id: Id) -> (found: Option<&str>)
        ensures
            match found {
                Some(name) => name_at(self@, id) == Some(name@),
                None => name_at(self@, id) is None,
            },
    {
        if id.0 < self.names.len() as u64 {
            Some(self.names[id.0 as usize].as_str())
        } else {
            None
        }
    }
}

/// A handle resolves to the name that was interned under it, and a name that
/// is interned a second time keeps its handle.
pub proof fn lemma_interning_stable(names: Seq<Seq<char>>, name: Seq<char>)
    requires
        distinct_names(names),
        names.len() <= u64::MAX,
        names.contains(name),
    ensures
        lookup(names, name) matches Some(id) && name_at(names, id) == Some(name),
        forall|longer: Seq<Seq<char>>|
            names.is_prefix_of(longer) && distinct_names(longer) ==> #[trigger] lookup(longer, name)
                == lookup(names, name),
{
    let i = names.index_of(name);
    Id::lemma_index_at(i as nat);
    assert forall|longer: Seq<Seq<char>>|
        names.is_prefix_of(longer) && distinct_names(longer) implies #[trigger] lookup(longer, name)
        == lookup(names, name) by {
        assert(longer[i] == names[i]);
        assert(longer.contains(name));
        let j = longer.index_of(name);
        assert(longer[j] == name);
        assert(j == i);
    }
}

/// A handle that resolves in a table resolves to the same name in every
/// table grown from it.
pub proof fn lemma_resolve_stable(names: Seq<Seq<char>>, longer: Seq<Seq<char>>, id: Id)
    requires
        names.is_prefix_of(longer),
        name_at(names, id) is Some,
    ensures
        name_at(longer, id) == name_at(names, id),
{
}

/// Looking a resolved name up again gives the handle back.
pub proof fn lemma_lookup_of_name(names: Seq<Seq<char>>, id: Id)
    requires
        distinct_names(names),
        name_at(names, id) is Some,
    ensures
        lookup(names, name_at(names, id).unwrap()) == Some(id),
{
    let name = names[id.index() as int];
    let j = names.index_of(name);
    assert(names[j] == name);
    assert(j == id.index());
    id.lemma_at_index();
}

/// A name that was looked up resolves from the handle that was found.
pub proof fn lemma_name_of_lookup(names: Seq<Seq<char>>, name: Seq<char>)
    requires
        names.len() <= u64::MAX,
        lookup(names, name) is Some,
    ensures
        name_at(names, lookup(names, name).unwrap()) == Some(name),
{
    let j = names.index_of(name);
    assert(names[j] == name);
    Id::lemma_index_at(j as nat);
}

/// A stable name in its written form, as it stands in files.
#[derive(Debug, PartialEq, Eq)]
pub struct IdRaw {
    name: String,
}

impl View for IdRaw {
    type V = Seq<char>;

    /// The characters of the name.
    closed spec fn view(&self) -> Seq<char> {
        self.name@
    }
}

impl Clone for IdRaw {
    fn clone(&self) -> (copy: Self)
        ensures
            copy@ == self@,
    {
        IdRaw { name: self.name.clone() }
    }
}

impl IdRaw {
    /// Reads a written name.
    pub fn parse(text: &str) -> (raw: IdRaw)
        ensures
            raw@ == text@,
    {
        IdRaw { name: text.to_owned() }
    }

    /// The written form of the name.
    pub fn as_str(&self) -> (text: &str)
        ensures
            text@ == self@,
    {
        self.name.as_str()
    }

    /// The written form of the name, as an owned string.
    pub fn to_string(&self) -> (text: String)
        ensures
            text@ == self@,
    {
        self.name.clone()
    }

    /// The handle of this name in `interner`, interning the name if it is new.
    pub fn to_id(&self, interner: &mut Interner) -> (id: Id)
        requires
            old(interner).wf(),
        ensures
            final(interner).wf(),
            name_at(final(interner)@, id) == Some(self@),
            lookup(final(interner)@, self@) == Some(id),
            old(interner)@.contains(self@) ==> final(interner)@ == old(interner)@,
            !old(interner)@.contains(self@) ==> final(interner)@ == old(interner)@.push(self@),
    {
        interner.intern(self.name.as_str())
    }
}

} // verus!
