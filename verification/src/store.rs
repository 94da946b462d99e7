//! Durable, name-keyed storage of credential records.
//!
//! The store owns every persisted record and enforces that a name is taken
//! at most once: a create under an occupied name fails and never silently
//! overwrites. Its value is modelled as a map from names to record values,
//! together with the sequence of names in the order they were created.

use vstd::prelude::*;

use crate::record::CredentialRecord;
use crate::record::RecordView;
use crate::record::record_view_wf;

verus! {

/// Why a store operation failed.
#[derive(Debug)]
pub enum StoreError {
    /// A create under a name that is already occupied.
    AlreadyExists,
    /// A read of a name no record is stored under.
    NotFound,
    /// A durability failure (disk, permission, encoding); carries the
    /// underlying cause. Raised only by durable backends, never by the
    /// in-memory store itself.
    Io(String),
}

/// What a create does to the store's contents: under a fresh name the
/// record is added, under an occupied name nothing changes and the create
/// fails with [`StoreError::AlreadyExists`].
pub open spec fn spec_create(m: Map<Seq<char>, RecordView>, rec: RecordView) -> (Map<
    Seq<char>,
    RecordView,
>, Result<(), StoreError>) {
    if m.dom().contains(rec.name) {
        (m, Err(StoreError::AlreadyExists))
    } else {
        (m.insert(rec.name, rec), Ok(()))
    }
}

/// What a get returns: the record stored under the name, or
/// [`StoreError::NotFound`] if the name is unoccupied.
pub open spec fn spec_get(m: Map<Seq<char>, RecordView>, name: Seq<char>) -> Result<
    RecordView,
    StoreError,
> {
    if m.dom().contains(name) {
        Ok(m[name])
    } else {
        Err(StoreError::NotFound)
    }
}

/// The record-valued result of a get, field by field.
pub open spec fn get_result_view(r: Result<CredentialRecord, StoreError>) -> Result<
    RecordView,
    StoreError,
> {
    match r {
        Ok(rec) => Ok(rec@),
        Err(e) => Err(e),
    }
}

/// The name-keyed store of credential records.
#[derive(Debug)]
pub struct CredentialStateStore {
    entries: Vec<CredentialRecord>,
}

/// The map a sequence of records denotes: each record under its own name.
pub closed spec fn contents_of(entries: Seq<CredentialRecord>) -> Map<Seq<char>, RecordView>
    decreases entries.len(),
{
    if entries.len() == 0 {
        Map::empty()
    } else {
        contents_of(entries.drop_last()).insert(entries.last()@.name, entries.last()@)
    }
}

proof fn lemma_contents_dom(entries: Seq<CredentialRecord>, n: Seq<char>)
    ensures
        contents_of(entries).dom().contains(n) <==> exists|i: int|
            0 <= i < entries.len() && entries[i]@.name == n,
    decreases entries.len(),
{
    if entries.len() > 0 {
        let prefix = entries.drop_last();
        lemma_contents_dom(prefix, n);
        let last_index = entries.len() - 1;
        if contents_of(entries).dom().contains(n) {
            if n != entries.last()@.name {
                let i = choose|i: int| 0 <= i < prefix.len() && prefix[i]@.name == n;
                assert(entries[i]@.name == n);
            } else {
                assert(entries[last_index]@.name == n);
            }
        }
        if exists|i: int| 0 <= i < entries.len() && entries[i]@.name == n {
            let i = choose|i: int| 0 <= i < entries.len() && entries[i]@.name == n;
            if i < last_index {
                assert(prefix[i]@.name == n);
            }
        }
    }
}

proof fn lemma_contents_at(entries: Seq<CredentialRecord>, i: int)
    requires
        0 <= i < entries.len(),
        forall|a: int, b: int| 0 <= a < b < entries.len() ==> entries[a]@.name != entries[b]@.name,
    ensures
        contents_of(entries).dom().contains(entries[i]@.name),
        contents_of(entries)[entries[i]@.name] == entries[i]@,
    decreases entries.len(),
{
    let last_index = entries.len() - 1;
    if i < last_index {
        let prefix = entries.drop_last();
        lemma_contents_at(prefix, i);
        assert(entries[i]@.name != entries[last_index]@.name);
    }
}

impl CredentialStateStore {
    /// The names of the stored records, in the order they were created.
    pub closed spec fn names(&self) -> Seq<Seq<char>> {
        self.entries@.map_values(|r: CredentialRecord| r@.name)
    }

    /// The store's contents: each record under its unique name.
    pub closed spec fn contents(&self) -> Map<Seq<char>, RecordView> {
        contents_of(self.entries@)
    }

    /// Whether a record is stored under the name.
    pub open spec fn has_name(&self, name: Seq<char>) -> bool {
        self.contents().dom().contains(name)
    }

    /// The store's invariant: names are unique and non-empty, every name
    /// listed is a name stored and vice versa, and every stored record is
    /// well-formed and keyed by its own name.
    pub open spec fn wf(&self) -> bool {
        &&& forall|i: int, j: int|
            0 <= i < j < self.names().len() ==> self.names()[i] != self.names()[j]
        &&& forall|i: int| 0 <= i < self.names().len() ==> #[trigger] self.names()[i].len() > 0
        &&& forall|n: Seq<char>|
            #![trigger self.contents().dom().contains(n)]
            #![trigger self.names().contains(n)]
            self.contents().dom().contains(n) <==> self.names().contains(n)
        &&& forall|n: Seq<char>| #[trigger]
            self.contents().dom().contains(n) ==> record_view_wf(self.contents()[n])
                && self.contents()[n].name == n
    }

    /// An empty store: no records, no names.
    pub fn new() -> (r: Self)
        ensures
            r.wf(),
            r.contents() == Map::<Seq<char>, RecordView>::empty(),
            r.names() == Seq::<Seq<char>>::empty(),
    {
        let st = CredentialStateStore { entries: Vec::new() };
        proof {
            assert(st.names() =~= Seq::<Seq<char>>::empty());
            assert(st.contents() =~= Map::<Seq<char>, RecordView>::empty());
        }
        st
    }

    fn position_of(&self, name: &str) -> (r: Option<usize>)
        ensures
            r matches Some(i) ==> i < self.entries@.len() && self.entries@[i as int]@.name
                == name@,
            r is None ==> forall|i: int|
                0 <= i < self.entries@.len() ==> self.entries@[i]@.name != name@,
    {
        let mut i: usize = 0;
        while i < self.entries.len()
            invariant
                i <= self.entries@.len(),
                forall|j: int| 0 <= j < i ==> self.entries@[j]@.name != name@,
            decreases self.entries@.len() - i,
        {
            if str_eq(self.entries[i].name(), name) {
                return Some(i);
            }
            i += 1;
        }
        None
    }

    /// Whether a record is already stored under the name.
    pub fn contains(&self, name: &str) -> (r: bool)
        ensures
            r == self.has_name(name@),
    {
        proof {
            lemma_contents_dom(self.entries@, name@);
        }
        self.position_of(name).is_some()
    }

    /// Persists the record under its own name. Fails with
    /// [`StoreError::AlreadyExists`] if the name is already occupied — the
    /// store never silently overwrites — and in that case changes nothing.
    pub fn create(&mut self, record: CredentialRecord) -> (r: Result<(), StoreError>)
        requires
            old(self).wf(),
            record.wf(),
        ensures
            final(self).wf(),
            final(self).contents() == spec_create(old(self).contents(), record@).0,
            r == spec_create(old(self).contents(), record@).1,
            r is Ok <==> !old(self).has_name(record@.name),
            r is Ok ==> final(self).names() == old(self).names().push(record@.name),
            r is Err ==> final(self).names() == old(self).names(),
    {
        proof {
            lemma_contents_dom(self.entries@, record@.name);
        }
        match self.position_of(record.name()) {
            Some(_) => {
                proof {
                    assert(old(self).has_name(record@.name));
                }
                Err(StoreError::AlreadyExists)
            },
            None => {
                proof {
                    assert(!old(self).has_name(record@.name));
                }
                let ghost old_entries = self.entries@;
                let ghost old_names = old(self).names();
                let ghost old_contents = old(self).contents();
                self.entries.push(record);
                proof {
                    assert(self.entries@.drop_last() =~= old_entries);
                    assert(self.contents() == old_contents.insert(record@.name, record@));
                    assert(self.names() =~= old_names.push(record@.name));
                    assert(!old_names.contains(record@.name));
                    assert forall|i: int, j: int|
                        0 <= i < j < self.names().len() implies self.names()[i]
                        != self.names()[j] by {
                        if j == self.names().len() - 1 {
                            if self.names()[i] == record@.name {
                                assert(old_names[i] == record@.name);
                                assert(old_names.contains(record@.name));
                            }
                        }
                    }
                    assert forall|i: int| 0 <= i < self.names().len() implies #[trigger] self.names()[i].len()
                        > 0 by {
                        if i < self.names().len() - 1 {
                            assert(old_names[i].len() > 0);
                        }
                    }
                    assert forall|n: Seq<char>|
                        (self.contents().dom().contains(n) <==> self.names().contains(n)) by {
                        lemma_push_contains(old_names, record@.name, n);
                    }
                    assert forall|n: Seq<char>| #[trigger]
                        self.contents().dom().contains(n) implies record_view_wf(
                        self.contents()[n],
                    ) && self.contents()[n].name == n by {
                        if n != record@.name {
                            assert(old_contents.dom().contains(n));
                        }
                    }
                }
                Ok(())
            },
        }
    }

    /// Retrieves the record stored under the name, equal in every field to
    /// the record that was created; fails with [`StoreError::NotFound`] if
    /// the name is unoccupied.
    pub fn get(&self, name: &str) -> (r: Result<CredentialRecord, StoreError>)
        requires
            self.wf(),
        ensures
            get_result_view(r) == spec_get(self.contents(), name@),
            r is Ok <==> self.has_name(name@),
    {
        proof {
            lemma_contents_dom(self.entries@, name@);
        }
        match self.position_of(name) {
            Some(i) => {
                proof {
                    lemma_names_unique_entries(*self);
                    lemma_contents_at(self.entries@, i as int);
                }
                Ok(self.entries[i].clone())
            },
            None => Err(StoreError::NotFound),
        }
    }

    /// The stored names, in creation order.
    pub fn list(&self) -> (r: Vec<String>)
        ensures
            r@.len() == self.names().len(),
            forall|i: int| 0 <= i < r@.len() ==> #[trigger] r@[i]@ == self.names()[i],
    {
        let mut out: Vec<String> = Vec::new();
        let mut i: usize = 0;
        while i < self.entries.len()
            invariant
                i <= self.entries@.len(),
                out@.len() == i,
                forall|j: int| 0 <= j < i ==> #[trigger] out@[j]@ == self.entries@[j]@.name,
            decreases self.entries@.len() - i,
        {
            out.push(self.entries[i].name().to_owned());
            i += 1;
        }
        out
    }
}

fn str_eq(a: &str, b: &str) -> (r: bool)
    ensures
        r == (a@ == b@),
{
    let la = a.unicode_len();
    let lb = b.unicode_len();
    if la != lb {
        return false;
    }
    let mut i: usize = 0;
    while i < la
        invariant
            la == a@.len(),
            la == b@.len(),
            i <= la,
            forall|j: int| 0 <= j < i ==> a@[j] == b@[j],
        decreases la - i,
    {
        if a.get_char(i) != b.get_char(i) {
            return false;
        }
        i += 1;
    }
    proof {
        assert(a@ =~= b@);
    }
    true
}

proof fn lemma_names_unique_entries(st: CredentialStateStore)
    requires
        st.wf(),
    ensures
        forall|a: int, b: int|
            0 <= a < b < st.entries@.len() ==> st.entries@[a]@.name != st.entries@[b]@.name,
{
    assert forall|a: int, b: int|
        0 <= a < b < st.entries@.len() implies st.entries@[a]@.name != st.entries@[b]@.name by {
        assert(st.names()[a] == st.entries@[a]@.name);
        assert(st.names()[b] == st.entries@[b]@.name);
    }
}

proof fn lemma_push_contains(s: Seq<Seq<char>>, x: Seq<char>, y: Seq<char>)
    ensures
        s.push(x).contains(y) <==> (s.contains(y) || y == x),
{
    if s.contains(y) {
        let i = choose|i: int| 0 <= i < s.len() && s[i] == y;
        assert(s.push(x)[i] == y);
    }
    if y == x {
        assert(s.push(x)[s.len() as int] == y);
    }
    if s.push(x).contains(y) && y != x {
        let i = choose|i: int| 0 <= i < s.push(x).len() && s.push(x)[i] == y;
        assert(s[i] == y);
    }
}

/// Uniqueness law: once a create under a name has succeeded, every later
/// create under the same name — whatever record it carries — fails with
/// [`StoreError::AlreadyExists`], changes nothing, and the record stored
/// under the name remains the first one.
pub proof fn lemma_create_enforces_uniqueness(
    m: Map<Seq<char>, RecordView>,
    first: RecordView,
    second: RecordView,
)
    requires
        spec_create(m, first).1 is Ok,
        second.name == first.name,
    ensures
        spec_create(spec_create(m, first).0, second) == (
            spec_create(m, first).0,
            Err::<(), StoreError>(StoreError::AlreadyExists),
        ),
        spec_get(spec_create(m, first).0, first.name) == Ok::<RecordView, StoreError>(first),
{
}

/// Round-trip law: creating a record under a name not yet present always
/// succeeds, and a get of that name returns the record, equal in every
/// field; every other name is left untouched.
pub proof fn lemma_create_get_round_trip(m: Map<Seq<char>, RecordView>, rec: RecordView)
    requires
        !m.dom().contains(rec.name),
    ensures
        spec_create(m, rec).1 == Ok::<(), StoreError>(()),
        spec_get(spec_create(m, rec).0, rec.name) == Ok::<RecordView, StoreError>(rec),
        forall|n: Seq<char>|
            n != rec.name ==> #[trigger] spec_get(spec_create(m, rec).0, n) == spec_get(m, n),
{
}

} // verus!
