//! The asset registry: one typed storage per asset type, with built values
//! keyed by numeric id, an ordered list of live handles, a name map, and a
//! queue of not-yet-built entries ("import now, build later").
//!
//! Each asset type gets its own `AssetStorage<A>`, one typed slot per
//! known asset type, so there is no type-erased table to register and no
//! way to reach for a table that does not exist.
//!
//! The registry keeps a strong handle to every entry it has given a name,
//! including entries whose build failed, so an id it maps a name to is
//! always resolvable and is never reused. Within one asset type an id
//! identifies at most one entry.

use vstd::prelude::*;
use crate::error::AssetError;
use crate::handle::AssetHandle;
use crate::handle::HandleAllocator;

verus! {

/// An asset type: how its raw bytes decode to an intermediate value, and
/// which built data type the registry stores for it.
pub trait Asset {
    type Data;

    type Intermediate;

    /// The type's decode step: read the named blob(s) from the source and
    /// produce the not-yet-built intermediate representation.
    fn import<S: DataSource>(name: &str, source: &S) -> Result<Self::Intermediate, AssetError>;
}

/// One binary lump format: decoding one named blob into records.
pub trait AssetFormat: Clone {
    type Asset;

    fn import<S: DataSource>(&self, name: &str, source: &S) -> Result<Self::Asset, AssetError>;
}

/// The abstract read contract of the archive that levels come from.
pub trait DataSource {
    /// The bytes stored under `path`, failing if it is absent.
    fn load(&self, path: &str) -> Result<Vec<u8>, AssetError>;

    /// Every name the source can serve.
    fn names(&self) -> Vec<String>;
}

/// Builds one asset type's intermediates into data, carrying whatever
/// context the build needs (other storages, names); `inv` is whatever
/// well-formedness that context maintains across builds.
pub trait AssetBuilder<A: Asset> {
    spec fn inv(&self) -> bool;

    fn build<S: DataSource>(&mut self, intermediate: A::Intermediate, source: &S) -> (r: Result<
        A::Data,
        AssetError,
    >)
        requires
            old(self).inv(),
        ensures
            final(self).inv(),
    ;
}

/// The mathematical state of one asset storage.
#[verifier::ext_equal]
pub struct StorageModel<A: Asset> {
    /// Built values by id.
    pub assets: Map<u64, A::Data>,
    /// Ids of built entries in insertion order (an id repeats if an entry
    /// was rebuilt).
    pub handle_ids: Seq<u64>,
    /// Live name mapping.
    pub names: Map<Seq<char>, u64>,
    /// Queued entries: id, captured decode result, originating name.
    pub unbuilt: Seq<(u64, Result<A::Intermediate, AssetError>, Seq<char>)>,
    /// Ids whose build failed: allocated, named, permanently unresolved.
    pub failed_ids: Seq<u64>,
    /// The highest id handed out so far.
    pub next_id: u64,
}

/// The empty storage state.
pub open spec fn storage_empty<A: Asset>() -> StorageModel<A> {
    StorageModel {
        assets: Map::empty(),
        handle_ids: Seq::empty(),
        names: Map::empty(),
        unbuilt: Seq::empty(),
        failed_ids: Seq::empty(),
        next_id: 0,
    }
}

/// The association of an id-keyed pair list, later pairs winning.
pub open spec fn id_map<V>(s: Seq<(u64, V)>) -> Map<u64, V>
    decreases s.len(),
{
    if s.len() == 0 {
        Map::empty()
    } else {
        id_map(s.drop_last()).insert(s.last().0, s.last().1)
    }
}

/// The association of a name-keyed pair list, later pairs winning.
pub open spec fn name_map(s: Seq<(String, u64)>) -> Map<Seq<char>, u64>
    decreases s.len(),
{
    if s.len() == 0 {
        Map::empty()
    } else {
        name_map(s.drop_last()).insert(s.last().0@, s.last().1)
    }
}

pub open spec fn ids_distinct<V>(s: Seq<(u64, V)>) -> bool {
    forall|i: int, j: int| 0 <= i < j < s.len() ==> s[i].0 != s[j].0
}

pub open spec fn names_distinct(s: Seq<(String, u64)>) -> bool {
    forall|i: int, j: int| 0 <= i < j < s.len() ==> s[i].0@ != s[j].0@
}

proof fn lemma_id_map_contains<V>(s: Seq<(u64, V)>, k: u64)
    ensures
        id_map(s).contains_key(k) <==> exists|i: int| 0 <= i < s.len() && s[i].0 == k,
    decreases s.len(),
{
    if s.len() > 0 {
        lemma_id_map_contains(s.drop_last(), k);
        if id_map(s).contains_key(k) {
            if s.last().0 == k {
                assert(s[s.len() - 1].0 == k);
            } else {
                let i = choose|i: int| 0 <= i < s.drop_last().len() && s.drop_last()[i].0 == k;
                assert(s[i].0 == k);
            }
        }
        if exists|i: int| 0 <= i < s.len() && s[i].0 == k {
            let i = choose|i: int| 0 <= i < s.len() && s[i].0 == k;
            if i < s.len() - 1 {
                assert(s.drop_last()[i].0 == k);
            }
        }
    }
}

proof fn lemma_id_map_get<V>(s: Seq<(u64, V)>, i: int)
    requires
        ids_distinct(s),
        0 <= i < s.len(),
    ensures
        id_map(s).contains_key(s[i].0),
        id_map(s)[s[i].0] == s[i].1,
    decreases s.len(),
{
    if i == s.len() - 1 {
    } else {
        assert(ids_distinct(s.drop_last()));
        assert(s.drop_last()[i] == s[i]);
        lemma_id_map_get(s.drop_last(), i);
        assert(s[i].0 != s.last().0);
    }
}

proof fn lemma_id_map_update<V>(s: Seq<(u64, V)>, i: int, v: V)
    requires
        ids_distinct(s),
        0 <= i < s.len(),
    ensures
        ids_distinct(s.update(i, (s[i].0, v))),
        id_map(s.update(i, (s[i].0, v))) =~= id_map(s).insert(s[i].0, v),
    decreases s.len(),
{
    let t = s.update(i, (s[i].0, v));
    assert(forall|a: int, b: int| 0 <= a < b < t.len() ==> t[a].0 == s[a].0 && t[b].0 == s[b].0);
    if i == s.len() - 1 {
        assert(t.drop_last() =~= s.drop_last());
        assert(t.last() == (s[i].0, v));
    } else {
        assert(t.last() == s.last());
        assert(t.drop_last() =~= s.drop_last().update(i, (s[i].0, v)));
        assert(ids_distinct(s.drop_last()));
        assert(s.drop_last()[i] == s[i]);
        lemma_id_map_update(s.drop_last(), i, v);
        lemma_id_map_get(s, i);
        assert(s[i].0 != s.last().0);
        assert(id_map(t) =~= id_map(s.drop_last()).insert(s[i].0, v).insert(
            s.last().0,
            s.last().1,
        ));
        assert(id_map(s).insert(s[i].0, v) =~= id_map(s.drop_last()).insert(
            s.last().0,
            s.last().1,
        ).insert(s[i].0, v));
    }
}

proof fn lemma_name_map_contains(s: Seq<(String, u64)>, k: Seq<char>)
    ensures
        name_map(s).contains_key(k) <==> exists|i: int| 0 <= i < s.len() && s[i].0@ == k,
    decreases s.len(),
{
    if s.len() > 0 {
        lemma_name_map_contains(s.drop_last(), k);
        if name_map(s).contains_key(k) {
            if s.last().0@ == k {
                assert(s[s.len() - 1].0@ == k);
            } else {
                let i = choose|i: int| 0 <= i < s.drop_last().len() && s.drop_last()[i].0@ == k;
                assert(s[i].0@ == k);
            }
        }
        if exists|i: int| 0 <= i < s.len() && s[i].0@ == k {
            let i = choose|i: int| 0 <= i < s.len() && s[i].0@ == k;
            if i < s.len() - 1 {
                assert(s.drop_last()[i].0@ == k);
            }
        }
    }
}

proof fn lemma_name_map_get(s: Seq<(String, u64)>, i: int)
    requires
        names_distinct(s),
        0 <= i < s.len(),
    ensures
        name_map(s).contains_key(s[i].0@),
        name_map(s)[s[i].0@] == s[i].1,
    decreases s.len(),
{
    if i == s.len() - 1 {
    } else {
        assert(names_distinct(s.drop_last()));
        assert(s.drop_last()[i] == s[i]);
        lemma_name_map_get(s.drop_last(), i);
        assert(s[i].0@ != s.last().0@);
    }
}

/// The id that resolving `name` yields: the mapped id if the name is
/// live, else the next fresh id.
pub open spec fn resolve_id<A: Asset>(m: StorageModel<A>, name: Seq<char>) -> u64 {
    if m.names.contains_key(name) {
        m.names[name]
    } else {
        (m.next_id + 1) as u64
    }
}

/// The state after `load` of a fresh name whose decode step returned
/// `imported`: the name is registered and one entry is queued.
pub open spec fn load_post<A: Asset>(
    m: StorageModel<A>,
    name: Seq<char>,
    imported: Result<A::Intermediate, AssetError>,
) -> StorageModel<A> {
    if m.names.contains_key(name) {
        m
    } else {
        StorageModel {
            names: m.names.insert(name, (m.next_id + 1) as u64),
            unbuilt: m.unbuilt.push((((m.next_id + 1) as u64), imported, name)),
            next_id: (m.next_id + 1) as u64,
            ..m
        }
    }
}

/// The state after `insert`: a fresh id maps to the value and its handle
/// joins the iteration order.
pub open spec fn insert_post<A: Asset>(m: StorageModel<A>, value: A::Data) -> StorageModel<A> {
    StorageModel {
        assets: m.assets.insert((m.next_id + 1) as u64, value),
        handle_ids: m.handle_ids.push((m.next_id + 1) as u64),
        next_id: (m.next_id + 1) as u64,
        ..m
    }
}

/// The state after `insert_with_name`: an in-place replacement under the
/// existing handle if the name is live, else a fresh named entry.
pub open spec fn insert_with_name_post<A: Asset>(
    m: StorageModel<A>,
    name: Seq<char>,
    value: A::Data,
) -> StorageModel<A> {
    if m.names.contains_key(name) {
        StorageModel { assets: m.assets.insert(m.names[name], value), ..m }
    } else {
        StorageModel {
            assets: m.assets.insert((m.next_id + 1) as u64, value),
            handle_ids: m.handle_ids.push((m.next_id + 1) as u64),
            names: m.names.insert(name, (m.next_id + 1) as u64),
            next_id: (m.next_id + 1) as u64,
            ..m
        }
    }
}

/// What a name currently resolves to: the built value of its live entry,
/// if that entry has one.
pub open spec fn lookup_name<A: Asset>(m: StorageModel<A>, name: Seq<char>) -> Option<A::Data> {
    if m.names.contains_key(name) && m.assets.contains_key(m.names[name]) {
        Some(m.assets[m.names[name]])
    } else {
        None
    }
}

/// One typed table of the registry.
pub struct AssetStorage<A: Asset> {
    allocator: HandleAllocator,
    assets: Vec<(u64, A::Data)>,
    handles: Vec<AssetHandle<A>>,
    names: Vec<(String, u64)>,
    unbuilt: Vec<(AssetHandle<A>, Result<A::Intermediate, AssetError>, String)>,
    failed: Vec<AssetHandle<A>>,
}

impl<A: Asset> View for AssetStorage<A> {
    type V = StorageModel<A>;

    closed spec fn view(&self) -> StorageModel<A> {
        StorageModel {
            assets: id_map(self.assets@),
            handle_ids: self.handles@.map_values(|h: AssetHandle<A>| h@),
            names: name_map(self.names@),
            unbuilt: self.unbuilt@.map_values(
                |e: (AssetHandle<A>, Result<A::Intermediate, AssetError>, String)|
                    (e.0@, e.1, e.2@),
            ),
            failed_ids: self.failed@.map_values(|h: AssetHandle<A>| h@),
            next_id: self.allocator@,
        }
    }
}

impl<A: Asset> AssetStorage<A> {
    /// Whether some strong handle with this id is retained by the storage
    /// itself (built, queued, or failed).
    spec fn retained(&self, id: u64) -> bool {
        ||| exists|i: int| 0 <= i < self.handles@.len() && self.handles@[i]@ == id
        ||| exists|i: int| 0 <= i < self.unbuilt@.len() && self.unbuilt@[i].0@ == id
        ||| exists|i: int| 0 <= i < self.failed@.len() && self.failed@[i]@ == id
    }

    /// The storage's internal invariant: distinct asset ids and names, no
    /// id above the allocator's counter, every named id retained, every
    /// listed handle resolvable to a built value.
    pub closed spec fn wf(&self) -> bool {
        &&& ids_distinct(self.assets@)
        &&& names_distinct(self.names@)
        &&& forall|i: int| 0 <= i < self.names@.len() ==> self.retained(#[trigger] self.names@[i].1)
        &&& forall|i: int|
            0 <= i < self.assets@.len() ==> 1 <= (#[trigger] self.assets@[i]).0 <= self.allocator@
        &&& forall|i: int|
            0 <= i < self.unbuilt@.len() ==> 1 <= (#[trigger] self.unbuilt@[i]).0@
                <= self.allocator@
        &&& forall|i: int|
            0 <= i < self.failed@.len() ==> 1 <= (#[trigger] self.failed@[i])@ <= self.allocator@
        &&& forall|i: int|
            0 <= i < self.handles@.len() ==> id_map(self.assets@).contains_key(
                #[trigger] self.handles@[i]@,
            )
    }

    pub fn new() -> (r: AssetStorage<A>)
        ensures
            r.wf(),
            r@ =~= storage_empty::<A>(),
    {
        let r = AssetStorage {
            allocator: HandleAllocator::new(),
            assets: Vec::new(),
            handles: Vec::new(),
            names: Vec::new(),
            unbuilt: Vec::new(),
            failed: Vec::new(),
        };
        proof {
            assert(r@ =~= storage_empty::<A>());
        }
        r
    }

    /// The highest id handed out so far; ids stay within this bound.
    pub fn next_id(&self) -> (r: u64)
        ensures
            r == self@.next_id,
    {
        self.allocator.current()
    }

    /// The id the name map holds for `name`, if any.
    fn find_name(&self, name: &str) -> (r: Option<u64>)
        requires
            self.wf(),
        ensures
            match r {
                Some(id) => self@.names.contains_key(name@) && id == self@.names[name@],
                None => !self@.names.contains_key(name@),
            },
    {
        let owned: String = name.to_owned();
        let mut i: usize = 0;
        while i < self.names.len()
            invariant
                self.wf(),
                i <= self.names@.len(),
                owned@ == name@,
                forall|k: int| 0 <= k < i ==> self.names@[k].0@ != name@,
            decreases self.names@.len() - i,
        {
            if self.names[i].0 == owned {
                proof {
                    lemma_name_map_get(self.names@, i as int);
                }
                return Some(self.names[i].1);
            }
            i = i + 1;
        }
        proof {
            lemma_name_map_contains(self.names@, name@);
        }
        None
    }

    /// A clone of a retained strong handle with this id, if one exists.
    fn find_retained(&self, id: u64) -> (r: Option<AssetHandle<A>>)
        ensures
            r is Some ==> r->0@ == id,
            self.retained(id) ==> r is Some,
    {
        let mut i: usize = 0;
        while i < self.handles.len()
            invariant
                i <= self.handles@.len(),
                forall|k: int| 0 <= k < i ==> self.handles@[k]@ != id,
            decreases self.handles@.len() - i,
        {
            if self.handles[i].id() == id {
                return Some(self.handles[i].clone());
            }
            i = i + 1;
        }
        let mut i: usize = 0;
        while i < self.unbuilt.len()
            invariant
                i <= self.unbuilt@.len(),
                forall|k: int| 0 <= k < i ==> self.unbuilt@[k].0@ != id,
            decreases self.unbuilt@.len() - i,
        {
            if self.unbuilt[i].0.id() == id {
                return Some(self.unbuilt[i].0.clone());
            }
            i = i + 1;
        }
        let mut i: usize = 0;
        while i < self.failed.len()
            invariant
                i <= self.failed@.len(),
                forall|k: int| 0 <= k < i ==> self.failed@[k]@ != id,
            decreases self.failed@.len() - i,
        {
            if self.failed[i].id() == id {
                return Some(self.failed[i].clone());
            }
            i = i + 1;
        }
        None
    }

    /// Store `value` under `id`, replacing the entry if the id is present.
    fn put_asset(&mut self, id: u64, value: A::Data)
        requires
            ids_distinct(old(self).assets@),
        ensures
            ids_distinct(final(self).assets@),
            id_map(final(self).assets@) == id_map(old(self).assets@).insert(id, value),
            forall|i: int|
                0 <= i < final(self).assets@.len() ==> (#[trigger] final(self).assets@[i]).0 == id
                    || exists|j: int|
                    0 <= j < old(self).assets@.len() && old(self).assets@[j].0
                        == final(self).assets@[i].0,
            final(self).allocator == old(self).allocator,
            final(self).handles == old(self).handles,
            final(self).names == old(self).names,
            final(self).unbuilt == old(self).unbuilt,
            final(self).failed == old(self).failed,
    {
        match self.find_asset_index(id) {
            Some(i) => {
                proof {
                    lemma_id_map_update(self.assets@, i as int, value);
                }
                let entry = &mut self.assets[i];
                entry.1 = value;
                proof {
                    assert(self.assets@ =~= old(self).assets@.update(i as int, (id, value)));
                }
            },
            None => {
                proof {
                    lemma_id_map_contains(self.assets@, id);
                }
                self.assets.push((id, value));
                proof {
                    assert(self.assets@.drop_last() =~= old(self).assets@);
                    assert(id_map(self.assets@) =~= id_map(old(self).assets@).insert(id, value));
                    assert(ids_distinct(self.assets@));
                }
            },
        }
    }

    /// The position of the entry stored under `id`, if any.
    fn find_asset_index(&self, id: u64) -> (r: Option<usize>)
        ensures
            match r {
                Some(i) => i < self.assets@.len() && self.assets@[i as int].0 == id,
                None => forall|k: int| 0 <= k < self.assets@.len() ==> self.assets@[k].0 != id,
            },
    {
        let mut i: usize = 0;
        while i < self.assets.len()
            invariant
                i <= self.assets@.len(),
                forall|k: int| 0 <= k < i ==> self.assets@[k].0 != id,
            decreases self.assets@.len() - i,
        {
            if self.assets[i].0 == id {
                return Some(i);
            }
            i = i + 1;
        }
        None
    }

    /// The built value for a handle, or `None` if its entry has no built
    /// value (never built, or build failed).
    pub fn get(&self, handle: &AssetHandle<A>) -> (r: Option<&A::Data>)
        requires
            self.wf(),
        ensures
            match r {
                Some(v) => self@.assets.contains_key(handle@) && *v == self@.assets[handle@],
                None => !self@.assets.contains_key(handle@),
            },
    {
        let id = handle.id();
        self.get_by_id(id)
    }

    /// The built value stored under a raw id.
    fn get_by_id(&self, id: u64) -> (r: Option<&A::Data>)
        requires
            ids_distinct(self.assets@),
        ensures
            match r {
                Some(v) => id_map(self.assets@).contains_key(id) && *v == id_map(self.assets@)[id],
                None => !id_map(self.assets@).contains_key(id),
            },
    {
        let mut i: usize = 0;
        while i < self.assets.len()
            invariant
                ids_distinct(self.assets@),
                i <= self.assets@.len(),
                forall|k: int| 0 <= k < i ==> self.assets@[k].0 != id,
            decreases self.assets@.len() - i,
        {
            if self.assets[i].0 == id {
                proof {
                    lemma_id_map_get(self.assets@, i as int);
                }
                return Some(&self.assets[i].1);
            }
            i = i + 1;
        }
        proof {
            lemma_id_map_contains(self.assets@, id);
        }
        None
    }
}

impl<A: Asset> AssetStorage<A> {
    /// From the invariant: a named id is always retained.
    proof fn lemma_named_retained(&self, name: Seq<char>)
        requires
            self.wf(),
            self@.names.contains_key(name),
        ensures
            self.retained(self@.names[name]),
            1 <= self@.names[name] <= self@.next_id,
    {
        lemma_name_map_contains(self.names@, name);
        let i = choose|i: int| 0 <= i < self.names@.len() && self.names@[i].0@ == name;
        lemma_name_map_get(self.names@, i);
        assert(self.retained(self.names@[i].1));
        if exists|k: int| 0 <= k < self.handles@.len() && self.handles@[k]@ == self.names@[i].1 {
            let k = choose|k: int|
                0 <= k < self.handles@.len() && self.handles@[k]@ == self.names@[i].1;
            lemma_id_map_contains(self.assets@, self.handles@[k]@);
            let j = choose|j: int|
                0 <= j < self.assets@.len() && self.assets@[j].0 == self.handles@[k]@;
            assert(1 <= self.assets@[j].0 <= self.allocator@);
        }
    }

    /// Place an already-built value directly, under a fresh handle.
    pub fn insert(&mut self, asset: A::Data) -> (r: AssetHandle<A>)
        requires
            old(self).wf(),
            old(self)@.next_id < u64::MAX,
        ensures
            final(self).wf(),
            r@ == old(self)@.next_id + 1,
            final(self)@ == insert_post::<A>(old(self)@, asset),
    {
        let handle = self.allocator.allocate();
        self.put_asset(handle.id(), asset);
        self.handles.push(handle.clone());
        proof {
            assert(self.handles@.drop_last() =~= old(self).handles@);
            assert(self@.handle_ids =~= old(self)@.handle_ids.push(handle@));
            assert(self@ =~= insert_post::<A>(old(self)@, asset));
        }
        handle
    }

    /// Place an already-built value under a name: reuse the existing
    /// handle if the name is live (an in-place replacement), else allocate
    /// a fresh named handle.
    pub fn insert_with_name(&mut self, name: &str, asset: A::Data) -> (r: AssetHandle<A>)
        requires
            old(self).wf(),
            old(self)@.next_id < u64::MAX,
        ensures
            final(self).wf(),
            r@ == resolve_id::<A>(old(self)@, name@),
            final(self)@ == insert_with_name_post::<A>(old(self)@, name@, asset),
    {
        match self.find_name(name) {
            Some(id) => {
                proof {
                    self.lemma_named_retained(name@);
                }
                let handle = self.find_retained(id).unwrap();
                self.put_asset(id, asset);
                proof {
                    assert(self@ =~= insert_with_name_post::<A>(old(self)@, name@, asset));
                }
                handle
            },
            None => {
                let handle = self.allocator.allocate();
                self.put_asset(handle.id(), asset);
                self.handles.push(handle.clone());
                self.names.push((name.to_owned(), handle.id()));
                proof {
                    lemma_name_map_contains(old(self).names@, name@);
                    assert(self.names@.drop_last() =~= old(self).names@);
                    assert(self.handles@.drop_last() =~= old(self).handles@);
                    assert(self@.handle_ids =~= old(self)@.handle_ids.push(handle@));
                    assert(self@ =~= insert_with_name_post::<A>(old(self)@, name@, asset));
                    assert forall|i: int| 0 <= i < self.names@.len() implies self.retained(
                        #[trigger] self.names@[i].1,
                    ) by {
                        if i < self.names@.len() - 1 {
                            assert(old(self).retained(old(self).names@[i].1));
                        } else {
                            assert(self.handles@[self.handles@.len() - 1]@ == handle@);
                        }
                    }
                }
                handle
            },
        }
    }

    /// Resolve a name to its live handle, or allocate one, register the
    /// name, run the type's decode step and queue the entry for building.
    /// A decode failure is captured in the queue, not raised.
    pub fn load<S: DataSource>(&mut self, name: &str, source: &S) -> (r: AssetHandle<A>)
        requires
            old(self).wf(),
            old(self)@.next_id < u64::MAX,
        ensures
            final(self).wf(),
            r@ == resolve_id::<A>(old(self)@, name@),
            old(self)@.names.contains_key(name@) ==> final(self)@ == old(self)@,
            !old(self)@.names.contains_key(name@) ==> exists|
                im: Result<A::Intermediate, AssetError>,
            |
                final(self)@ == #[trigger] load_post::<A>(old(self)@, name@, im),
            final(self)@.names.contains_key(name@),
            final(self)@.names[name@] == r@,
            final(self)@.assets == old(self)@.assets,
            final(self)@.handle_ids == old(self)@.handle_ids,
            final(self)@.failed_ids == old(self)@.failed_ids,
            old(self)@.names.submap_of(final(self)@.names),
            old(self)@.unbuilt.is_prefix_of(final(self)@.unbuilt),
            old(self)@.next_id <= final(self)@.next_id <= old(self)@.next_id + 1,
    {
        match self.find_name(name) {
            Some(id) => {
                proof {
                    self.lemma_named_retained(name@);
                    assert(old(self)@.unbuilt.is_prefix_of(self@.unbuilt));
                }
                self.find_retained(id).unwrap()
            },
            None => {
                let handle = self.allocator.allocate();
                self.names.push((name.to_owned(), handle.id()));
                let imported = A::import::<S>(name, source);
                let ghost im = imported;
                self.unbuilt.push((handle.clone(), imported, name.to_owned()));
                proof {
                    lemma_name_map_contains(old(self).names@, name@);
                    assert(self.names@.drop_last() =~= old(self).names@);
                    assert(self.unbuilt@.drop_last() =~= old(self).unbuilt@);
                    assert(self@.unbuilt =~= old(self)@.unbuilt.push((handle@, im, name@)));
                    assert(self@ =~= load_post::<A>(old(self)@, name@, im));
                    lemma_name_map_get(self.names@, self.names@.len() - 1);
                    assert forall|i: int| 0 <= i < self.names@.len() implies self.retained(
                        #[trigger] self.names@[i].1,
                    ) by {
                        if i < self.names@.len() - 1 {
                            assert(old(self).retained(old(self).names@[i].1));
                        } else {
                            assert(self.unbuilt@[self.unbuilt@.len() - 1].0@ == handle@);
                        }
                    }
                    assert(old(self)@.unbuilt.is_prefix_of(self@.unbuilt));
                }
                handle
            },
        }
    }

    /// The built value a name currently resolves to.
    pub fn get_by_name(&self, name: &str) -> (r: Option<&A::Data>)
        requires
            self.wf(),
        ensures
            match r {
                Some(v) => lookup_name::<A>(self@, name@) == Some(*v),
                None => lookup_name::<A>(self@, name@) is None,
            },
    {
        match self.find_name(name) {
            Some(id) => self.get_by_id(id),
            None => None,
        }
    }

    /// The live handle registered under a name, if any.
    pub fn handle_for(&self, name: &str) -> (r: Option<AssetHandle<A>>)
        requires
            self.wf(),
        ensures
            r is Some <==> self@.names.contains_key(name@),
            r is Some ==> r->0@ == self@.names[name@],
    {
        match self.find_name(name) {
            Some(id) => {
                proof {
                    self.lemma_named_retained(name@);
                }
                Some(self.find_retained(id).unwrap())
            },
            None => None,
        }
    }

    /// Every built entry, paired with its handle, in stable insertion
    /// order.
    pub fn iter(&self) -> (r: Vec<(&AssetHandle<A>, &A::Data)>)
        requires
            self.wf(),
        ensures
            r@.len() == self@.handle_ids.len(),
            forall|i: int|
                0 <= i < r@.len() ==> (#[trigger] r@[i]).0@ == self@.handle_ids[i]
                    && self@.assets.contains_key(self@.handle_ids[i]) && *r@[i].1
                    == self@.assets[self@.handle_ids[i]],
    {
        let mut out: Vec<(&AssetHandle<A>, &A::Data)> = Vec::new();
        let mut i: usize = 0;
        while i < self.handles.len()
            invariant
                self.wf(),
                i <= self.handles@.len(),
                out@.len() == i,
                forall|k: int|
                    0 <= k < i ==> (#[trigger] out@[k]).0@ == self@.handle_ids[k]
                        && self@.assets.contains_key(self@.handle_ids[k]) && *out@[k].1
                        == self@.assets[self@.handle_ids[k]],
            decreases self.handles@.len() - i,
        {
            let handle = &self.handles[i];
            let value = self.get_by_id(handle.id()).unwrap();
            out.push((handle, value));
            i = i + 1;
        }
        out
    }

    /// Drain the queue: for each entry whose decode succeeded, build it;
    /// insert the result on success, and on any failure keep the handle
    /// allocated but permanently unresolved. One entry's failure never
    /// blocks the rest of its batch.
    pub fn build_waiting<B: AssetBuilder<A>, S: DataSource>(&mut self, builder: &mut B, source: &S)
        requires
            old(self).wf(),
            old(builder).inv(),
        ensures
            final(self).wf(),
            final(builder).inv(),
            exists|outs: Seq<Option<A::Data>>|
                outs.len() == old(self)@.unbuilt.len() && final(self)@ == #[trigger] drain_post::<
                    A,
                >(old(self)@, outs) && (forall|k: int|
                    0 <= k < outs.len() ==> (old(self)@.unbuilt[k].1 is Err ==> outs[k] is None)),
    {
        let ghost m0 = self@;
        let ghost mut outs: Seq<Option<A::Data>> = Seq::empty();
        while self.unbuilt.len() > 0
            invariant
                self.wf(),
                builder.inv(),
                outs.len() + self@.unbuilt.len() == m0.unbuilt.len(),
                self@.unbuilt == m0.unbuilt.skip(outs.len() as int),
                forall|k: int| 0 <= k < outs.len() ==> (m0.unbuilt[k].1 is Err ==> outs[k] is None),
                forall|rest: Seq<Option<A::Data>>|
                    rest.len() == self@.unbuilt.len() ==> drain_post::<A>(m0, outs + rest)
                        == #[trigger] drain_post::<A>(self@, rest),
            decreases self.unbuilt@.len(),
        {
            let ghost m_pre = self@;
            let ghost pre = *self;
            let entry = self.unbuilt.remove(0);
            let (handle, data, _name) = entry;
            proof {
                assert(self.unbuilt@ =~= pre.unbuilt@.drop_first());
                assert(self@.unbuilt =~= m_pre.unbuilt.drop_first());
                assert(m_pre.unbuilt[0].0 == handle@);
                assert(m_pre.unbuilt[0].1 == data);
            }
            let ghost outcome: Option<A::Data>;
            match data {
                Ok(d) => {
                    match builder.build(d, source) {
                        Ok(asset) => {
                            proof {
                                outcome = Some(asset);
                            }
                            let ghost hs = self.handles@;
                            self.put_asset(handle.id(), asset);
                            self.handles.push(handle);
                            proof {
                                assert(self@.handle_ids =~= hs.map_values(
                                    |h: AssetHandle<A>| h@,
                                ).push(m_pre.unbuilt[0].0));
                            }
                        },
                        Err(_) => {
                            proof {
                                outcome = None;
                            }
                            let ghost fs = self.failed@;
                            self.failed.push(handle);
                            proof {
                                assert(self@.failed_ids =~= fs.map_values(
                                    |h: AssetHandle<A>| h@,
                                ).push(m_pre.unbuilt[0].0));
                            }
                        },
                    }
                },
                Err(_) => {
                    proof {
                        outcome = None;
                    }
                    let ghost fs = self.failed@;
                    self.failed.push(handle);
                    proof {
                        assert(self@.failed_ids =~= fs.map_values(|h: AssetHandle<A>| h@).push(
                            m_pre.unbuilt[0].0,
                        ));
                    }
                },
            }
            proof {
                let stepped = drain_step::<A>(m_pre, outcome);
                assert(self@ =~= stepped);
                assert forall|i: int| 0 <= i < self.names@.len() implies self.retained(
                    #[trigger] self.names@[i].1,
                ) by {
                    assert(self.names@ == pre.names@);
                    assert(pre.retained(pre.names@[i].1));
                    let id = pre.names@[i].1;
                    if exists|k: int| 0 <= k < pre.handles@.len() && pre.handles@[k]@ == id {
                        let k = choose|k: int|
                            0 <= k < pre.handles@.len() && pre.handles@[k]@ == id;
                        assert(self.handles@[k]@ == id);
                    } else if exists|k: int|
                        0 <= k < pre.unbuilt@.len() && pre.unbuilt@[k].0@ == id {
                        let k = choose|k: int|
                            0 <= k < pre.unbuilt@.len() && pre.unbuilt@[k].0@ == id;
                        if k == 0 {
                            if outcome is Some {
                                assert(self.handles@[self.handles@.len() - 1]@ == id);
                            } else {
                                assert(self.failed@[self.failed@.len() - 1]@ == id);
                            }
                        } else {
                            assert(self.unbuilt@[k - 1].0@ == id);
                        }
                    } else {
                        let k = choose|k: int|
                            0 <= k < pre.failed@.len() && pre.failed@[k]@ == id;
                        assert(self.failed@[k]@ == id);
                    }
                }
                assert(self.wf());
                assert forall|rest: Seq<Option<A::Data>>|
                    rest.len() == self@.unbuilt.len() implies drain_post::<A>(
                    m0,
                    outs.push(outcome) + rest,
                ) == #[trigger] drain_post::<A>(self@, rest) by {
                    let with = outs.push(outcome) + rest;
                    assert(with =~= outs + (seq![outcome] + rest));
                    assert((seq![outcome] + rest).drop_first() =~= rest);
                    assert((seq![outcome] + rest)[0] == outcome);
                    assert(drain_post::<A>(m_pre, seq![outcome] + rest) == drain_post::<A>(
                        stepped,
                        rest,
                    ));
                }
                outs = outs.push(outcome);
            }
        }
        proof {
            assert(outs + Seq::<Option<A::Data>>::empty() =~= outs);
            assert(drain_post::<A>(self@, Seq::<Option<A::Data>>::empty()) == self@);
            assert(self@ == drain_post::<A>(m0, outs));
        }
    }
}

/// Law: loading one name twice before its build phase runs resolves to
/// the same handle id both times, leaves the registry exactly as the
/// first load left it, and queues exactly one pending entry for the name
/// (none when the name was already live).
pub proof fn lemma_load_twice<A: Asset>(
    m: StorageModel<A>,
    name: Seq<char>,
    im1: Result<A::Intermediate, AssetError>,
    im2: Result<A::Intermediate, AssetError>,
)
    ensures
        resolve_id::<A>(load_post::<A>(m, name, im1), name) == resolve_id::<A>(m, name),
        load_post::<A>(load_post::<A>(m, name, im1), name, im2) == load_post::<A>(m, name, im1),
        !m.names.contains_key(name) ==> load_post::<A>(m, name, im1).unbuilt.len() == m.unbuilt.len()
            + 1,
        m.names.contains_key(name) ==> load_post::<A>(m, name, im1) == m,
{
    if !m.names.contains_key(name) {
        let m1 = load_post::<A>(m, name, im1);
        assert(m1.names.contains_key(name));
        assert(m1.names[name] == resolve_id::<A>(m, name));
    }
}

/// Law: inserting a value under one name twice returns the same handle id
/// both times, and a lookup by that name afterwards yields the second
/// value: the replacement is in place, under the first call's handle.
pub proof fn lemma_insert_with_name_twice<A: Asset>(
    m: StorageModel<A>,
    name: Seq<char>,
    v1: A::Data,
    v2: A::Data,
)
    ensures
        resolve_id::<A>(insert_with_name_post::<A>(m, name, v1), name) == resolve_id::<A>(m, name),
        lookup_name::<A>(
            insert_with_name_post::<A>(insert_with_name_post::<A>(m, name, v1), name, v2),
            name,
        ) == Some(v2),
{
    let m1 = insert_with_name_post::<A>(m, name, v1);
    let m2 = insert_with_name_post::<A>(m1, name, v2);
    assert(m1.names.contains_key(name));
    assert(m2.assets[m2.names[name]] == v2);
}

/// One drain step: the front queue entry leaves the queue and, by the
/// build's outcome, lands among the built entries or the failed ids.
pub open spec fn drain_step<A: Asset>(
    m: StorageModel<A>,
    outcome: Option<A::Data>,
) -> StorageModel<A>
    recommends
        m.unbuilt.len() > 0,
{
    let e = m.unbuilt[0];
    let rest = StorageModel { unbuilt: m.unbuilt.drop_first(), ..m };
    match outcome {
        Some(v) => StorageModel {
            assets: rest.assets.insert(e.0, v),
            handle_ids: rest.handle_ids.push(e.0),
            ..rest
        },
        None => StorageModel { failed_ids: rest.failed_ids.push(e.0), ..rest },
    }
}

/// The state after draining the whole queue with the given per-entry
/// outcomes.
pub open spec fn drain_post<A: Asset>(
    m: StorageModel<A>,
    outcomes: Seq<Option<A::Data>>,
) -> StorageModel<A>
    decreases m.unbuilt.len(),
{
    if m.unbuilt.len() == 0 || outcomes.len() == 0 {
        m
    } else {
        drain_post(drain_step(m, outcomes[0]), outcomes.drop_first())
    }
}

/// Draining the queue never touches the name map, the built entries'
/// ids' upper bound, or anything outside the queue's destinations; with
/// one outcome per entry it empties the queue.
pub proof fn lemma_drain_post_frame<A: Asset>(
    m: StorageModel<A>,
    outcomes: Seq<Option<A::Data>>,
)
    ensures
        drain_post::<A>(m, outcomes).names == m.names,
        drain_post::<A>(m, outcomes).next_id == m.next_id,
        outcomes.len() >= m.unbuilt.len() ==> drain_post::<A>(m, outcomes).unbuilt.len() == 0,
    decreases m.unbuilt.len(),
{
    if m.unbuilt.len() > 0 && outcomes.len() > 0 {
        lemma_drain_post_frame(drain_step::<A>(m, outcomes[0]), outcomes.drop_first());
    }
}

} // verus!
