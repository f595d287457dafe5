//! Local identifiers and the store of entities that they key.
//!
//! The watched program names its entities by identifiers of its own choice.
//! Here each entity gets a small local identifier instead, given out in the
//! order in which the entities are first seen, and is stored under it.

use std::collections::{HashMap, HashSet};
use vstd::prelude::*;
use vstd::std_specs::hash::{axiom_spec_keys_iter, group_hash_axioms, spec_keys_iter};
use vstd::std_specs::iter::IteratorSpec;

verus! {

broadcast use group_hash_axioms;

/// The local identifier of an entity.
#[derive(Clone, Copy, Debug, PartialEq, Eq, Hash, PartialOrd, Ord, Structural)]
pub struct Id {
    pub id: u64,
}

impl Id {
    /// The identifier with the number `id`.
    pub fn from_u64(id: u64) -> (r: Id)
        ensures
            r.id == id,
    {
        Id { id }
    }

    /// The identifier's number.
    pub fn as_u64(&self) -> (id: u64)
        ensures
            id == self.id,
    {
        self.id
    }
}

/// The identifier given out after `next`: one more, starting over at zero
/// after the largest.
pub open spec fn following(next: u64) -> u64 {
    if next == u64::MAX {
        0
    } else {
        (next + 1) as u64
    }
}

/// What a map of identifiers holds: the local identifiers given out so far,
/// and the number of the next one.
pub struct IdsView {
    /// The local identifiers given out so far, by remote identifier.
    pub known: Map<u64, Id>,
    /// The number of the local identifier that the next unseen remote
    /// identifier gets.
    pub next: u64,
}

impl IdsView {
    /// The local identifier for `remote`: the one it was given when it was
    /// first seen, or, if it was never seen, the next in sequence.
    pub open spec fn id_for(self, remote: u64) -> Id {
        if self.known.contains_key(remote) {
            self.known[remote]
        } else {
            Id { id: self.next }
        }
    }

    /// The map after `remote` was asked for: as before if `remote` was
    /// seen before, else with `remote` mapped to the next identifier in
    /// sequence.
    pub open spec fn assign(self, remote: u64) -> IdsView {
        if self.known.contains_key(remote) {
            self
        } else {
            IdsView {
                known: self.known.insert(remote, Id { id: self.next }),
                next: following(self.next),
            }
        }
    }

    /// The map after each of `remotes` was asked for, in order.
    pub open spec fn assign_all(self, remotes: Seq<u64>) -> IdsView
        decreases remotes.len(),
    {
        if remotes.len() == 0 {
            self
        } else {
            self.assign_all(remotes.drop_last()).assign(remotes.last())
        }
    }

    /// The local identifiers given out so far are all different, and all
    /// are at least 1 and below the next one to give out.
    pub open spec fn sequential(self) -> bool {
        &&& 1 <= self.next
        &&& forall|remote: u64| #[trigger]
            self.known.contains_key(remote) ==> 1 <= self.known[remote].id < self.next
        &&& forall|a: u64, b: u64|
            #![trigger self.known.contains_key(a), self.known.contains_key(b)]
            self.known.contains_key(a) && self.known.contains_key(b) && a != b ==> self.known[a]
                != self.known[b]
    }
}

/// An identifier, once given out, is given out again for the same remote
/// identifier whenever it is asked for: whatever else was asked for in
/// between, it is still mapped to the same local identifier, and asking
/// again changes nothing.
pub proof fn lemma_id_stable(ids: IdsView, remote: u64, between: Seq<u64>)
    ensures
        ids.assign(remote).assign_all(between).id_for(remote) == ids.id_for(remote),
        ids.assign(remote).assign_all(between).assign(remote) == ids.assign(remote).assign_all(
            between,
        ),
{
    lemma_assign_all_keeps(ids.assign(remote), between, remote);
}

/// Asking for further identifiers takes none away and changes none.
pub proof fn lemma_assign_all_keeps(ids: IdsView, remotes: Seq<u64>, remote: u64)
    requires
        ids.known.contains_key(remote),
    ensures
        ids.assign_all(remotes).known.contains_key(remote),
        ids.assign_all(remotes).known[remote] == ids.known[remote],
    decreases remotes.len(),
{
    if remotes.len() > 0 {
        lemma_assign_all_keeps(ids, remotes.drop_last(), remote);
    }
}

/// Identifiers are given out in sequence: as long as the numbers have not
/// run out, a new identifier differs from all that were given out before.
pub proof fn lemma_assign_sequential(ids: IdsView, remote: u64)
    requires
        ids.sequential(),
        ids.next < u64::MAX,
    ensures
        ids.assign(remote).sequential(),
{
    let after = ids.assign(remote);
    if !ids.known.contains_key(remote) {
        assert forall|r: u64| #[trigger] after.known.contains_key(r) implies 1
            <= after.known[r].id < after.next by {
            if r != remote {
                assert(ids.known.contains_key(r));
            }
        }
        assert forall|a: u64, b: u64|
            #![trigger after.known.contains_key(a), after.known.contains_key(b)]
            after.known.contains_key(a) && after.known.contains_key(b) && a
                != b implies after.known[a] != after.known[b] by {
            if a != remote {
                assert(ids.known.contains_key(a));
            }
            if b != remote {
                assert(ids.known.contains_key(b));
            }
        }
    }
}

/// The map from the identifiers that the watched program uses to local ones.
///
/// An identifier, once mapped, stays mapped to the same local identifier for
/// good: nothing is ever taken out of the map.
pub struct Ids {
    next: u64,
    map: HashMap<u64, Id>,
}

impl View for Ids {
    type V = IdsView;

    closed spec fn view(&self) -> IdsView {
        IdsView { known: self.map@, next: self.next }
    }
}

impl Ids {
    /// A map that has seen nothing yet. The first identifier it gives out
    /// is 1.
    pub fn new() -> (ids: Ids)
        ensures
            ids@.next == 1,
            ids@.known == Map::<u64, Id>::empty(),
    {
        Ids { next: 1, map: HashMap::new() }
    }

    /// The local identifier for `remote`: the one it was given when it was
    /// first seen, or, if this is the first time, the next in sequence.
    pub fn id_for(&mut self, remote: u64) -> (id: Id)
        ensures
            id == old(self)@.id_for(remote),
            final(self)@ == old(self)@.assign(remote),
    {
        match self.map.get(&remote) {
            Some(id) => *id,
            None => {
                let id = Id { id: self.next };
                self.map.insert(remote, id);
                self.next = self.next.wrapping_add(1);
                id
            },
        }
    }

    /// The local identifier that `remote` was given, if it was ever seen.
    pub fn get(&self, remote: u64) -> (id: Option<Id>)
        ensures
            id == if self@.known.contains_key(remote) {
                Some(self@.known[remote])
            } else {
                None
            },
    {
        match self.map.get(&remote) {
            Some(id) => Some(*id),
            None => None,
        }
    }
}

impl Default for Ids {
    /// A map that has seen nothing yet.
    fn default() -> (ids: Ids)
        ensures
            ids@.next == 1,
            ids@.known == Map::<u64, Id>::empty(),
    {
        Ids::new()
    }
}

/// Whether the entities put into a store are to be reported as new.
#[derive(Clone, Copy, Debug, PartialEq, Eq, Structural)]
pub enum Visibility {
    /// The entities are on display: the store keeps track of the new ones.
    Show,
    /// The entities are not on display: the store keeps no track of them.
    Hide,
}

/// The entities "new since the last drain" after `id` was put into the store:
/// `id` is added at the end if the store keeps track and does not list it yet.
pub open spec fn noted(new_items: Seq<Id>, visibility: Visibility, id: Id) -> Seq<Id> {
    if visibility == Visibility::Show && !new_items.contains(id) {
        new_items.push(id)
    } else {
        new_items
    }
}

/// The entities "new since the last drain" after each entity of `batch` was
/// put into the store, in order.
pub open spec fn noted_all<T>(new_items: Seq<Id>, visibility: Visibility, batch: Seq<(Id, T)>) -> Seq<
    Id,
>
    decreases batch.len(),
{
    if batch.len() == 0 {
        new_items
    } else {
        noted(noted_all(new_items, visibility, batch.drop_last()), visibility, batch.last().0)
    }
}

/// The stored entities after each entity of `batch` was put into the store
/// under its identifier, in order: where two have the same identifier, the
/// later one stays.
pub open spec fn inserted_all<T>(items: Map<u64, T>, batch: Seq<(Id, T)>) -> Map<u64, T>
    decreases batch.len(),
{
    if batch.len() == 0 {
        items
    } else {
        inserted_all(items, batch.drop_last()).insert(batch.last().0.id, batch.last().1)
    }
}

/// After a batch, the store holds an entity under an identifier exactly if
/// it held one before or the batch brought one.
pub proof fn lemma_inserted_all_keys<T>(items: Map<u64, T>, batch: Seq<(Id, T)>, key: u64)
    ensures
        inserted_all(items, batch).contains_key(key) <==> items.contains_key(key) || exists|i: int|
            0 <= i < batch.len() && (#[trigger] batch[i]).0.id == key,
    decreases batch.len(),
{
    if batch.len() > 0 {
        let rest = batch.drop_last();
        lemma_inserted_all_keys(items, rest, key);
        if exists|i: int| 0 <= i < rest.len() && (#[trigger] rest[i]).0.id == key {
            let i = choose|i: int| 0 <= i < rest.len() && (#[trigger] rest[i]).0.id == key;
            assert(batch[i].0.id == key);
        }
        if exists|i: int| 0 <= i < batch.len() && (#[trigger] batch[i]).0.id == key {
            let i = choose|i: int| 0 <= i < batch.len() && (#[trigger] batch[i]).0.id == key;
            if i < rest.len() {
                assert(rest[i].0.id == key);
            }
        }
    }
}

/// Where a batch brings several entities under one identifier, the store
/// holds the last of them afterwards, and only that one.
pub proof fn lemma_inserted_all_last_wins<T>(items: Map<u64, T>, batch: Seq<(Id, T)>, i: int)
    requires
        0 <= i < batch.len(),
        forall|j: int| i < j < batch.len() ==> (#[trigger] batch[j]).0 != batch[i].0,
    ensures
        inserted_all(items, batch).contains_key(batch[i].0.id),
        inserted_all(items, batch)[batch[i].0.id] == batch[i].1,
    decreases batch.len(),
{
    if i < batch.len() - 1 {
        let rest = batch.drop_last();
        assert forall|j: int| i < j < rest.len() implies (#[trigger] rest[j]).0 != rest[i].0 by {
            assert(batch[j].0 != batch[i].0);
        }
        lemma_inserted_all_last_wins(items, rest, i);
        assert(batch[batch.len() - 1].0 != batch[i].0);
    }
}

/// A batch of two entities with the same identifier leaves one entity in
/// the store, the second, and lists the identifier as new once.
pub proof fn lemma_same_id_twice<T>(
    items: Map<u64, T>,
    new_items: Seq<Id>,
    visibility: Visibility,
    id: Id,
    first: T,
    second: T,
)
    ensures
        inserted_all(items, Seq::empty().push((id, first)).push((id, second))) == items.insert(
            id.id,
            second,
        ),
        noted_all(new_items, visibility, Seq::empty().push((id, first)).push((id, second)))
            == noted(new_items, visibility, id),
{
    let one = Seq::<(Id, T)>::empty().push((id, first));
    let two = one.push((id, second));
    assert(two.drop_last() =~= one);
    assert(one.drop_last() =~= Seq::<(Id, T)>::empty());
    assert(inserted_all(items, one) == items.insert(id.id, first)) by {
        reveal_with_fuel(inserted_all, 2);
    }
    assert(inserted_all(items, two) =~= items.insert(id.id, second));
    assert(noted_all(new_items, visibility, one) == noted(new_items, visibility, id)) by {
        reveal_with_fuel(noted_all, 2);
    }
    let listed = noted(new_items, visibility, id);
    if visibility == Visibility::Show && !new_items.contains(id) {
        assert(listed[new_items.len() as int] == id);
        assert(listed.contains(id));
    }
}

/// The list of new entities names no entity twice, whatever is put into the
/// store; with the store keeping track it names what it named before and
/// what the batch brought, and with the store keeping no track it stays as
/// it was.
pub proof fn lemma_noted_all<T>(new_items: Seq<Id>, visibility: Visibility, batch: Seq<(Id, T)>)
    requires
        new_items.no_duplicates(),
    ensures
        noted_all(new_items, visibility, batch).no_duplicates(),
        visibility == Visibility::Hide ==> noted_all(new_items, visibility, batch) == new_items,
        visibility == Visibility::Show ==> forall|id: Id|
            noted_all(new_items, visibility, batch).contains(id) <==> new_items.contains(id)
                || exists|i: int| 0 <= i < batch.len() && (#[trigger] batch[i]).0 == id,
    decreases batch.len(),
{
    if batch.len() > 0 {
        let rest = batch.drop_last();
        lemma_noted_all(new_items, visibility, rest);
        let before = noted_all(new_items, visibility, rest);
        let after = noted_all(new_items, visibility, batch);
        let last = batch.last().0;
        if visibility == Visibility::Show {
            assert forall|id: Id| after.contains(id) <==> new_items.contains(id) || exists|i: int|
                0 <= i < batch.len() && (#[trigger] batch[i]).0 == id by {
                if after.contains(id) {
                    let k = choose|k: int| 0 <= k < after.len() && after[k] == id;
                    if k < before.len() {
                        assert(before[k] == id);
                        assert(before.contains(id));
                        if !new_items.contains(id) {
                            let i = choose|i: int|
                                0 <= i < rest.len() && (#[trigger] rest[i]).0 == id;
                            assert(batch[i].0 == id);
                        }
                    } else {
                        assert(batch[batch.len() - 1].0 == id);
                    }
                }
                if new_items.contains(id) {
                    assert(before.contains(id));
                    let k = choose|k: int| 0 <= k < before.len() && before[k] == id;
                    assert(after[k] == id);
                }
                if exists|i: int| 0 <= i < batch.len() && (#[trigger] batch[i]).0 == id {
                    let i = choose|i: int| 0 <= i < batch.len() && (#[trigger] batch[i]).0 == id;
                    if i < rest.len() {
                        assert(rest[i].0 == id);
                        assert(before.contains(id));
                        let k = choose|k: int| 0 <= k < before.len() && before[k] == id;
                        assert(after[k] == id);
                    } else {
                        if before.contains(id) {
                            let k = choose|k: int| 0 <= k < before.len() && before[k] == id;
                            assert(after[k] == id);
                        } else {
                            assert(after[before.len() as int] == id);
                        }
                    }
                }
            }
        }
    }
}

/// After a drain, the list of new entities comes to hold what is put into
/// the store from then on, each entity once, however often it is put in.
pub proof fn lemma_new_since_drain<T>(batch: Seq<(Id, T)>)
    ensures
        noted_all(Seq::empty(), Visibility::Show, batch).no_duplicates(),
        forall|id: Id|
            noted_all(Seq::empty(), Visibility::Show, batch).contains(id) <==> exists|i: int|
                0 <= i < batch.len() && (#[trigger] batch[i]).0 == id,
{
    let start = Seq::<Id>::empty();
    lemma_noted_all(start, Visibility::Show, batch);
    assert forall|id: Id|
        noted_all(start, Visibility::Show, batch).contains(id) <==> exists|i: int|
            0 <= i < batch.len() && (#[trigger] batch[i]).0 == id by {
        assert(!start.contains(id));
    }
}

/// `keys` names each stored entity once: it holds the number of every
/// identifier under which `items` stores an entity, no other, and none twice.
pub open spec fn lists<T>(keys: Seq<u64>, items: Map<u64, T>) -> bool {
    &&& keys.no_duplicates()
    &&& forall|k: u64| keys.contains(k) <==> items.contains_key(k)
}

/// The entity that an update for `remote` is meant for: the one stored under
/// the local identifier of `remote`, if `remote` was seen and the entity is
/// still stored.
pub open spec fn target<T>(known: Map<u64, Id>, items: Map<u64, T>, remote: u64) -> Option<Id> {
    if known.contains_key(remote) && items.contains_key(known[remote].id) {
        Some(known[remote])
    } else {
        None
    }
}

/// The updates of `deltas` that are meant for a stored entity, in order, each
/// with the local identifier of its entity.
pub open spec fn matched<T, V>(known: Map<u64, Id>, items: Map<u64, T>, deltas: Seq<(u64, V)>) -> Seq<
    (V, Id),
>
    decreases deltas.len(),
{
    if deltas.len() == 0 {
        Seq::empty()
    } else {
        let rest = matched(known, items, deltas.drop_last());
        match target(known, items, deltas.last().0) {
            Some(id) => rest.push((deltas.last().1, id)),
            None => rest,
        }
    }
}

/// The list of the entities that are new since the list was last taken:
/// each of them once, in the order in which they came.
struct NewItems {
    order: Vec<Id>,
    listed: HashSet<u64>,
}

impl NewItems {
    /// The list names no entity twice, and the set of the listed says of
    /// each entity whether the list names it.
    #[verifier::type_invariant]
    spec fn listed_once(&self) -> bool {
        &&& self.order@.no_duplicates()
        &&& forall|id: Id| self.listed@.contains(id.id) <==> self.order@.contains(id)
    }

    /// An empty list.
    fn new() -> (list: NewItems)
        ensures
            list.order@ == Seq::<Id>::empty(),
    {
        NewItems { order: Vec::new(), listed: HashSet::new() }
    }

    /// Adds `id` at the end of the list, unless the list names it already.
    fn note(&mut self, id: Id)
        ensures
            final(self).order@ == noted(old(self).order@, Visibility::Show, id),
            final(self).order@.no_duplicates(),
    {
        proof {
            use_type_invariant(&*self);
        }
        if self.listed.contains(&id.id) {
            return ;
        }
        let mut taken = NewItems::new();
        core::mem::swap(self, &mut taken);
        proof {
            use_type_invariant(&taken);
        }
        let NewItems { mut order, mut listed } = taken;
        let ghost before = order@;
        order.push(id);
        listed.insert(id.id);
        proof {
            assert(!before.contains(id));
            assert forall|a: int, b: int|
                0 <= a < order@.len() && 0 <= b < order@.len() && a != b implies order@[a]
                != order@[b] by {
                if a == before.len() {
                    assert(before.contains(before[b]));
                } else if b == before.len() {
                    assert(before.contains(before[a]));
                }
            }
            assert forall|other: Id| listed@.contains(other.id) <==> order@.contains(other) by {
                if other == id {
                    assert(order@[before.len() as int] == id);
                } else {
                    if before.contains(other) {
                        let k = choose|k: int| 0 <= k < before.len() && before[k] == other;
                        assert(order@[k] == other);
                    }
                    if order@.contains(other) {
                        let k = choose|k: int| 0 <= k < order@.len() && order@[k] == other;
                        assert(before[k] == other);
                    }
                }
            }
        }
        *self = NewItems { order, listed };
    }

    /// Takes the list, and leaves an empty one.
    fn take(&mut self) -> (taken: Vec<Id>)
        ensures
            taken@ == old(self).order@,
            taken@.no_duplicates(),
            final(self).order@ == Seq::<Id>::empty(),
    {
        proof {
            use_type_invariant(&*self);
        }
        let mut taken = NewItems::new();
        core::mem::swap(self, &mut taken);
        let NewItems { order, listed } = taken;
        order
    }
}

/// The entities of one kind, each stored under its local identifier.
///
/// The store also lists the entities that were put into it since the list
/// was last taken: each of them once, in the order in which they came.
pub struct Store<T> {
    ids: Ids,
    store: HashMap<u64, T>,
    new_items: NewItems,
}

impl<T> Store<T> {

    /// The map from remote to local identifiers of this kind of entity.
    pub closed spec fn ids(&self) -> IdsView {
        self.ids@
    }

    /// The stored entities, by the number of their local identifier.
    pub closed spec fn items(&self) -> Map<u64, T> {
        self.store@
    }

    /// The entities put into the store since the list was last taken.
    pub closed spec fn new_items(&self) -> Seq<Id> {
        self.new_items.order@
    }

    /// An empty store, whose first entity will get the identifier 1.
    pub fn new() -> (store: Store<T>)
        ensures
            store.items() == Map::<u64, T>::empty(),
            store.new_items() == Seq::<Id>::empty(),
            store.ids().known == Map::<u64, Id>::empty(),
            store.ids().next == 1,
    {
        Store { ids: Ids::new(), store: HashMap::new(), new_items: NewItems::new() }
    }

    /// The number of stored entities.
    pub fn len(&self) -> (n: usize)
        ensures
            n == self.items().len(),
    {
        self.store.len()
    }

    /// The local identifier for the entity that the watched program calls
    /// `remote`, given out now if the entity was never seen.
    pub fn id_for(&mut self, remote: u64) -> (id: Id)
        ensures
            id == old(self).ids().id_for(remote),
            final(self).ids() == old(self).ids().assign(remote),
            final(self).items() == old(self).items(),
            final(self).new_items() == old(self).new_items(),
    {
        self.ids.id_for(remote)
    }

    /// The local identifier of the entity that the watched program calls
    /// `remote`, if the entity was ever seen.
    pub fn local_id(&self, remote: u64) -> (id: Option<Id>)
        ensures
            id == if self.ids().known.contains_key(remote) {
                Some(self.ids().known[remote])
            } else {
                None
            },
    {
        self.ids.get(remote)
    }

    /// The entity stored under `id`, if there is one.
    pub fn get(&self, id: Id) -> (item: Option<&T>)
        ensures
            item == if self.items().contains_key(id.id) {
                Some(&self.items()[id.id])
            } else {
                None
            },
    {
        self.store.get(&id.id)
    }

    /// Whether an entity is stored under `id`.
    pub fn contains(&self, id: Id) -> (stored: bool)
        ensures
            stored == self.items().contains_key(id.id),
    {
        self.store.contains_key(&id.id)
    }

    /// The numbers of the identifiers under which an entity is stored, each
    /// once, in no particular order.
    fn keys(&self) -> (keys: Vec<u64>)
        ensures
            lists(keys@, self.items()),
    {
        let mut keys: Vec<u64> = Vec::new();
        let ghost all = spec_keys_iter(&self.store).remaining();
        proof {
            axiom_spec_keys_iter(&self.store);
        }
        for key in it: self.store.keys()
            invariant
                it.seq() == all,
                all.no_duplicates(),
                keys@.len() == it.index(),
                forall|i: int| 0 <= i < keys@.len() ==> keys@[i] == *all[i],
        {
            keys.push(*key);
        }
        proof {
            assert(keys@ =~= all.unref());
            assert forall|k: u64| keys@.contains(k) <==> self.items().contains_key(k) by {
                if keys@.contains(k) {
                    assert(all.unref().to_set().contains(k));
                }
                if self.items().contains_key(k) {
                    assert(all.unref().to_set().contains(k));
                }
            }
            assert forall|i: int, j: int| 0 <= i < j < keys@.len() implies keys@[i] != keys@[j] by {
                assert(all[i] != all[j]);
            }
        }
        keys
    }

    /// The identifiers of the stored entities, each once, in no particular
    /// order.
    pub fn stored(&self) -> (ids: Vec<Id>)
        ensures
            ids@.no_duplicates(),
            forall|id: Id| ids@.contains(id) <==> self.items().contains_key(id.id),
    {
        let keys = self.keys();
        let mut ids: Vec<Id> = Vec::new();
        let mut i: usize = 0;
        while i < keys.len()
            invariant
                i <= keys@.len(),
                ids@.len() == i,
                forall|k: int| 0 <= k < i ==> ids@[k].id == keys@[k],
            decreases keys@.len() - i,
        {
            ids.push(Id { id: keys[i] });
            i += 1;
        }
        proof {
            assert forall|a: int, b: int| 0 <= a < b < ids@.len() implies ids@[a] != ids@[b] by {
                assert(keys@[a] != keys@[b]);
            }
            assert forall|id: Id| ids@.contains(id) <==> self.items().contains_key(id.id) by {
                if ids@.contains(id) {
                    let k = choose|k: int| 0 <= k < ids@.len() && ids@[k] == id;
                    assert(keys@.contains(keys@[k]));
                }
                if self.items().contains_key(id.id) {
                    assert(keys@.contains(id.id));
                    let k = choose|k: int| 0 <= k < keys@.len() && keys@[k] == id.id;
                    assert(ids@[k] == id);
                }
            }
        }
        ids
    }

    /// The stored entities, each once, in no particular order.
    pub fn values(&self) -> (values: Vec<&T>)
        ensures
            exists|keys: Seq<u64>|
                {
                    &&& #[trigger] lists(keys, self.items())
                    &&& values@.len() == keys.len()
                    &&& forall|i: int|
                        0 <= i < keys.len() ==> *values@[i] == self.items()[#[trigger] keys[i]]
                },
    {
        let keys = self.keys();
        let mut values: Vec<&T> = Vec::new();
        let mut i: usize = 0;
        while i < keys.len()
            invariant
                i <= keys@.len(),
                lists(keys@, self.items()),
                values@.len() == i,
                forall|k: int| 0 <= k < i ==> *values@[k] == self.items()[#[trigger] keys@[k]],
            decreases keys@.len() - i,
        {
            assert(keys@.contains(keys@[i as int]));
            match self.store.get(&keys[i]) {
                Some(item) => {
                    values.push(item);
                },
                None => {},
            }
            i += 1;
        }
        values
    }

    /// The updates of `deltas` that are meant for an entity in the store,
    /// each with the identifier of its entity. An update for an entity that
    /// was never seen, or that is no longer stored, is dropped.
    pub fn updated<V>(&self, deltas: Vec<(u64, V)>) -> (updates: Vec<(V, Id)>)
        ensures
            updates@ == matched(self.ids().known, self.items(), deltas@),
    {
        let mut updates: Vec<(V, Id)> = Vec::new();
        let ghost all = deltas@;
        for delta in it: deltas
            invariant
                it.seq() == all,
                updates@ == matched(self.ids().known, self.items(), all.take(it.index() as int)),
        {
            proof {
                assert(all.take(it.index() + 1).drop_last() =~= all.take(it.index() as int));
            }
            let (remote, update) = delta;
            match self.ids.get(remote) {
                Some(id) => {
                    if self.store.contains_key(&id.id) {
                        updates.push((update, id));
                    }
                },
                None => {},
            }
        }
        proof {
            assert(all.take(all.len() as int) =~= all);
        }
        updates
    }

    /// Takes the entity stored under `id` out of the store, if there is one.
    pub fn remove(&mut self, id: Id) -> (item: Option<T>)
        ensures
            item == if old(self).items().contains_key(id.id) {
                Some(old(self).items()[id.id])
            } else {
                None
            },
            final(self).items() == old(self).items().remove(id.id),
            final(self).new_items() == old(self).new_items(),
            final(self).ids() == old(self).ids(),
    {
        self.store.remove(&id.id)
    }

    /// Keeps the entities for which `keep` answers `true`, and removes the
    /// others.
    pub fn retain<F: Fn(Id, &T) -> bool>(&mut self, keep: F)
        requires
            forall|k: u64| #[trigger]
                old(self).items().contains_key(k) ==> call_requires(
                    keep,
                    (Id { id: k }, &old(self).items()[k]),
                ),
        ensures
            final(self).items().submap_of(old(self).items()),
            forall|k: u64| #[trigger]
                old(self).items().contains_key(k) ==> call_ensures(
                    keep,
                    (Id { id: k }, &old(self).items()[k]),
                    final(self).items().contains_key(k),
                ),
            final(self).new_items() == old(self).new_items(),
            final(self).ids() == old(self).ids(),
    {
        let keys = self.keys();
        let mut store: HashMap<u64, T> = HashMap::new();
        core::mem::swap(&mut self.store, &mut store);
        let ghost before = store@;
        proof {
            assert forall|j: int| 0 <= j < keys@.len() implies store@.contains_key(
                #[trigger] keys@[j],
            ) by {
                assert(keys@.contains(keys@[j]));
            }
        }
        let mut i: usize = 0;
        while i < keys.len()
            invariant
                i <= keys@.len(),
                lists(keys@, before),
                store@.submap_of(before),
                forall|k: u64| #[trigger]
                    before.contains_key(k) ==> call_requires(keep, (Id { id: k }, &before[k])),
                forall|j: int|
                    0 <= j < i ==> call_ensures(
                        keep,
                        (Id { id: keys@[j] }, &before[keys@[j]]),
                        store@.contains_key(#[trigger] keys@[j]),
                    ),
                forall|j: int| i <= j < keys@.len() ==> store@.contains_key(#[trigger] keys@[j]),
            decreases keys@.len() - i,
        {
            let key = keys[i];
            assert(keys@.contains(keys@[i as int]));
            let kept = match store.get(&key) {
                Some(item) => keep(Id { id: key }, item),
                None => true,
            };
            if !kept {
                store.remove(&key);
            }
            i += 1;
        }
        proof {
            assert forall|k: u64| #[trigger] before.contains_key(k) implies call_ensures(
                keep,
                (Id { id: k }, &before[k]),
                store@.contains_key(k),
            ) by {
                assert(keys@.contains(k));
                let j = choose|j: int| 0 <= j < keys@.len() && keys@[j] == k;
                assert(store@.contains_key(keys@[j]) == store@.contains_key(k));
            }
        }
        self.store = store;
    }

    /// Stores `item` under `id`, in place of what was stored there, and
    /// lists `id` as new if the store keeps track.
    pub fn insert(&mut self, visibility: Visibility, id: Id, item: T)
        ensures
            final(self).items() == old(self).items().insert(id.id, item),
            final(self).new_items() == noted(old(self).new_items(), visibility, id),
            final(self).new_items().no_duplicates(),
            final(self).ids() == old(self).ids(),
    {
        proof {
            use_type_invariant(&self.new_items);
        }
        self.store.insert(id.id, item);
        match visibility {
            Visibility::Show => {
                self.new_items.note(id);
            },
            Visibility::Hide => {},
        }
    }

    /// Stores each entity of `items` under its identifier, in order, and
    /// lists each as new if the store keeps track.
    pub fn insert_with(&mut self, visibility: Visibility, items: Vec<(Id, T)>)
        ensures
            final(self).items() == inserted_all(old(self).items(), items@),
            final(self).new_items() == noted_all(old(self).new_items(), visibility, items@),
            final(self).new_items().no_duplicates(),
            final(self).ids() == old(self).ids(),
    {
        proof {
            use_type_invariant(&self.new_items);
        }
        let ghost batch = items@;
        for pair in it: items
            invariant
                it.seq() == batch,
                self.items() == inserted_all(old(self).items(), batch.take(it.index() as int)),
                self.new_items() == noted_all(
                    old(self).new_items(),
                    visibility,
                    batch.take(it.index() as int),
                ),
                self.new_items().no_duplicates(),
                self.ids() == old(self).ids(),
        {
            proof {
                assert(batch.take(it.index() + 1).drop_last() =~= batch.take(it.index() as int));
            }
            let (id, item) = pair;
            self.insert(visibility, id, item);
        }
        proof {
            assert(batch.take(batch.len() as int) =~= batch);
        }
    }

    /// Takes the list of the entities that are new since the list was last
    /// taken: each of them once, in the order in which they came. The
    /// store's list is empty afterwards.
    pub fn take_new_items(&mut self) -> (taken: Vec<Id>)
        ensures
            taken@ == old(self).new_items(),
            taken@.no_duplicates(),
            final(self).new_items() == Seq::<Id>::empty(),
            final(self).items() == old(self).items(),
            final(self).ids() == old(self).ids(),
    {
        self.new_items.take()
    }
}

impl<T> Default for Store<T> {
    /// An empty store.
    fn default() -> (store: Store<T>)
        ensures
            store.items() == Map::<u64, T>::empty(),
            store.new_items() == Seq::<Id>::empty(),
            store.ids().known == Map::<u64, Id>::empty(),
            store.ids().next == 1,
    {
        Store::new()
    }
}

} // verus!
