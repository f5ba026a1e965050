//! The state space: every entity the sensor has seen.
//!
//! The universe is explicitly open, so an unseen entity is never assumed benign.
use crate::ratio::Ratio;
use crate::text::same;
use crate::textmap::TextMap;
use vstd::prelude::*;

verus! {

/// Stable handle for an entity within the state space.
#[derive(Debug, Clone, Copy, PartialEq, Eq, PartialOrd, Ord, Structural)]
pub struct EntityId(pub u64);

/// What an entity is.
#[derive(Debug, Clone, Copy, PartialEq, Eq, PartialOrd, Ord, Structural)]
pub enum EntityKind {
    /// Executing image or process instance.
    Process,
    /// File or directory object.
    File,
    /// Registry key, a common Windows persistence surface.
    RegistryKey,
    /// Local or remote network endpoint.
    NetworkEndpoint,
    /// Loaded module or driver.
    Module,
    /// User account, local or directory.
    User,
    /// Host machine.
    Host,
    /// Anything the sensor reports that does not fit above.
    Other,
}

/// A typed attribute value covering identifiers, text, and booleans.
#[derive(Debug, Clone, PartialEq, Eq)]
pub enum AttrValue {
    /// Numeric attribute such as pid, size, or exit code.
    Int(i64),
    /// Free text attribute such as a path, hash, or command line.
    Text(String),
    /// Boolean attribute such as `is_elevated`.
    Flag(bool),
}

/// One member of the state space.
#[derive(Debug, Clone, PartialEq)]
pub struct Entity {
    /// Stable identity.
    pub id: EntityId,
    /// What the entity is.
    pub kind: EntityKind,
    /// Human-readable label, such as `lsass.exe`.
    pub label: String,
    /// First observation time in nanoseconds since the epoch.
    pub first_seen_ns: i64,
    /// Most recent observation time in nanoseconds since the epoch.
    pub last_seen_ns: i64,
    /// Typed attributes, in ascending order of their names.
    pub attrs: TextMap<AttrValue>,
}

/// The state space: a finite but open set of entities keyed by id. Each stands
/// beside the id under which it was first observed.
#[derive(Debug, Clone)]
pub struct StateSpace {
    entities: Vec<(u64, Entity)>,
}

/// Entities in ascending order of the ids they stand under, no id twice.
pub open spec fn ordered(entities: Seq<(u64, Entity)>) -> bool {
    forall|i: int, j: int|
        0 <= i < j < entities.len() ==> (#[trigger] entities[i]).0 < (
        #[trigger] entities[j]).0
}

/// The entities by id.
pub open spec fn by_id(entities: Seq<(u64, Entity)>) -> Map<u64, Entity>
    decreases entities.len(),
{
    if entities.len() == 0 {
        Map::empty()
    } else {
        by_id(entities.drop_last()).insert(entities.last().0, entities.last().1)
    }
}

proof fn lemma_by_id(entities: Seq<(u64, Entity)>)
    requires
        ordered(entities),
    ensures
        forall|i: int|
            0 <= i < entities.len() ==> #[trigger] by_id(entities).contains_key(
                entities[i].0,
            ) && by_id(entities)[entities[i].0] == entities[i].1,
        forall|id: u64| #[trigger]
            by_id(entities).contains_key(id) ==> exists|i: int|
                0 <= i < entities.len() && (#[trigger] entities[i]).0 == id,
        by_id(entities).dom().finite(),
        by_id(entities).len() == entities.len(),
    decreases entities.len(),
{
    if entities.len() > 0 {
        let front = entities.drop_last();
        let last = entities.last();
        assert(ordered(front)) by {
            assert forall|i: int, j: int| 0 <= i < j < front.len() implies (
            #[trigger] front[i]).0 < (#[trigger] front[j]).0 by {
                assert(entities[i].0 < entities[j].0);
            }
        }
        lemma_by_id(front);
        assert forall|i: int| 0 <= i < front.len() implies front[i].0 < last.0 by {
            assert(entities[i].0 < entities[entities.len() - 1].0);
        }
        if by_id(front).contains_key(last.0) {
            let i = choose|i: int| 0 <= i < front.len() && (#[trigger] front[i]).0 == last.0;
            assert(front[i].0 < last.0);
        }
        assert forall|i: int| 0 <= i < entities.len() implies #[trigger] by_id(
            entities,
        ).contains_key(entities[i].0) && by_id(entities)[entities[i].0] == entities[i].1 by {
            if i < front.len() {
                assert(front[i] == entities[i]);
                assert(by_id(front).contains_key(front[i].0));
                assert(front[i].0 < last.0);
            }
        }
        assert forall|id: u64| #[trigger]
            by_id(entities).contains_key(id) implies exists|i: int|
            0 <= i < entities.len() && (#[trigger] entities[i]).0 == id by {
            if id == last.0 {
                assert(entities[entities.len() - 1].0 == id);
            } else {
                assert(by_id(front).contains_key(id));
                let i = choose|i: int| 0 <= i < front.len() && (#[trigger] front[i]).0 == id;
                assert(entities[i].0 == id);
            }
        }
    }
}

/// The ids of those of the first `n` entities that are of a kind.
pub open spec fn kind_ids(entities: Seq<(u64, Entity)>, n: nat, kind: EntityKind) -> Seq<EntityId>
    decreases n,
{
    if n == 0 {
        seq![]
    } else {
        let front = kind_ids(entities, (n - 1) as nat, kind);
        if entities[n - 1].1.kind == kind {
            front.push(EntityId(entities[n - 1].0))
        } else {
            front
        }
    }
}

/// Whether an entity of an id is known and of a kind.
pub open spec fn is_kind(known: Map<u64, Entity>, id: u64, kind: EntityKind) -> bool {
    known.contains_key(id) && known[id].kind == kind
}

/// Whether an entity of an id is known, of a kind and of a label.
pub open spec fn is_labelled(
    known: Map<u64, Entity>,
    id: u64,
    kind: EntityKind,
    label: Seq<char>,
) -> bool {
    is_kind(known, id, kind) && known[id].label@ == label
}

impl StateSpace {
    /// The entities by id.
    pub closed spec fn known(&self) -> Map<u64, Entity> {
        by_id(self.entities@)
    }

    /// The entities are kept in ascending order of their ids.
    pub closed spec fn wf(&self) -> bool {
        ordered(self.entities@)
    }

    /// The empty state space.
    pub fn new() -> (space: StateSpace)
        ensures
            space.wf(),
            space.known() == Map::<u64, Entity>::empty(),
    {
        StateSpace { entities: Vec::new() }
    }

    /// Where an id stands, or where it would.
    fn place(&self, id: EntityId) -> (at: usize)
        requires
            self.wf(),
        ensures
            at <= self.entities@.len(),
            forall|i: int| 0 <= i < at ==> (#[trigger] self.entities@[i]).0 < id.0,
            forall|i: int|
                at <= i < self.entities@.len() ==> id.0 <= (#[trigger] self.entities@[i]).0,
    {
        let mut low: usize = 0;
        let mut high: usize = self.entities.len();
        while low < high
            invariant
                self.wf(),
                low <= high <= self.entities@.len(),
                forall|i: int| 0 <= i < low ==> (#[trigger] self.entities@[i]).0 < id.0,
                forall|i: int|
                    high <= i < self.entities@.len() ==> id.0 <= (
                    #[trigger] self.entities@[i]).0,
            decreases high - low,
        {
            let mid: usize = low + (high - low) / 2;
            if self.entities[mid].0 < id.0 {
                low = mid + 1;
            } else {
                high = mid;
            }
        }
        low
    }

    proof fn lemma_at(&self, id: EntityId, at: int)
        requires
            self.wf(),
            0 <= at <= self.entities@.len(),
            forall|i: int| 0 <= i < at ==> (#[trigger] self.entities@[i]).0 < id.0,
            forall|i: int|
                at <= i < self.entities@.len() ==> id.0 <= (#[trigger] self.entities@[i]).0,
        ensures
            self.known().contains_key(id.0) == (at < self.entities@.len()
                && self.entities@[at].0 == id.0),
            self.known().contains_key(id.0) ==> self.known()[id.0] == self.entities@[at].1,
    {
        lemma_by_id(self.entities@);
        if self.known().contains_key(id.0) {
            let i = choose|i: int|
                0 <= i < self.entities@.len() && (#[trigger] self.entities@[i]).0 == id.0;
            if at < i {
                assert(self.entities@[at].0 < self.entities@[i].0);
            }
            assert(i == at);
        }
        if at < self.entities@.len() && self.entities@[at].0 == id.0 {
            assert(by_id(self.entities@).contains_key(self.entities@[at].0));
        }
    }

    /// Idempotent upsert. Always refreshes the last sighting; an entity that is
    /// already known keeps its first sighting and everything else. Returns true
    /// only the first time this entity is seen.
    pub fn observe(&mut self, e: Entity) -> (first: bool)
        requires
            old(self).wf(),
        ensures
            final(self).wf(),
            first == !old(self).known().contains_key(e.id.0),
            final(self).known() == old(self).known().insert(
                e.id.0,
                if first {
                    e
                } else {
                    Entity { last_seen_ns: e.last_seen_ns, ..old(self).known()[e.id.0] }
                },
            ),
    {
        let id = e.id;
        let at: usize = self.place(id);
        let ghost before = self.entities@;
        proof {
            self.lemma_at(id, at as int);
            lemma_by_id(before);
        }
        if at < self.entities.len() && self.entities[at].0 == id.0 {
            self.entities[at].1.last_seen_ns = e.last_seen_ns;
            proof {
                let after = self.entities@;
                assert(after == before.update(at as int, after[at as int]));
                assert(ordered(after));
                lemma_by_id(after);
                lemma_same_ids(before, after, at as int);
            }
            false
        } else {
            self.entities.insert(at, (id.0, e));
            proof {
                let after = self.entities@;
                assert(after == before.insert(at as int, (id.0, e)));
                assert(ordered(after)) by {
                    assert forall|i: int, j: int| 0 <= i < j < after.len() implies (
                    #[trigger] after[i]).0 < (#[trigger] after[j]).0 by {
                        if i < at {
                            assert(after[i] == before[i]);
                        } else if i > at {
                            assert(after[i] == before[i - 1]);
                        }
                        if j < at {
                            assert(after[j] == before[j]);
                        } else if j > at {
                            assert(after[j] == before[j - 1]);
                        }
                    }
                }
                lemma_by_id(after);
                lemma_inserted(before, after, at as int);
            }
            true
        }
    }

    /// Borrows an entity by id.
    pub fn get(&self, id: EntityId) -> (entity: Option<&Entity>)
        requires
            self.wf(),
        ensures
            match entity {
                Some(e) => self.known().contains_key(id.0) && *e == self.known()[id.0],
                None => !self.known().contains_key(id.0),
            },
    {
        let at: usize = self.place(id);
        proof {
            self.lemma_at(id, at as int);
        }
        if at < self.entities.len() && self.entities[at].0 == id.0 {
            Some(&self.entities[at].1)
        } else {
            None
        }
    }

    /// Mutably borrows an entity by id. Whatever the borrower makes of it, it
    /// stays under that id.
    pub fn get_mut(&mut self, id: EntityId) -> (entity: Option<&mut Entity>)
        requires
            old(self).wf(),
        ensures
            final(self).wf(),
            match entity {
                Some(e) => {
                    &&& old(self).known().contains_key(id.0)
                    &&& *e == old(self).known()[id.0]
                    &&& final(self).known() == old(self).known().insert(id.0, *final(e))
                },
                None => !old(self).known().contains_key(id.0) && *final(self) == *old(self),
            },
    {
        let at: usize = self.place(id);
        let ghost before = self.entities@;
        proof {
            self.lemma_at(id, at as int);
            lemma_by_id(before);
            assert forall|e: (u64, Entity)|
                at < before.len() && before[at as int].0 == id.0 && e.0 == id.0 implies ordered(
                #[trigger] before.update(at as int, e),
            ) && by_id(before.update(at as int, e)) == by_id(before).insert(id.0, e.1) by {
                let after = before.update(at as int, e);
                assert(ordered(after));
                lemma_by_id(after);
                lemma_same_ids(before, after, at as int);
            }
        }
        if at < self.entities.len() && self.entities[at].0 == id.0 {
            Some(&mut self.entities[at].1)
        } else {
            None
        }
    }

    /// Number of known entities.
    pub fn len(&self) -> (n: usize)
        requires
            self.wf(),
        ensures
            n == self.known().len(),
            self.known().dom().finite(),
    {
        proof {
            lemma_by_id(self.entities@);
        }
        self.entities.len()
    }

    /// True when nothing has been observed yet.
    pub fn is_empty(&self) -> (empty: bool)
        requires
            self.wf(),
        ensures
            empty == (self.known().len() == 0),
    {
        proof {
            lemma_by_id(self.entities@);
        }
        self.entities.len() == 0
    }

    /// Ids of every entity of a given kind, in ascending order.
    pub fn by_kind(&self, kind: EntityKind) -> (ids: Vec<EntityId>)
        requires
            self.wf(),
        ensures
            forall|i: int, j: int|
                0 <= i < j < ids@.len() ==> (#[trigger] ids@[i]).0 < (#[trigger] ids@[j]).0,
            forall|id: u64|
                ids@.contains(EntityId(id)) == #[trigger] is_kind(self.known(), id, kind),
    {
        let mut out: Vec<EntityId> = Vec::new();
        let mut i: usize = 0;
        while i < self.entities.len()
            invariant
                i <= self.entities@.len(),
                out@ == kind_ids(self.entities@, i as nat, kind),
            decreases self.entities@.len() - i,
        {
            if self.entities[i].1.kind == kind {
                out.push(EntityId(self.entities[i].0));
            }
            i += 1;
        }
        proof {
            lemma_by_id(self.entities@);
            lemma_kind_ids(self.entities@, self.entities@.len(), kind);
            assert forall|id: u64|
                out@.contains(EntityId(id)) == #[trigger] is_kind(self.known(), id, kind) by {
                lemma_of_kind(self.entities@, id, kind);
            }
        }
        out
    }

    /// Sets an attribute. Returns false when the entity is unknown.
    pub fn set_attr(&mut self, id: EntityId, key: &str, v: AttrValue) -> (known: bool)
        requires
            old(self).wf(),
        ensures
            final(self).wf(),
            known == old(self).known().contains_key(id.0),
            !known ==> final(self).known() == old(self).known(),
            known ==> {
                let was = old(self).known()[id.0];
                let now = final(self).known()[id.0];
                &&& final(self).known() == old(self).known().insert(id.0, now)
                &&& now == (Entity { attrs: now.attrs, ..was })
                &&& now.attrs@ == was.attrs@.insert(key@, v)
            },
    {
        let at: usize = self.place(id);
        let ghost before = self.entities@;
        proof {
            self.lemma_at(id, at as int);
            lemma_by_id(before);
        }
        if at < self.entities.len() && self.entities[at].0 == id.0 {
            let _earlier = self.entities[at].1.attrs.insert(key, v);
            proof {
                let after = self.entities@;
                assert(after == before.update(at as int, after[at as int]));
                assert(ordered(after));
                lemma_by_id(after);
                lemma_same_ids(before, after, at as int);
            }
            true
        } else {
            false
        }
    }

    /// Reads an attribute, if both the entity and the key exist.
    pub fn attr(&self, id: EntityId, key: &str) -> (value: Option<&AttrValue>)
        requires
            self.wf(),
        ensures
            match value {
                Some(v) => {
                    &&& self.known().contains_key(id.0)
                    &&& self.known()[id.0].attrs@.contains_key(key@)
                    &&& self.known()[id.0].attrs@[key@] == *v
                },
                None => !self.known().contains_key(id.0)
                    || !self.known()[id.0].attrs@.contains_key(key@),
            },
    {
        match self.get(id) {
            None => None,
            Some(entity) => entity.attrs.get(key),
        }
    }
}

/// Whether an entity of a kind has this id.
spec fn ids_of_kind(entities: Seq<(u64, Entity)>, id: u64, kind: EntityKind) -> bool {
    exists|i: int|
        0 <= i < entities.len() && (#[trigger] entities[i]).0 == id && entities[i].1.kind == kind
}

proof fn lemma_of_kind(entities: Seq<(u64, Entity)>, id: u64, kind: EntityKind)
    requires
        ordered(entities),
    ensures
        ids_of_kind(entities, id, kind) == (by_id(entities).contains_key(id)
            && by_id(entities)[id].kind == kind),
        kind_ids(entities, entities.len(), kind).contains(EntityId(id)) == ids_of_kind(
            entities,
            id,
            kind,
        ),
{
    lemma_by_id(entities);
    lemma_kind_ids(entities, entities.len(), kind);
    if ids_of_kind(entities, id, kind) {
        let i = choose|i: int|
            0 <= i < entities.len() && (#[trigger] entities[i]).0 == id && entities[i].1.kind
                == kind;
        assert(by_id(entities).contains_key(entities[i].0));
        lemma_kind_listed(entities, entities.len(), kind, i);
    }
    if by_id(entities).contains_key(id) && by_id(entities)[id].kind == kind {
        let i = choose|i: int| 0 <= i < entities.len() && (#[trigger] entities[i]).0 == id;
        assert(by_id(entities).contains_key(entities[i].0));
        assert(entities[i].1.kind == kind);
    }
    let ids = kind_ids(entities, entities.len(), kind);
    if ids.contains(EntityId(id)) {
        let k = choose|k: int| 0 <= k < ids.len() && ids[k] == EntityId(id);
        assert(exists|i: int|
            0 <= i < entities.len() && EntityId((#[trigger] entities[i]).0) == ids[k] && entities[i].1.kind
                == kind);
    }
}

proof fn lemma_kind_listed(entities: Seq<(u64, Entity)>, n: nat, kind: EntityKind, i: int)
    requires
        0 <= i < n <= entities.len(),
        entities[i].1.kind == kind,
    ensures
        kind_ids(entities, n, kind).contains(EntityId(entities[i].0)),
    decreases n,
{
    let ids = kind_ids(entities, n, kind);
    if i == n - 1 {
        assert(ids[ids.len() - 1] == EntityId(entities[i].0));
    } else {
        lemma_kind_listed(entities, (n - 1) as nat, kind, i);
        let front = kind_ids(entities, (n - 1) as nat, kind);
        let k = choose|k: int| 0 <= k < front.len() && front[k] == EntityId(entities[i].0);
        assert(ids[k] == EntityId(entities[i].0));
    }
}

proof fn lemma_kind_ids(entities: Seq<(u64, Entity)>, n: nat, kind: EntityKind)
    requires
        n <= entities.len(),
        ordered(entities),
    ensures
        forall|k: int|
            0 <= k < kind_ids(entities, n, kind).len() ==> exists|i: int|
                0 <= i < n && EntityId((#[trigger] entities[i]).0) == #[trigger] kind_ids(
                    entities,
                    n,
                    kind,
                )[k] && entities[i].1.kind == kind,
        forall|i: int, j: int|
            0 <= i < j < kind_ids(entities, n, kind).len() ==> (#[trigger] kind_ids(
                entities,
                n,
                kind,
            )[i]).0 < (#[trigger] kind_ids(entities, n, kind)[j]).0,
    decreases n,
{
    if n > 0 {
        let m = (n - 1) as nat;
        lemma_kind_ids(entities, m, kind);
        let front = kind_ids(entities, m, kind);
        let ids = kind_ids(entities, n, kind);
        assert forall|k: int| 0 <= k < ids.len() implies exists|i: int|
            0 <= i < n && EntityId((#[trigger] entities[i]).0) == #[trigger] ids[k] && entities[i].1.kind
                == kind by {
            if k < front.len() {
                assert(ids[k] == front[k]);
                let i = choose|i: int|
                    0 <= i < m && EntityId((#[trigger] entities[i]).0) == front[k] && entities[i].1.kind
                        == kind;
                assert(EntityId(entities[i].0) == ids[k]);
            } else {
                assert(EntityId(entities[n - 1].0) == ids[k]);
            }
        }
        assert forall|i: int, j: int| 0 <= i < j < ids.len() implies (#[trigger] ids[i]).0 < (
        #[trigger] ids[j]).0 by {
            assert(ids[i] == front[i]);
            if j < front.len() {
                assert(ids[j] == front[j]);
            } else {
                let a = choose|a: int|
                    0 <= a < m && EntityId((#[trigger] entities[a]).0) == front[i] && entities[a].1.kind
                        == kind;
                assert(entities[a].0 < entities[n - 1].0);
            }
        }
    }
}

proof fn lemma_same_ids(before: Seq<(u64, Entity)>, after: Seq<(u64, Entity)>, at: int)
    requires
        ordered(before),
        ordered(after),
        0 <= at < before.len(),
        after == before.update(at, after[at]),
        after[at].0 == before[at].0,
    ensures
        by_id(after) == by_id(before).insert(before[at].0, after[at].1),
{
    lemma_by_id(before);
    lemma_by_id(after);
    let want = by_id(before).insert(before[at].0, after[at].1);
    let got = by_id(after);
    assert forall|id: u64|
        #![trigger got.dom().contains(id)]
        #![trigger want.dom().contains(id)]
        got.dom().contains(id) == want.dom().contains(id) && (got.dom().contains(id) ==> got[id]
            == want[id]) by {
        if got.contains_key(id) {
            let i = choose|i: int| 0 <= i < after.len() && (#[trigger] after[i]).0 == id;
            assert(got.contains_key(after[i].0));
            if i != at {
                assert(after[i] == before[i]);
                assert(before[i].0 != before[at].0) by {
                    if i < at {
                        assert(before[i].0 < before[at].0);
                    } else {
                        assert(before[at].0 < before[i].0);
                    }
                }
            }
            assert(by_id(before).contains_key(before[i].0));
        }
        if want.contains_key(id) {
            if id != before[at].0 {
                let i = choose|i: int| 0 <= i < before.len() && (#[trigger] before[i]).0 == id;
                assert(after[i] == before[i]);
                assert(got.contains_key(after[i].0));
            } else {
                assert(got.contains_key(after[at].0));
            }
        }
    }
    assert(got =~= want);
}

proof fn lemma_inserted(before: Seq<(u64, Entity)>, after: Seq<(u64, Entity)>, at: int)
    requires
        ordered(before),
        ordered(after),
        0 <= at <= before.len(),
        after == before.insert(at, after[at]),
    ensures
        by_id(after) == by_id(before).insert(after[at].0, after[at].1),
{
    lemma_by_id(before);
    lemma_by_id(after);
    let want = by_id(before).insert(after[at].0, after[at].1);
    let got = by_id(after);
    assert forall|id: u64|
        #![trigger got.dom().contains(id)]
        #![trigger want.dom().contains(id)]
        got.dom().contains(id) == want.dom().contains(id) && (got.dom().contains(id) ==> got[id]
            == want[id]) by {
        if got.contains_key(id) {
            let i = choose|i: int| 0 <= i < after.len() && (#[trigger] after[i]).0 == id;
            assert(got.contains_key(after[i].0));
            if i < at {
                assert(after[i] == before[i]);
                assert(by_id(before).contains_key(before[i].0));
                assert(after[i].0 < after[at].0);
            } else if i > at {
                assert(after[i] == before[i - 1]);
                assert(by_id(before).contains_key(before[i - 1].0));
                assert(after[at].0 < after[i].0);
            }
        }
        if want.contains_key(id) {
            if id != after[at].0 {
                let i = choose|i: int| 0 <= i < before.len() && (#[trigger] before[i]).0 == id;
                if i < at {
                    assert(after[i] == before[i]);
                    assert(got.contains_key(after[i].0));
                } else {
                    assert(after[i + 1] == before[i]);
                    assert(got.contains_key(after[i + 1].0));
                }
            } else {
                assert(got.contains_key(after[at].0));
            }
        }
    }
    assert(got =~= want);
}

impl Default for StateSpace {
    fn default() -> (space: StateSpace)
        ensures
            space.wf(),
            space.known() == Map::<u64, Entity>::empty(),
    {
        StateSpace::new()
    }
}

/// Seeing an entity again, at any time, makes nothing new known, and its first
/// sighting stays what it was.
pub proof fn history_is_immutable(known: Map<u64, Entity>, e: Entity)
    requires
        known.contains_key(e.id.0),
    ensures
        ({
            let seen = Entity { last_seen_ns: e.last_seen_ns, ..known[e.id.0] };
            let after = known.insert(e.id.0, seen);
            &&& after.dom() == known.dom()
            &&& after[e.id.0].first_seen_ns == known[e.id.0].first_seen_ns
            &&& after.insert(e.id.0, seen) == after
        }),
{
    let seen = Entity { last_seen_ns: e.last_seen_ns, ..known[e.id.0] };
    let after = known.insert(e.id.0, seen);
    assert(after.dom() =~= known.dom());
    assert(after.insert(e.id.0, seen) =~= after);
}

/// What entities look like by kind and label.
pub struct Projection;

impl Projection {
    /// Every entity of a kind, in ascending order.
    pub fn by_kind(s: &StateSpace, kind: EntityKind) -> (ids: Vec<EntityId>)
        requires
            s.wf(),
        ensures
            forall|i: int, j: int|
                0 <= i < j < ids@.len() ==> (#[trigger] ids@[i]).0 < (#[trigger] ids@[j]).0,
            forall|id: u64|
                ids@.contains(EntityId(id)) == #[trigger] is_kind(s.known(), id, kind),
    {
        s.by_kind(kind)
    }

    /// Every entity of a kind and a label, in ascending order.
    pub fn fiber(s: &StateSpace, kind: EntityKind, label: &str) -> (ids: Vec<EntityId>)
        requires
            s.wf(),
        ensures
            forall|i: int, j: int|
                0 <= i < j < ids@.len() ==> (#[trigger] ids@[i]).0 < (#[trigger] ids@[j]).0,
            forall|id: u64|
                ids@.contains(EntityId(id)) == #[trigger] is_labelled(
                    s.known(),
                    id,
                    kind,
                    label@,
                ),
    {
        let all = s.by_kind(kind);
        let mut out: Vec<EntityId> = Vec::new();
        let mut i: usize = 0;
        while i < all.len()
            invariant
                s.wf(),
                i <= all@.len(),
                forall|a: int, b: int|
                    0 <= a < b < all@.len() ==> (#[trigger] all@[a]).0 < (#[trigger] all@[b]).0,
                forall|id: u64|
                    all@.contains(EntityId(id)) == #[trigger] is_kind(s.known(), id, kind),
                forall|a: int, b: int|
                    0 <= a < b < out@.len() ==> (#[trigger] out@[a]).0 < (#[trigger] out@[b]).0,
                forall|a: int|
                    0 <= a < out@.len() ==> exists|b: int|
                        0 <= b < i && all@[b] == #[trigger] out@[a] && s.known().contains_key(
                            all@[b].0,
                        ) && s.known()[all@[b].0].label@ == label@,
                forall|b: int|
                    0 <= b < i && s.known().contains_key((#[trigger] all@[b]).0)
                        && s.known()[all@[b].0].label@ == label@ ==> out@.contains(all@[b]),
            decreases all@.len() - i,
        {
            let id = all[i];
            let ghost before = out@;
            assert(all@.contains(EntityId(id.0)));
            assert(is_kind(s.known(), id.0, kind));
            assert(s.known().contains_key(id.0));
            match s.get(id) {
                Some(entity) => {
                    if same(entity.label.as_str(), label) {
                        out.push(id);
                        assert(out@[before.len() as int] == id);
                    }
                },
                None => {},
            }
            assert forall|b: int|
                0 <= b < i + 1 && s.known().contains_key((#[trigger] all@[b]).0)
                    && s.known()[all@[b].0].label@ == label@ implies out@.contains(all@[b]) by {
                if b < i {
                    let k = choose|k: int| 0 <= k < before.len() && before[k] == all@[b];
                    assert(out@[k] == all@[b]);
                }
            }
            assert forall|a: int| 0 <= a < out@.len() implies exists|b: int|
                0 <= b < i + 1 && all@[b] == #[trigger] out@[a] && s.known().contains_key(
                    all@[b].0,
                ) && s.known()[all@[b].0].label@ == label@ by {
                if a < before.len() {
                    assert(out@[a] == before[a]);
                    let b = choose|b: int|
                        0 <= b < i && all@[b] == before[a] && s.known().contains_key(all@[b].0)
                            && s.known()[all@[b].0].label@ == label@;
                    assert(all@[b] == out@[a]);
                } else {
                    assert(all@[i as int] == out@[a]);
                }
            }
            assert forall|a: int, b: int| 0 <= a < b < out@.len() implies (#[trigger] out@[a]).0 < (
            #[trigger] out@[b]).0 by {
                if b == before.len() {
                    assert(out@[a] == before[a]);
                    let c = choose|c: int|
                        0 <= c < i && all@[c] == before[a] && s.known().contains_key(all@[c].0)
                            && s.known()[all@[c].0].label@ == label@;
                    assert(all@[c].0 < all@[i as int].0);
                } else {
                    assert(out@[a] == before[a]);
                    assert(out@[b] == before[b]);
                }
            }
            i += 1;
        }
        assert forall|id: u64|
            out@.contains(EntityId(id)) == #[trigger] is_labelled(
                s.known(),
                id,
                kind,
                label@,
            ) by {
            assert(all@.contains(EntityId(id)) == is_kind(s.known(), id, kind));
            if out@.contains(EntityId(id)) {
                let a = choose|a: int| 0 <= a < out@.len() && out@[a] == EntityId(id);
                let b = choose|b: int|
                    0 <= b < i && all@[b] == out@[a] && s.known().contains_key(all@[b].0)
                        && s.known()[all@[b].0].label@ == label@;
                assert(all@.contains(EntityId(id)));
            }
            if s.known().contains_key(id) && s.known()[id].kind == kind && s.known()[id].label@
                == label@ {
                assert(all@.contains(EntityId(id)));
                let b = choose|b: int| 0 <= b < all@.len() && all@[b] == EntityId(id);
                assert(s.known().contains_key(all@[b].0));
            }
        }
        out
    }
}

/// The gap between what could exist and what has been seen.
#[derive(Debug, Clone, Copy, PartialEq, Eq, Structural)]
pub struct StateGap {
    /// Size of the nominal universe.
    pub universe: usize,
    /// Size of the observed subset.
    pub observed: usize,
}

impl StateGap {
    pub fn new(universe: usize, observed: usize) -> (gap: StateGap)
        ensures
            gap == (StateGap { universe, observed }),
    {
        StateGap { universe, observed }
    }

    /// Entities of the nominal universe that were never observed.
    pub fn gap(&self) -> (n: usize)
        ensures
            n == if self.universe > self.observed {
                self.universe - self.observed
            } else {
                0
            },
    {
        self.universe.saturating_sub(self.observed)
    }

    /// Observed fraction of the universe: one when the universe is empty, and
    /// never above one.
    pub fn coverage(&self) -> (ratio: Ratio)
        ensures
            ratio.wf(),
            ratio == if self.universe == 0 {
                Ratio { num: 1, den: 1 }
            } else if self.observed > self.universe {
                Ratio { num: self.universe as u64, den: self.universe as u64 }
            } else {
                Ratio { num: self.observed as u64, den: self.universe as u64 }
            },
    {
        if self.universe == 0 {
            Ratio { num: 1, den: 1 }
        } else if self.observed > self.universe {
            Ratio { num: self.universe as u64, den: self.universe as u64 }
        } else {
            Ratio { num: self.observed as u64, den: self.universe as u64 }
        }
    }

    /// The state space is never closed, however good coverage looks.
    pub fn is_open(&self) -> (open: bool)
        ensures
            open,
    {
        true
    }
}

} // verus!
