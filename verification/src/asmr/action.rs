//! The actions a defender may take, and the ladder they form.
use vstd::prelude::*;

verus! {

/// Identifies a registered action.
#[derive(Debug, Clone, Copy, PartialEq, Eq, PartialOrd, Ord, Hash, Structural)]
pub struct ActionId(pub u32);

/// What kind of intervention an action is, ordered by how far it escalates.
#[derive(Debug, Clone, Copy, PartialEq, Eq, Structural)]
pub enum ActionKind {
    Observe,
    Enrich,
    Alert,
    CompensatingControl,
    Freeze,
    Isolate,
    Rollback,
}

impl ActionKind {
    /// Position on the escalation ladder.
    pub open spec fn step(self) -> u8 {
        match self {
            ActionKind::Observe => 0,
            ActionKind::Enrich => 1,
            ActionKind::Alert => 2,
            ActionKind::CompensatingControl => 3,
            ActionKind::Freeze => 4,
            ActionKind::Isolate => 5,
            ActionKind::Rollback => 6,
        }
    }

    /// Position on the escalation ladder. Used to order the ladder, never to
    /// weigh severity.
    pub fn rank(&self) -> (rank: u8)
        ensures
            rank == self.step(),
    {
        match self {
            ActionKind::Observe => 0,
            ActionKind::Enrich => 1,
            ActionKind::Alert => 2,
            ActionKind::CompensatingControl => 3,
            ActionKind::Freeze => 4,
            ActionKind::Isolate => 5,
            ActionKind::Rollback => 6,
        }
    }

    /// Whether this kind changes the observed system: everything above an alert
    /// does.
    pub fn disruptive(&self) -> (yes: bool)
        ensures
            yes == (self.step() > ActionKind::Alert.step()),
    {
        matches!(
            self,
            ActionKind::CompensatingControl
                | ActionKind::Freeze
                | ActionKind::Isolate
                | ActionKind::Rollback
        )
    }
}

/// One intervention available to the defender.
#[derive(Debug, Clone, PartialEq)]
pub struct Action {
    pub id: ActionId,
    pub name: String,
    pub kind: ActionKind,
    pub severity: u8,
    pub reversible: bool,
    pub blast_radius: u32,
    pub duration_s: u64,
}

/// A severity kept between one and five.
pub open spec fn clamped_severity(severity: u8) -> u8 {
    if severity < 1 {
        1
    } else if severity > 5 {
        5
    } else {
        severity
    }
}

impl Action {
    pub fn new(
        id: ActionId,
        name: &str,
        kind: ActionKind,
        severity: u8,
        reversible: bool,
        blast_radius: u32,
        duration_s: u64,
    ) -> (action: Action)
        ensures
            action.id == id,
            action.name@ == name@,
            action.kind == kind,
            action.severity == clamped_severity(severity),
            action.reversible == reversible,
            action.blast_radius == blast_radius,
            action.duration_s == duration_s,
    {
        Action {
            id,
            name: name.to_string(),
            kind,
            severity: if severity < 1 {
                1
            } else if severity > 5 {
                5
            } else {
                severity
            },
            reversible,
            blast_radius,
            duration_s,
        }
    }

    /// Where an action stands on the ladder: by kind, then by severity.
    pub open spec fn height(&self) -> int {
        self.kind.step() * 256 + self.severity
    }

    fn ladder_key(&self) -> (key: u16)
        ensures
            key == self.height(),
    {
        self.kind.rank() as u16 * 256 + self.severity as u16
    }
}

/// The set of actions the defender may choose from.
#[derive(Debug, Clone)]
pub struct ActionSpace {
    actions: Vec<Action>,
}

/// The first action of an id.
pub open spec fn action_of(actions: Seq<Action>, id: ActionId) -> Option<Action>
    decreases actions.len(),
{
    if actions.len() == 0 {
        None
    } else if actions[0].id == id {
        Some(actions[0])
    } else {
        action_of(actions.drop_first(), id)
    }
}

/// Whether an action is within a severity cap, and reversible where it must be.
pub open spec fn permitted(action: Action, max_severity: u8, require_reversible: bool) -> bool {
    action.severity <= max_severity && (require_reversible ==> action.reversible)
}

/// The ids of the permitted ones of the first `n` actions, in order.
pub open spec fn permitted_ids(
    actions: Seq<Action>,
    n: nat,
    max_severity: u8,
    require_reversible: bool,
) -> Seq<ActionId>
    decreases n,
{
    if n == 0 {
        seq![]
    } else {
        let front = permitted_ids(actions, (n - 1) as nat, max_severity, require_reversible);
        if permitted(actions[n - 1], max_severity, require_reversible) {
            front.push(actions[n - 1].id)
        } else {
            front
        }
    }
}

/// Where an action goes on a ladder: behind everything that is not above it.
pub open spec fn rung(ladder: Seq<Action>, action: Action) -> int
    decreases ladder.len(),
{
    if ladder.len() == 0 {
        0
    } else if ladder.last().height() <= action.height() {
        ladder.len() as int
    } else {
        rung(ladder.drop_last(), action)
    }
}

/// The first `n` actions from the lowest rung to the highest; actions on one
/// rung stay in the order of registration.
pub open spec fn ladder_of(actions: Seq<Action>, n: nat) -> Seq<Action>
    decreases n,
{
    if n == 0 {
        seq![]
    } else {
        let lower = ladder_of(actions, (n - 1) as nat);
        lower.insert(rung(lower, actions[n - 1]), actions[n - 1])
    }
}

/// Nothing on a ladder stands below something of a lower height.
pub open spec fn ascending(ladder: Seq<Action>) -> bool {
    forall|i: int, j: int|
        0 <= i <= j < ladder.len() ==> (#[trigger] ladder[i]).height() <= (
        #[trigger] ladder[j]).height()
}

proof fn lemma_rung(ladder: Seq<Action>, action: Action)
    requires
        ascending(ladder),
    ensures
        0 <= rung(ladder, action) <= ladder.len(),
        forall|i: int|
            0 <= i < rung(ladder, action) ==> (#[trigger] ladder[i]).height() <= action.height(),
        forall|i: int|
            rung(ladder, action) <= i < ladder.len() ==> action.height() < (
            #[trigger] ladder[i]).height(),
    decreases ladder.len(),
{
    if ladder.len() > 0 {
        if ladder.last().height() <= action.height() {
            assert forall|i: int| 0 <= i < ladder.len() implies (#[trigger] ladder[i]).height()
                <= action.height() by {
                assert(ladder[i].height() <= ladder[ladder.len() - 1].height());
            }
        } else {
            let front = ladder.drop_last();
            assert forall|i: int, j: int| 0 <= i <= j < front.len() implies (
            #[trigger] front[i]).height() <= (#[trigger] front[j]).height() by {
                assert(ladder[i].height() <= ladder[j].height());
            }
            lemma_rung(front, action);
            assert forall|i: int| 0 <= i < rung(ladder, action) implies (
            #[trigger] ladder[i]).height() <= action.height() by {
                assert(front[i] == ladder[i]);
            }
            assert forall|i: int| rung(ladder, action) <= i < ladder.len() implies action.height()
                < (#[trigger] ladder[i]).height() by {
                if i < front.len() {
                    assert(front[i] == ladder[i]);
                }
            }
        }
    }
}

/// The escalation ladder holds exactly the registered actions, each as often as
/// it was registered, from the lowest kind to the highest and within a kind from
/// the lowest severity to the highest.
pub proof fn ladder_is_an_ordered_permutation(actions: Seq<Action>, n: nat)
    requires
        n <= actions.len(),
    ensures
        ladder_of(actions, n).len() == n,
        ascending(ladder_of(actions, n)),
        ladder_of(actions, n).to_multiset() == actions.take(n as int).to_multiset(),
    decreases n,
{
    if n > 0 {
        let m = (n - 1) as nat;
        ladder_is_an_ordered_permutation(actions, m);
        let lower = ladder_of(actions, m);
        let last = actions[n - 1];
        let at = rung(lower, last);
        lemma_rung(lower, last);
        let whole = ladder_of(actions, n);
        assert forall|i: int, j: int| 0 <= i <= j < whole.len() implies (
        #[trigger] whole[i]).height() <= (#[trigger] whole[j]).height() by {
            let a = if i < at {
                lower[i]
            } else if i == at {
                last
            } else {
                lower[i - 1]
            };
            let b = if j < at {
                lower[j]
            } else if j == at {
                last
            } else {
                lower[j - 1]
            };
            assert(whole[i] == a && whole[j] == b);
        }
        broadcast use vstd::seq_lib::group_to_multiset_ensures;

        assert(actions.take(n as int) == actions.take(m as int).push(last));
        vstd::seq_lib::to_multiset_insert(lower, at, last);
    } else {
        assert(actions.take(0) == Seq::<Action>::empty());
    }
}

impl ActionSpace {
    /// The registered actions, in order.
    pub closed spec fn all(&self) -> Seq<Action> {
        self.actions@
    }

    pub fn new() -> (space: ActionSpace)
        ensures
            space.all() == Seq::<Action>::empty(),
    {
        ActionSpace { actions: Vec::new() }
    }

    /// Adds an action behind those already registered.
    pub fn register(&mut self, a: Action) -> (id: ActionId)
        ensures
            final(self).all() == old(self).all().push(a),
            id == a.id,
    {
        let id = a.id;
        self.actions.push(a);
        id
    }

    /// The first action of an id.
    pub fn get(&self, id: ActionId) -> (action: Option<&Action>)
        ensures
            match action {
                Some(a) => action_of(self.all(), id) == Some(*a),
                None => action_of(self.all(), id) is None,
            },
    {
        let ghost all = self.all();
        let mut i: usize = 0;
        assert(all.skip(0) == all);
        while i < self.actions.len()
            invariant
                i <= self.actions@.len(),
                all == self.actions@,
                action_of(all, id) == action_of(all.skip(i as int), id),
            decreases self.actions@.len() - i,
        {
            assert(all.skip(i as int)[0] == all[i as int]);
            assert(all.skip(i as int).drop_first() == all.skip(i + 1));
            if self.actions[i].id == id {
                return Some(&self.actions[i]);
            }
            i += 1;
        }
        None
    }

    pub fn len(&self) -> (n: usize)
        ensures
            n == self.all().len(),
    {
        self.actions.len()
    }

    pub fn is_empty(&self) -> (empty: bool)
        ensures
            empty == (self.all().len() == 0),
    {
        self.actions.len() == 0
    }

    /// Actions a defender is permitted to take: severity within the cap,
    /// and reversible if the caller cannot accept a one-way door.
    pub fn admissible(&self, max_severity: u8, require_reversible: bool) -> (ids: Vec<ActionId>)
        ensures
            ids@ == permitted_ids(
                self.all(),
                self.all().len(),
                max_severity,
                require_reversible,
            ),
    {
        let mut out: Vec<ActionId> = Vec::new();
        let mut i: usize = 0;
        while i < self.actions.len()
            invariant
                i <= self.actions@.len(),
                out@ == permitted_ids(self.all(), i as nat, max_severity, require_reversible),
            decreases self.actions@.len() - i,
        {
            let a = &self.actions[i];
            if a.severity <= max_severity && (!require_reversible || a.reversible) {
                out.push(a.id);
            }
            i += 1;
        }
        out
    }

    /// The ordered ladder from watching to isolating. Walking it is how a
    /// response escalates without jumping to the most destructive option.
    pub fn escalation_ladder(&self) -> (ids: Vec<ActionId>)
        ensures
            ids@ == ladder_of(self.all(), self.all().len()).map_values(|a: Action| a.id),
    {
        let mut rungs: Vec<&Action> = Vec::new();
        let ghost as_actions = |list: Seq<&Action>| list.map_values(|a: &Action| *a);
        let mut i: usize = 0;
        assert(as_actions(rungs@) == ladder_of(self.all(), 0));
        while i < self.actions.len()
            invariant
                i <= self.actions@.len(),
                as_actions == (|list: Seq<&Action>| list.map_values(|a: &Action| *a)),
                as_actions(rungs@) == ladder_of(self.all(), i as nat),
            decreases self.actions@.len() - i,
        {
            let action = &self.actions[i];
            let key: u16 = action.ladder_key();
            let ghost lower = ladder_of(self.all(), i as nat);
            proof {
                ladder_is_an_ordered_permutation(self.all(), i as nat);
                lemma_rung(lower, *action);
            }
            let mut at: usize = rungs.len();
            assert(lower.take(at as int) == lower);
            while at > 0 && rungs[at - 1].ladder_key() > key
                invariant
                    at <= rungs@.len(),
                    lower.len() == rungs@.len(),
                    key == action.height(),
                    forall|k: int| 0 <= k < lower.len() ==> lower[k] == *(#[trigger] rungs@[k]),
                    rung(lower, *action) == rung(lower.take(at as int), *action),
                decreases at,
            {
                assert(lower.take(at as int).last() == *rungs@[at - 1]);
                assert(lower.take(at as int).drop_last() == lower.take(at - 1));
                at -= 1;
            }
            assert(at > 0 ==> lower.take(at as int).last() == *rungs@[at - 1]);
            assert(rung(lower, *action) == at);
            let ghost before = rungs@;
            rungs.insert(at, action);
            assert(as_actions(rungs@) == lower.insert(at as int, *action));
            i += 1;
        }
        let mut ids: Vec<ActionId> = Vec::new();
        let ghost ladder = ladder_of(self.all(), self.all().len());
        let mut k: usize = 0;
        while k < rungs.len()
            invariant
                k <= rungs@.len(),
                as_actions == (|list: Seq<&Action>| list.map_values(|a: &Action| *a)),
                as_actions(rungs@) == ladder,
                ids@ == ladder.map_values(|a: Action| a.id).take(k as int),
            decreases rungs@.len() - k,
        {
            assert(ladder[k as int] == *rungs@[k as int]);
            ids.push(rungs[k].id);
            k += 1;
        }
        assert(ids@ == ladder.map_values(|a: Action| a.id));
        ids
    }
}

impl Default for ActionSpace {
    fn default() -> (space: ActionSpace)
        ensures
            space.all() == Seq::<Action>::empty(),
    {
        ActionSpace::new()
    }
}

} // verus!
