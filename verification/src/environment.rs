//! The world state of the tag game: the play area, each player's visible
//! state, and the batch application of one tick's actions.

use vstd::prelude::*;

use crate::geometry::clamp_pos;
use crate::geometry::pos_plus;
use crate::geometry::sqdist;
use crate::geometry::square_distance;
use crate::geometry::stretch_in_limit;
use crate::geometry::PlayArea;
use crate::geometry::Vec2;

verus! {

/// Players are addressed by their 0-based index in the environment.
pub type PlayerId = usize;

/// Whether a player is it, and if they are, who tagged them.
#[derive(Clone, Copy, Debug, PartialEq, Eq, Structural)]
pub enum TagStatus {
    /// The player is not it.
    NotIt,
    /// The player is it and was tagged by the indicated player.
    It { tagged_by: PlayerId },
}

impl TagStatus {
    /// The status is the pursuing role.
    pub open spec fn spec_is_it(self) -> bool {
        self is It
    }

    pub fn is_it(&self) -> (r: bool)
        ensures
            r == self.spec_is_it(),
    {
        match self {
            TagStatus::It { .. } => true,
            TagStatus::NotIt => false,
        }
    }
}

impl From<TagStatus> for Option<PlayerId> {
    /// The id of the player who tagged this one, when it is it.
    fn from(status: TagStatus) -> (r: Option<PlayerId>) {
        match status {
            TagStatus::NotIt => None,
            TagStatus::It { tagged_by } => Some(tagged_by),
        }
    }
}

impl vstd::std_specs::convert::FromSpecImpl<TagStatus> for Option<PlayerId> {
    open spec fn obeys_from_spec() -> bool {
        true
    }

    open spec fn from_spec(status: TagStatus) -> Option<PlayerId> {
        match status {
            TagStatus::NotIt => None,
            TagStatus::It { tagged_by } => Some(tagged_by),
        }
    }
}

/// The state about each player that the environment shows to every player.
#[derive(Clone, Copy, Debug, PartialEq, Eq, Structural)]
pub struct TagPlayerVisibleState {
    /// The player's current position.
    pub position: Vec2,
    /// Whether the player is it.
    pub status: TagStatus,
}

impl TagPlayerVisibleState {
    pub open spec fn spec_is_it(self) -> bool {
        self.status.spec_is_it()
    }

    pub fn is_it(&self) -> (r: bool)
        ensures
            r == self.spec_is_it(),
    {
        self.status.is_it()
    }
}

/// Action each player agent can choose to take on each step.
#[derive(Clone, Copy, Debug, PartialEq, Eq, Structural)]
pub enum TagPlayerAction {
    /// Run by a displacement.
    Run { stretch: Vec2 },
    /// Tag a player within reach.
    Tag { player_id: PlayerId },
}

/// Recoverable failure of a decision query.
#[derive(Clone, Copy, Debug, PartialEq, Eq, Structural)]
pub enum TagError {
    /// A nearest-neighbour query had no eligible candidate.
    NotEnoughPlayers,
}

/// Player `k` is a candidate of a nearest-neighbour query for `pid`: a
/// player other than the asker and the optional ignored player.
pub open spec fn eligible(pid: int, ignore: Option<PlayerId>, k: int, n: int) -> bool {
    &&& 0 <= k < n
    &&& k != pid
    &&& match ignore {
        Some(g) => k != g as int,
        None => true,
    }
}

/// The running result of the nearest-neighbour scan over players `0..k`:
/// the first index of minimum squared distance, with that distance.
pub open spec fn closest_rec(
    states: Seq<TagPlayerVisibleState>,
    pid: int,
    ignore: Option<PlayerId>,
    k: int,
) -> Option<(int, int)>
    decreases k,
{
    if k <= 0 {
        None
    } else {
        let prev = closest_rec(states, pid, ignore, k - 1);
        let i = k - 1;
        if !eligible(pid, ignore, i, states.len() as int) {
            prev
        } else {
            let d = sqdist(states[pid].position, states[i].position);
            match prev {
                None => Some((i, d)),
                Some(p) => if d < p.1 {
                    Some((i, d))
                } else {
                    prev
                },
            }
        }
    }
}

/// The nearest eligible neighbour of `pid` over the whole player list.
pub open spec fn closest_spec(
    states: Seq<TagPlayerVisibleState>,
    pid: int,
    ignore: Option<PlayerId>,
) -> Option<(int, int)> {
    closest_rec(states, pid, ignore, states.len() as int)
}

/// Nearest-neighbour correctness: the scan returns an eligible player at
/// minimum squared distance, earlier equal distances winning ties, and
/// returns nothing exactly when no player is eligible.
pub proof fn lemma_closest_rec_props(
    states: Seq<TagPlayerVisibleState>,
    pid: int,
    ignore: Option<PlayerId>,
    k: int,
)
    requires
        0 <= k <= states.len(),
        0 <= pid < states.len(),
    ensures
        match closest_rec(states, pid, ignore, k) {
            None => forall|j: int| j < k ==> !eligible(pid, ignore, j, states.len() as int),
            Some(p) => {
                &&& eligible(pid, ignore, p.0, states.len() as int)
                &&& p.0 < k
                &&& p.1 == sqdist(states[pid].position, states[p.0].position)
                &&& forall|j: int|
                    j < k && #[trigger] eligible(pid, ignore, j, states.len() as int) ==> p.1
                        <= sqdist(states[pid].position, states[j].position)
                &&& forall|j: int|
                    j < p.0 && #[trigger] eligible(pid, ignore, j, states.len() as int) ==> p.1
                        < sqdist(states[pid].position, states[j].position)
            },
        },
    decreases k,
{
    if k > 0 {
        lemma_closest_rec_props(states, pid, ignore, k - 1);
    }
}

/// The first player whose status is the pursuing role, scanning from `k`;
/// the player count when there is none.
pub open spec fn first_it_from(states: Seq<TagPlayerVisibleState>, k: int) -> int
    decreases states.len() - k,
{
    if k < 0 || k >= states.len() {
        states.len() as int
    } else if states[k].spec_is_it() {
        k
    } else {
        first_it_from(states, k + 1)
    }
}

/// The first player who is it, or the player count when nobody is.
pub open spec fn first_it(states: Seq<TagPlayerVisibleState>) -> int {
    first_it_from(states, 0)
}

/// Some player is it.
pub open spec fn has_it(states: Seq<TagPlayerVisibleState>) -> bool {
    exists|i: int| 0 <= i < states.len() && (#[trigger] states[i]).spec_is_it()
}

proof fn lemma_first_it_from(states: Seq<TagPlayerVisibleState>, k: int)
    requires
        0 <= k <= states.len(),
    ensures
        k <= first_it_from(states, k) <= states.len(),
        first_it_from(states, k) < states.len() ==> states[first_it_from(states, k)].spec_is_it(),
        forall|j: int| k <= j < first_it_from(states, k) ==> !(#[trigger] states[j]).spec_is_it(),
    decreases states.len() - k,
{
    if k < states.len() && !states[k].spec_is_it() {
        lemma_first_it_from(states, k + 1);
    }
}

/// `first_it` finds an it player exactly when one exists, and then finds
/// the first one.
pub proof fn lemma_first_it(states: Seq<TagPlayerVisibleState>)
    ensures
        has_it(states) <==> first_it(states) < states.len(),
        0 <= first_it(states) <= states.len(),
        first_it(states) < states.len() ==> states[first_it(states)].spec_is_it(),
        forall|j: int| 0 <= j < first_it(states) ==> !(#[trigger] states[j]).spec_is_it(),
{
    lemma_first_it_from(states, 0);
}

/// The action is legal for player `pid` against the given states: a run
/// displacement within the stretch limit, or a tag by a player who is it
/// aimed at a player that exists.
pub open spec fn action_ok(
    states: Seq<TagPlayerVisibleState>,
    pid: int,
    a: TagPlayerAction,
) -> bool {
    match a {
        TagPlayerAction::Run { stretch } => stretch_in_limit(stretch),
        TagPlayerAction::Tag { player_id: t } => (t as int) < states.len()
            && states[pid].spec_is_it(),
    }
}

/// The states after one player's action: a run moves that player by the
/// displacement and clamps the result into the area; a tag hands the
/// pursuing role from the actor to the target.
pub open spec fn apply_one(
    area: PlayArea,
    states: Seq<TagPlayerVisibleState>,
    pid: int,
    a: TagPlayerAction,
) -> Seq<TagPlayerVisibleState> {
    match a {
        TagPlayerAction::Run { stretch } => states.update(
            pid,
            TagPlayerVisibleState {
                position: clamp_pos(area, pos_plus(states[pid].position, stretch)),
                status: states[pid].status,
            },
        ),
        TagPlayerAction::Tag { player_id: t } => {
            let detagged = states.update(
                pid,
                TagPlayerVisibleState { position: states[pid].position, status: TagStatus::NotIt },
            );
            detagged.update(
                t as int,
                TagPlayerVisibleState {
                    position: detagged[t as int].position,
                    status: TagStatus::It { tagged_by: pid as usize },
                },
            )
        },
    }
}

/// The states after the first `k` actions of a batch, applied in player
/// order.
pub open spec fn apply_upto(
    area: PlayArea,
    initial: Seq<TagPlayerVisibleState>,
    actions: Seq<TagPlayerAction>,
    k: int,
) -> Seq<TagPlayerVisibleState>
    decreases k,
{
    if k <= 0 {
        initial
    } else {
        apply_one(area, apply_upto(area, initial, actions, k - 1), k - 1, actions[k - 1])
    }
}

/// Every action of the batch is legal at the moment it is applied.
pub open spec fn batch_ok(
    area: PlayArea,
    initial: Seq<TagPlayerVisibleState>,
    actions: Seq<TagPlayerAction>,
) -> bool {
    forall|i: int|
        0 <= i < actions.len() ==> action_ok(
            apply_upto(area, initial, actions, i),
            i,
            #[trigger] actions[i],
        )
}

/// Player `i` is the only player who is it.
pub open spec fn sole_it(states: Seq<TagPlayerVisibleState>, i: int) -> bool {
    &&& 0 <= i < states.len()
    &&& states[i].spec_is_it()
    &&& forall|j: int| 0 <= j < states.len() && j != i ==> !(#[trigger] states[j]).spec_is_it()
}

/// Exactly one player is it.
pub open spec fn exactly_one_it(states: Seq<TagPlayerVisibleState>) -> bool {
    exists|i: int| #[trigger] sole_it(states, i)
}

/// Tag exclusivity: when the sole it player tags, the target becomes the
/// sole it player (recorded as tagged by the actor), and the actor is no
/// longer it.
pub proof fn lemma_tag_exclusivity(
    area: PlayArea,
    states: Seq<TagPlayerVisibleState>,
    pid: int,
    target: PlayerId,
)
    requires
        sole_it(states, pid),
        (target as int) < states.len(),
    ensures
        ({
            let after = apply_one(
                area,
                states,
                pid,
                TagPlayerAction::Tag { player_id: target },
            );
            &&& sole_it(after, target as int)
            &&& exactly_one_it(after)
            &&& after[target as int].status == (TagStatus::It { tagged_by: pid as usize })
            &&& (target as int) != pid ==> after[pid].status == TagStatus::NotIt
        }),
{
    let after = apply_one(area, states, pid, TagPlayerAction::Tag { player_id: target });
    assert(after[target as int].spec_is_it());
    assert(forall|j: int|
        0 <= j < after.len() && j != target as int ==> !(#[trigger] after[j]).spec_is_it());
    assert(sole_it(after, target as int));
}

/// Information about the state of the simulation that the player agents
/// have access to.
#[derive(Debug)]
pub struct TagEnvironment {
    /// The game is limited to this area.
    area: PlayArea,
    /// Visible state about all the players.
    player_state: Vec<TagPlayerVisibleState>,
}

impl TagEnvironment {
    /// The play area, as contracts see it.
    pub closed spec fn spec_area(self) -> PlayArea {
        self.area
    }

    /// The players' visible states, as contracts see them.
    pub closed spec fn states(self) -> Seq<TagPlayerVisibleState> {
        self.player_state@
    }

    /// The area is well formed and every player stands within it.
    pub open spec fn wf(self) -> bool {
        &&& self.spec_area().wf()
        &&& forall|i: int|
            0 <= i < self.states().len() ==> self.spec_area().contains_spec(
                (#[trigger] self.states()[i]).position,
            )
    }

    pub fn new(area: PlayArea, player_state: Vec<TagPlayerVisibleState>) -> (r: TagEnvironment)
        requires
            area.wf(),
            forall|i: int|
                0 <= i < player_state@.len() ==> area.contains_spec(
                    (#[trigger] player_state@[i]).position,
                ),
        ensures
            r.spec_area() == area,
            r.states() == player_state@,
            r.wf(),
    {
        TagEnvironment { area, player_state }
    }

    /// Get the visible state of one of the players.
    pub fn get_state(&self, player_id: PlayerId) -> (r: &TagPlayerVisibleState)
        requires
            player_id < self.states().len(),
        ensures
            *r == self.states()[player_id as int],
    {
        &self.player_state[player_id]
    }

    /// Read-only view of all players, in id order.
    pub fn player_state(&self) -> (r: &[TagPlayerVisibleState])
        ensures
            r@ == self.states(),
    {
        self.player_state.as_slice()
    }

    pub fn area(&self) -> (r: PlayArea)
        ensures
            r == self.spec_area(),
    {
        self.area
    }

    /// Number of players known to the environment.
    pub fn player_count(&self) -> (r: usize)
        ensures
            r == self.states().len(),
    {
        self.player_state.len()
    }

    /// The first player who is currently it, scanning in id order.
    pub fn get_it(&self) -> (r: Option<PlayerId>)
        ensures
            match r {
                Some(i) => first_it(self.states()) == i as int && (i as int) < self.states().len()
                    && self.states()[i as int].spec_is_it(),
                None => !has_it(self.states()),
            },
    {
        proof {
            lemma_first_it(self.states());
        }
        let n = self.player_state.len();
        let mut k: usize = 0;
        while k < n
            invariant
                k <= n,
                n == self.states().len(),
                first_it(self.states()) == first_it_from(self.states(), k as int),
            decreases n - k,
        {
            if self.player_state[k].is_it() {
                return Some(k);
            }
            k = k + 1;
        }
        proof {
            lemma_first_it(self.states());
        }
        None
    }

    /// Get the player closest to a specified player, optionally ignoring a
    /// player. Returns the player's id with the squared distance; earlier
    /// ids win ties. Fails exactly when no other eligible player exists.
    pub fn closest_player_except(&self, player_id: PlayerId, ignore: Option<PlayerId>) -> (r:
        Result<(PlayerId, i64), TagError>)
        requires
            self.wf(),
            player_id < self.states().len(),
        ensures
            ({
                let states = self.states();
                let n = states.len() as int;
                match r {
                    Ok(p) => {
                        &&& closest_spec(states, player_id as int, ignore) == Some(
                            (p.0 as int, p.1 as int),
                        )
                        &&& eligible(player_id as int, ignore, p.0 as int, n)
                        &&& p.1 == sqdist(states[player_id as int].position, states[p.0 as int].position)
                        &&& forall|j: int|
                            #[trigger] eligible(player_id as int, ignore, j, n) ==> p.1 as int
                                <= sqdist(states[player_id as int].position, states[j].position)
                        &&& forall|j: int|
                            j < p.0 as int && #[trigger] eligible(player_id as int, ignore, j, n)
                                ==> (p.1 as int) < sqdist(
                                states[player_id as int].position,
                                states[j].position,
                            )
                    },
                    Err(e) => {
                        &&& e == TagError::NotEnoughPlayers
                        &&& closest_spec(states, player_id as int, ignore) is None
                        &&& forall|j: int| !(#[trigger] eligible(player_id as int, ignore, j, n))
                    },
                }
            }),
    {
        let ghost states = self.states();
        let my_position = self.get_state(player_id).position;
        let n = self.player_state.len();
        let mut best: Option<(usize, i64)> = None;
        let mut i: usize = 0;
        while i < n
            invariant
                self.wf(),
                i <= n,
                n == states.len(),
                states == self.states(),
                player_id < n,
                my_position == states[player_id as int].position,
                match best {
                    None => closest_rec(states, player_id as int, ignore, i as int) is None,
                    Some(b) => b.0 < n && closest_rec(states, player_id as int, ignore, i as int)
                        == Some((b.0 as int, b.1 as int)),
                },
            decreases n - i,
        {
            let skipped = i == player_id || (match ignore {
                Some(g) => i == g,
                None => false,
            });
            if !skipped {
                let d = square_distance(&my_position, &self.player_state[i].position);
                match best {
                    None => { best = Some((i, d)) },
                    Some(b) => {
                        if d < b.1 {
                            best = Some((i, d));
                        }
                    },
                }
            }
            i = i + 1;
        }
        proof {
            lemma_closest_rec_props(states, player_id as int, ignore, n as int);
        }
        match best {
            None => Err(TagError::NotEnoughPlayers),
            Some(b) => Ok(b),
        }
    }

    /// Apply one player's action. A run displacement is added to the
    /// player's position, which is then clamped componentwise into the play
    /// area; a tag hands the pursuing role to the target.
    pub fn apply_action(&mut self, player_id: PlayerId, action: &TagPlayerAction)
        requires
            old(self).wf(),
            player_id < old(self).states().len(),
            action_ok(old(self).states(), player_id as int, *action),
        ensures
            final(self).spec_area() == old(self).spec_area(),
            final(self).states() == apply_one(
                old(self).spec_area(),
                old(self).states(),
                player_id as int,
                *action,
            ),
            final(self).wf(),
    {
        match action {
            TagPlayerAction::Run { stretch } => {
                let s = self.player_state[player_id];
                let mut px = s.position.x + stretch.x;
                let mut py = s.position.y + stretch.y;
                if px < self.area.min_x {
                    px = self.area.min_x;
                }
                if px > self.area.max_x {
                    px = self.area.max_x;
                }
                if py < self.area.min_y {
                    py = self.area.min_y;
                }
                if py > self.area.max_y {
                    py = self.area.max_y;
                }
                self.player_state[player_id] = TagPlayerVisibleState {
                    position: Vec2 { x: px, y: py },
                    status: s.status,
                };
            },
            TagPlayerAction::Tag { player_id: other_player_id } => {
                let s = self.player_state[player_id];
                self.player_state[player_id] = TagPlayerVisibleState {
                    position: s.position,
                    status: TagStatus::NotIt,
                };
                let so = self.player_state[*other_player_id];
                self.player_state[*other_player_id] = TagPlayerVisibleState {
                    position: so.position,
                    status: TagStatus::It { tagged_by: player_id },
                };
            },
        }
    }

    /// Apply an action for each player, in player order, as one atomic
    /// batch. Every position that results lies within the play area.
    pub fn apply_actions(&mut self, actions: &[TagPlayerAction])
        requires
            old(self).wf(),
            actions@.len() == old(self).states().len(),
            batch_ok(old(self).spec_area(), old(self).states(), actions@),
        ensures
            final(self).spec_area() == old(self).spec_area(),
            final(self).states() == apply_upto(
                old(self).spec_area(),
                old(self).states(),
                actions@,
                actions@.len() as int,
            ),
            final(self).states().len() == old(self).states().len(),
            final(self).wf(),
            forall|i: int|
                0 <= i < final(self).states().len() ==> old(self).spec_area().contains_spec(
                    (#[trigger] final(self).states()[i]).position,
                ),
    {
        let ghost area = self.spec_area();
        let ghost initial = self.states();
        let n = actions.len();
        let mut idx: usize = 0;
        while idx < n
            invariant
                n == actions@.len(),
                idx <= n,
                n == initial.len(),
                batch_ok(area, initial, actions@),
                self.spec_area() == area,
                self.states() == apply_upto(area, initial, actions@, idx as int),
                self.states().len() == initial.len(),
                self.wf(),
            decreases n - idx,
        {
            self.apply_action(idx, &actions[idx]);
            idx = idx + 1;
        }
    }
}

} // verus!
