//! The simulation runner: one `step` asks every agent for its action
//! against a read-only snapshot of the environment (the decisions are
//! independent, so they are evaluated in parallel), then applies all the
//! actions as one atomic batch.

use rayon::iter::IndexedParallelIterator;
use rayon::iter::IntoParallelIterator;
use rayon::iter::ParallelIterator;
use vstd::prelude::*;

use crate::agent::decision;
use crate::agent::lemma_scaled_bounds;
use crate::agent::lemma_turn_spec_limit;
use crate::agent::TagPlayerAgent;
use crate::environment::action_ok;
use crate::environment::apply_upto;
use crate::environment::batch_ok;
use crate::environment::closest_spec;
use crate::environment::eligible;
use crate::environment::exactly_one_it;
use crate::environment::sole_it;
use crate::environment::lemma_tag_exclusivity;
use crate::environment::apply_one;
use crate::environment::first_it;
use crate::environment::has_it;
use crate::environment::lemma_closest_rec_props;
use crate::environment::lemma_first_it;
use crate::environment::TagEnvironment;
use crate::environment::TagError;
use crate::environment::TagPlayerAction;
use crate::environment::TagPlayerVisibleState;
use crate::geometry::stretch_in_limit;
use crate::geometry::vec_minus;
use crate::geometry::PlayArea;

verus! {

/// Relies on rayon's parallel iterator pipeline over an index range
/// (`into_par_iter` / `map` / `collect_into_vec`): it calls the verified
/// `TagPlayerAgent::act` once per player id and collects the results in
/// index order, as rayon documents for indexed parallel iterators.
#[verifier::external_body]
fn decide_all(environment: &TagEnvironment, n: usize) -> (r: Vec<
    Result<TagPlayerAction, TagError>,
>)
    requires
        environment.wf(),
        has_it(environment.states()),
        n == environment.states().len(),
    ensures
        r@.len() == n,
        forall|i: int| 0 <= i < n ==> r@[i] == decision(*environment, i),
{
    let mut results = Vec::with_capacity(n);
    (0..n).into_par_iter().map(|player_id| TagPlayerAgent.act(player_id, environment))
        .collect_into_vec(&mut results);
    results
}

/// Every decision succeeds when somebody is it and at least two players
/// exist.
proof fn lemma_decision_ok(env: TagEnvironment, pid: int)
    requires
        env.wf(),
        has_it(env.states()),
        env.states().len() >= 2,
        0 <= pid < env.states().len(),
    ensures
        decision(env, pid) is Ok,
{
    let states = env.states();
    let n = states.len() as int;
    if states[pid].spec_is_it() {
        lemma_closest_rec_props(states, pid, None, n);
        if closest_spec(states, pid, None) is None {
            let other: int = if pid == 0 {
                1
            } else {
                0
            };
            assert(eligible(pid, None, other, n));
            assert(false);
        }
    }
}

/// Each successful decision is well shaped: a run displacement within the
/// stretch limit, or a tag of an existing player by a player who is it.
proof fn lemma_decision_shape(env: TagEnvironment, pid: int)
    requires
        env.wf(),
        has_it(env.states()),
        0 <= pid < env.states().len(),
    ensures
        match decision(env, pid) {
            Ok(a) => match a {
                TagPlayerAction::Run { stretch } => stretch_in_limit(stretch),
                TagPlayerAction::Tag { player_id: t } => (t as int) < env.states().len()
                    && env.states()[pid].spec_is_it(),
            },
            Err(_) => true,
        },
{
    let states = env.states();
    let n = states.len() as int;
    if states[pid].spec_is_it() {
        lemma_closest_rec_props(states, pid, None, n);
        match closest_spec(states, pid, None) {
            None => {},
            Some(p) => {
                if !(p.1 < crate::agent::ARM_LENGTH * crate::agent::ARM_LENGTH) {
                    lemma_scaled_bounds(vec_minus(states[p.0].position, states[pid].position));
                }
            },
        }
    } else {
        lemma_first_it(states);
        let it = first_it(states);
        let direction = scaled_direction_of(env, pid);
        lemma_scaled_bounds(vec_minus(states[pid].position, states[it].position));
        lemma_turn_spec_limit(env.spec_area(), states[pid].position, direction);
    }
}

/// The flee direction a non-it player scales toward, shared between the
/// lemmas above.
spec fn scaled_direction_of(env: TagEnvironment, pid: int) -> crate::geometry::Vec2 {
    crate::agent::scaled_to_max_speed(
        vec_minus(
            env.states()[pid].position,
            env.states()[first_it(env.states())].position,
        ),
    )
}

/// Applying a prefix of a batch keeps the player count, provided every tag
/// in it aims at an existing player.
proof fn lemma_apply_upto_len(
    area: PlayArea,
    initial: Seq<TagPlayerVisibleState>,
    actions: Seq<TagPlayerAction>,
    k: int,
)
    requires
        0 <= k <= actions.len(),
        actions.len() == initial.len(),
        forall|j: int|
            0 <= j < actions.len() ==> match #[trigger] actions[j] {
                TagPlayerAction::Tag { player_id: t } => (t as int) < initial.len(),
                TagPlayerAction::Run { .. } => true,
            },
    ensures
        apply_upto(area, initial, actions, k).len() == initial.len(),
    decreases k,
{
    if k > 0 {
        lemma_apply_upto_len(area, initial, actions, k - 1);
    }
}

/// No action of another player takes the pursuing role away from player
/// `i`: applying a prefix of the batch that stops at or before `i` keeps
/// `i` it.
proof fn lemma_it_sticky(
    area: PlayArea,
    initial: Seq<TagPlayerVisibleState>,
    actions: Seq<TagPlayerAction>,
    k: int,
    i: int,
)
    requires
        0 <= k <= i < initial.len(),
        actions.len() == initial.len(),
        initial[i].spec_is_it(),
        forall|j: int|
            0 <= j < actions.len() ==> match #[trigger] actions[j] {
                TagPlayerAction::Tag { player_id: t } => (t as int) < initial.len(),
                TagPlayerAction::Run { .. } => true,
            },
    ensures
        apply_upto(area, initial, actions, k)[i].spec_is_it(),
    decreases k,
{
    lemma_apply_upto_len(area, initial, actions, k);
    if k > 0 {
        lemma_it_sticky(area, initial, actions, k - 1, i);
        lemma_apply_upto_len(area, initial, actions, k - 1);
    }
}

/// A full batch of successful decisions is legal to apply: every run is
/// bounded and every tag is issued by a player who is still it when its
/// turn comes.
proof fn lemma_decisions_batch_ok(env: TagEnvironment, actions: Seq<TagPlayerAction>)
    requires
        env.wf(),
        has_it(env.states()),
        actions.len() == env.states().len(),
        forall|j: int| 0 <= j < actions.len() ==> Ok::<_, TagError>(#[trigger] actions[j])
            == decision(env, j),
    ensures
        batch_ok(env.spec_area(), env.states(), actions),
{
    let area = env.spec_area();
    let states = env.states();
    let n = actions.len() as int;
    assert forall|j: int| 0 <= j < n implies match #[trigger] actions[j] {
        TagPlayerAction::Tag { player_id: t } => (t as int) < states.len(),
        TagPlayerAction::Run { .. } => true,
    } by {
        lemma_decision_shape(env, j);
    }
    assert forall|i: int| 0 <= i < n implies action_ok(
        apply_upto(area, states, actions, i),
        i,
        #[trigger] actions[i],
    ) by {
        lemma_decision_shape(env, i);
        lemma_apply_upto_len(area, states, actions, i);
        match actions[i] {
            TagPlayerAction::Run { .. } => {},
            TagPlayerAction::Tag { .. } => {
                lemma_it_sticky(area, states, actions, i, i);
            },
        }
    }
}

/// The two state sequences agree on every player's tag status.
pub open spec fn same_statuses(
    a: Seq<TagPlayerVisibleState>,
    b: Seq<TagPlayerVisibleState>,
) -> bool {
    &&& a.len() == b.len()
    &&& forall|i: int| 0 <= i < a.len() ==> (#[trigger] a[i]).status == b[i].status
}

/// Run actions never change anybody's tag status: applying a stretch of
/// runs leaves the statuses where the stretch began.
proof fn lemma_runs_preserve_statuses(
    area: PlayArea,
    initial: Seq<TagPlayerVisibleState>,
    actions: Seq<TagPlayerAction>,
    lo: int,
    k: int,
)
    requires
        0 <= lo <= k <= actions.len(),
        actions.len() == initial.len(),
        forall|j: int|
            0 <= j < actions.len() ==> match #[trigger] actions[j] {
                TagPlayerAction::Tag { player_id: t } => (t as int) < initial.len(),
                TagPlayerAction::Run { .. } => true,
            },
        forall|j: int| lo <= j < k ==> (#[trigger] actions[j]) is Run,
    ensures
        same_statuses(
            apply_upto(area, initial, actions, k),
            apply_upto(area, initial, actions, lo),
        ),
    decreases k - lo,
{
    lemma_apply_upto_len(area, initial, actions, k);
    lemma_apply_upto_len(area, initial, actions, lo);
    if k > lo {
        lemma_runs_preserve_statuses(area, initial, actions, lo, k - 1);
        lemma_apply_upto_len(area, initial, actions, k - 1);
    }
}

/// A full tick keeps the single-it invariant: when exactly one player is it
/// and every action is that tick's decision, exactly one player is it after
/// the batch as well (the same player, or the one it just tagged).
pub proof fn lemma_decisions_preserve_one_it(env: TagEnvironment, actions: Seq<TagPlayerAction>)
    requires
        env.wf(),
        has_it(env.states()),
        actions.len() == env.states().len(),
        forall|j: int| 0 <= j < actions.len() ==> Ok::<_, TagError>(#[trigger] actions[j])
            == decision(env, j),
        exactly_one_it(env.states()),
    ensures
        exactly_one_it(
            apply_upto(env.spec_area(), env.states(), actions, actions.len() as int),
        ),
{
    let area = env.spec_area();
    let states = env.states();
    let n = actions.len() as int;
    let pid = choose|i: int| #[trigger] sole_it(states, i);
    assert forall|j: int| 0 <= j < n implies match #[trigger] actions[j] {
        TagPlayerAction::Tag { player_id: t } => (t as int) < states.len(),
        TagPlayerAction::Run { .. } => true,
    } by {
        lemma_decision_shape(env, j);
    }
    assert forall|j: int| 0 <= j < n && j != pid implies (#[trigger] actions[j]) is Run by {
        assert(!states[j].spec_is_it());
    }
    match actions[pid] {
        TagPlayerAction::Run { .. } => {
            lemma_runs_preserve_statuses(area, states, actions, 0, n);
            let after = apply_upto(area, states, actions, n);
            assert(sole_it(after, pid));
        },
        TagPlayerAction::Tag { player_id: t } => {
            lemma_runs_preserve_statuses(area, states, actions, 0, pid);
            lemma_apply_upto_len(area, states, actions, pid);
            let before = apply_upto(area, states, actions, pid);
            assert(sole_it(before, pid));
            lemma_tag_exclusivity(area, before, pid, t);
            let tagged = apply_upto(area, states, actions, pid + 1);
            assert(tagged == apply_one(area, before, pid, actions[pid]));
            assert(sole_it(tagged, t as int));
            lemma_runs_preserve_statuses(area, states, actions, pid + 1, n);
            let after = apply_upto(area, states, actions, n);
            assert(sole_it(after, t as int));
        },
    }
}

/// Simulation runner.
#[derive(Debug)]
pub struct Simulation {
    actions: Vec<TagPlayerAction>,
    agents: Vec<TagPlayerAgent>,
    environment: TagEnvironment,
    step: u64,
}

impl Simulation {
    pub closed spec fn spec_environment(self) -> TagEnvironment {
        self.environment
    }

    pub closed spec fn spec_actions(self) -> Seq<TagPlayerAction> {
        self.actions@
    }

    pub closed spec fn spec_step(self) -> u64 {
        self.step
    }

    pub open spec fn wf(self) -> bool {
        self.spec_environment().wf()
    }

    /// Create a new simulation from the playing area and the players with
    /// their initial states; player ids are the 0-based positions in the
    /// given order.
    pub fn new(area: PlayArea, players: Vec<(TagPlayerAgent, TagPlayerVisibleState)>) -> (r:
        Simulation)
        requires
            area.wf(),
            forall|i: int|
                0 <= i < players@.len() ==> area.contains_spec(
                    (#[trigger] players@[i]).1.position,
                ),
        ensures
            r.wf(),
            r.spec_step() == 0,
            r.spec_actions().len() == 0,
            r.spec_environment().spec_area() == area,
            r.spec_environment().states().len() == players@.len(),
            forall|i: int|
                0 <= i < players@.len() ==> r.spec_environment().states()[i] == (
                #[trigger] players@[i]).1,
    {
        let n = players.len();
        let mut agents: Vec<TagPlayerAgent> = Vec::new();
        let mut player_state: Vec<TagPlayerVisibleState> = Vec::new();
        let mut i: usize = 0;
        while i < n
            invariant
                i <= n,
                n == players@.len(),
                agents@.len() == i,
                player_state@.len() == i,
                forall|j: int| 0 <= j < i ==> player_state@[j] == (#[trigger] players@[j]).1,
                forall|j: int|
                    0 <= j < players@.len() ==> area.contains_spec(
                        (#[trigger] players@[j]).1.position,
                    ),
            decreases n - i,
        {
            let p = players[i];
            agents.push(p.0);
            player_state.push(p.1);
            i = i + 1;
        }
        proof {
            assert forall|j: int| 0 <= j < player_state@.len() implies area.contains_spec(
                (#[trigger] player_state@[j]).position,
            ) by {
                assert(player_state@[j] == players@[j].1);
            }
        }
        Simulation {
            actions: Vec::new(),
            agents,
            environment: TagEnvironment::new(area, player_state),
            step: 0,
        }
    }

    /// Step the simulation: ask each agent to choose its action against the
    /// current environment (in parallel), apply all the actions as one
    /// batch, and advance the step counter. The chosen actions are kept and
    /// can be read back through `actions`.
    pub fn step(&mut self)
        requires
            old(self).wf(),
            has_it(old(self).spec_environment().states()),
            old(self).spec_environment().states().len() >= 2,
            old(self).spec_step() < u64::MAX,
        ensures
            final(self).wf(),
            final(self).spec_step() == old(self).spec_step() + 1,
            final(self).spec_environment().spec_area() == old(
                self,
            ).spec_environment().spec_area(),
            final(self).spec_actions().len() == old(self).spec_environment().states().len(),
            forall|i: int|
                0 <= i < final(self).spec_actions().len() ==> Ok::<_, TagError>(
                    #[trigger] final(self).spec_actions()[i],
                ) == decision(old(self).spec_environment(), i),
            final(self).spec_environment().states() == apply_upto(
                old(self).spec_environment().spec_area(),
                old(self).spec_environment().states(),
                final(self).spec_actions(),
                final(self).spec_actions().len() as int,
            ),
            exactly_one_it(old(self).spec_environment().states()) ==> exactly_one_it(
                final(self).spec_environment().states(),
            ),
    {
        let ghost env = self.spec_environment();
        let n = self.environment.player_count();
        let results = decide_all(&self.environment, n);
        let mut actions: Vec<TagPlayerAction> = Vec::new();
        let mut i: usize = 0;
        while i < n
            invariant
                i <= n,
                self == old(self),
                env == self.spec_environment(),
                env.wf(),
                has_it(env.states()),
                n == env.states().len(),
                n >= 2,
                results@.len() == n,
                forall|j: int| 0 <= j < n ==> results@[j] == decision(env, j),
                actions@.len() == i,
                forall|j: int| 0 <= j < i ==> Ok::<_, TagError>(#[trigger] actions@[j])
                    == decision(env, j),
            decreases n - i,
        {
            proof {
                lemma_decision_ok(env, i as int);
            }
            match results[i] {
                Ok(a) => actions.push(a),
                Err(_) => {
                    proof {
                        assert(false);
                    }
                },
            }
            i = i + 1;
        }
        proof {
            lemma_decisions_batch_ok(env, actions@);
            if exactly_one_it(env.states()) {
                lemma_decisions_preserve_one_it(env, actions@);
            }
        }
        self.environment.apply_actions(actions.as_slice());
        self.actions = actions;
        self.step = self.step + 1;
    }

    /// The actions chosen on the most recent step, in player order.
    pub fn actions(&self) -> (r: &[TagPlayerAction])
        ensures
            r@ == self.spec_actions(),
    {
        self.actions.as_slice()
    }

    /// Read-only view of all players, in id order.
    pub fn player_state(&self) -> (r: &[TagPlayerVisibleState])
        ensures
            r@ == self.spec_environment().states(),
    {
        self.environment.player_state()
    }

    pub fn environment(&self) -> (r: &TagEnvironment)
        ensures
            *r == self.spec_environment(),
    {
        &self.environment
    }
}

} // verus!
