//! The staged movements of one tick, kept in a hash map from stage to steps.
use vstd::prelude::*;
use bevy_platform::collections::HashMap;
use bevy_platform::hash::FixedHasher;
use crate::NodeId;
use crate::playhead::{PlayheadMove, PlayheadStep, SequenceEvent};

verus! {

/// `bevy_platform::collections::HashMap`, whose contents Verus does not see.
#[verifier::external_type_specification]
#[verifier::external_body]
#[verifier::reject_recursive_types(K)]
#[verifier::reject_recursive_types(V)]
#[verifier::reject_recursive_types(S)]
pub struct ExHashMap<K, V, S>(HashMap<K, V, S>);

/// `bevy_platform::hash::FixedHasher`, the map's default hasher.
#[verifier::external_type_specification]
#[verifier::external_body]
pub struct ExFixedHasher(FixedHasher);

/// What a stage map holds: for each stage that has an entry, its steps in the
/// order in which they were pushed.
pub uninterp spec fn stage_contents(map: HashMap<usize, Vec<PlayheadStep>, FixedHasher>) -> Map<usize, Seq<PlayheadStep>>;

/// The contents of a stage map without entries.
pub open spec fn no_stages() -> Map<usize, Seq<PlayheadStep>> {
    Map::empty()
}

/// `HashMap::new`: a map without entries.
#[verifier::external_body]
fn stage_map_new() -> (stages: HashMap<usize, Vec<PlayheadStep>, FixedHasher>)
    ensures
        stage_contents(stages) == no_stages(),
{
    HashMap::new()
}

/// `HashMap::entry` followed by `Entry::or_default`: the steps of `stage`,
/// after an empty list has been entered for it if it had no entry. Whatever the
/// caller leaves in the returned list is what the map then holds for `stage`;
/// no other entry changes.
#[verifier::external_body]
fn stage_map_entry(map: &mut HashMap<usize, Vec<PlayheadStep>, FixedHasher>, stage: usize) -> (slot: &mut Vec<PlayheadStep>)
    ensures
        slot@ == (if stage_contents(*old(map)).contains_key(stage) {
            stage_contents(*old(map))[stage]
        } else {
            Seq::<PlayheadStep>::empty()
        }),
        stage_contents(*final(map)) == stage_contents(*old(map)).insert(stage, final(slot)@),
{
    map.entry(stage).or_default()
}

/// `HashMap::keys`: every stage that has an entry, in no particular order.
#[verifier::external_body]
fn stage_map_keys(map: &HashMap<usize, Vec<PlayheadStep>, FixedHasher>) -> (keys: Vec<usize>)
    ensures
        forall|stage: usize| keys@.contains(stage) <==> stage_contents(*map).contains_key(stage),
{
    map.keys().copied().collect()
}

/// `HashMap::remove`: takes the entry of `stage` out of the map and returns
/// its steps, or returns `None` and changes nothing if there is no such entry.
#[verifier::external_body]
fn stage_map_remove(map: &mut HashMap<usize, Vec<PlayheadStep>, FixedHasher>, stage: usize) -> (taken: Option<Vec<PlayheadStep>>)
    ensures
        stage_contents(*final(map)) == stage_contents(*old(map)).remove(stage),
        taken.is_some() == stage_contents(*old(map)).contains_key(stage),
        taken.is_some() ==> taken.unwrap()@ == stage_contents(*old(map))[stage],
{
    map.remove(&stage)
}

/// The steps that `stages` holds for `stage`; none where it has no entry.
pub open spec fn steps_at(stages: Map<usize, Seq<PlayheadStep>>, stage: usize) -> Seq<PlayheadStep> {
    if stages.contains_key(stage) {
        stages[stage]
    } else {
        Seq::empty()
    }
}

/// `stages` after the steps of one trace have been entered: step `i` is
/// appended to stage `i`.
pub open spec fn staged(stages: Map<usize, Seq<PlayheadStep>>, traced: Seq<PlayheadStep>) -> Map<usize, Seq<PlayheadStep>> {
    Map::new(
        |stage: usize| stages.contains_key(stage) || stage < traced.len(),
        |stage: usize|
            if stage < traced.len() {
                steps_at(stages, stage).push(traced[stage as int])
            } else {
                steps_at(stages, stage)
            },
    )
}

/// Entering no steps changes nothing.
pub proof fn lemma_staged_nothing(stages: Map<usize, Seq<PlayheadStep>>)
    ensures
        staged(stages, Seq::empty()) == stages,
{
}

/// What the host is to do with the staged movements, in order.
#[derive(Clone, Copy, Debug, PartialEq, Eq, Structural)]
pub enum StageAction {
    /// Record the movement on the leaf `node`.
    MovementApplied { node: NodeId, movement: PlayheadMove },
    /// Send `event` to the node that carries the playhead.
    Sequence { playhead: NodeId, event: SequenceEvent },
    /// The movements of one stage are applied: let the evaluators and
    /// callbacks react and their effects settle before the next stage.
    Evaluate,
}

/// The actions that one step asks for.
pub open spec fn step_actions(step: PlayheadStep) -> Seq<StageAction> {
    let applied = seq![StageAction::MovementApplied { node: step.entity, movement: step.movement }];
    let started = if step.start {
        applied.push(StageAction::Sequence { playhead: step.playhead, event: SequenceEvent::SequenceStarted })
    } else {
        applied
    };
    if step.end {
        started.push(StageAction::Sequence { playhead: step.playhead, event: SequenceEvent::SequenceCompleted })
    } else {
        started
    }
}

/// The actions of the first `n` steps of a stage.
pub open spec fn steps_actions(steps: Seq<PlayheadStep>, n: int) -> Seq<StageAction>
    decreases n,
{
    if n <= 0 {
        Seq::empty()
    } else {
        steps_actions(steps, n - 1) + step_actions(steps[n - 1])
    }
}

/// The actions of a whole stage: those of its steps, then the evaluation. A
/// stage without steps asks for nothing.
pub open spec fn stage_actions(steps: Seq<PlayheadStep>) -> Seq<StageAction> {
    if steps.len() == 0 {
        Seq::empty()
    } else {
        steps_actions(steps, steps.len() as int).push(StageAction::Evaluate)
    }
}

/// The actions of the stages below `n`, in stage order.
pub open spec fn staged_actions(stages: Map<usize, Seq<PlayheadStep>>, n: int) -> Seq<StageAction>
    decreases n,
{
    if n <= 0 {
        Seq::empty()
    } else {
        staged_actions(stages, n - 1) + stage_actions(steps_at(stages, (n - 1) as usize))
    }
}

/// The actions of all stages, in stage order.
pub open spec fn all_actions(stages: Map<usize, Seq<PlayheadStep>>) -> Seq<StageAction> {
    staged_actions(stages, usize::MAX + 1)
}

/// Stages without an entry ask for nothing.
proof fn lemma_staged_actions_beyond(stages: Map<usize, Seq<PlayheadStep>>, from: int, n: int)
    requires
        0 <= from <= n <= usize::MAX + 1,
        forall|stage: usize| stages.contains_key(stage) ==> stage < from,
    ensures
        staged_actions(stages, n) == staged_actions(stages, from),
    decreases n,
{
    if from < n {
        lemma_staged_actions_beyond(stages, from, n - 1);
    }
}

/// The movements of one tick, by stage.
pub struct PlayheadSteps {
    stages: HashMap<usize, Vec<PlayheadStep>, FixedHasher>,
}

impl View for PlayheadSteps {
    type V = Map<usize, Seq<PlayheadStep>>;

    closed spec fn view(&self) -> Map<usize, Seq<PlayheadStep>> {
        stage_contents(self.stages)
    }
}

impl PlayheadSteps {
    /// No stage holds a step.
    pub fn new() -> (steps: Self)
        ensures
            steps@ == no_stages(),
    {
        PlayheadSteps { stages: stage_map_new() }
    }

    /// Append `step` to `stage`.
    pub fn push(&mut self, stage: usize, step: PlayheadStep)
        ensures
            final(self)@ == old(self)@.insert(stage, steps_at(old(self)@, stage).push(step)),
    {
        let slot = stage_map_entry(&mut self.stages, stage);
        slot.push(step);
    }

    /// Enter the steps of one trace: step `i` is appended to stage `i`.
    pub fn stage(&mut self, traced: &Vec<PlayheadStep>)
        ensures
            final(self)@ == staged(old(self)@, traced@),
    {
        let mut i: usize = 0;
        while i < traced.len()
            invariant
                i <= traced.len(),
                self@ == staged(old(self)@, traced@.take(i as int)),
            decreases traced.len() - i,
        {
            self.push(i, traced[i]);
            i += 1;
        }
        proof {
            if traced.len() == 0 {
                lemma_staged_nothing(old(self)@);
            }
        }
    }

    /// The highest stage that has an entry.
    fn last_stage(&self) -> (last: Option<usize>)
        ensures
            last.is_none() ==> self@ == no_stages(),
            last.is_some() ==> self@.contains_key(last.unwrap()),
            forall|stage: usize| self@.contains_key(stage) ==> last.is_some() && stage <= last.unwrap(),
    {
        let keys = stage_map_keys(&self.stages);
        let mut last: Option<usize> = None;
        let mut i: usize = 0;
        while i < keys.len()
            invariant
                i <= keys.len(),
                forall|stage: usize| keys@.contains(stage) <==> self@.contains_key(stage),
                last.is_some() ==> keys@.contains(last.unwrap()),
                forall|j: int| 0 <= j < i ==> last.is_some() && keys@[j] <= last.unwrap(),
            decreases keys.len() - i,
        {
            let key: usize = keys[i];
            last = match last {
                Some(highest) => if highest < key { Some(key) } else { Some(highest) },
                None => Some(key),
            };
            i += 1;
        }
        proof {
            if last.is_none() {
                assert forall|stage: usize| !self@.contains_key(stage) by {
                    if self@.contains_key(stage) {
                        assert(keys@.contains(stage));
                    }
                }
            }
            assert forall|stage: usize| self@.contains_key(stage) implies last.is_some() && stage <= last.unwrap() by {
                assert(keys@.contains(stage));
            }
        }
        last
    }

    /// Take every stage out, lowest first, and say what the host is to do:
    /// for each step of a stage its movement and the signals it owes, and after
    /// the steps of each stage that had any, one evaluation.
    pub fn apply_movement(&mut self) -> (actions: Vec<StageAction>)
        ensures
            final(self)@ == no_stages(),
            actions@ == all_actions(old(self)@),
    {
        let mut actions: Vec<StageAction> = Vec::new();
        let last = match self.last_stage() {
            Some(last) => last,
            None => {
                proof {
                    lemma_staged_actions_beyond(old(self)@, 0, usize::MAX + 1);
                }
                return actions;
            },
        };
        let mut stage: usize = 0;
        loop
            invariant_except_break
                stage <= last,
                actions@ == staged_actions(old(self)@, stage as int),
                forall|k: usize| self@.contains_key(k) <==> old(self)@.contains_key(k) && k >= stage,
                forall|k: usize| self@.contains_key(k) ==> self@[k] == old(self)@[k],
            invariant
                forall|k: usize| old(self)@.contains_key(k) ==> k <= last,
            ensures
                actions@ == staged_actions(old(self)@, last + 1),
                self@ == no_stages(),
            decreases last - stage,
        {
            let ghost done = actions@;
            if let Some(items) = stage_map_remove(&mut self.stages, stage) {
                let mut j: usize = 0;
                while j < items.len()
                    invariant
                        j <= items.len(),
                        actions@ == done + steps_actions(items@, j as int),
                    decreases items.len() - j,
                {
                    let step = items[j];
                    actions.push(StageAction::MovementApplied { node: step.entity, movement: step.movement });
                    if step.start {
                        actions.push(StageAction::Sequence { playhead: step.playhead, event: SequenceEvent::SequenceStarted });
                    }
                    if step.end {
                        actions.push(StageAction::Sequence { playhead: step.playhead, event: SequenceEvent::SequenceCompleted });
                    }
                    j += 1;
                }
                if items.len() > 0 {
                    actions.push(StageAction::Evaluate);
                }
            }
            if stage == last {
                break;
            }
            stage += 1;
        }
        proof {
            lemma_staged_actions_beyond(old(self)@, last + 1, usize::MAX + 1);
        }
        actions
    }
}

impl Default for PlayheadSteps {
    fn default() -> (steps: Self)
        ensures
            steps@ == no_stages(),
    {
        PlayheadSteps::new()
    }
}

} // verus!
