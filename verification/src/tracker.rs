//! Goals that count down as the agent acts, and the rules that decide which
//! action is allowed in front of which tile.

use vstd::prelude::*;
use crate::tile::{same_content_kind, match_content_type_variant, Content, Tile};

verus! {

/// What a goal is about.
#[derive(Clone, Copy, Debug, PartialEq, Eq, Structural)]
pub enum GoalType {
    PutOutFire,
    GetItems,
    SellItems,
    ThrowGarbage,
}

/// A goal: a number of items of one kind to deal with.
#[derive(Debug)]
pub struct Goal {
    /// The name of the goal.
    pub name: String,
    /// What the goal is for, in words.
    pub description: String,
    /// The kind of goal.
    pub goal_type: GoalType,
    /// The kind of content that counts towards the goal.
    pub item_type: Option<Content>,
    /// Whether the goal has been reached.
    pub completed: bool,
    /// How many items the goal asks for.
    pub goal_quantity: u32,
    /// How many items are still missing.
    pub items_left: u32,
}

/// Why an action is refused before it is tried.
#[derive(Clone, Copy, Debug, PartialEq, Eq, Structural)]
pub enum ActionErr {
    /// The tile in front is not one on which the action works.
    OperationNotAllowed,
    /// There is no tile in front.
    OutOfBounds,
}

/// What to put down in front of the agent, and the goal that it serves.
#[derive(Clone, Copy, Debug, PartialEq, Eq, Structural)]
pub struct PutAction {
    pub content: Content,
    pub quantity: usize,
    pub goal_type: GoalType,
}

/// What is left of `items_left` once `removed` items are dealt with.
pub open spec fn left_after(items_left: u32, removed: usize) -> u32 {
    if removed >= items_left {
        0
    } else {
        (items_left - removed) as u32
    }
}

/// Whether `goal` is of kind `goal_type` and counts content of the kind of
/// `item_type`.
pub open spec fn goal_matches(goal: Goal, goal_type: GoalType, item_type: Option<Content>) -> bool {
    goal.goal_type == goal_type && same_content_kind(goal.item_type, item_type)
}

/// The test for goals of kind `goal_type` that count content of the kind of
/// `item_type`.
pub open spec fn matching(goal_type: GoalType, item_type: Option<Content>) -> spec_fn(
    Goal,
) -> bool {
    |g: Goal| goal_matches(g, goal_type, item_type)
}

/// The test for goals named `name`.
pub open spec fn named(name: Seq<char>) -> spec_fn(Goal) -> bool {
    |g: Goal| g.name@ == name
}

/// The first position in `goals` at which `wanted` holds.
pub open spec fn first_where(goals: Seq<Goal>, wanted: spec_fn(Goal) -> bool) -> Option<int>
    decreases goals.len(),
{
    if goals.len() == 0 {
        None
    } else if wanted(goals[0]) {
        Some(0)
    } else {
        match first_where(goals.drop_first(), wanted) {
            Some(i) => Some(i + 1),
            None => None,
        }
    }
}

/// The first position is in range, `wanted` holds there and nowhere before;
/// there is none exactly when `wanted` holds nowhere.
pub proof fn lemma_first_where(goals: Seq<Goal>, wanted: spec_fn(Goal) -> bool)
    ensures
        match first_where(goals, wanted) {
            Some(i) => 0 <= i < goals.len() && wanted(goals[i]) && forall|j: int|
                0 <= j < i ==> !wanted(#[trigger] goals[j]),
            None => forall|j: int| 0 <= j < goals.len() ==> !wanted(#[trigger] goals[j]),
        },
    decreases goals.len(),
{
    if goals.len() > 0 && !wanted(goals[0]) {
        let rest = goals.drop_first();
        lemma_first_where(rest, wanted);
        match first_where(rest, wanted) {
            Some(i) => {
                assert forall|j: int| 0 <= j < i + 1 implies !wanted(#[trigger] goals[j]) by {
                    if j > 0 {
                        assert(goals[j] == rest[j - 1]);
                    }
                }
            },
            None => {
                assert forall|j: int| 0 <= j < goals.len() implies !wanted(#[trigger] goals[j]) by {
                    if j > 0 {
                        assert(goals[j] == rest[j - 1]);
                    }
                }
            },
        }
    }
}

/// The count of completions once `goal` is removed: one less for a completed
/// goal, and never below zero.
pub open spec fn uncounted(completed: nat, goal: Goal) -> nat {
    if goal.completed && completed > 0 {
        (completed - 1) as nat
    } else {
        completed
    }
}

/// The goals that are not completed, in order.
pub open spec fn pending(goals: Seq<Goal>) -> Seq<Goal>
    decreases goals.len(),
{
    if goals.len() == 0 {
        Seq::empty()
    } else if goals.last().completed {
        pending(goals.drop_last())
    } else {
        pending(goals.drop_last()).push(goals.last())
    }
}

/// The goal once `removed` more items are dealt with: what is left shrinks,
/// never below zero, and the goal is completed when nothing is left.
pub open spec fn progressed(goal: Goal, removed: usize) -> Goal {
    Goal {
        items_left: left_after(goal.items_left, removed),
        completed: goal.completed || left_after(goal.items_left, removed) == 0,
        ..goal
    }
}

/// The goals and the count of completions once `removed` items are counted
/// towards the first goal of kind `goal_type` that counts content of the kind
/// of `item_type`: that goal progresses, and where it has nothing left the
/// count goes up by one, as long as the count can hold it. Nothing changes
/// where no goal matches.
pub open spec fn counted(
    goals: Seq<Goal>,
    completed: nat,
    goal_type: GoalType,
    item_type: Option<Content>,
    removed: usize,
) -> (Seq<Goal>, nat) {
    match first_where(goals, matching(goal_type, item_type)) {
        Some(i) => (
            goals.update(i, progressed(goals[i], removed)),
            if left_after(goals[i].items_left, removed) == 0 && completed < usize::MAX {
                completed + 1
            } else {
                completed
            },
        ),
        None => (goals, completed),
    }
}

impl Goal {
    /// Creates a goal for `goal_quantity` items, none of them dealt with.
    pub fn new(
        name: String,
        description: String,
        goal_type: GoalType,
        item_type: Option<Content>,
        goal_quantity: u32,
    ) -> (r: Goal)
        ensures
            r == (Goal {
                name,
                description,
                goal_type,
                item_type,
                completed: false,
                goal_quantity,
                items_left: goal_quantity,
            }),
    {
        Goal {
            name,
            description,
            goal_type,
            item_type,
            completed: false,
            goal_quantity,
            items_left: goal_quantity,
        }
    }

    /// Counts `removed_quantity` more items towards the goal.
    pub fn update_progress(&mut self, removed_quantity: usize)
        ensures
            *final(self) == progressed(*old(self), removed_quantity),
    {
        if removed_quantity >= self.items_left as usize {
            self.items_left = 0;
        } else {
            self.items_left = self.items_left - removed_quantity as u32;
        }
        if self.items_left == 0 {
            self.completed = true;
        }
    }

    /// Whether nothing is left to do.
    pub fn is_completed(&self) -> (r: bool)
        ensures
            r == (self.items_left == 0),
    {
        self.items_left == 0
    }

    pub fn get_name(&self) -> (r: &String)
        ensures
            *r == self.name,
    {
        &self.name
    }

    pub fn get_description(&self) -> (r: &String)
        ensures
            *r == self.description,
    {
        &self.description
    }

    pub fn get_goal_type(&self) -> (r: &GoalType)
        ensures
            *r == self.goal_type,
    {
        &self.goal_type
    }

    pub fn get_completed(&self) -> (r: &bool)
        ensures
            *r == self.completed,
    {
        &self.completed
    }

    pub fn get_goal_quantity(&self) -> (r: &u32)
        ensures
            *r == self.goal_quantity,
    {
        &self.goal_quantity
    }

    pub fn get_items_left(&self) -> (r: &u32)
        ensures
            *r == self.items_left,
    {
        &self.items_left
    }
}

/// A list of goals and a count of how many times one of them was completed.
#[derive(Debug)]
pub struct GoalTracker {
    goals: Vec<Goal>,
    completed_number: usize,
}

impl GoalTracker {
    /// The goals, oldest first.
    pub closed spec fn goals(&self) -> Seq<Goal> {
        self.goals@
    }

    /// The count of completions.
    pub closed spec fn completed(&self) -> nat {
        self.completed_number as nat
    }

    /// Creates a tracker without goals.
    pub fn new() -> (r: GoalTracker)
        ensures
            r.goals() == Seq::<Goal>::empty(),
            r.completed() == 0,
    {
        GoalTracker { goals: Vec::new(), completed_number: 0 }
    }

    /// Adds `goal` after the goals already tracked.
    pub fn add_goal(&mut self, goal: Goal)
        ensures
            final(self).goals() == old(self).goals().push(goal),
            final(self).completed() == old(self).completed(),
    {
        self.goals.push(goal);
    }

    /// Finds the first goal of kind `goal_type` that counts content of the
    /// kind of `item_type`.
    pub fn find_goal(&self, goal_type: GoalType, item_type: Option<Content>) -> (r: Option<usize>)
        ensures
            match r {
                Some(i) => first_where(
                    self.goals(),
                    matching(goal_type, item_type),
                ) == Some(i as int),
                None => first_where(self.goals(), matching(goal_type, item_type))
                    is None,
            },
    {
        let ghost wanted = matching(goal_type, item_type);
        let mut i: usize = 0;
        while i < self.goals.len()
            invariant
                i <= self.goals@.len(),
                wanted == matching(goal_type, item_type),
                forall|j: int| 0 <= j < i ==> !wanted(#[trigger] self.goals@[j]),
            decreases self.goals@.len() - i,
        {
            let goal: &Goal = &self.goals[i];
            if goal.goal_type == goal_type && match_content_type_variant(
                goal.item_type,
                item_type,
            ) {
                proof {
                    assert(wanted(self.goals@[i as int]));
                    lemma_first_where(self.goals@, wanted);
                }
                return Some(i);
            }
            i = i + 1;
        }
        proof {
            lemma_first_where(self.goals@, wanted);
        }
        None
    }

    /// Removes the first goal named `goal_name` and hands it out, or returns
    /// `None` where no goal has that name. Removing a completed goal takes one
    /// off the count of completions, which never falls below zero.
    pub fn remove_goal(&mut self, goal_name: &str) -> (r: Option<Goal>)
        ensures
            match first_where(old(self).goals(), named(goal_name@)) {
                Some(i) => {
                    &&& r == Some(old(self).goals()[i])
                    &&& final(self).goals() == old(self).goals().remove(i)
                    &&& final(self).completed() == uncounted(
                        old(self).completed(),
                        old(self).goals()[i],
                    )
                },
                None => {
                    &&& r is None
                    &&& final(self).goals() == old(self).goals()
                    &&& final(self).completed() == old(self).completed()
                },
            },
    {
        let ghost wanted = named(goal_name@);
        let name: String = goal_name.to_owned();
        let mut i: usize = 0;
        while i < self.goals.len()
            invariant
                i <= self.goals@.len(),
                name@ == goal_name@,
                wanted == named(goal_name@),
                forall|j: int| 0 <= j < i ==> !wanted(#[trigger] self.goals@[j]),
                *self == *old(self),
            decreases self.goals@.len() - i,
        {
            if self.goals[i].name == name {
                proof {
                    assert(wanted(self.goals@[i as int]));
                    lemma_first_where(self.goals@, wanted);
                }
                let removed_goal: Goal = self.goals.remove(i);
                if removed_goal.completed && self.completed_number > 0 {
                    self.completed_number = self.completed_number - 1;
                }
                return Some(removed_goal);
            }
            i = i + 1;
        }
        proof {
            lemma_first_where(self.goals@, wanted);
        }
        None
    }

    /// Drops every completed goal; the others keep their order. The count of
    /// completions stays as it is.
    pub fn clean_completed_goals(&mut self)
        ensures
            final(self).goals() == pending(old(self).goals()),
            final(self).completed() == old(self).completed(),
    {
        let ghost before = self.goals@;
        let ghost seen: int = 0;
        let mut i: usize = 0;
        while i < self.goals.len()
            invariant
                0 <= seen <= before.len(),
                i <= self.goals@.len(),
                self.goals@.len() - i == before.len() - seen,
                self.goals@.take(i as int) == pending(before.take(seen)),
                self.goals@.skip(i as int) == before.skip(seen),
                self.completed_number == old(self).completed_number,
            decreases self.goals@.len() - i,
        {
            proof {
                assert(before.take(seen + 1).drop_last() =~= before.take(seen));
                assert(before.take(seen + 1).last() == before[seen]);
                assert(self.goals@[i as int] == self.goals@.skip(i as int)[0]);
                assert(before[seen] == before.skip(seen)[0]);
            }
            let ghost current = self.goals@;
            if self.goals[i].completed {
                self.goals.remove(i);
                proof {
                    assert(self.goals@.take(i as int) =~= current.take(i as int));
                    assert(self.goals@.skip(i as int) =~= current.skip(i as int).skip(1));
                    assert(before.skip(seen + 1) =~= before.skip(seen).skip(1));
                }
            } else {
                proof {
                    assert(current.take(i as int + 1) =~= current.take(i as int).push(
                        current[i as int],
                    ));
                    assert(current.skip(i as int + 1) =~= current.skip(i as int).skip(1));
                    assert(before.skip(seen + 1) =~= before.skip(seen).skip(1));
                }
                i = i + 1;
            }
            proof {
                seen = seen + 1;
            }
        }
        proof {
            assert(self.goals@.take(i as int) =~= self.goals@);
            assert(before.take(seen) =~= before);
        }
    }

    /// Hands out the goals, oldest first.
    pub fn get_goals(&self) -> (r: &Vec<Goal>)
        ensures
            r@ == self.goals(),
    {
        &self.goals
    }

    /// Returns the count of completions.
    pub fn get_completed_number(&self) -> (r: usize)
        ensures
            r == self.completed(),
    {
        self.completed_number
    }

    /// Counts `removed_quantity` items towards the first goal of kind
    /// `goal_type` that counts content of the kind of `item_type`.
    ///
    /// Where the goal has nothing left afterwards it is completed and the
    /// count of completions goes up by one, as long as the count can hold it.
    /// Nothing changes where no goal matches.
    pub fn update_manual(
        &mut self,
        goal_type: GoalType,
        item_type: Option<Content>,
        removed_quantity: usize,
    )
        ensures
            (final(self).goals(), final(self).completed()) == counted(
                old(self).goals(),
                old(self).completed(),
                goal_type,
                item_type,
                removed_quantity,
            ),
    {
        proof {
            lemma_first_where(self.goals@, matching(goal_type, item_type));
        }
        if let Some(i) = self.find_goal(goal_type, item_type) {
            self.goals[i].update_progress(removed_quantity);
            if self.goals[i].is_completed() && self.completed_number < usize::MAX {
                self.completed_number = self.completed_number + 1;
            }
            assert(self.goals@ =~= old(self).goals@.update(
                i as int,
                progressed(old(self).goals@[i as int], removed_quantity),
            ));
        }
    }

    /// Counts the outcome of an action towards the goals: with `Ok` it does
    /// what [`GoalTracker::update_manual`] does, with `Err` nothing.
    pub fn update<E>(
        &mut self,
        result: &Result<(), E>,
        goal_type: GoalType,
        item_type: Option<Content>,
        removed_quantity: usize,
    )
        ensures
            (final(self).goals(), final(self).completed()) == if result is Ok {
                counted(
                    old(self).goals(),
                    old(self).completed(),
                    goal_type,
                    item_type,
                    removed_quantity,
                )
            } else {
                (old(self).goals(), old(self).completed())
            },
    {
        if result.is_ok() {
            self.update_manual(goal_type, item_type, removed_quantity);
        }
    }
}

/// Decides whether a fire can be put out in front of the agent: the tile in
/// front must burn. The action to take is then to put down one unit of
/// water.
pub fn put_out_fire(front: Option<Tile>) -> (r: Result<PutAction, ActionErr>)
    requires
        front is Some,
    ensures
        r == if front->0.content == Content::Fire {
            Ok::<PutAction, ActionErr>(
                PutAction {
                    content: Content::Water(0),
                    quantity: 1,
                    goal_type: GoalType::PutOutFire,
                },
            )
        } else {
            Err::<PutAction, ActionErr>(ActionErr::OperationNotAllowed)
        },
{
    match front {
        Some(tile) => match tile.content {
            Content::Fire => Ok(
                PutAction {
                    content: Content::Water(0),
                    quantity: 1,
                    goal_type: GoalType::PutOutFire,
                },
            ),
            _ => Err(ActionErr::OperationNotAllowed),
        },
        None => Err(ActionErr::OperationNotAllowed),
    }
}

/// Decides whether `quantity` of `content_in` can be sold in front of the
/// agent: a tile in front must hold a market. Where no tile is in front the
/// sale is left to the host to judge.
pub fn sell_items_in_market(front: Option<Tile>, content_in: Content, quantity: usize) -> (r:
    Result<PutAction, ActionErr>)
    ensures
        r == if front matches Some(tile) && !(tile.content is Market) {
            Err::<PutAction, ActionErr>(ActionErr::OperationNotAllowed)
        } else {
            Ok::<PutAction, ActionErr>(
                PutAction { content: content_in, quantity, goal_type: GoalType::SellItems },
            )
        },
{
    if let Some(tile) = front {
        match tile.content {
            Content::Market(_) => {},
            _ => {
                return Err(ActionErr::OperationNotAllowed);
            },
        }
    }
    Ok(PutAction { content: content_in, quantity, goal_type: GoalType::SellItems })
}

/// Decides whether `quantity` of `content_in` can be thrown away in front of
/// the agent: the tile in front must hold a bin.
pub fn throw_garbage(front: Option<Tile>, content_in: Content, quantity: usize) -> (r: Result<
    PutAction,
    ActionErr,
>)
    ensures
        r == match front {
            Some(tile) => if tile.content is Bin {
                Ok::<PutAction, ActionErr>(
                    PutAction { content: content_in, quantity, goal_type: GoalType::ThrowGarbage },
                )
            } else {
                Err::<PutAction, ActionErr>(ActionErr::OperationNotAllowed)
            },
            None => Err::<PutAction, ActionErr>(ActionErr::OutOfBounds),
        },
{
    match front {
        Some(tile) => match tile.content {
            Content::Bin(_, _) => Ok(
                PutAction { content: content_in, quantity, goal_type: GoalType::ThrowGarbage },
            ),
            _ => Err(ActionErr::OperationNotAllowed),
        },
        None => Err(ActionErr::OutOfBounds),
    }
}

/// Settles a put that the host has carried out: the quantity it reports is
/// counted towards the goal that `action` serves, and the host's answer is
/// handed on as it came.
pub fn handle_put<E>(
    outcome: Result<usize, E>,
    action: &PutAction,
    goal_tracker: &mut GoalTracker,
) -> (r: Result<usize, E>)
    ensures
        r == outcome,
        (final(goal_tracker).goals(), final(goal_tracker).completed()) == match outcome {
            Ok(removed_quantity) => counted(
                old(goal_tracker).goals(),
                old(goal_tracker).completed(),
                action.goal_type,
                Some(action.content),
                removed_quantity,
            ),
            Err(_) => (old(goal_tracker).goals(), old(goal_tracker).completed()),
        },
{
    match outcome {
        Ok(removed_quantity) => {
            goal_tracker.update_manual(action.goal_type, Some(action.content), removed_quantity);
            Ok(removed_quantity)
        },
        Err(err) => Err(err),
    }
}

/// Settles a harvest that the host has carried out: the quantity it reports
/// is counted towards the first goal to get items of the kind of `item_type`,
/// and the host's answer is handed on as it came.
pub fn destroy_and_collect_item<E>(
    outcome: Result<usize, E>,
    goal_tracker: &mut GoalTracker,
    item_type: Option<Content>,
) -> (r: Result<usize, E>)
    ensures
        r == outcome,
        (final(goal_tracker).goals(), final(goal_tracker).completed()) == match outcome {
            Ok(removed_quantity) => counted(
                old(goal_tracker).goals(),
                old(goal_tracker).completed(),
                GoalType::GetItems,
                item_type,
                removed_quantity,
            ),
            Err(_) => (old(goal_tracker).goals(), old(goal_tracker).completed()),
        },
{
    match outcome {
        Ok(removed_quantity) => {
            goal_tracker.update_manual(GoalType::GetItems, item_type, removed_quantity);
            Ok(removed_quantity)
        },
        Err(err) => Err(err),
    }
}

} // verus!
