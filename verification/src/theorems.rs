use vstd::prelude::*;

use crate::direction::Direction;
use crate::game::{
    lemma_initial_wf, lemma_stepped, saturating_sum, GameView, MIN_PERIOD, RESTART_TIME,
};

verus! {

/// Something that happens to a round: a direction intent, or the passing of
/// some time together with what the search for a food cell came up with.
pub enum Event {
    Key(Direction),
    Tick(u64, Option<(i32, i32)>),
}

/// The event can happen in state `v`: a tick may only bring food that may
/// be placed.
pub open spec fn allows(v: GameView, e: Event) -> bool {
    match e {
        Event::Key(_) => true,
        Event::Tick(_, choice) => v.may_place(choice),
    }
}

/// The state after one event.
pub open spec fn after_event(v: GameView, e: Event) -> GameView {
    match e {
        Event::Key(dir) => v.after_key(dir),
        Event::Tick(dt, choice) => v.after_update(dt, choice),
    }
}

/// The state after a sequence of events, first to last.
pub open spec fn after_events(v: GameView, events: Seq<Event>) -> GameView
    decreases events.len(),
{
    if events.len() == 0 {
        v
    } else {
        after_event(after_events(v, events.drop_last()), events.last())
    }
}

/// Each event of the sequence can happen in the state it meets.
pub open spec fn admissible(v: GameView, events: Seq<Event>) -> bool
    decreases events.len(),
{
    events.len() == 0 || (admissible(v, events.drop_last()) && allows(
        after_events(v, events.drop_last()),
        events.last(),
    ))
}

/// The round is running at the start and after each event of the sequence.
pub open spec fn stays_running(v: GameView, events: Seq<Event>) -> bool
    decreases events.len(),
{
    if events.len() == 0 {
        !v.game_over
    } else {
        stays_running(v, events.drop_last()) && !after_events(v, events).game_over
    }
}

/// A direction intent leaves a well-formed state.
pub proof fn lemma_key_wf(v: GameView, dir: Direction)
    requires
        v.wf(),
    ensures
        v.after_key(dir).wf(),
{
    lemma_stepped(v, Some(dir));
}

/// The passing of time leaves a well-formed state, and while the round runs
/// the step period never grows.
pub proof fn lemma_update_wf(v: GameView, dt: u64, choice: Option<(i32, i32)>)
    requires
        v.wf(),
        v.may_place(choice),
    ensures
        v.after_update(dt, choice).wf(),
        !v.game_over ==> v.after_update(dt, choice).moving_time <= v.moving_time,
{
    lemma_initial_wf(v.width, v.height);
    let w = v.waited(dt);
    if !v.game_over {
        if v.food is None {
            lemma_stepped(w.with_food(choice), None);
        } else {
            lemma_stepped(w, None);
        }
    }
}

/// Every state that a round reaches from a well-formed one is well formed:
/// the snake is never empty, food never lies on the snake (its tail
/// excepted), and the step period never falls below `MIN_PERIOD`.
pub proof fn lemma_reachable_wf(v: GameView, events: Seq<Event>)
    requires
        v.wf(),
        admissible(v, events),
    ensures
        after_events(v, events).wf(),
        after_events(v, events).moving_time >= MIN_PERIOD,
    decreases events.len(),
{
    if events.len() > 0 {
        let before = after_events(v, events.drop_last());
        lemma_reachable_wf(v, events.drop_last());
        match events.last() {
            Event::Key(dir) => lemma_key_wf(before, dir),
            Event::Tick(dt, choice) => lemma_update_wf(before, dt, choice),
        }
    }
}

/// As long as the round keeps running, the step period never grows, whatever
/// happens.
pub proof fn lemma_period_never_grows(v: GameView, events: Seq<Event>)
    requires
        v.wf(),
        admissible(v, events),
        stays_running(v, events),
    ensures
        MIN_PERIOD <= after_events(v, events).moving_time <= v.moving_time,
    decreases events.len(),
{
    lemma_reachable_wf(v, events);
    if events.len() > 0 {
        let before = after_events(v, events.drop_last());
        lemma_period_never_grows(v, events.drop_last());
        lemma_reachable_wf(v, events.drop_last());
        lemma_stays_running_start(v, events.drop_last());
        match events.last() {
            Event::Key(dir) => lemma_stepped(before, Some(dir)),
            Event::Tick(dt, choice) => lemma_update_wf(before, dt, choice),
        }
    }
}

/// A round that stays running was running after every event so far.
pub proof fn lemma_stays_running_start(v: GameView, events: Seq<Event>)
    requires
        stays_running(v, events),
    ensures
        !after_events(v, events).game_over,
    decreases events.len(),
{
}

/// After any sequence of direction intents the snake is as long as before if
/// the food is as before; otherwise the food was eaten, it is off the board,
/// and the snake is longer by exactly one cell.
pub proof fn lemma_keys_length(v: GameView, dirs: Seq<Direction>)
    requires
        v.wf(),
    ensures
        v.after_keys(dirs).wf(),
        v.after_keys(dirs).food == v.food ==> v.after_keys(dirs).snake.body.len()
            == v.snake.body.len(),
        v.after_keys(dirs).food != v.food ==> v.after_keys(dirs).food is None,
        v.after_keys(dirs).food != v.food ==> v.after_keys(dirs).snake.body.len()
            == v.snake.body.len() + 1,
    decreases dirs.len(),
{
    if dirs.len() > 0 {
        let before = v.after_keys(dirs.drop_last());
        lemma_keys_length(v, dirs.drop_last());
        lemma_stepped(before, Some(dirs.last()));
    }
}

/// While the round runs, a direction intent changes nothing exactly when it
/// is the reverse of the heading; any other, the heading itself included,
/// makes the snake attempt a step at once and restarts the waiting time.
pub proof fn lemma_key_rejected_iff_reverse(v: GameView, dir: Direction)
    requires
        v.wf(),
        !v.game_over,
    ensures
        v.after_key(dir) == v <==> dir == v.snake.direction.spec_opposite(),
        dir != v.snake.direction.spec_opposite() ==> v.after_key(dir) == v.stepped(Some(dir))
            && v.after_key(dir).waiting_time == 0,
{
    lemma_stepped(v, Some(dir));
}

/// While the round runs, no event turns the snake back on itself: the
/// heading after the event is never the reverse of the heading before it.
pub proof fn lemma_heading_never_reverses(v: GameView, e: Event)
    requires
        v.wf(),
        !v.game_over,
    ensures
        after_event(v, e).snake.direction != v.snake.direction.spec_opposite(),
{
}

/// Once the round is over, direction intents change nothing.
pub proof fn lemma_game_over_ignores_keys(v: GameView, dirs: Seq<Direction>)
    requires
        v.game_over,
    ensures
        v.after_keys(dirs) == v,
    decreases dirs.len(),
{
    if dirs.len() > 0 {
        lemma_game_over_ignores_keys(v, dirs.drop_last());
    }
}

/// A finished round that has waited longer than `RESTART_TIME` becomes the
/// state in which a new round on the same board starts; until then only its
/// waiting time changes.
pub proof fn lemma_restart_is_fresh(v: GameView, dt: u64, choice: Option<(i32, i32)>)
    requires
        v.game_over,
    ensures
        saturating_sum(v.waiting_time, dt) > RESTART_TIME ==> v.after_update(dt, choice)
            == GameView::initial(v.width, v.height),
        saturating_sum(v.waiting_time, dt) <= RESTART_TIME ==> v.after_update(dt, choice)
            == v.waited(dt),
{
}

} // verus!
