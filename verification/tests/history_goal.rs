//! History Recorder operations and the Goal Evaluator.
use sokoban::Dir;
use sokoban::SokobanEvent;
use sokoban::context::SimulationContext;
use sokoban::history::HistoryEvent;
use sokoban::level::Level;
use sokoban::level::TileKind;
use sokoban::level::spawn_level;

fn level_from_rows(rows: &[&str]) -> Level {
    let height = rows.len() as u32;
    let width = rows[0].len() as u32;
    let mut tiles = Vec::new();
    for row in rows.iter().rev() {
        assert_eq!(row.len() as u32, width);
        for b in row.bytes() {
            tiles.push(TileKind::from_byte(b));
        }
    }
    Level { width, height, tiles }
}

fn ctx_from_rows(rows: &[&str]) -> SimulationContext {
    let mut ctx = spawn_level(&level_from_rows(rows));
    ctx.sync_collision_map();
    ctx
}

fn entity_at(ctx: &SimulationContext, x: u32, y: u32) -> usize {
    for i in 0..ctx.entities.len() {
        let e = &ctx.entities[i];
        if e.alive && e.pos.x == x && e.pos.y == y {
            return i;
        }
    }
    panic!("no live entity at ({}, {})", x, y);
}

fn settle(ctx: &mut SimulationContext, events: &mut Vec<SokobanEvent>) {
    let mut fuel = 64;
    while ctx.any_momentum_left() && fuel > 0 {
        ctx.step(events);
        fuel -= 1;
    }
    assert!(fuel > 0, "simulation did not settle");
    ctx.step(events);
}

#[test]
fn record_then_rewind_restores_the_previous_position_exactly_once() {
    let mut ctx = ctx_from_rows(&["#p...#"]);
    let p = entity_at(&ctx, 1, 0);
    let mut events = Vec::new();
    ctx.player_movement(Dir::Right, &mut events);
    settle(&mut ctx, &mut events);
    assert_eq!((ctx.entities[p].pos.x, ctx.entities[p].pos.y), (2, 0));
    ctx.player_movement(Dir::Right, &mut events);
    settle(&mut ctx, &mut events);
    assert_eq!((ctx.entities[p].pos.x, ctx.entities[p].pos.y), (3, 0));
    // one rewind undoes exactly the latest recorded step
    ctx.undo();
    assert_eq!((ctx.entities[p].pos.x, ctx.entities[p].pos.y), (2, 0));
    ctx.undo();
    assert_eq!((ctx.entities[p].pos.x, ctx.entities[p].pos.y), (1, 0));
}

#[test]
fn rewind_with_no_recorded_history_is_a_no_op() {
    let mut ctx = ctx_from_rows(&["#p.#"]);
    let p = entity_at(&ctx, 1, 0);
    ctx.undo();
    assert_eq!((ctx.entities[p].pos.x, ctx.entities[p].pos.y), (1, 0));
    assert_eq!(ctx.time, 0);
}

#[test]
fn undo_is_deferred_while_something_is_moving() {
    let mut ctx = ctx_from_rows(&["#pb..#"]);
    let p = entity_at(&ctx, 1, 0);
    let mut events = Vec::new();
    ctx.player_movement(Dir::Right, &mut events);
    // momentum is pending: the undo intent is rejected for this step
    let time_before = ctx.time;
    ctx.undo();
    assert_eq!(ctx.time, time_before);
    assert_eq!((ctx.entities[p].pos.x, ctx.entities[p].pos.y), (1, 0));
}

#[test]
fn record_deduplicates_unchanged_positions() {
    let mut ctx = ctx_from_rows(&["#p.#"]);
    let p = entity_at(&ctx, 1, 0);
    ctx.record();
    ctx.record();
    assert_eq!(ctx.entities[p].history.entries.len(), 1);
    assert_eq!(ctx.time, 2);
}

#[test]
fn reset_restores_the_first_recorded_position_and_is_undoable() {
    let mut ctx = ctx_from_rows(&["#p...#"]);
    let p = entity_at(&ctx, 1, 0);
    let mut events = Vec::new();
    ctx.player_movement(Dir::Right, &mut events);
    settle(&mut ctx, &mut events);
    ctx.player_movement(Dir::Right, &mut events);
    settle(&mut ctx, &mut events);
    assert_eq!((ctx.entities[p].pos.x, ctx.entities[p].pos.y), (3, 0));
    ctx.reset_level();
    assert_eq!((ctx.entities[p].pos.x, ctx.entities[p].pos.y), (1, 0));
    // the overwritten position was appended, so the reset can be rewound
    ctx.undo();
    assert_eq!((ctx.entities[p].pos.x, ctx.entities[p].pos.y), (3, 0));
}

#[test]
fn handle_history_dispatches_record() {
    let mut ctx = ctx_from_rows(&["#p.#"]);
    ctx.handle_history(HistoryEvent::Record);
    assert_eq!(ctx.time, 1);
    let p = entity_at(&ctx, 1, 0);
    let h = &ctx.entities[p].history;
    assert_eq!(h.len(), 1);
    let first = h.first().unwrap();
    let last = h.last().unwrap();
    assert_eq!(first, last);
    assert_eq!(first.time, 0);
    assert_eq!((first.pos.x, first.pos.y), (1, 0));
}

#[test]
fn goal_at_2_2_is_satisfied_after_the_push_settles() {
    // Goal at (2,2); the ball below it is pushed up onto it and stopped by
    // the wall behind; the evaluator reports solved only once no entity has
    // pending momentum.
    let mut ctx = ctx_from_rows(&[
        "#####", // y3: wall, including (2,3)
        "#.g.#", // y2: goal at (2,2)
        "#.b.#", // y1: ball at (2,1)
        "#.p.#", // y0: player at (2,0)
    ]);
    let b = entity_at(&ctx, 2, 1);
    let mut events = Vec::new();
    assert!(!ctx.check_goals());
    ctx.player_movement(Dir::Up, &mut events);
    settle(&mut ctx, &mut events);
    assert_eq!((ctx.entities[b].pos.x, ctx.entities[b].pos.y), (2, 2));
    assert!(ctx.check_goals());
    assert!(events.contains(&SokobanEvent::LevelSolved));
}

#[test]
fn level_solved_fires_exactly_once_on_the_step_after_the_push_completes() {
    let mut ctx = ctx_from_rows(&["#####", "#.g.#", "#.b.#", "#.p.#"]);
    let mut events = Vec::new();
    ctx.player_movement(Dir::Up, &mut events);
    // step 1: player and ball each move one cell; the ball still coasts
    ctx.step(&mut events);
    assert!(!events.contains(&SokobanEvent::LevelSolved));
    // step 2: the ball is stopped by the wall; quiescent; solved fires
    ctx.step(&mut events);
    let solved_count = events.iter().filter(|e| **e == SokobanEvent::LevelSolved).count();
    assert_eq!(solved_count, 1);
    // further steps do not fire it again
    ctx.step(&mut events);
    ctx.step(&mut events);
    let solved_count = events.iter().filter(|e| **e == SokobanEvent::LevelSolved).count();
    assert_eq!(solved_count, 1);
}

#[test]
fn a_ball_coasting_across_the_goal_does_not_solve() {
    // The ball passes over the goal cell while still in motion and stops
    // past it: never solved, and the predicate stays false.
    let mut ctx = ctx_from_rows(&["#pbg.#"]);
    let b = entity_at(&ctx, 2, 0);
    let mut events = Vec::new();
    assert!(!ctx.check_goals());
    ctx.player_movement(Dir::Right, &mut events);
    settle(&mut ctx, &mut events);
    assert_eq!((ctx.entities[b].pos.x, ctx.entities[b].pos.y), (4, 0));
    assert!(!ctx.check_goals());
    assert!(!events.contains(&SokobanEvent::LevelSolved));
}

#[test]
fn moving_the_ball_away_unsatisfies_the_goal() {
    let mut ctx = ctx_from_rows(&[
        "#####", // y3
        "#.g.#", // y2: goal at (2,2)
        "#.b.#", // y1
        "#.p.#", // y0
    ]);
    let mut events = Vec::new();
    ctx.player_movement(Dir::Up, &mut events);
    settle(&mut ctx, &mut events);
    assert!(ctx.check_goals());
    // walk around and push the ball off the goal cell sideways
    ctx.player_movement(Dir::Left, &mut events);
    settle(&mut ctx, &mut events);
    ctx.player_movement(Dir::Up, &mut events);
    settle(&mut ctx, &mut events);
    ctx.player_movement(Dir::Right, &mut events);
    settle(&mut ctx, &mut events);
    assert!(!ctx.check_goals());
}
