//! Momentum transfer, coasting, and the terrain modifiers.
use sokoban::Dir;
use sokoban::Momentum;
use sokoban::SokobanEvent;
use sokoban::context::SimulationContext;
use sokoban::level::Level;
use sokoban::level::TileKind;
use sokoban::level::spawn_level;

fn level_from_rows(rows: &[&str]) -> Level {
    let height = rows.len() as u32;
    let width = rows[0].len() as u32;
    let mut tiles = Vec::new();
    for row in rows.iter().rev() {
        assert_eq!(row.len() as u32, width);
        for b in row.bytes() {
            tiles.push(TileKind::from_byte(b));
        }
    }
    Level { width, height, tiles }
}

fn ctx_from_rows(rows: &[&str]) -> SimulationContext {
    let mut ctx = spawn_level(&level_from_rows(rows));
    ctx.sync_collision_map();
    ctx
}

fn entity_at(ctx: &SimulationContext, x: u32, y: u32) -> usize {
    for i in 0..ctx.entities.len() {
        let e = &ctx.entities[i];
        if e.alive && e.pos.x == x && e.pos.y == y {
            return i;
        }
    }
    panic!("no live entity at ({}, {})", x, y);
}

fn settle(ctx: &mut SimulationContext, events: &mut Vec<SokobanEvent>) {
    let mut fuel = 64;
    while ctx.any_momentum_left() && fuel > 0 {
        ctx.step(events);
        fuel -= 1;
    }
    assert!(fuel > 0, "simulation did not settle");
    // one more step so the win check sees the quiescent state
    ctx.step(events);
}

#[test]
fn momentum_transfer_is_token_conserving() {
    // One coasting ball meets two idle touching balls; after one transfer
    // phase exactly one entity is in motion: the idle ball nearest the far
    // end picks the direction up, the mover stops.
    let mut ctx = ctx_from_rows(&["#.bbb..#"]);
    let a = entity_at(&ctx, 2, 0);
    let b1 = entity_at(&ctx, 3, 0);
    let b2 = entity_at(&ctx, 4, 0);
    ctx.entities[a].momentum = Momentum(Some(Dir::Right));
    let mut events = Vec::new();
    ctx.step(&mut events);
    assert_eq!(ctx.entities[a].momentum.0, None);
    assert_eq!(ctx.entities[b1].momentum.0, None);
    assert_eq!(ctx.entities[b2].momentum.0, Some(Dir::Right));
    // only the receiving ball moved
    assert_eq!((ctx.entities[a].pos.x, ctx.entities[a].pos.y), (2, 0));
    assert_eq!((ctx.entities[b1].pos.x, ctx.entities[b1].pos.y), (3, 0));
    assert_eq!((ctx.entities[b2].pos.x, ctx.entities[b2].pos.y), (5, 0));
}

#[test]
fn wall_absorbs_momentum() {
    let mut ctx = ctx_from_rows(&["#.b#"]);
    let b = entity_at(&ctx, 2, 0);
    ctx.entities[b].momentum = Momentum(Some(Dir::Right));
    let mut events = Vec::new();
    ctx.step(&mut events);
    assert_eq!(ctx.entities[b].momentum.0, None);
    assert_eq!((ctx.entities[b].pos.x, ctx.entities[b].pos.y), (2, 0));
}

#[test]
fn out_of_bounds_mover_is_cancelled_and_reported() {
    let mut ctx = ctx_from_rows(&["#.b"]);
    let b = entity_at(&ctx, 2, 0);
    ctx.entities[b].momentum = Momentum(Some(Dir::Right));
    let mut events = Vec::new();
    let anomalies = ctx.step(&mut events);
    assert_eq!(anomalies, vec![b]);
    assert_eq!(ctx.entities[b].momentum.0, None);
    assert_eq!((ctx.entities[b].pos.x, ctx.entities[b].pos.y), (2, 0));
}

#[test]
fn pushed_ball_coasts_until_blocked() {
    let mut ctx = ctx_from_rows(&["#pb...#"]);
    let p = entity_at(&ctx, 1, 0);
    let b = entity_at(&ctx, 2, 0);
    let mut events = Vec::new();
    ctx.player_movement(Dir::Right, &mut events);
    settle(&mut ctx, &mut events);
    // the player moved exactly one cell, the ball coasted to the wall
    assert_eq!((ctx.entities[p].pos.x, ctx.entities[p].pos.y), (2, 0));
    assert_eq!((ctx.entities[b].pos.x, ctx.entities[b].pos.y), (5, 0));
    assert_eq!(ctx.entities[b].momentum.0, None);
}

#[test]
fn rubber_reverses_the_mover_on_the_next_apply() {
    let mut ctx = ctx_from_rows(&["#pb..|#"]);
    let b = entity_at(&ctx, 2, 0);
    let mut events = Vec::new();
    ctx.player_movement(Dir::Right, &mut events);
    // step 1: player to x2, ball to x3; step 2: ball to x4, still moving
    ctx.step(&mut events);
    ctx.step(&mut events);
    assert_eq!((ctx.entities[b].pos.x, ctx.entities[b].pos.y), (4, 0));
    assert_eq!(ctx.entities[b].momentum.0, Some(Dir::Right));
    // step 3: the ball's destination holds rubber: it bounces, moving one
    // cell back instead of stopping
    ctx.step(&mut events);
    assert_eq!((ctx.entities[b].pos.x, ctx.entities[b].pos.y), (3, 0));
    assert_eq!(ctx.entities[b].momentum.0, Some(Dir::Left));
}

#[test]
fn sand_stops_a_ball_one_cell_after_entering() {
    let mut ctx = ctx_from_rows(&["#pb~.#"]);
    let b = entity_at(&ctx, 2, 0);
    let mut events = Vec::new();
    ctx.player_movement(Dir::Right, &mut events);
    ctx.step(&mut events);
    // the ball moved exactly one cell, onto the sand, and stopped there
    assert_eq!((ctx.entities[b].pos.x, ctx.entities[b].pos.y), (3, 0));
    assert_eq!(ctx.entities[b].momentum.0, None);
    ctx.step(&mut events);
    assert_eq!((ctx.entities[b].pos.x, ctx.entities[b].pos.y), (3, 0));
}

#[test]
fn sand_does_not_stop_the_player() {
    let mut ctx = ctx_from_rows(&["#p~.#"]);
    let p = entity_at(&ctx, 1, 0);
    let mut events = Vec::new();
    ctx.player_movement(Dir::Right, &mut events);
    ctx.step(&mut events);
    assert_eq!((ctx.entities[p].pos.x, ctx.entities[p].pos.y), (2, 0));
    // the player never coasts anyway; sand leaves it alone
    assert_eq!(ctx.entities[p].momentum.0, None);
}

#[test]
fn void_despawns_what_lands_on_it() {
    let mut ctx = ctx_from_rows(&["#pb@.#"]);
    let b = entity_at(&ctx, 2, 0);
    let mut events = Vec::new();
    ctx.player_movement(Dir::Right, &mut events);
    ctx.step(&mut events); // ball moves onto the void cell
    ctx.step(&mut events); // void phase destroys it
    assert!(!ctx.entities[b].alive);
    assert!(events.contains(&SokobanEvent::EntityDespawned(b)));
    // the Grid Index no longer reports it
    ctx.sync_collision_map();
    assert!(ctx.collision.get(sokoban::Pos::new(3, 0)).is_none());
    // history stops recording it
    let len_before = ctx.entities[b].history.entries.len();
    ctx.record();
    assert_eq!(ctx.entities[b].history.entries.len(), len_before);
}

#[test]
fn undo_revives_a_voided_ball() {
    let mut ctx = ctx_from_rows(&["#pb@.#"]);
    let p = entity_at(&ctx, 1, 0);
    let b = entity_at(&ctx, 2, 0);
    let mut events = Vec::new();
    ctx.player_movement(Dir::Right, &mut events);
    ctx.step(&mut events);
    ctx.step(&mut events);
    assert!(!ctx.entities[b].alive);
    ctx.undo();
    assert!(ctx.entities[b].alive);
    assert_eq!((ctx.entities[p].pos.x, ctx.entities[p].pos.y), (1, 0));
    assert_eq!((ctx.entities[b].pos.x, ctx.entities[b].pos.y), (2, 0));
}

#[test]
fn a_moving_player_also_toggles_a_lamp() {
    let mut ctx = ctx_from_rows(&["#.pl#"]);
    let p = entity_at(&ctx, 2, 0);
    ctx.entities[p].momentum = Momentum(Some(Dir::Right));
    let mut events = Vec::new();
    ctx.step(&mut events);
    // any moving entity toggles the lamp at its destination, the player too
    assert!(ctx.lamps[0].on);
    assert!(events.contains(&SokobanEvent::LampToggled(sokoban::Pos::new(3, 0))));
    // the lamp is static, so the move itself fails: the player stays put
    assert_eq!((ctx.entities[p].pos.x, ctx.entities[p].pos.y), (2, 0));
    assert_eq!(ctx.entities[p].momentum.0, None);
}

#[test]
fn lamp_toggles_when_pushed_against() {
    let mut ctx = ctx_from_rows(&["#pb.l#"]);
    let b = entity_at(&ctx, 2, 0);
    let mut events = Vec::new();
    ctx.player_movement(Dir::Right, &mut events);
    settle(&mut ctx, &mut events);
    // the coasting ball aimed at the lamp: toggled even though the move
    // failed against the static lamp
    assert!(ctx.lamps[0].on);
    assert!(events.contains(&SokobanEvent::LampToggled(sokoban::Pos::new(4, 0))));
    assert_eq!((ctx.entities[b].pos.x, ctx.entities[b].pos.y), (3, 0));
    // all lamps lit and no goals: the level is solved
    assert!(events.contains(&SokobanEvent::LevelSolved));
}
