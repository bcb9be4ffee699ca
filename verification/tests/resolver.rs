//! Push Resolver behaviour over a synced Grid Index.
use sokoban::Dir;
use sokoban::Pos;
use sokoban::collision::CollisionResult;
use sokoban::context::SimulationContext;
use sokoban::level::Level;
use sokoban::level::TileKind;
use sokoban::level::spawn_level;

fn level_from_rows(rows: &[&str]) -> Level {
    let height = rows.len() as u32;
    let width = rows[0].len() as u32;
    let mut tiles = Vec::new();
    for row in rows.iter().rev() {
        assert_eq!(row.len() as u32, width);
        for b in row.bytes() {
            tiles.push(TileKind::from_byte(b));
        }
    }
    Level { width, height, tiles }
}

fn ctx_from_rows(rows: &[&str]) -> SimulationContext {
    let mut ctx = spawn_level(&level_from_rows(rows));
    ctx.sync_collision_map();
    ctx
}

fn entity_at(ctx: &SimulationContext, x: u32, y: u32) -> usize {
    for i in 0..ctx.entities.len() {
        let e = &ctx.entities[i];
        if e.alive && e.pos.x == x && e.pos.y == y {
            return i;
        }
    }
    panic!("no live entity at ({}, {})", x, y);
}

#[test]
fn all_dynamic_chain_resolves_to_push_of_exact_chain() {
    // Player, two touching balls, then an empty cell: the chain is the
    // origin entity and both balls, in order.
    let ctx = ctx_from_rows(&["#pbb.#"]);
    let p = entity_at(&ctx, 1, 0);
    let b1 = entity_at(&ctx, 2, 0);
    let b2 = entity_at(&ctx, 3, 0);
    match ctx.collision.push_collision(Pos::new(1, 0), Dir::Right) {
        CollisionResult::Push(chain) => assert_eq!(chain, vec![p, b1, b2]),
        _ => panic!("expected a push"),
    }
}

#[test]
fn single_entity_next_to_empty_cell_pushes_alone() {
    let ctx = ctx_from_rows(&["#p.#"]);
    let p = entity_at(&ctx, 1, 0);
    match ctx.collision.push_collision(Pos::new(1, 0), Dir::Right) {
        CollisionResult::Push(chain) => assert_eq!(chain, vec![p]),
        _ => panic!("expected a push"),
    }
}

#[test]
fn static_occupant_in_push_direction_is_wall() {
    let ctx = ctx_from_rows(&["#pb#"]);
    match ctx.collision.push_collision(Pos::new(1, 0), Dir::Right) {
        CollisionResult::Wall => {},
        _ => panic!("expected a wall"),
    }
}

#[test]
fn empty_origin_is_out_of_bounds() {
    let ctx = ctx_from_rows(&["#p.#"]);
    match ctx.collision.push_collision(Pos::new(2, 0), Dir::Right) {
        CollisionResult::OutOfBounds => {},
        _ => panic!("expected out of bounds"),
    }
}

#[test]
fn origin_outside_the_level_is_out_of_bounds() {
    let ctx = ctx_from_rows(&["#p.#"]);
    match ctx.collision.push_collision(Pos::new(9, 9), Dir::Up) {
        CollisionResult::OutOfBounds => {},
        _ => panic!("expected out of bounds"),
    }
}

#[test]
fn chain_running_into_the_border_is_out_of_bounds() {
    // No wall on the right border: the chain would leave the level.
    let ctx = ctx_from_rows(&["#pb"]);
    match ctx.collision.push_collision(Pos::new(1, 0), Dir::Right) {
        CollisionResult::OutOfBounds => {},
        _ => panic!("expected out of bounds"),
    }
}

#[test]
fn resolver_moves_nothing() {
    let ctx = ctx_from_rows(&["#pbb.#"]);
    let before: Vec<(u32, u32)> = ctx.entities.iter().map(|e| (e.pos.x, e.pos.y)).collect();
    let _ = ctx.collision.push_collision(Pos::new(1, 0), Dir::Right);
    let after: Vec<(u32, u32)> = ctx.entities.iter().map(|e| (e.pos.x, e.pos.y)).collect();
    assert_eq!(before, after);
}

#[test]
fn vertical_chain_resolves_upward() {
    let ctx = ctx_from_rows(&["#.#", "#b#", "#p#", "###"]);
    let p = entity_at(&ctx, 1, 1);
    let b = entity_at(&ctx, 1, 2);
    match ctx.collision.push_collision(Pos::new(1, 1), Dir::Up) {
        CollisionResult::Push(chain) => assert_eq!(chain, vec![p, b]),
        _ => panic!("expected a push"),
    }
}
