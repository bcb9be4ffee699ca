//! Level geometry parsing, spawned state, coordinates, and the walled-room
//! scenario.
use sokoban::Dir;
use sokoban::Pos;
use sokoban::SokobanBlock;
use sokoban::SokobanEvent;
use sokoban::context::SimulationContext;
use sokoban::level::Level;
use sokoban::level::TileKind;
use sokoban::level::spawn_level;

fn level_from_rows(rows: &[&str]) -> Level {
    let height = rows.len() as u32;
    let width = rows[0].len() as u32;
    let mut tiles = Vec::new();
    for row in rows.iter().rev() {
        assert_eq!(row.len() as u32, width);
        for b in row.bytes() {
            tiles.push(TileKind::from_byte(b));
        }
    }
    Level { width, height, tiles }
}

fn ctx_from_rows(rows: &[&str]) -> SimulationContext {
    let mut ctx = spawn_level(&level_from_rows(rows));
    ctx.sync_collision_map();
    ctx
}

fn entity_at(ctx: &SimulationContext, x: u32, y: u32) -> usize {
    for i in 0..ctx.entities.len() {
        let e = &ctx.entities[i];
        if e.alive && e.pos.x == x && e.pos.y == y {
            return i;
        }
    }
    panic!("no live entity at ({}, {})", x, y);
}

#[test]
fn tile_bytes_map_as_the_level_format_defines() {
    assert_eq!(TileKind::from_byte(b'#'), TileKind::Wall);
    assert_eq!(TileKind::from_byte(b'_'), TileKind::Floor);
    assert_eq!(TileKind::from_byte(b'.'), TileKind::Floor);
    assert_eq!(TileKind::from_byte(b'p'), TileKind::Player);
    assert_eq!(TileKind::from_byte(b'b'), TileKind::Ball);
    assert_eq!(TileKind::from_byte(b'@'), TileKind::Void);
    assert_eq!(TileKind::from_byte(b'|'), TileKind::Rubber);
    assert_eq!(TileKind::from_byte(b'~'), TileKind::Sand);
    assert_eq!(TileKind::from_byte(b'g'), TileKind::Goal);
    assert_eq!(TileKind::from_byte(b'B'), TileKind::BallGoal);
    assert_eq!(TileKind::from_byte(b'l'), TileKind::LampOff);
    assert_eq!(TileKind::from_byte(b'L'), TileKind::LampOn);
    // anything unknown degrades to a wall
    assert_eq!(TileKind::from_byte(b'z'), TileKind::Wall);
}

#[test]
fn static_tiles_are_walls_rubber_and_lamps() {
    assert!(TileKind::Wall.is_static());
    assert!(TileKind::Rubber.is_static());
    assert!(TileKind::LampOff.is_static());
    assert!(TileKind::LampOn.is_static());
    assert!(!TileKind::Floor.is_static());
    assert!(!TileKind::Sand.is_static());
    assert!(!TileKind::Void.is_static());
    assert!(!TileKind::Ball.is_static());
    assert!(!TileKind::Goal.is_static());
}

#[test]
fn spawn_seeds_positions_blocks_and_terrain_tables() {
    let ctx = ctx_from_rows(&[
        "#@~#", // y1: void at (1,1), sand at (2,1)
        "pbgL", // y0: player, ball, goal, lit lamp
    ]);
    assert_eq!(ctx.width, 4);
    assert_eq!(ctx.height, 2);
    assert_eq!(ctx.time, 0);
    assert!(!ctx.solved);
    let p = entity_at(&ctx, 0, 0);
    assert!(ctx.entities[p].is_player);
    assert_eq!(ctx.entities[p].block, SokobanBlock::Dynamic);
    assert!(ctx.entities[p].history.entries.is_empty());
    assert!(ctx.entities[p].momentum.0.is_none());
    let b = entity_at(&ctx, 1, 0);
    assert!(ctx.entities[b].is_ball);
    let lamp_block = entity_at(&ctx, 3, 0);
    assert_eq!(ctx.entities[lamp_block].block, SokobanBlock::Static);
    assert_eq!(ctx.goals.len(), 1);
    assert_eq!(ctx.goals[0], Pos::new(2, 0));
    assert_eq!(ctx.voids.len(), 1);
    assert_eq!(ctx.voids[0], Pos::new(1, 1));
    assert_eq!(ctx.sand.len(), 1);
    assert_eq!(ctx.sand[0], Pos::new(2, 1));
    assert_eq!(ctx.lamps.len(), 1);
    assert_eq!(ctx.lamps[0].pos, Pos::new(3, 0));
    assert!(ctx.lamps[0].on);
    assert!(ctx.check_lamps());
}

#[test]
fn ball_on_goal_tile_seeds_both() {
    let ctx = ctx_from_rows(&["#B.#"]);
    let b = entity_at(&ctx, 1, 0);
    assert!(ctx.entities[b].is_ball);
    assert_eq!(ctx.goals, vec![Pos::new(1, 0)]);
    assert!(ctx.check_goals());
}

#[test]
fn add_dir_moves_one_cell_and_saturates_at_zero() {
    let mut p = Pos::new(3, 3);
    p.add_dir(Dir::Up);
    assert_eq!(p, Pos::new(3, 4));
    p.add_dir(Dir::Left);
    assert_eq!(p, Pos::new(2, 4));
    p.add_dir(Dir::Down);
    assert_eq!(p, Pos::new(2, 3));
    p.add_dir(Dir::Right);
    assert_eq!(p, Pos::new(3, 3));
    let mut q = Pos::new(0, 0);
    q.add_dir(Dir::Left);
    assert_eq!(q, Pos::new(0, 0));
    q.add_dir(Dir::Down);
    assert_eq!(q, Pos::new(0, 0));
}

#[test]
fn opposite_directions_pair_up() {
    assert_eq!(Dir::Up.opposite(), Dir::Down);
    assert_eq!(Dir::Down.opposite(), Dir::Up);
    assert_eq!(Dir::Left.opposite(), Dir::Right);
    assert_eq!(Dir::Right.opposite(), Dir::Left);
}

#[test]
fn walled_room_push_into_wall_moves_nothing() {
    // Player at (1,1) pushes the ball at (1,2) north into the wall at
    // (1,3): the resolver reports a wall and neither position changes.
    let mut ctx = ctx_from_rows(&[
        "###", // y3: wall at (1,3)
        "#b#", // y2: ball at (1,2)
        "#p#", // y1: player at (1,1)
        "###", // y0
    ]);
    let p = entity_at(&ctx, 1, 1);
    let b = entity_at(&ctx, 1, 2);
    match ctx.collision.push_collision(Pos::new(1, 1), Dir::Up) {
        sokoban::collision::CollisionResult::Wall => {},
        _ => panic!("expected a wall"),
    }
    let mut events = Vec::new();
    ctx.player_movement(Dir::Up, &mut events);
    ctx.step(&mut events);
    assert_eq!((ctx.entities[p].pos.x, ctx.entities[p].pos.y), (1, 1));
    assert_eq!((ctx.entities[b].pos.x, ctx.entities[b].pos.y), (1, 2));
    assert!(!events.contains(&SokobanEvent::PlayerPush));
    assert!(!events.iter().any(|e| matches!(e, SokobanEvent::EntityMoved(_))));
}

#[test]
fn a_lone_move_reports_player_moved_then_player_push() {
    let mut ctx = ctx_from_rows(&["#p.#"]);
    let mut events = Vec::new();
    ctx.player_movement(Dir::Right, &mut events);
    assert_eq!(events, vec![SokobanEvent::PlayerMoved, SokobanEvent::PlayerPush]);
    ctx.step(&mut events);
    let p = entity_at(&ctx, 2, 0);
    assert!(ctx.entities[p].is_player);
}

#[test]
fn input_is_skipped_without_exactly_one_player() {
    let mut ctx = ctx_from_rows(&["#pp.#"]);
    let mut events = Vec::new();
    ctx.player_movement(Dir::Right, &mut events);
    assert!(events.is_empty());
    assert!(ctx.any_momentum_left() == false);
    // both players still where they started
    let _ = entity_at(&ctx, 1, 0);
    let _ = entity_at(&ctx, 2, 0);
    let mut ctx2 = ctx_from_rows(&["#.b.#"]);
    ctx2.player_movement(Dir::Right, &mut events);
    assert!(events.is_empty());
}
