use std::collections::HashSet;

use tile_world::cache::{ChunkManager, TickPlan};
use tile_world::chunk::{Chunk, RenderHandle, Tile};
use tile_world::config::{ChunkConfig, Seeds};
use tile_world::coords::{
    chunk_to_tile_origin, local_tile_in_chunk, tile_to_chunk, tile_to_chunk_pos, ChunkCoordinate,
    TileCoordinate,
};
use tile_world::game_state::{change_game_state, GameState};
use tile_world::store::{ChunkDataError, TileRecord};
use tile_world::terrain::{
    random_variant, split_sprite_index, sprite_index, BiomType, TileType, SPITE_SHEET_COLUMNS,
};

fn config(chunk_size: u32, render_distance: u32) -> ChunkConfig {
    ChunkConfig { render_distance, chunk_size, seeds: Seeds::default() }
}

fn tc(x: i32, y: i32) -> TileCoordinate {
    TileCoordinate { x, y }
}

fn cc(x: i32, y: i32) -> ChunkCoordinate {
    ChunkCoordinate { x, y }
}

fn kinds_for(n: u32) -> Vec<TileType> {
    let all = [TileType::Grass, TileType::Water, TileType::DeepWater, TileType::Sand, TileType::Dirt];
    (0..(n * n) as usize).map(|i| all[i % all.len()]).collect()
}

/// Stands in for the render backend: hands out fresh handles and counts the live ones.
struct Backend {
    next: u64,
    live: HashSet<u64>,
}

impl Backend {
    fn create(&mut self) -> RenderHandle {
        self.next += 1;
        self.live.insert(self.next);
        RenderHandle(self.next)
    }

    fn destroy(&mut self, h: RenderHandle) {
        assert!(self.live.remove(&h.0), "handle destroyed twice or never created");
    }
}

/// Carries out one tick the way a host loop does: evict (destroy, save, remove), then load.
fn run_tick(
    manager: &mut ChunkManager,
    viewpoint: TileCoordinate,
    backend: &mut Backend,
    saved: &mut Vec<(ChunkCoordinate, Vec<TileRecord>)>,
) -> Option<(usize, usize)> {
    let plan: TickPlan = manager.plan_tick(viewpoint)?;
    let cfg = manager.config();
    for c in &plan.to_evict {
        let records = {
            let chunk = manager.get(c).expect("planned eviction of a resident chunk");
            for h in &chunk.handles {
                backend.destroy(*h);
            }
            chunk.to_records()
        };
        saved.push((*c, records));
        assert!(manager.remove_chunk(c).is_some());
    }
    for c in &plan.to_load {
        let tiles = Chunk::generate_new_chunk(&cfg, &kinds_for(cfg.chunk_size));
        let handles: Vec<RenderHandle> = tiles.iter().map(|_| backend.create()).collect();
        manager.add_new_chunk(Chunk::render(*c, tiles, handles));
    }
    Some((plan.to_load.len(), plan.to_evict.len()))
}

fn window_of(center: ChunkCoordinate, r: u32) -> HashSet<ChunkCoordinate> {
    ChunkManager::window(&center, r).into_iter().collect()
}

#[test]
fn tile_to_chunk_uses_floor_division() {
    assert_eq!(tile_to_chunk(tc(-1, 0), 16), cc(-1, 0));
    assert_eq!(tile_to_chunk(tc(15, 16), 16), cc(0, 1));
    assert_eq!(tile_to_chunk(tc(-16, -17), 16), cc(-1, -2));
    assert_eq!(tile_to_chunk(tc(i32::MIN, i32::MAX), 1), cc(i32::MIN, i32::MAX));
    assert_eq!(tile_to_chunk_pos(&tc(-9, 9), &config(8, 2)), cc(-2, 1));
}

#[test]
fn tile_chunk_round_trip_is_exact() {
    for &n in &[1u32, 3, 8, 16] {
        for x in -40..40 {
            let t = tc(x, -x * 3 + 1);
            let c = tile_to_chunk(t, n);
            let origin = chunk_to_tile_origin(c, n);
            let local = local_tile_in_chunk(t, origin);
            assert!(local.x >= 0 && local.x < n as i32);
            assert!(local.y >= 0 && local.y < n as i32);
            let back = tc(origin.x + local.x, origin.y + local.y);
            assert_eq!(back, t);
            assert_eq!(tile_to_chunk(back, n), c);
        }
    }
}

#[test]
fn chunk_origin_and_global_positions() {
    assert_eq!(chunk_to_tile_origin(cc(3, -2), 8), tc(24, -16));
    let cfg = config(8, 1);
    let pos = Chunk::global_tile_positions(&cc(3, -2), &cfg);
    assert_eq!(pos.len(), 64);
    assert_eq!(pos[0], tc(24, -16));
    assert_eq!(pos[1], tc(24, -15));
    assert_eq!(pos[8], tc(25, -16));
    assert_eq!(pos[63], tc(31, -9));
    assert_eq!(Tile::get_global_tile_position(&tc(7, 0), &cfg, &cc(-1, 0)), tc(-1, 0));
}

#[test]
fn window_moves_by_one_column_when_viewpoint_crosses_east() {
    let n = 16;
    // pixel (0, 0) and pixel (512, 0) with 32-pixel tiles are tiles (0, 0) and (16, 0)
    let before = tile_to_chunk(tc(0, 0), n);
    let after = tile_to_chunk(tc(16, 0), n);
    assert_eq!(before, cc(0, 0));
    assert_eq!(after, cc(1, 0));
    let wb = window_of(before, 1);
    let wa = window_of(after, 1);
    assert_eq!(wb.len(), 9);
    assert_eq!(wa.len(), 9);
    let gained: HashSet<_> = wa.difference(&wb).cloned().collect();
    let lost: HashSet<_> = wb.difference(&wa).cloned().collect();
    assert_eq!(gained, [cc(2, -1), cc(2, 0), cc(2, 1)].into_iter().collect());
    assert_eq!(lost, [cc(-1, -1), cc(-1, 0), cc(-1, 1)].into_iter().collect());
}

#[test]
fn window_sizes() {
    assert_eq!(ChunkManager::window(&cc(5, 5), 0), vec![cc(5, 5)]);
    let w = ChunkManager::window(&cc(-3, 7), 2);
    assert_eq!(w.len(), 25);
    assert_eq!(window_of(cc(-3, 7), 2).len(), 25);
    assert!(ChunkManager::in_window(&cc(-5, 9), &cc(-3, 7), 2));
    assert!(!ChunkManager::in_window(&cc(-6, 9), &cc(-3, 7), 2));
}

#[test]
fn save_then_load_round_trip() {
    let cfg = config(8, 1);
    let tiles = Chunk::generate_new_chunk(&cfg, &kinds_for(8));
    let n = tiles.len();
    let chunk = Chunk::render(cc(3, -2), tiles, (0..n as u64).map(RenderHandle).collect());
    assert_eq!(Chunk::get_file_string(&chunk.position, &cfg), "save/chunk_8_3_-2.bin");
    let records = chunk.to_records();
    assert_eq!(records.len(), 64);
    let as_tuples: Vec<(i32, i32, i32, i32, i32, usize)> =
        records.iter().map(|r| (r.key_x, r.key_y, r.x, r.y, r.z, r.spite_index)).collect();
    let bytes = bincode::serialize(&as_tuples).unwrap();
    drop(records);
    let back: Vec<(i32, i32, i32, i32, i32, usize)> = bincode::deserialize(&bytes).unwrap();
    let mut loaded_records: Vec<TileRecord> = back
        .into_iter()
        .map(|(key_x, key_y, x, y, z, spite_index)| TileRecord { key_x, key_y, x, y, z, spite_index })
        .collect();
    loaded_records.reverse();
    let loaded = Chunk::load(&cfg, Some(&loaded_records)).unwrap().unwrap();
    assert_eq!(loaded, chunk.tiles);
    assert_eq!(Chunk::load(&cfg, None), Ok(None));
}

fn grid_records(n: i32) -> Vec<TileRecord> {
    let mut v = Vec::new();
    for x in 0..n {
        for y in 0..n {
            v.push(TileRecord { key_x: x, key_y: y, x, y, z: 0, spite_index: 5 });
        }
    }
    v
}

#[test]
fn stored_record_errors() {
    let cfg = config(2, 1);
    let ok = Chunk::tiles_from_records(&cfg, &grid_records(2)).unwrap();
    assert_eq!(ok[3], Tile { x: 1, y: 1, tile_type: TileType::Water, sprite_variant: 1 });

    let mut out = grid_records(2);
    out[1].key_y = 2;
    out[1].y = 2;
    assert_eq!(Chunk::tiles_from_records(&cfg, &out), Err(ChunkDataError::TileOutOfBounds));

    let mut mismatch = grid_records(2);
    mismatch[2].z = 1;
    assert_eq!(Chunk::tiles_from_records(&cfg, &mismatch), Err(ChunkDataError::PositionMismatch));

    let mut sprite = grid_records(2);
    sprite[0].spite_index = 20;
    assert_eq!(Chunk::tiles_from_records(&cfg, &sprite), Err(ChunkDataError::UnknownSprite));

    let mut dup = grid_records(2);
    dup.push(dup[0]);
    assert_eq!(Chunk::tiles_from_records(&cfg, &dup), Err(ChunkDataError::DuplicateTile));

    let mut missing = grid_records(2);
    missing.pop();
    assert_eq!(Chunk::tiles_from_records(&cfg, &missing), Err(ChunkDataError::MissingTile));
    assert_eq!(Chunk::tiles_from_records(&cfg, &Vec::new()), Err(ChunkDataError::MissingTile));

    // the first bad record decides
    let mut both = grid_records(2);
    both[0].spite_index = 99;
    both[3].key_x = -1;
    assert_eq!(Chunk::load(&cfg, Some(&both)), Err(ChunkDataError::UnknownSprite));
}

#[test]
fn cache_keeps_one_rendered_chunk_per_coordinate_over_many_moves() {
    let cfg = config(4, 1);
    let n = cfg.chunk_size as usize;
    let mut manager = ChunkManager::new(cfg);
    let mut backend = Backend { next: 0, live: HashSet::new() };
    let mut saved = Vec::new();
    let path = [(0, 0), (1, 0), (2, 0), (5, 3), (5, 3), (-9, -9), (-8, -9), (40, -3), (3, 3), (0, 0)];
    for (step, &(x, y)) in path.iter().enumerate() {
        let t = tc(x, y);
        let changed = run_tick(&mut manager, t, &mut backend, &mut saved);
        if step == 2 || step == 4 {
            assert!(changed.is_none(), "same chunk as before: no work");
        }
        let center = tile_to_chunk(t, cfg.chunk_size);
        assert_eq!(manager.player_position(), Some(center));
        let win = window_of(center, cfg.render_distance);
        assert_eq!(manager.len(), win.len());
        for c in &win {
            let chunk = manager.get(c).expect("window chunk resident");
            assert_eq!(chunk.position, *c);
            assert_eq!(chunk.tiles.len(), n * n);
            assert_eq!(chunk.handles.len(), n * n);
            for h in &chunk.handles {
                assert!(backend.live.contains(&h.0));
            }
        }
        assert_eq!(backend.live.len(), win.len() * n * n);
    }
    assert!(!saved.is_empty());
    for (_, records) in &saved {
        assert_eq!(records.len(), n * n);
    }
}

#[test]
fn first_tick_and_crossing_ticks() {
    let cfg = config(16, 1);
    let mut manager = ChunkManager::new(cfg);
    let mut backend = Backend { next: 0, live: HashSet::new() };
    let mut saved = Vec::new();
    assert_eq!(run_tick(&mut manager, tc(0, 0), &mut backend, &mut saved), Some((9, 0)));
    assert_eq!(run_tick(&mut manager, tc(3, 15), &mut backend, &mut saved), None);
    assert_eq!(run_tick(&mut manager, tc(16, 0), &mut backend, &mut saved), Some((3, 3)));
    let evicted: HashSet<_> = saved.iter().map(|(c, _)| *c).collect();
    assert_eq!(evicted, [cc(-1, -1), cc(-1, 0), cc(-1, 1)].into_iter().collect());
}

#[test]
fn cache_add_remove_contains() {
    let cfg = config(2, 0);
    let mut manager = ChunkManager::new(cfg);
    assert_eq!(manager.len(), 0);
    assert!(!manager.contains(&cc(1, 1)));
    assert!(manager.remove_chunk(&cc(1, 1)).is_none());
    let tiles = Chunk::generate_new_chunk(&cfg, &kinds_for(2));
    let handles = vec![RenderHandle(1), RenderHandle(2), RenderHandle(3), RenderHandle(4)];
    manager.add_new_chunk(Chunk::render(cc(1, 1), tiles.clone(), handles.clone()));
    assert!(manager.contains(&cc(1, 1)));
    assert_eq!(manager.len(), 1);
    let removed = manager.remove_chunk(&cc(1, 1)).unwrap();
    assert_eq!(removed.tiles, tiles);
    assert_eq!(removed.handles, handles);
    assert!(!manager.contains(&cc(1, 1)));
    let m = ChunkManager::empty();
    assert_eq!(m.config().chunk_size, 16);
    assert_eq!(m.config().render_distance, 8);
    assert_eq!(m.player_position(), None);
}

#[test]
fn generated_tiles_follow_kinds_and_variants() {
    let cfg = config(3, 0);
    let kinds = kinds_for(3);
    let tiles = Chunk::generate_new_chunk(&cfg, &kinds);
    assert_eq!(tiles.len(), 9);
    for (i, t) in tiles.iter().enumerate() {
        assert_eq!(t.x, (i / 3) as i32);
        assert_eq!(t.y, (i % 3) as i32);
        assert_eq!(t.tile_type, kinds[i]);
        assert!(t.sprite_variant < SPITE_SHEET_COLUMNS);
        assert_eq!(t.spite_index(), t.tile_type.to_usize() * 4 + t.sprite_variant);
    }
}

#[test]
fn random_draws_stay_in_range() {
    for _ in 0..500 {
        assert!(random_variant() < SPITE_SHEET_COLUMNS);
        let _ = TileType::sample();
        let _ = BiomType::sample();
    }
}

#[test]
fn ordinals_and_sprite_indices() {
    assert_eq!(TileType::Grass.to_usize(), 0);
    assert_eq!(TileType::Water.to_usize(), 1);
    assert_eq!(TileType::DeepWater.to_usize(), 2);
    assert_eq!(TileType::Sand.to_usize(), 3);
    assert_eq!(TileType::Dirt.to_usize(), 4);
    assert_eq!(TileType::from_usize(3), Some(TileType::Sand));
    assert_eq!(TileType::from_usize(5), None);
    assert_eq!(BiomType::GrassLand.to_usize(), 0);
    assert_eq!(BiomType::Ocean.to_usize(), 1);
    assert_eq!(TileType::for_draw(2), Some(TileType::Dirt));
    assert_eq!(TileType::for_draw(3), Some(TileType::DeepWater));
    assert_eq!(TileType::for_draw(5), None);
    assert_eq!(BiomType::for_draw(1), Some(BiomType::Ocean));
    assert_eq!(sprite_index(TileType::Dirt, 3), 19);
    assert_eq!(split_sprite_index(19), Some((TileType::Dirt, 3)));
    assert_eq!(split_sprite_index(6), Some((TileType::Water, 2)));
    assert_eq!(split_sprite_index(20), None);
}

#[test]
fn file_names() {
    let cfg = config(16, 8);
    assert_eq!(Chunk::get_file_string(&cc(0, 0), &cfg), "save/chunk_16_0_0.bin");
    assert_eq!(Chunk::get_file_string(&cc(-120, 4097), &cfg), "save/chunk_16_-120_4097.bin");
    assert_eq!(
        Chunk::get_file_string(&cc(i32::MIN, i32::MAX), &config(1, 0)),
        "save/chunk_1_-2147483648_2147483647.bin"
    );
}

#[test]
fn defaults_and_game_state() {
    let cfg = ChunkConfig::default();
    assert_eq!((cfg.chunk_size, cfg.render_distance), (16, 8));
    assert_eq!((cfg.seeds.biom, cfg.seeds.tiles), (3654, 97123));
    assert_eq!(GameState::default(), GameState::GAME);
    assert_eq!(change_game_state(&GameState::GAME, true), Some(GameState::MENU));
    assert_eq!(change_game_state(&GameState::MENU, true), Some(GameState::GAME));
    assert_eq!(change_game_state(&GameState::GAME, false), None);
}
