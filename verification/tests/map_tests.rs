use nova::map::fog::{vision_args_fit, FogOfWar, FogState, Vision};
use nova::map::generator::next_rand_bits;
use nova::map::heightmap::{HeightMap, HALF_HEIGHT_BITS};
use nova::map::pathfinding::{route_start, FollowStep, PathFollow, RouteStart};
use nova::map::serialization::{default_resource_amount, terrain_from_lowercase, MapFile, TileData, MAP_FILE_VERSION};
use nova::map::tile::{TerrainType, Tile, DEFAULT_TILE_HEIGHT_BITS};
use nova::map::tilemap::TileMap;

#[test]
fn terrain_properties() {
    assert!(TerrainType::Grass.buildable());
    assert!(TerrainType::Desert.buildable());
    assert!(!TerrainType::Forest.buildable());
    assert!(TerrainType::Mountain.blocks_vision());
    assert!(TerrainType::Forest.blocks_vision());
    assert!(!TerrainType::Water.blocks_vision());
    assert!(!TerrainType::Water.is_passable());
    assert!(TerrainType::Forest.is_passable());
    let mut t = Tile::new(TerrainType::Grass, 0);
    assert!(t.walkable());
    t.occupied = true;
    assert!(!t.walkable());
    assert_eq!(Tile::default().height_bits, 0.5f32.to_bits());
    assert_eq!(DEFAULT_TILE_HEIGHT_BITS, 0.5f32.to_bits());
}

#[test]
fn tilemap_bounds_get_set() {
    let mut map = TileMap::new(4, 3, 1.0f32.to_bits());
    assert_eq!(map.width(), 4);
    assert_eq!(map.height(), 3);
    assert!(map.in_bounds(3, 2));
    assert!(!map.in_bounds(4, 0));
    assert!(map.get(4, 0).is_none());
    map.set(1, 2, Tile::new(TerrainType::Water, 7));
    assert_eq!(map.get(1, 2).unwrap().terrain, TerrainType::Water);
    assert_eq!(map.get(1, 2).unwrap().height_bits, 7);
    map.set(9, 9, Tile::new(TerrainType::Water, 7));
    map.set_terrain(0, 0, TerrainType::Forest);
    assert_eq!(map.get(0, 0).unwrap().terrain, TerrainType::Forest);
    if let Some(t) = map.get_mut(2, 2) {
        t.occupied = true;
    }
    assert!(map.get(2, 2).unwrap().occupied);
    let cells = map.iter();
    assert_eq!(cells.len(), 12);
    assert_eq!((cells[9].0, cells[9].1), (1, 2));
    assert_eq!(cells[9].2.terrain, TerrainType::Water);
}

#[test]
fn tilemap_neighbors() {
    let map = TileMap::new(3, 3, 0);
    assert_eq!(map.neighbors4(0, 0), vec![(1, 0), (0, 1)]);
    assert_eq!(map.neighbors4(1, 1), vec![(0, 1), (2, 1), (1, 0), (1, 2)]);
    assert_eq!(map.neighbors8(0, 0), vec![(1, 0), (0, 1), (1, 1)]);
    assert_eq!(map.neighbors8(1, 1).len(), 8);
    assert_eq!(map.neighbors8(2, 2), vec![(1, 1), (2, 1), (1, 2)]);
    // A coordinate of u32::MAX reads as -1, so its right-hand column is column 0.
    assert_eq!(map.neighbors8(u32::MAX, 0), vec![(0, 0), (0, 1)]);
}

#[test]
fn fog_vision_counts_and_states() {
    let mut fog = FogOfWar::new(5, 5);
    assert_eq!(fog.get_state(2, 2), FogState::Unexplored);
    fog.add_vision(2, 2, 1);
    assert_eq!(fog.get_vision_count(2, 2), 1);
    assert_eq!(fog.get_vision_count(1, 2), 1);
    assert_eq!(fog.get_vision_count(1, 1), 0); // diagonal is at distance^2 = 2 > 1
    fog.add_vision(2, 2, 1);
    assert_eq!(fog.get_vision_count(2, 2), 2);
    fog.update_states();
    assert_eq!(fog.get_state(2, 3), FogState::Visible);
    assert_eq!(fog.get_state(0, 0), FogState::Unexplored);
    fog.remove_vision(2, 2, 1);
    fog.remove_vision(2, 2, 1);
    fog.remove_vision(2, 2, 1);
    assert_eq!(fog.get_vision_count(2, 2), 0);
    fog.update_states();
    assert_eq!(fog.get_state(2, 2), FogState::Explored);
    assert_eq!(fog.get_state(9, 9), FogState::Unexplored);
    fog.enabled = false;
    assert_eq!(fog.get_state(9, 9), FogState::Visible);
    fog.enabled = true;
    fog.reveal_all();
    assert_eq!(fog.get_state(0, 0), FogState::Visible);
    fog.reset();
    assert_eq!(fog.get_state(0, 0), FogState::Unexplored);
}

#[test]
fn fog_vision_at_edge() {
    let mut fog = FogOfWar::new(3, 3);
    fog.add_vision(0, 0, 2);
    // Cells within squared distance 4 of (0,0).
    assert_eq!(fog.get_vision_count(2, 0), 1);
    assert_eq!(fog.get_vision_count(1, 1), 1);
    assert_eq!(fog.get_vision_count(2, 1), 0);
    assert!(fog.vision_has_room(0, 0, 2));
    assert!(vision_args_fit(0, 0, 2));
    assert!(!vision_args_fit(0, 0, 40000));
}

#[test]
fn fog_move_vision() {
    let mut fog = FogOfWar::new(10, 1);
    let mut vision = Vision::new(1);
    fog.move_vision(&mut vision, (2, 0));
    assert_eq!(vision.last_tile, Some((2, 0)));
    assert_eq!(fog.get_vision_count(1, 0), 1);
    fog.move_vision(&mut vision, (2, 0));
    assert_eq!(fog.get_vision_count(2, 0), 1);
    fog.move_vision(&mut vision, (7, 0));
    assert_eq!(fog.get_vision_count(2, 0), 0);
    assert_eq!(fog.get_vision_count(8, 0), 1);
    assert!(fog.move_has_room(&vision, (7, 0)));
    assert!(fog.move_has_room(&vision, (6, 0)));
    assert_eq!(fog.get_vision_count(7, 0), 1);
}

#[test]
fn path_follow_walks() {
    let mut pf = PathFollow::new(vec![(1, 1), (2, 2)]);
    assert_eq!(pf.current_target(), Some((1, 1)));
    pf.advance();
    assert_eq!(pf.current_target(), Some((2, 2)));
    assert!(!pf.finished);
    pf.advance();
    assert!(pf.finished);
    assert_eq!(pf.current_target(), None);
}

#[test]
fn map_file_round_trip() {
    let mut map = TileMap::new(3, 2, 2.0f32.to_bits());
    map.set(0, 0, Tile::new(TerrainType::Mountain, 0.9f32.to_bits()));
    map.set(2, 1, Tile { terrain: TerrainType::Forest, height_bits: 3, occupied: true });
    let file = MapFile::from_tilemap(&map);
    assert_eq!(file.version, MAP_FILE_VERSION);
    assert_eq!(file.tiles.len(), 6);
    assert_eq!(file.tiles[0].terrain, "mountain");
    assert_eq!(file.tiles[5].terrain, "forest");
    assert!(file.spawn_points.is_empty());
    let back = file.to_tilemap();
    for y in 0..2 {
        for x in 0..3 {
            assert_eq!(back.get(x, y), map.get(x, y));
        }
    }
    assert_eq!(back.tile_size_bits(), 2.0f32.to_bits());
}

#[test]
fn tile_data_names_are_case_insensitive() {
    let d = TileData { terrain: "WaTeR".to_string(), height_bits: 1, occupied: false };
    assert_eq!(d.to_tile().terrain, TerrainType::Water);
    let d = TileData { terrain: "lava".to_string(), height_bits: 1, occupied: false };
    assert_eq!(d.to_tile().terrain, TerrainType::Grass);
    assert_eq!(terrain_from_lowercase("desert"), TerrainType::Desert);
    assert_eq!(terrain_from_lowercase("Desert"), TerrainType::Grass);
    assert_eq!(TileData::from_tile(&Tile::new(TerrainType::Water, 0)).terrain, "water");
    assert_eq!(default_resource_amount(), 1000);
}

#[test]
fn short_file_fills_default_tiles() {
    let file = MapFile {
        version: 1,
        width: 2,
        height: 2,
        tile_size_bits: 0,
        tiles: vec![TileData { terrain: "water".to_string(), height_bits: 9, occupied: false }],
        spawn_points: vec![],
        resource_nodes: vec![],
    };
    let map = file.to_tilemap();
    assert_eq!(map.get(0, 0).unwrap().terrain, TerrainType::Water);
    assert_eq!(*map.get(1, 1).unwrap(), Tile::default());
}

#[test]
fn rng_step_matches_lcg() {
    let (s1, r1) = next_rand_bits(12345);
    let expected = 12345u64.wrapping_mul(1103515245).wrapping_add(12345);
    assert_eq!(s1, expected);
    assert_eq!(r1 as u64, (expected >> 16) & 0x7FFF);
    let (_, r2) = next_rand_bits(u64::MAX);
    assert!(r2 <= 0x7FFF);
}

#[test]
fn path_follow_steps() {
    let mut pf = PathFollow::new(vec![(1, 1), (2, 2)]);
    assert_eq!(pf.step(false), FollowStep::MoveToward { x: 1, y: 1 });
    assert_eq!(pf.current_index, 0);
    assert_eq!(pf.step(true), FollowStep::Advanced);
    assert_eq!(pf.current_index, 1);
    assert!(!pf.finished);
    assert_eq!(pf.step(false), FollowStep::MoveToward { x: 2, y: 2 });
    assert_eq!(pf.step(true), FollowStep::Arrived);
    assert!(pf.finished);
    assert_eq!(pf.step(true), FollowStep::Wait);
    assert_eq!(pf.current_index, 2);
    let mut empty = PathFollow::new(vec![]);
    assert_eq!(empty.step(true), FollowStep::Wait);
    assert_eq!(empty.current_index, 0);
}

#[test]
fn route_start_cases() {
    match route_start(Some(Some(vec![(3, 4)]))) {
        RouteStart::Follow(f) => {
            assert_eq!(f.path, vec![(3, 4)]);
            assert_eq!(f.current_index, 0);
            assert!(!f.finished);
        }
        other => panic!("unexpected {:?}", other),
    }
    assert!(matches!(route_start(Some(Some(vec![]))), RouteStart::Stop));
    assert!(matches!(route_start(Some(None)), RouteStart::Direct));
    assert!(matches!(route_start(None), RouteStart::Direct));
}

#[test]
fn heightmap_cells() {
    let mut h = HeightMap::new(3, 2);
    assert_eq!(h.width(), 3);
    assert_eq!(h.height(), 2);
    assert_eq!(HALF_HEIGHT_BITS, 0.5f32.to_bits());
    assert_eq!(h.get_bits(2, 1), 0.5f32.to_bits());
    assert_eq!(h.get_bits(3, 0), 0);
    assert!(h.in_bounds(2, 1));
    assert!(!h.in_bounds(0, 2));
    h.set_bits(1, 1, 0.75f32.to_bits());
    assert_eq!(h.get_bits(1, 1), 0.75f32.to_bits());
    assert_eq!(h.get_bits(1, 0), 0.5f32.to_bits());
    h.set_bits(5, 5, 1);
    let cells = h.iter();
    assert_eq!(cells.len(), 6);
    assert_eq!(cells[4], (1, 1, 0.75f32.to_bits()));
    assert_eq!(cells[5], (2, 1, 0.5f32.to_bits()));
    let d = HeightMap::from_data(2, 1, vec![1, 2]);
    assert_eq!(d.get_bits(1, 0), 2);
    assert_eq!(d.iter(), vec![(0, 0, 1), (1, 0, 2)]);
}
