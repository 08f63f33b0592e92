use cozy_core::grid::{Grid, GridPos};
use cozy_core::room::{
    adjacent_room_positions, floor_cells_with, room_contains, wall_cells_with, FloorTile,
    GrowthField, Room, RoomCfg, RoomGenParams, RoomLayout, SpecialField, WallTile,
};

fn layout(top: bool, bottom: bool, left: bool, right: bool) -> RoomLayout {
    RoomLayout { exit_top: top, exit_bottom: bottom, exit_left: left, exit_right: right }
}

fn collect_walls(g: &Grid<WallTile>) -> Vec<WallTile> {
    let mut out = Vec::new();
    for y in 0..g.height() as i32 {
        for x in 0..g.width() as i32 {
            out.push(*g.get(GridPos::new(x, y)));
        }
    }
    out
}

fn collect_floor(g: &Grid<FloorTile>) -> Vec<FloorTile> {
    let mut out = Vec::new();
    for y in 0..g.height() as i32 {
        for x in 0..g.width() as i32 {
            out.push(*g.get(GridPos::new(x, y)));
        }
    }
    out
}

#[test]
fn generation_is_deterministic() {
    let room = Room::new(12, 10, RoomGenParams::default());
    let l = layout(true, false, true, false);
    let (fa, wa) = room.generate(42, l);
    let (fb, wb) = room.generate(42, l);
    assert_eq!(collect_floor(&fa), collect_floor(&fb));
    assert_eq!(collect_walls(&wa), collect_walls(&wb));
}

#[test]
fn different_seeds_may_differ_but_stay_classified() {
    let room = Room::new(16, 12, RoomGenParams::default());
    let (floor, _) = room.generate(7, layout(false, true, false, true));
    for t in collect_floor(&floor) {
        assert!(matches!(t, FloorTile::Dirt | FloorTile::Grass | FloorTile::TallGrass));
    }
}

#[test]
fn sealed_room_has_walled_boundary() {
    // a closed 10 x 10 room: every boundary cell is a wall, never walkable
    let room = Room::new(10, 10, RoomGenParams::default());
    let (_, walls) = room.generate(42, layout(false, false, false, false));
    for y in 0..10 {
        for x in 0..10 {
            if x == 0 || x == 9 || y == 0 || y == 9 {
                let t = *walls.get(GridPos::new(x, y));
                assert!(matches!(t, WallTile::Wall | WallTile::LoneTree));
                assert!(!matches!(t, WallTile::Clear));
            }
        }
    }
}

#[test]
fn corridors_reach_every_open_exit() {
    // odd dimensions: the center row / column to each open exit stays clear
    let room = Room::new(11, 9, RoomGenParams::default());
    for seed in [0u32, 1, 42, 12345] {
        let (_, walls) = room.generate(seed, layout(true, true, true, true));
        let cx = (11 - 1) / 2;
        let cy = (9 - 1) / 2;
        for y in 0..9 {
            assert_eq!(*walls.get(GridPos::new(cx, y)), WallTile::Clear);
        }
        for x in 0..11 {
            assert_eq!(*walls.get(GridPos::new(x, cy)), WallTile::Clear);
        }
    }
}

#[test]
fn corridor_floor_is_dirt() {
    // growth is forced to its floor inside a corridor, below every cutoff
    let room = Room::new(11, 11, RoomGenParams::default());
    let (floor, _) = room.generate(3, layout(true, true, true, true));
    let c = (11 - 1) / 2;
    assert_eq!(*floor.get(GridPos::new(c, c)), FloorTile::Dirt);
    assert_eq!(*floor.get(GridPos::new(c, 10)), FloorTile::Dirt);
    assert_eq!(*floor.get(GridPos::new(0, c)), FloorTile::Dirt);
}

#[test]
fn cells_with_partitions_the_grid() {
    let room = Room::new(14, 9, RoomGenParams::default());
    let (floor, walls) = room.generate(99, layout(true, false, false, true));

    let dirt = floor_cells_with(&floor, FloorTile::Dirt);
    let grass = floor_cells_with(&floor, FloorTile::Grass);
    let tall = floor_cells_with(&floor, FloorTile::TallGrass);
    let unset = floor_cells_with(&floor, FloorTile::Unset);
    assert_eq!(dirt.len() + grass.len() + tall.len() + unset.len(), 14 * 9);
    assert_eq!(unset.len(), 0);
    for p in &grass {
        assert_eq!(*floor.get(*p), FloorTile::Grass);
    }

    let clear = wall_cells_with(&walls, WallTile::Clear);
    let wall = wall_cells_with(&walls, WallTile::Wall);
    let tree = wall_cells_with(&walls, WallTile::LoneTree);
    assert_eq!(clear.len() + wall.len() + tree.len(), 14 * 9);
    for p in &wall {
        assert_eq!(*walls.get(*p), WallTile::Wall);
    }
}

#[test]
fn adjacent_positions_follow_open_exits() {
    let all = adjacent_room_positions(&layout(true, true, true, true), 0, 0);
    assert_eq!(all, vec![(576, 0), (-576, 0), (0, 352), (0, -352)]);

    let none = adjacent_room_positions(&layout(false, false, false, false), 10, 20);
    assert!(none.is_empty());

    let right_only = adjacent_room_positions(&layout(false, false, false, true), 576, 352);
    assert_eq!(right_only, vec![(1152, 352)]);
}

#[test]
fn room_containment_is_strict() {
    assert!(room_contains(0, 0, 1, 1));
    assert!(room_contains(0, 0, 575, 351));
    assert!(!room_contains(0, 0, 0, 1));
    assert!(!room_contains(0, 0, 576, 100));
    assert!(!room_contains(0, 0, 100, 352));
    assert!(!room_contains(576, 0, 100, 100));
}

#[test]
fn growth_field_is_deterministic_and_memoized() {
    let cfg = RoomCfg {
        seed: 5,
        params: RoomGenParams::default(),
        layout: layout(false, true, true, false),
        width: 8,
        height: 6,
    };
    let mut f1 = GrowthField::new(cfg);
    let mut f2 = GrowthField::new(cfg);
    for y in 0..6 {
        for x in 0..8 {
            let a = f1.get_growth_factor(x, y);
            let b = f2.get_growth_factor(x, y);
            assert_eq!(a, b);
            // a second read comes from the memo table and must agree
            assert_eq!(f1.get_growth_factor(x, y), a);
        }
    }
}

#[test]
fn special_field_is_deterministic() {
    let cfg = RoomCfg {
        seed: 77,
        params: RoomGenParams::default(),
        layout: layout(false, false, false, false),
        width: 8,
        height: 6,
    };
    let s1 = SpecialField::new(cfg);
    let s2 = SpecialField::new(cfg);
    for y in 0..6 {
        for x in 0..8 {
            assert_eq!(s1.get_special_factor(x, y), s2.get_special_factor(x, y));
        }
    }
}

#[test]
fn lone_trees_take_precedence_over_walls() {
    // with the lone-tree cutoffs at their floor, every non-corridor cell
    // meets the lone-tree conditions, including the sealed boundary walls
    let mut params = RoomGenParams::default();
    params.lone_tree_growth_cutoff = -1_000_000;
    params.lone_tree_special_cutoff = -1_000_000;
    let room = Room::new(6, 6, params);
    let (_, walls) = room.generate(42, layout(false, false, false, false));
    for y in 0..6 {
        for x in 0..6 {
            if x == 0 || x == 5 || y == 0 || y == 5 {
                assert_eq!(*walls.get(GridPos::new(x, y)), WallTile::LoneTree);
            }
        }
    }
}
