use automata::condition::{Condition, ConditionVariant, Direction, Operator};
use automata::grid::{Cell, Grid};
use automata::id::{Identifiable, UniqueId};
use automata::material::{Material, MaterialColor, MaterialGroup, MaterialId, MaterialMap};
use automata::pattern::Pattern;
use automata::ruleset::{Rule, Ruleset};

fn mat(id: u32, name: &str, color: MaterialColor) -> Material {
    Material::from_parts(id, String::from(name), color)
}

/// The rule set of Conway's Life, B3/S23: Dead and Alive materials, a
/// `Live` group holding Alive, and the three rules in order.
fn life() -> Ruleset {
    let dead = mat(1, "Dead", MaterialColor::new(0, 0, 0));
    let alive = mat(2, "Alive", MaterialColor::new(255, 255, 255));
    let dead_id: MaterialId = UniqueId::new_unchecked(1);
    let alive_id: MaterialId = UniqueId::new_unchecked(2);
    let live = MaterialGroup::from_parts(10, String::from("Live"), vec![alive_id]);
    let live_id = live.id();

    let rule_a = Rule {
        input: Pattern::Material(dead_id),
        output: alive_id,
        conditions: vec![Condition {
            variant: ConditionVariant::Count(Operator::List(vec![3])),
            pattern: Pattern::Group(live_id),
            inverted: false,
        }],
    };
    let rule_b = Rule {
        input: Pattern::Material(alive_id),
        output: alive_id,
        conditions: vec![Condition {
            variant: ConditionVariant::Count(Operator::List(vec![2, 3])),
            pattern: Pattern::Group(live_id),
            inverted: false,
        }],
    };
    let rule_c = Rule {
        input: Pattern::Material(alive_id),
        output: dead_id,
        conditions: vec![],
    };

    Ruleset {
        name: String::from("Conway"),
        rules: vec![rule_a, rule_b, rule_c],
        materials: MaterialMap::new_unchecked(vec![dead, alive]),
        groups: vec![live],
    }
}

fn cell_ids(grid: &Grid) -> Vec<u32> {
    let mut out = Vec::new();
    for y in 0..grid.size {
        for x in 0..grid.size {
            out.push(grid.cell_at(x, y).unwrap().material_id.get());
        }
    }
    out
}

#[test]
fn blinker_flips() {
    let rs = life();
    let alive: MaterialId = UniqueId::new_unchecked(2);
    let mut grid = Grid::new(rs, 5);
    grid.set_cell(1, 2, Cell::new(alive));
    grid.set_cell(2, 2, Cell::new(alive));
    grid.set_cell(3, 2, Cell::new(alive));

    grid.next_generation();

    for y in 0..5 {
        for x in 0..5 {
            let id = grid.cell_at(x, y).unwrap().material_id.get();
            let expected = if x == 2 && (y == 1 || y == 2 || y == 3) { 2 } else { 1 };
            assert_eq!(id, expected, "cell ({x}, {y})");
        }
    }
}

#[test]
fn blinker_period_two() {
    let rs = life();
    let alive: MaterialId = UniqueId::new_unchecked(2);
    let mut grid = Grid::new(rs, 5);
    grid.set_cell(1, 2, Cell::new(alive));
    grid.set_cell(2, 2, Cell::new(alive));
    grid.set_cell(3, 2, Cell::new(alive));
    let start = cell_ids(&grid);

    grid.next_generation();
    grid.next_generation();
    assert_eq!(cell_ids(&grid), start);

    grid.next_generation();
    grid.next_generation();
    assert_eq!(cell_ids(&grid), start);
}

#[test]
fn directional_spread() {
    // One rule: a cell of material A with material B to its north becomes B.
    let a = mat(1, "A", MaterialColor::new(0, 0, 0));
    let b = mat(2, "B", MaterialColor::new(255, 255, 255));
    let a_id: MaterialId = UniqueId::new_unchecked(1);
    let b_id: MaterialId = UniqueId::new_unchecked(2);
    let rule = Rule {
        input: Pattern::Material(a_id),
        output: b_id,
        conditions: vec![Condition {
            variant: ConditionVariant::Directional(vec![Direction::North]),
            pattern: Pattern::Material(b_id),
            inverted: false,
        }],
    };
    let rs = Ruleset {
        name: String::from("Directional"),
        rules: vec![rule],
        materials: MaterialMap::new_unchecked(vec![a, b]),
        groups: vec![],
    };
    let mut grid = Grid::new(rs, 3);
    grid.set_cell(1, 0, Cell::new(b_id));

    grid.next_generation();

    for y in 0..3 {
        for x in 0..3 {
            let id = grid.cell_at(x, y).unwrap().material_id.get();
            let expected = if (x, y) == (1, 0) || (x, y) == (1, 1) { 2 } else { 1 };
            assert_eq!(id, expected, "cell ({x}, {y})");
        }
    }
}

fn greater_ruleset(bound: u8) -> Ruleset {
    let a = mat(1, "A", MaterialColor::new(0, 0, 0));
    let b = mat(2, "B", MaterialColor::new(255, 255, 255));
    let a_id: MaterialId = UniqueId::new_unchecked(1);
    let b_id: MaterialId = UniqueId::new_unchecked(2);
    let rule = Rule {
        input: Pattern::Material(a_id),
        output: b_id,
        conditions: vec![Condition {
            variant: ConditionVariant::Count(Operator::Greater(bound)),
            pattern: Pattern::Material(b_id),
            inverted: false,
        }],
    };
    Ruleset {
        name: String::from("Greater"),
        rules: vec![rule],
        materials: MaterialMap::new_unchecked(vec![a, b]),
        groups: vec![],
    }
}

#[test]
fn count_greater_switches_above_bound() {
    let b_id: MaterialId = UniqueId::new_unchecked(2);
    // Fill k of the 8 neighbors of the center with B; the center switches
    // exactly when k > 5.
    let offsets = [
        (0usize, 0usize),
        (1, 0),
        (2, 0),
        (0, 1),
        (2, 1),
        (0, 2),
        (1, 2),
        (2, 2),
    ];
    for k in 0..=8 {
        let mut grid = Grid::new(greater_ruleset(5), 3);
        for &(x, y) in offsets.iter().take(k) {
            grid.set_cell(x, y, Cell::new(b_id));
        }
        grid.next_generation();
        let center = grid.cell_at(1, 1).unwrap().material_id.get();
        if k > 5 {
            assert_eq!(center, 2, "{k} neighbors should switch the center");
        } else {
            assert_eq!(center, 1, "{k} neighbors should not switch the center");
        }
    }
}

#[test]
fn inverted_count_matches_isolated_cells() {
    // A default-material cell turns red exactly when none of its
    // neighbors is the default material: one Greater(0) condition on the
    // default material, inverted.
    let base = mat(1, "Default", MaterialColor::new(0, 0, 0));
    let red = mat(2, "Red", MaterialColor::new(255, 0, 0));
    let base_id: MaterialId = UniqueId::new_unchecked(1);
    let red_id: MaterialId = UniqueId::new_unchecked(2);
    let rule = Rule {
        input: Pattern::Material(base_id),
        output: red_id,
        conditions: vec![Condition {
            variant: ConditionVariant::Count(Operator::Greater(0)),
            pattern: Pattern::Material(base_id),
            inverted: true,
        }],
    };
    let rs = Ruleset {
        name: String::from("Inversion"),
        rules: vec![rule],
        materials: MaterialMap::new_unchecked(vec![base, red]),
        groups: vec![],
    };
    let mut grid = Grid::new(rs, 3);
    for y in 0..3 {
        for x in 0..3 {
            if (x, y) != (1, 1) {
                grid.set_cell(x, y, Cell::new(red_id));
            }
        }
    }
    grid.next_generation();
    for y in 0..3 {
        for x in 0..3 {
            assert_eq!(grid.cell_at(x, y).unwrap().material_id.get(), 2, "cell ({x}, {y})");
        }
    }
}

#[test]
fn dangling_group_never_matches() {
    // The rule's condition refers to a group handle that resolves to
    // nothing; stepping works and no cell ever changes.
    let a = mat(1, "A", MaterialColor::new(0, 0, 0));
    let b = mat(2, "B", MaterialColor::new(255, 255, 255));
    let a_id: MaterialId = UniqueId::new_unchecked(1);
    let b_id: MaterialId = UniqueId::new_unchecked(2);
    let gone_group = MaterialGroup::from_parts(99, String::from("Gone"), vec![a_id, b_id]);
    let gone = gone_group.id();
    let rule = Rule {
        input: Pattern::Material(a_id),
        output: b_id,
        conditions: vec![Condition {
            variant: ConditionVariant::Count(Operator::Greater(0)),
            pattern: Pattern::Group(gone),
            inverted: false,
        }],
    };
    let rs = Ruleset {
        name: String::from("Dangling"),
        rules: vec![rule],
        materials: MaterialMap::new_unchecked(vec![a, b]),
        groups: vec![],
    };
    let mut grid = Grid::new(rs, 3);
    grid.set_cell(0, 0, Cell::new(b_id));
    let before = cell_ids(&grid);
    grid.next_generation();
    assert_eq!(cell_ids(&grid), before);
}

#[test]
fn all_neighbors_exist_inside_the_grid() {
    let rs = life();
    let neighbors = {
        let grid = Grid::new(rs, 3);
        grid.neighbors(4)
    };
    // All 8 neighbors of the center of a 3x3 grid exist.
    for d in [
        Direction::Northwest,
        Direction::North,
        Direction::Northeast,
        Direction::West,
        Direction::East,
        Direction::Southwest,
        Direction::South,
        Direction::Southeast,
    ] {
        assert!(neighbors.in_direction(d).is_some());
    }
}

#[test]
fn count_matching_stays_within_bounds() {
    let rs = life();
    let alive: MaterialId = UniqueId::new_unchecked(2);
    let mut grid = Grid::new(rs, 4);
    for y in 0..4 {
        for x in 0..4 {
            grid.set_cell(x, y, Cell::new(alive));
        }
    }
    let rs_ref = grid.ruleset.clone();
    for index in 0..16 {
        let count =
            grid.neighbors(index).count_matching(&rs_ref, Pattern::Material(alive));
        assert!(count <= 8);
    }
    // The center of a full grid has all 8 neighbors matching; a corner 3.
    assert_eq!(
        grid.neighbors(5).count_matching(&rs_ref, Pattern::Material(alive)),
        8
    );
    assert_eq!(
        grid.neighbors(0).count_matching(&rs_ref, Pattern::Material(alive)),
        3
    );
}

#[test]
fn neighbors_at_edges_are_absent() {
    let rs = life();
    let grid = Grid::new(rs, 3);
    let corner = grid.neighbors(0);
    assert!(corner.in_direction(Direction::Northwest).is_none());
    assert!(corner.in_direction(Direction::North).is_none());
    assert!(corner.in_direction(Direction::West).is_none());
    assert!(corner.in_direction(Direction::East).is_some());
    assert!(corner.in_direction(Direction::South).is_some());
    assert!(corner.in_direction(Direction::Southeast).is_some());
}

#[test]
fn set_cell_out_of_range_is_ignored() {
    let rs = life();
    let alive: MaterialId = UniqueId::new_unchecked(2);
    let mut grid = Grid::new(rs, 3);
    let before = cell_ids(&grid);
    grid.set_cell(3, 0, Cell::new(alive));
    grid.set_cell(0, 7, Cell::new(alive));
    assert_eq!(cell_ids(&grid), before);
    assert!(grid.cell_at(3, 0).is_none());
}

#[test]
fn functional_state_round_trips() {
    let rs = life();
    let alive: MaterialId = UniqueId::new_unchecked(2);
    let mut grid = Grid::new(rs, 4);
    grid.set_cell(1, 1, Cell::new(alive));
    let saved = grid.functional_state();
    let before = cell_ids(&grid);
    grid.next_generation();
    grid.load_state(saved);
    assert_eq!(cell_ids(&grid), before);
}

#[test]
fn visual_state_shows_material_colors() {
    let rs = life();
    let alive: MaterialId = UniqueId::new_unchecked(2);
    let mut grid = Grid::new(rs, 2);
    grid.set_cell(0, 0, Cell::new(alive));
    let visual = grid.visual_state();
    assert_eq!(visual.size, 2);
    assert_eq!(visual.len(), 4);
    assert_eq!(visual.color_at(0).unwrap(), MaterialColor::new(255, 255, 255));
    assert_eq!(visual.color_at(1).unwrap(), MaterialColor::new(0, 0, 0));
    assert!(visual.color_at(4).is_none());
}

#[test]
fn dangling_cell_shows_default_color() {
    let rs = life();
    let stranger: MaterialId = UniqueId::new_unchecked(777);
    let cell = Cell::new(stranger);
    assert_eq!(cell.color(&rs), MaterialColor::new(0, 0, 0));
}

#[test]
fn empty_count_list_never_matches() {
    let rs = life();
    let grid = Grid::new(rs, 3);
    let neighbors = grid.neighbors(4);
    let alive: MaterialId = UniqueId::new_unchecked(2);
    let condition = Condition {
        variant: ConditionVariant::Count(Operator::List(vec![])),
        pattern: Pattern::Material(alive),
        inverted: false,
    };
    assert!(!condition.matches(neighbors, &grid.ruleset));
}

#[test]
fn inversion_flips_every_condition() {
    let rs = life();
    let alive: MaterialId = UniqueId::new_unchecked(2);
    let mut grid = Grid::new(rs, 3);
    grid.set_cell(1, 0, Cell::new(alive));
    let neighbors = grid.neighbors(4);

    let variants = vec![
        ConditionVariant::Count(Operator::List(vec![1])),
        ConditionVariant::Count(Operator::Greater(0)),
        ConditionVariant::Count(Operator::Less(2)),
        ConditionVariant::Directional(vec![Direction::North]),
        ConditionVariant::Directional(vec![Direction::South]),
    ];
    for variant in variants {
        let condition = Condition {
            variant,
            pattern: Pattern::Material(alive),
            inverted: false,
        };
        let flipped = condition.with_inverted();
        assert_ne!(
            condition.matches(neighbors, &grid.ruleset),
            flipped.matches(neighbors, &grid.ruleset)
        );
    }

    // The carve-out: an empty direction list stays false either way.
    let empty = Condition {
        variant: ConditionVariant::Directional(vec![]),
        pattern: Pattern::Material(alive),
        inverted: false,
    };
    let flipped = empty.with_inverted();
    assert!(!empty.matches(neighbors, &grid.ruleset));
    assert!(!flipped.matches(neighbors, &grid.ruleset));
}

#[test]
fn handles_are_fresh_among_existing() {
    let materials: Vec<Material> = (0..50)
        .map(|i| mat(i, "M", MaterialColor::new(0, 0, 0)))
        .collect();
    let fresh: MaterialId = UniqueId::new(&materials);
    for m in &materials {
        assert_ne!(m.id().get(), fresh.get());
    }
}

#[test]
fn pattern_group_membership() {
    let rs = life();
    let alive = Cell::new(UniqueId::new_unchecked(2));
    let dead = Cell::new(UniqueId::new_unchecked(1));
    let live_group = rs.groups[0].id();
    assert!(Pattern::Group(live_group).matches(&rs, alive));
    assert!(!Pattern::Group(live_group).matches(&rs, dead));
    assert!(Pattern::Material(UniqueId::new_unchecked(1)).matches(&rs, dead));
    assert!(!Pattern::Material(UniqueId::new_unchecked(1)).matches(&rs, alive));
}

#[test]
fn from_index() {
    fn m(id: u32) -> Material {
        Material::new_unchecked(UniqueId::new_unchecked(id))
    }
    fn g(id: u32, m_id: u32) -> MaterialGroup {
        MaterialGroup::new_unchecked(UniqueId::new_unchecked(id), vec![UniqueId::new_unchecked(
            m_id,
        )])
    }

    let materials: Vec<Material> = vec![m(1), m(2), m(3)];
    let map = MaterialMap::new_unchecked(materials);
    let groups: Vec<MaterialGroup> = vec![g(10, 1), g(20, 2), g(30, 3)];
    let ruleset = Ruleset {
        name: String::from("Test"),
        rules: vec![],
        materials: map,
        groups,
    };

    assert_eq!(
        Pattern::from_index(&ruleset, 0),
        Some(Pattern::Material(UniqueId::new_unchecked(1)))
    );
    assert_eq!(
        Pattern::from_index(&ruleset, 1),
        Some(Pattern::Material(UniqueId::new_unchecked(2)))
    );
    assert_eq!(
        Pattern::from_index(&ruleset, 2),
        Some(Pattern::Material(UniqueId::new_unchecked(3)))
    );
    assert_eq!(
        Pattern::from_index(&ruleset, 3),
        Some(Pattern::Group(UniqueId::new_unchecked(10)))
    );
    assert_eq!(
        Pattern::from_index(&ruleset, 4),
        Some(Pattern::Group(UniqueId::new_unchecked(20)))
    );
    assert_eq!(
        Pattern::from_index(&ruleset, 5),
        Some(Pattern::Group(UniqueId::new_unchecked(30)))
    );
    assert_eq!(Pattern::from_index(&ruleset, 6), None);
}

#[test]
fn pattern_values_lists_materials_then_groups() {
    let rs = life();
    let values = rs.pattern_values();
    assert_eq!(values, vec![
        String::from("Dead"),
        String::from("Alive"),
        String::from("#Live"),
    ]);
}
