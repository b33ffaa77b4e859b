use automata::codec::{
    deserialize_material, deserialize_rule, deserialize_ruleset, pattern_from_str,
    pattern_to_string, serialize_material, serialize_rule, serialize_ruleset, DecodeError,
};
use automata::condition::{Condition, ConditionVariant, Direction, Operator};
use automata::grid::{Cell, Grid};
use automata::id::{Identifiable, UniqueId};
use automata::material::{Material, MaterialColor, MaterialGroup, MaterialId, MaterialMap};
use automata::pattern::Pattern;
use automata::ruleset::{Rule, Ruleset};

fn life() -> Ruleset {
    let dead = Material::from_parts(1, String::from("Dead"), MaterialColor::new(0, 0, 0));
    let alive = Material::from_parts(2, String::from("Alive"), MaterialColor::new(255, 255, 255));
    let alive_id: MaterialId = UniqueId::new_unchecked(2);
    let dead_id: MaterialId = UniqueId::new_unchecked(1);
    let live = MaterialGroup::from_parts(10, String::from("Live"), vec![alive_id]);
    let live_id = live.id();
    Ruleset {
        name: String::from("Conway"),
        rules: vec![
            Rule {
                input: Pattern::Material(dead_id),
                output: alive_id,
                conditions: vec![Condition {
                    variant: ConditionVariant::Count(Operator::List(vec![3])),
                    pattern: Pattern::Group(live_id),
                    inverted: false,
                }],
            },
            Rule {
                input: Pattern::Material(alive_id),
                output: alive_id,
                conditions: vec![Condition {
                    variant: ConditionVariant::Count(Operator::List(vec![2, 3])),
                    pattern: Pattern::Group(live_id),
                    inverted: false,
                }],
            },
            Rule {
                input: Pattern::Material(alive_id),
                output: dead_id,
                conditions: vec![],
            },
        ],
        materials: MaterialMap::new_unchecked(vec![dead, alive]),
        groups: vec![live],
    }
}

#[test]
fn serde_material() {
    let material = Material::blank();
    let serialized = serialize_material(&material);
    let deserialized = deserialize_material(&serialized);
    if let Err(err) = deserialized {
        println!("{err:?}");
        panic!("'deserialized' returned error")
    }
    assert_eq!(material, deserialized.unwrap());
}

#[test]
fn serde_pattern() {
    let empty_materials: Vec<Material> = vec![];
    let empty_groups: Vec<MaterialGroup> = vec![];
    let material_pattern = Pattern::Material(UniqueId::new(&empty_materials));
    let group_pattern = Pattern::Group(UniqueId::new(&empty_groups));

    let material_string = pattern_to_string(material_pattern);
    let group_string = pattern_to_string(group_pattern);

    let new_material_pattern = pattern_from_str(&material_string).unwrap();
    let new_group_pattern = pattern_from_str(&group_string).unwrap();

    assert_eq!(material_pattern, new_material_pattern);
    assert_eq!(group_pattern, new_group_pattern);
}

#[test]
fn serde_rule() {
    let rule = Rule {
        input: Pattern::Material(UniqueId::new_unchecked(10)),
        output: UniqueId::new_unchecked(100),
        conditions: vec![
            Condition {
                variant: ConditionVariant::Count(Operator::List(vec![1, 2, 3])),
                pattern: Pattern::Group(UniqueId::new_unchecked(20)),
                inverted: false,
            },
            Condition {
                variant: ConditionVariant::Directional(vec![
                    Direction::North,
                    Direction::South,
                ]),
                pattern: Pattern::Group(UniqueId::new_unchecked(200)),
                inverted: false,
            },
        ],
    };

    let rule_string = serialize_rule(&rule);
    println!("{rule_string:?}");

    let new_rule = deserialize_rule(&rule_string).unwrap();

    assert_eq!(rule, new_rule);
}

#[test]
fn ruleset_round_trip() {
    let rs = life();
    let text = serialize_ruleset(&rs);
    let back = deserialize_ruleset(&text).unwrap();
    assert_eq!(rs, back);
}

#[test]
fn round_trip_survives_awkward_names() {
    let mut rs = life();
    rs.name = String::from("A \"quoted\"\nname with \\ tabs\t and \r ends");
    let text = serialize_ruleset(&rs);
    let back = deserialize_ruleset(&text).unwrap();
    assert_eq!(rs, back);
}

#[test]
fn round_trip_preserves_all_operators() {
    let a = Material::from_parts(1, String::from("A"), MaterialColor::new(1, 2, 3));
    let a_id: MaterialId = UniqueId::new_unchecked(1);
    let rule = Rule {
        input: Pattern::Material(a_id),
        output: a_id,
        conditions: vec![
            Condition {
                variant: ConditionVariant::Count(Operator::List(vec![])),
                pattern: Pattern::Material(a_id),
                inverted: false,
            },
            Condition {
                variant: ConditionVariant::Count(Operator::Greater(5)),
                pattern: Pattern::Material(a_id),
                inverted: true,
            },
            Condition {
                variant: ConditionVariant::Count(Operator::Less(4)),
                pattern: Pattern::Material(a_id),
                inverted: false,
            },
            Condition {
                variant: ConditionVariant::Directional(vec![]),
                pattern: Pattern::Material(a_id),
                inverted: true,
            },
            Condition {
                variant: ConditionVariant::Directional(vec![
                    Direction::Northwest,
                    Direction::North,
                    Direction::Northeast,
                    Direction::West,
                    Direction::East,
                    Direction::Southwest,
                    Direction::South,
                    Direction::Southeast,
                ]),
                pattern: Pattern::Material(a_id),
                inverted: false,
            },
        ],
    };
    let rs = Ruleset {
        name: String::from("Operators"),
        rules: vec![rule],
        materials: MaterialMap::new_unchecked(vec![a]),
        groups: vec![],
    };
    let text = serialize_ruleset(&rs);
    let back = deserialize_ruleset(&text).unwrap();
    assert_eq!(rs, back);
}

#[test]
fn loaded_ruleset_simulates_the_blinker() {
    let text = serialize_ruleset(&life());
    let rs = deserialize_ruleset(&text).unwrap();
    let alive: MaterialId = UniqueId::new_unchecked(2);
    let mut grid = Grid::new(rs, 5);
    grid.set_cell(1, 2, Cell::new(alive));
    grid.set_cell(2, 2, Cell::new(alive));
    grid.set_cell(3, 2, Cell::new(alive));
    let start: Vec<u32> = (0..5)
        .flat_map(|y| (0..5).map(move |x| (x, y)))
        .map(|(x, y)| grid.cell_at(x, y).unwrap().material_id.get())
        .collect();

    let mut grid = grid;
    grid.next_generation();
    grid.next_generation();
    grid.next_generation();
    grid.next_generation();
    let end: Vec<u32> = (0..5)
        .flat_map(|y| (0..5).map(move |x| (x, y)))
        .map(|(x, y)| grid.cell_at(x, y).unwrap().material_id.get())
        .collect();
    assert_eq!(start, end);
}

#[test]
fn emitted_text_is_valid_toml() {
    let text = serialize_ruleset(&life());
    let value: Result<toml::Value, _> = toml::from_str(&text);
    let table = value.unwrap();
    assert_eq!(
        table.get("name").and_then(|v| v.as_str()),
        Some("Conway")
    );
    assert_eq!(
        table
            .get("materials")
            .and_then(|v| v.as_array())
            .map(|a| a.len()),
        Some(2)
    );
    assert_eq!(
        table.get("rules").and_then(|v| v.as_array()).map(|a| a.len()),
        Some(3)
    );
}

#[test]
fn malformed_documents_are_rejected() {
    assert!(deserialize_ruleset("").is_err());
    assert!(deserialize_ruleset("name = unquoted").is_err());
    assert!(deserialize_ruleset("name = \"x\"\ntrailing").is_err());
    assert!(deserialize_ruleset("name = \"x\"\n\n[[materials]]\nid = y\n").is_err());
}

#[test]
fn pattern_tokens_are_checked() {
    assert_eq!(
        pattern_from_str("123m").unwrap(),
        Pattern::Material(UniqueId::new_unchecked(123))
    );
    assert_eq!(
        pattern_from_str("4567g").unwrap(),
        Pattern::Group(UniqueId::new_unchecked(4567))
    );
    assert_eq!(pattern_from_str("123x"), Err(DecodeError::InvalidPatternToken));
    assert_eq!(pattern_from_str("m"), Err(DecodeError::InvalidPatternToken));
    assert_eq!(pattern_from_str(""), Err(DecodeError::InvalidPatternToken));
    assert_eq!(pattern_from_str("12 3m"), Err(DecodeError::InvalidPatternToken));
}

#[test]
fn color_text_forms() {
    let c = MaterialColor::new(255, 0, 128);
    assert_eq!(c.hex_string(), "#FF0080");
    assert_eq!(MaterialColor::parse_hex("#FF0080").unwrap(), c);
    assert_eq!(MaterialColor::parse_hex("#ff0080").unwrap(), c);
    assert!(MaterialColor::parse_hex("FF0080").is_err());
    assert!(MaterialColor::parse_hex("#FF008").is_err());
    assert!(MaterialColor::parse_hex("#FF00801").is_err());
    assert!(MaterialColor::parse_hex("#GG0080").is_err());
}

#[test]
fn emitted_document_shape_is_stable() {
    let a = Material::from_parts(7, String::from("Ash"), MaterialColor::new(0, 16, 255));
    let a_id: MaterialId = UniqueId::new_unchecked(7);
    let group = MaterialGroup::from_parts(9, String::from("Dust"), vec![a_id, a_id]);
    let rule = Rule {
        input: Pattern::Material(a_id),
        output: a_id,
        conditions: vec![Condition {
            variant: ConditionVariant::Count(Operator::Greater(2)),
            pattern: Pattern::Group(UniqueId::new_unchecked(9)),
            inverted: true,
        }],
    };
    let rs = Ruleset {
        name: String::from("Tiny"),
        rules: vec![rule],
        materials: MaterialMap::new_unchecked(vec![a]),
        groups: vec![group],
    };
    let expected = "name = \"Tiny\"\n\n[[materials]]\nid = 7\nname = \"Ash\"\ncolor = \"#0010FF\"\n\n[[groups]]\nid = 9\nname = \"Dust\"\nmaterials = [7, 7]\n\n[[rules]]\ninput = \"7m\"\noutput = 7\nconditions = [{ variant = { Count = { Greater = 2 } }, pattern = \"9g\", inverted = true }]\n";
    assert_eq!(serialize_ruleset(&rs), expected);
    assert_eq!(deserialize_ruleset(expected).unwrap(), rs);
}
