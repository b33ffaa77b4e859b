use automata::condition::{parse_count_text, Condition, ConditionVariant, Direction, Operator};
use automata::events::{
    ConditionEvent, ConditionIndex, GroupEvent, MaterialEvent, RuleEvent,
};
use automata::id::{Identifiable, UniqueId};
use automata::material::{Material, MaterialColor, MaterialGroup, MaterialId, MaterialMap};
use automata::pattern::Pattern;
use automata::ruleset::{Rule, Ruleset};

fn base() -> Ruleset {
    let a = Material::from_parts(1, String::from("A"), MaterialColor::new(0, 0, 0));
    let b = Material::from_parts(2, String::from("B"), MaterialColor::new(9, 9, 9));
    Ruleset {
        name: String::from("Editor"),
        rules: vec![],
        materials: MaterialMap::new_unchecked(vec![a, b]),
        groups: vec![],
    }
}

#[test]
fn operator_with_elements_normalizes_lists() {
    let op = Operator::List(vec![]);
    assert_eq!(op.with_elements(vec![5, 3, 3, 9, 11, 0]), Operator::List(vec![0, 3, 5]));
    assert_eq!(Operator::Greater(7).with_elements(vec![4, 7, 6]), Operator::Greater(4));
    assert_eq!(Operator::Less(1).with_elements(vec![4, 7, 6]), Operator::Less(7));
    assert_eq!(Operator::Greater(7).with_elements(vec![]), Operator::Greater(0));
    assert_eq!(Operator::Less(7).with_elements(vec![]), Operator::Less(0));
}

#[test]
fn operator_cycle_goes_list_greater_less() {
    let list = Operator::List(vec![2, 3]);
    let greater = list.cycled();
    assert_eq!(greater, Operator::Greater(2));
    let less = greater.cycled();
    assert_eq!(less, Operator::Less(2));
    let back = less.cycled();
    assert_eq!(back, Operator::List(vec![2]));
    assert_eq!(Operator::List(vec![]).cycled(), Operator::Greater(0));
}

#[test]
fn count_text_takes_single_digits() {
    assert_eq!(parse_count_text("3"), vec![3]);
    assert_eq!(parse_count_text("2, 3"), vec![2, 3]);
    assert_eq!(parse_count_text("9 8 7 9"), vec![7, 8]);
    assert_eq!(parse_count_text("no digits"), Vec::<u8>::new());
    assert_eq!(parse_count_text("3 1 2 1"), vec![1, 2, 3]);
}

#[test]
fn operator_contains_matches_its_kind() {
    assert!(Operator::List(vec![2, 3]).contains(3));
    assert!(!Operator::List(vec![2, 3]).contains(4));
    assert!(!Operator::List(vec![]).contains(0));
    assert!(Operator::Greater(5).contains(6));
    assert!(!Operator::Greater(5).contains(5));
    assert!(Operator::Less(5).contains(4));
    assert!(!Operator::Less(5).contains(5));
}

#[test]
fn invert_grayscale_contrasts() {
    assert_eq!(
        MaterialColor::new(0, 0, 0).invert_grayscale(),
        MaterialColor::new(255, 255, 255)
    );
    assert_eq!(MaterialColor::new(255, 255, 255).invert_grayscale(), MaterialColor::new(0, 0, 0));
    assert_eq!(
        MaterialColor::new(255, 0, 0).invert_grayscale(),
        MaterialColor::new(170, 170, 170)
    );
}

#[test]
fn material_events_edit_the_registry() {
    let mut rs = base();

    rs.apply_material_event(MaterialEvent::Created);
    assert_eq!(rs.materials.len(), 3);
    assert_eq!(rs.materials.get_at(2).unwrap().name, "Empty");

    rs.apply_material_event(MaterialEvent::Renamed(2, String::from("Stone")));
    assert_eq!(rs.materials.get_at(2).unwrap().name, "Stone");

    rs.apply_material_event(MaterialEvent::Recolored(2, String::from("#102030")));
    assert_eq!(rs.materials.get_at(2).unwrap().color, MaterialColor::new(16, 32, 48));

    rs.apply_material_event(MaterialEvent::Recolored(2, String::from("bad")));
    assert_eq!(rs.materials.get_at(2).unwrap().color, MaterialColor::new(16, 32, 48));

    let stone_id = rs.materials.get_at(2).unwrap().id();
    rs.apply_material_event(MaterialEvent::Deleted(stone_id));
    assert_eq!(rs.materials.len(), 2);

    // The default material is never deleted away by accident: with one
    // material left, removal fails and the registry is unchanged.
    let b_id = rs.materials.get_at(1).unwrap().id();
    rs.apply_material_event(MaterialEvent::Deleted(b_id));
    assert_eq!(rs.materials.len(), 1);
    let only = rs.materials.get_at(0).unwrap().id();
    rs.apply_material_event(MaterialEvent::Deleted(only));
    assert_eq!(rs.materials.len(), 1);
}

#[test]
fn default_material_survives_non_removing_edits() {
    let mut rs = base();
    let default_id = rs.materials.default().id().get();
    rs.apply_material_event(MaterialEvent::Created);
    rs.apply_material_event(MaterialEvent::Renamed(0, String::from("Renamed")));
    rs.apply_material_event(MaterialEvent::Recolored(0, String::from("#FFFFFF")));
    rs.apply_group_event(GroupEvent::Created);
    rs.apply_rule_event(RuleEvent::Created);
    rs.apply_condition_event(ConditionEvent::Created(0));
    assert_eq!(rs.materials.default().id().get(), default_id);
}

#[test]
fn group_events_edit_groups() {
    let mut rs = base();
    rs.apply_group_event(GroupEvent::Created);
    assert_eq!(rs.groups.len(), 1);
    assert_eq!(rs.groups[0].name, "New Group");

    rs.apply_group_event(GroupEvent::Renamed(0, String::from("Stones")));
    assert_eq!(rs.groups[0].name, "Stones");

    rs.apply_group_event(GroupEvent::EntryAdded(0));
    assert_eq!(rs.groups[0].member_count(), 1);
    assert_eq!(rs.groups[0].get_at(0).unwrap().get(), 1);

    rs.apply_group_event(GroupEvent::Edited {
        group_index: 0,
        entry_index: 0,
        new_material_index: 1,
    });
    assert_eq!(rs.groups[0].get_at(0).unwrap().get(), 2);

    rs.apply_group_event(GroupEvent::EntryDeleted { group_index: 0, entry_index: 0 });
    assert_eq!(rs.groups[0].member_count(), 0);

    rs.apply_group_event(GroupEvent::Deleted(0));
    assert_eq!(rs.groups.len(), 0);
}

#[test]
fn rule_events_edit_rules() {
    let mut rs = base();
    rs.apply_rule_event(RuleEvent::Created);
    assert_eq!(rs.rules.len(), 1);
    assert_eq!(rs.rules[0].input, Pattern::Material(UniqueId::new_unchecked(1)));
    assert_eq!(rs.rules[0].output.get(), 1);

    rs.apply_rule_event(RuleEvent::OutputSet(0, 1));
    assert_eq!(rs.rules[0].output.get(), 2);

    rs.apply_rule_event(RuleEvent::InputSet(0, 1));
    assert_eq!(rs.rules[0].input, Pattern::Material(UniqueId::new_unchecked(2)));

    rs.apply_rule_event(RuleEvent::Copied(0));
    assert_eq!(rs.rules.len(), 2);
    assert_eq!(rs.rules[0], rs.rules[1]);

    rs.apply_rule_event(RuleEvent::Deleted(0));
    assert_eq!(rs.rules.len(), 1);

    // Positions that do not resolve change nothing.
    rs.apply_rule_event(RuleEvent::Deleted(7));
    assert_eq!(rs.rules.len(), 1);
}

#[test]
fn condition_events_edit_conditions() {
    let mut rs = base();
    rs.apply_rule_event(RuleEvent::Created);
    rs.apply_condition_event(ConditionEvent::Created(0));
    assert_eq!(rs.rules[0].conditions.len(), 1);
    assert_eq!(
        rs.rules[0].conditions[0].variant,
        ConditionVariant::Count(Operator::List(vec![0]))
    );
    assert!(!rs.rules[0].conditions[0].inverted);

    let at = ConditionIndex::new(0, 0);
    rs.apply_condition_event(ConditionEvent::Inverted(at));
    assert!(rs.rules[0].conditions[0].inverted);

    rs.apply_condition_event(ConditionEvent::CountUpdated(at, String::from("3 5 3")));
    assert_eq!(
        rs.rules[0].conditions[0].variant,
        ConditionVariant::Count(Operator::List(vec![3, 5]))
    );

    rs.apply_condition_event(ConditionEvent::OperatorChanged(at));
    assert_eq!(
        rs.rules[0].conditions[0].variant,
        ConditionVariant::Count(Operator::Greater(3))
    );

    rs.apply_condition_event(ConditionEvent::CountUpdated(at, String::from("6 2")));
    assert_eq!(
        rs.rules[0].conditions[0].variant,
        ConditionVariant::Count(Operator::Greater(2))
    );

    rs.apply_condition_event(ConditionEvent::VariantChanged(
        at,
        ConditionVariant::Directional(vec![]),
    ));
    rs.apply_condition_event(ConditionEvent::DirectionToggled(at, Direction::North));
    assert_eq!(
        rs.rules[0].conditions[0].variant,
        ConditionVariant::Directional(vec![Direction::North])
    );
    rs.apply_condition_event(ConditionEvent::DirectionToggled(at, Direction::East));
    rs.apply_condition_event(ConditionEvent::DirectionToggled(at, Direction::North));
    assert_eq!(
        rs.rules[0].conditions[0].variant,
        ConditionVariant::Directional(vec![Direction::East])
    );

    rs.apply_condition_event(ConditionEvent::PatternSet(at, 1));
    assert_eq!(
        rs.rules[0].conditions[0].pattern,
        Pattern::Material(UniqueId::new_unchecked(2))
    );

    rs.apply_condition_event(ConditionEvent::Copied(at));
    assert_eq!(rs.rules[0].conditions.len(), 2);
    assert_eq!(rs.rules[0].conditions[0], rs.rules[0].conditions[1]);

    rs.apply_condition_event(ConditionEvent::Deleted(at));
    assert_eq!(rs.rules[0].conditions.len(), 1);
}

#[test]
fn fresh_rulesets_hold_one_material() {
    let fresh = Ruleset::new();
    assert_eq!(fresh.name, "New Ruleset");
    assert_eq!(fresh.materials.len(), 1);
    assert_eq!(fresh.materials.default().name, "Empty");
    assert!(fresh.rules.is_empty());
    assert!(fresh.groups.is_empty());

    let blank = Ruleset::blank();
    assert_eq!(blank.name, "Blank");
    assert_eq!(blank.materials.len(), 1);
    assert_eq!(blank.materials.default().name, "Blank");
    assert_eq!(blank.materials.default().color, MaterialColor::new(255, 255, 255));
}

#[test]
fn registry_lookup_finds_first_match() {
    let rs = base();
    let a_id: MaterialId = UniqueId::new_unchecked(1);
    assert_eq!(rs.materials.index_of(a_id), Some(0));
    assert_eq!(rs.materials.get(a_id).unwrap().name, "A");
    let ghost_id: MaterialId = UniqueId::new_unchecked(42);
    assert_eq!(rs.materials.index_of(ghost_id), None);
    assert!(rs.materials.get(ghost_id).is_none());
    assert_eq!(rs.materials.names(), vec![String::from("A"), String::from("B")]);
}

#[test]
fn conditions_default_to_counting_the_default_material() {
    let rs = base();
    let condition = Condition::new(&rs);
    assert_eq!(condition.variant, ConditionVariant::Count(Operator::List(vec![0])));
    assert_eq!(condition.pattern, Pattern::Material(UniqueId::new_unchecked(1)));
    assert!(!condition.inverted);

    let rule = Rule::new(&rs);
    assert_eq!(rule.input, Pattern::Material(UniqueId::new_unchecked(1)));
    assert_eq!(rule.output.get(), 1);
    assert!(rule.conditions.is_empty());
}
