//! Editor events and their effect on a rule set.
//!
//! The user interface reports edits as plain events; the engine applies
//! each event to the rule set it concerns. Events with positions that do
//! not resolve change nothing: the engine never aborts. No event except a
//! material removal changes which material is the default.

use crate::condition::{
    count_edit_relation, spec_digit_val, toggle_relation, Condition, ConditionVariant,
    ConditionVariantV, ConditionV, Direction, Operator, OperatorV,
};
use crate::id::Identifiable;
use crate::material::{Material, MaterialColor, MaterialGroup, MaterialId, spec_parse_color};
use crate::pattern::{Pattern, PatternV};
use crate::ruleset::{Rule, RuleV, Ruleset, RulesetV};
use vstd::prelude::*;

verus! {

/// Events on the list of rule sets; the surrounding application owns that
/// list and the persistence directory, and applies these itself.
#[derive(Debug, Clone, PartialEq, Eq)]
pub enum RulesetEvent {
    Selected(usize),
    Saved,
    Created,
    Renamed(String),
    Reloaded,
}

/// Events on the material registry.
#[derive(Debug, Clone, PartialEq, Eq)]
pub enum MaterialEvent {
    Created,
    Renamed(usize, String),
    Recolored(usize, String),
    Deleted(MaterialId),
}

/// Events on the group list.
#[derive(Debug, Clone, PartialEq, Eq)]
pub enum GroupEvent {
    Created,
    Deleted(usize),
    Edited { group_index: usize, entry_index: usize, new_material_index: usize },
    Renamed(usize, String),
    EntryDeleted { group_index: usize, entry_index: usize },
    EntryAdded(usize),
}

/// Events on the rule list.
#[derive(Debug, Clone, PartialEq, Eq)]
pub enum RuleEvent {
    Created,
    Deleted(usize),
    Copied(usize),
    OutputSet(usize, usize),
    InputSet(usize, usize),
}

/// The position of a condition: its rule and its place in that rule.
#[derive(Debug, Clone, Copy, PartialEq, Eq, Structural)]
pub struct ConditionIndex {
    pub rule_index: usize,
    pub condition_index: usize,
}

impl ConditionIndex {
    pub fn new(rule_index: usize, condition_index: usize) -> (r: Self)
        ensures
            r == (ConditionIndex { rule_index, condition_index }),
    {
        ConditionIndex { rule_index, condition_index }
    }

    pub fn values(&self) -> (r: (usize, usize))
        ensures
            r.0 == self.rule_index,
            r.1 == self.condition_index,
    {
        (self.rule_index, self.condition_index)
    }
}

/// Events on the conditions of rules.
#[derive(Debug, Clone, PartialEq, Eq)]
pub enum ConditionEvent {
    Created(usize),
    Copied(ConditionIndex),
    Deleted(ConditionIndex),
    PatternSet(ConditionIndex, usize),
    DirectionToggled(ConditionIndex, Direction),
    CountUpdated(ConditionIndex, String),
    VariantChanged(ConditionIndex, ConditionVariant),
    OperatorChanged(ConditionIndex),
    Inverted(ConditionIndex),
}

/// No edit except a removal changes which material is the default: the
/// handle at position 0 stays what it was.
pub open spec fn default_material_preserved(old_rs: RulesetV, new_rs: RulesetV) -> bool {
    old_rs.materials.len() > 0 ==> new_rs.materials.len() > 0 && new_rs.materials[0].id
        == old_rs.materials[0].id
}

/// The set of counts named by edited count text: one per digit character,
/// digits above 8 discarded.
pub open spec fn spec_count_set(t: Seq<char>) -> Set<u8> {
    Set::new(
        |v: u8|
            v <= 8 && exists|i: int| 0 <= i < t.len() && spec_digit_val(#[trigger] t[i]) == Some(v),
    )
}

impl Ruleset {
    /// Apply a material-registry event.
    pub fn apply_material_event(&mut self, event: MaterialEvent)
        requires
            old(self)@.materials.len() < u32::MAX as nat,
        ensures
            final(self)@.name == old(self)@.name,
            final(self)@.rules == old(self)@.rules,
            final(self)@.groups == old(self)@.groups,
            !(event is Deleted) ==> default_material_preserved(old(self)@, final(self)@),
            match event {
                MaterialEvent::Created => ({
                    let oldm = old(self)@.materials;
                    let newm = final(self)@.materials;
                    newm.len() == oldm.len() + 1 && (forall|i: int|
                        0 <= i < oldm.len() ==> newm[i] == oldm[i]) && newm.last().name
                        == "Empty"@ && (forall|i: int|
                        0 <= i < oldm.len() ==> oldm[i].id != newm.last().id)
                }),
                MaterialEvent::Renamed(index, name) => {
                    if index < old(self)@.materials.len() {
                        final(self)@.materials == old(self)@.materials.update(
                            index as int,
                            (crate::material::MaterialV {
                                id: old(self)@.materials[index as int].id,
                                name: name@,
                                color: old(self)@.materials[index as int].color,
                            }),
                        )
                    } else {
                        final(self)@.materials == old(self)@.materials
                    }
                },
                MaterialEvent::Recolored(index, text) => {
                    if index < old(self)@.materials.len() && spec_parse_color(text@) is Ok {
                        final(self)@.materials == old(self)@.materials.update(
                            index as int,
                            (crate::material::MaterialV {
                                id: old(self)@.materials[index as int].id,
                                name: old(self)@.materials[index as int].name,
                                color: spec_parse_color(text@).unwrap(),
                            }),
                        )
                    } else {
                        final(self)@.materials == old(self)@.materials
                    }
                },
                MaterialEvent::Deleted(id) => {
                    let k = crate::material::first_index_of(
                        crate::material::material_ids(old(self)@.materials),
                        id@,
                    );
                    if k == -1 || old(self)@.materials.len() == 1 {
                        final(self)@.materials == old(self)@.materials
                    } else {
                        final(self)@.materials == old(self)@.materials.remove(k)
                    }
                },
            },
    {
        match event {
            MaterialEvent::Created => {
                let material = Material::new(self);
                self.materials.push(material);
            },
            MaterialEvent::Renamed(index, name) => {
                self.materials.rename_at(index, name);
            },
            MaterialEvent::Recolored(index, text) => {
                match MaterialColor::parse_hex(text.as_str()) {
                    Ok(color) => {
                        self.materials.recolor_at(index, color);
                    },
                    Err(_) => {
                    },
                }
            },
            MaterialEvent::Deleted(id) => {
                let _ = self.materials.remove(id);
            },
        }
    }

    /// Apply a group event.
    pub fn apply_group_event(&mut self, event: GroupEvent)
        requires
            old(self)@.groups.len() < u32::MAX as nat,
            old(self)@.materials.len() > 0,
        ensures
            final(self)@.name == old(self)@.name,
            final(self)@.rules == old(self)@.rules,
            final(self)@.materials == old(self)@.materials,
            default_material_preserved(old(self)@, final(self)@),
            match event {
                GroupEvent::Created => ({
                    let oldg = old(self)@.groups;
                    let newg = final(self)@.groups;
                    newg.len() == oldg.len() + 1 && (forall|i: int|
                        0 <= i < oldg.len() ==> newg[i] == oldg[i]) && newg.last().name
                        == "New Group"@ && newg.last().members == Seq::<u32>::empty() && (forall|i: int|
                        0 <= i < oldg.len() ==> oldg[i].id != newg.last().id)
                }),
                GroupEvent::Deleted(index) => {
                    if index < old(self)@.groups.len() {
                        final(self)@.groups == old(self)@.groups.remove(index as int)
                    } else {
                        final(self)@.groups == old(self)@.groups
                    }
                },
                GroupEvent::Edited { group_index, entry_index, new_material_index } => {
                    if group_index < old(self)@.groups.len() && new_material_index < old(self)@.materials.len() && entry_index < old(self)@.groups[group_index as int].members.len() {
                        final(self)@.groups == old(self)@.groups.update(
                            group_index as int,
                            (crate::material::GroupV {
                                id: old(self)@.groups[group_index as int].id,
                                name: old(self)@.groups[group_index as int].name,
                                members: old(self)@.groups[group_index as int].members.update(
                                    entry_index as int,
                                    old(self)@.materials[new_material_index as int].id,
                                ),
                            }),
                        )
                    } else {
                        final(self)@.groups == old(self)@.groups
                    }
                },
                GroupEvent::Renamed(index, name) => {
                    if index < old(self)@.groups.len() {
                        final(self)@.groups == old(self)@.groups.update(
                            index as int,
                            (crate::material::GroupV {
                                id: old(self)@.groups[index as int].id,
                                name: name@,
                                members: old(self)@.groups[index as int].members,
                            }),
                        )
                    } else {
                        final(self)@.groups == old(self)@.groups
                    }
                },
                GroupEvent::EntryDeleted { group_index, entry_index } => {
                    if group_index < old(self)@.groups.len() && entry_index < old(self)@.groups[group_index as int].members.len() {
                        final(self)@.groups == old(self)@.groups.update(
                            group_index as int,
                            (crate::material::GroupV {
                                id: old(self)@.groups[group_index as int].id,
                                name: old(self)@.groups[group_index as int].name,
                                members: old(self)@.groups[group_index as int].members.remove(
                                    entry_index as int,
                                ),
                            }),
                        )
                    } else {
                        final(self)@.groups == old(self)@.groups
                    }
                },
                GroupEvent::EntryAdded(group_index) => {
                    if group_index < old(self)@.groups.len() {
                        final(self)@.groups == old(self)@.groups.update(
                            group_index as int,
                            (crate::material::GroupV {
                                id: old(self)@.groups[group_index as int].id,
                                name: old(self)@.groups[group_index as int].name,
                                members: old(self)@.groups[group_index as int].members.push(
                                    old(self)@.materials[0].id,
                                ),
                            }),
                        )
                    } else {
                        final(self)@.groups == old(self)@.groups
                    }
                },
            },
    {
        let ghost oldgroups = self@.groups;
        match event {
            GroupEvent::Created => {
                let group = MaterialGroup::new(self);
                self.groups.push(group);
                proof {
                    assert(self@.groups =~= oldgroups.push(self.groups@.last()@));
                }
            },
            GroupEvent::Deleted(index) => {
                if index < self.groups.len() {
                    self.groups.remove(index);
                    proof {
                        assert(self@.groups =~= oldgroups.remove(index as int));
                    }
                }
            },
            GroupEvent::Edited { group_index, entry_index, new_material_index } => {
                if group_index < self.groups.len() {
                    match self.materials.get_at(new_material_index) {
                        Some(material) => {
                            let id = material.id();
                            let group = &mut self.groups[group_index];
                            group.set_at(entry_index, id);
                            proof {
                                if entry_index < oldgroups[group_index as int].members.len() {
                                    assert(self@.groups =~= oldgroups.update(
                                        group_index as int,
                                        (crate::material::GroupV {
                                            id: oldgroups[group_index as int].id,
                                            name: oldgroups[group_index as int].name,
                                            members: oldgroups[group_index as int].members.update(
                                                entry_index as int,
                                                old(self)@.materials[new_material_index as int].id,
                                            ),
                                        }),
                                    ));
                                } else {
                                    assert(self@.groups =~= oldgroups);
                                }
                            }
                        },
                        None => {
                        },
                    }
                }
            },
            GroupEvent::Renamed(index, name) => {
                if index < self.groups.len() {
                    let ghost gv = self.groups@[index as int]@;
                    let group = &mut self.groups[index];
                    group.name = name;
                    proof {
                        assert(self@.groups =~= oldgroups.update(
                            index as int,
                            (crate::material::GroupV {
                                id: gv.id,
                                name: final(group)@.name,
                                members: gv.members,
                            }),
                        ));
                    }
                }
            },
            GroupEvent::EntryDeleted { group_index, entry_index } => {
                if group_index < self.groups.len() {
                    let group = &mut self.groups[group_index];
                    if entry_index < group.member_count() {
                        group.remove_at(entry_index);
                        proof {
                            assert(self@.groups =~= oldgroups.update(
                                group_index as int,
                                (crate::material::GroupV {
                                    id: oldgroups[group_index as int].id,
                                    name: oldgroups[group_index as int].name,
                                    members: oldgroups[group_index as int].members.remove(
                                        entry_index as int,
                                    ),
                                }),
                            ));
                        }
                    } else {
                        proof {
                            assert(self@.groups =~= oldgroups);
                        }
                    }
                }
            },
            GroupEvent::EntryAdded(group_index) => {
                if group_index < self.groups.len() {
                    let id = self.materials.default().id();
                    let group = &mut self.groups[group_index];
                    group.push(id);
                    proof {
                        assert(self@.groups =~= oldgroups.update(
                            group_index as int,
                            (crate::material::GroupV {
                                id: oldgroups[group_index as int].id,
                                name: oldgroups[group_index as int].name,
                                members: oldgroups[group_index as int].members.push(
                                    old(self)@.materials[0].id,
                                ),
                            }),
                        ));
                    }
                }
            },
        }
    }

    /// Apply a rule event.
    pub fn apply_rule_event(&mut self, event: RuleEvent)
        requires
            old(self)@.materials.len() > 0,
        ensures
            final(self)@.name == old(self)@.name,
            final(self)@.materials == old(self)@.materials,
            final(self)@.groups == old(self)@.groups,
            default_material_preserved(old(self)@, final(self)@),
            match event {
                RuleEvent::Created => final(self)@.rules == old(self)@.rules.push(
                    (RuleV {
                        input: PatternV::Material(old(self)@.materials[0].id),
                        output: old(self)@.materials[0].id,
                        conditions: Seq::<ConditionV>::empty(),
                    }),
                ),
                RuleEvent::Deleted(index) => {
                    if index < old(self)@.rules.len() {
                        final(self)@.rules == old(self)@.rules.remove(index as int)
                    } else {
                        final(self)@.rules == old(self)@.rules
                    }
                },
                RuleEvent::Copied(index) => {
                    if index < old(self)@.rules.len() {
                        final(self)@.rules == old(self)@.rules.insert(
                            index as int,
                            old(self)@.rules[index as int],
                        )
                    } else {
                        final(self)@.rules == old(self)@.rules
                    }
                },
                RuleEvent::OutputSet(rule_index, material_index) => {
                    if rule_index < old(self)@.rules.len() && material_index < old(self)@.materials.len() {
                        final(self)@.rules == old(self)@.rules.update(
                            rule_index as int,
                            (RuleV {
                                input: old(self)@.rules[rule_index as int].input,
                                output: old(self)@.materials[material_index as int].id,
                                conditions: old(self)@.rules[rule_index as int].conditions,
                            }),
                        )
                    } else {
                        final(self)@.rules == old(self)@.rules
                    }
                },
                RuleEvent::InputSet(rule_index, pattern_index) => {
                    if rule_index < old(self)@.rules.len() && pattern_index < old(self)@.materials.len() + old(self)@.groups.len() {
                        final(self)@.rules == old(self)@.rules.update(
                            rule_index as int,
                            (RuleV {
                                input: if pattern_index < old(self)@.materials.len() {
                                    PatternV::Material(
                                        old(self)@.materials[pattern_index as int].id,
                                    )
                                } else {
                                    PatternV::Group(
                                        old(self)@.groups[pattern_index - old(self)@.materials.len()].id,
                                    )
                                },
                                output: old(self)@.rules[rule_index as int].output,
                                conditions: old(self)@.rules[rule_index as int].conditions,
                            }),
                        )
                    } else {
                        final(self)@.rules == old(self)@.rules
                    }
                },
            },
    {
        let ghost oldrules = self@.rules;
        match event {
            RuleEvent::Created => {
                let rule = Rule::new(self);
                self.rules.push(rule);
                proof {
                    assert(self@.rules =~= oldrules.push(self.rules@.last()@));
                    assert(self.rules@.last()@.conditions =~= Seq::<ConditionV>::empty());
                }
            },
            RuleEvent::Deleted(index) => {
                if index < self.rules.len() {
                    self.rules.remove(index);
                    proof {
                        assert(self@.rules =~= oldrules.remove(index as int));
                    }
                }
            },
            RuleEvent::Copied(index) => {
                if index < self.rules.len() {
                    let copy = self.rules[index].clone();
                    self.rules.insert(index, copy);
                    proof {
                        assert(self@.rules =~= oldrules.insert(
                            index as int,
                            oldrules[index as int],
                        ));
                    }
                }
            },
            RuleEvent::OutputSet(rule_index, material_index) => {
                if rule_index < self.rules.len() {
                    match self.materials.get_at(material_index) {
                        Some(material) => {
                            let id = material.id();
                            let rule = &mut self.rules[rule_index];
                            rule.output = id;
                            proof {
                                assert(self@.rules =~= oldrules.update(
                                    rule_index as int,
                                    (RuleV {
                                        input: oldrules[rule_index as int].input,
                                        output: old(self)@.materials[material_index as int].id,
                                        conditions: oldrules[rule_index as int].conditions,
                                    }),
                                ));
                            }
                        },
                        None => {
                        },
                    }
                }
            },
            RuleEvent::InputSet(rule_index, pattern_index) => {
                if rule_index < self.rules.len() {
                    match Pattern::from_index(self, pattern_index) {
                        Some(pattern) => {
                            let rule = &mut self.rules[rule_index];
                            rule.input = pattern;
                            proof {
                                assert(self@.rules =~= oldrules.update(
                                    rule_index as int,
                                    (RuleV {
                                        input: final(rule)@.input,
                                        output: oldrules[rule_index as int].output,
                                        conditions: oldrules[rule_index as int].conditions,
                                    }),
                                ));
                            }
                        },
                        None => {
                        },
                    }
                }
            },
        }
    }
}

impl Ruleset {
    /// Apply a condition event.
    pub fn apply_condition_event(&mut self, event: ConditionEvent)
        requires
            old(self)@.materials.len() > 0,
        ensures
            final(self)@.name == old(self)@.name,
            final(self)@.materials == old(self)@.materials,
            final(self)@.groups == old(self)@.groups,
            default_material_preserved(old(self)@, final(self)@),
            final(self)@.rules.len() == old(self)@.rules.len(),
            match event {
                ConditionEvent::Created(rule_index) => {
                    if rule_index < old(self)@.rules.len() {
                        final(self)@.rules == old(self)@.rules.update(
                            rule_index as int,
                            (RuleV {
                                input: old(self)@.rules[rule_index as int].input,
                                output: old(self)@.rules[rule_index as int].output,
                                conditions: old(self)@.rules[rule_index as int].conditions.push(
                                    (ConditionV {
                                        variant: ConditionVariantV::Count(
                                            OperatorV::List(seq![0u8]),
                                        ),
                                        pattern: PatternV::Material(old(self)@.materials[0].id),
                                        inverted: false,
                                    }),
                                ),
                            }),
                        )
                    } else {
                        final(self)@.rules == old(self)@.rules
                    }
                },
                ConditionEvent::Copied(index) => {
                    let ri = index.rule_index as int;
                    let ci = index.condition_index as int;
                    if ri < old(self)@.rules.len() && ci < old(self)@.rules[ri].conditions.len() {
                        final(self)@.rules == old(self)@.rules.update(
                            ri,
                            (RuleV {
                                input: old(self)@.rules[ri].input,
                                output: old(self)@.rules[ri].output,
                                conditions: old(self)@.rules[ri].conditions.insert(
                                    ci,
                                    old(self)@.rules[ri].conditions[ci],
                                ),
                            }),
                        )
                    } else {
                        final(self)@.rules == old(self)@.rules
                    }
                },
                ConditionEvent::Deleted(index) => {
                    let ri = index.rule_index as int;
                    let ci = index.condition_index as int;
                    if ri < old(self)@.rules.len() && ci < old(self)@.rules[ri].conditions.len() {
                        final(self)@.rules == old(self)@.rules.update(
                            ri,
                            (RuleV {
                                input: old(self)@.rules[ri].input,
                                output: old(self)@.rules[ri].output,
                                conditions: old(self)@.rules[ri].conditions.remove(ci),
                            }),
                        )
                    } else {
                        final(self)@.rules == old(self)@.rules
                    }
                },
                ConditionEvent::PatternSet(index, pattern_index) => {
                    let ri = index.rule_index as int;
                    let ci = index.condition_index as int;
                    if ri < old(self)@.rules.len() && ci < old(self)@.rules[ri].conditions.len()
                        && pattern_index < old(self)@.materials.len() + old(self)@.groups.len() {
                        final(self)@.rules == old(self)@.rules.update(
                            ri,
                            (RuleV {
                                input: old(self)@.rules[ri].input,
                                output: old(self)@.rules[ri].output,
                                conditions: old(self)@.rules[ri].conditions.update(
                                    ci,
                                    (ConditionV {
                                        variant: old(self)@.rules[ri].conditions[ci].variant,
                                        pattern: if pattern_index < old(self)@.materials.len() {
                                            PatternV::Material(
                                                old(self)@.materials[pattern_index as int].id,
                                            )
                                        } else {
                                            PatternV::Group(
                                                old(self)@.groups[pattern_index - old(self)@.materials.len()].id,
                                            )
                                        },
                                        inverted: old(self)@.rules[ri].conditions[ci].inverted,
                                    }),
                                ),
                            }),
                        )
                    } else {
                        final(self)@.rules == old(self)@.rules
                    }
                },
                ConditionEvent::DirectionToggled(index, direction) => ({
                    let ri = index.rule_index as int;
                    let ci = index.condition_index as int;
                    if ri < old(self)@.rules.len() && ci < old(self)@.rules[ri].conditions.len() {
                        let oldc = old(self)@.rules[ri].conditions[ci];
                        let newc = final(self)@.rules[ri].conditions[ci];
                        toggle_relation(oldc.variant, newc.variant, direction) && newc.pattern
                            == oldc.pattern && newc.inverted == oldc.inverted && final(self)@.rules == old(self)@.rules.update(
                            ri,
                            (RuleV {
                                input: old(self)@.rules[ri].input,
                                output: old(self)@.rules[ri].output,
                                conditions: old(self)@.rules[ri].conditions.update(ci, newc),
                            }),
                        )
                    } else {
                        final(self)@.rules == old(self)@.rules
                    }
                }),
                ConditionEvent::CountUpdated(index, text) => ({
                    let ri = index.rule_index as int;
                    let ci = index.condition_index as int;
                    if ri < old(self)@.rules.len() && ci < old(self)@.rules[ri].conditions.len() {
                        let oldc = old(self)@.rules[ri].conditions[ci];
                        let newc = final(self)@.rules[ri].conditions[ci];
                        match oldc.variant {
                            ConditionVariantV::Directional(_) => final(self)@.rules == old(
                                self,
                            )@.rules,
                            ConditionVariantV::Count(op) => (newc.variant matches
                            ConditionVariantV::Count(newop) && count_edit_relation(
                                op,
                                newop,
                                spec_count_set(text@),
                            )) && newc.pattern == oldc.pattern && newc.inverted == oldc.inverted
                                && final(self)@.rules == old(self)@.rules.update(
                                ri,
                                (RuleV {
                                    input: old(self)@.rules[ri].input,
                                    output: old(self)@.rules[ri].output,
                                    conditions: old(self)@.rules[ri].conditions.update(ci, newc),
                                }),
                            ),
                        }
                    } else {
                        final(self)@.rules == old(self)@.rules
                    }
                }),
                ConditionEvent::VariantChanged(index, variant) => {
                    let ri = index.rule_index as int;
                    let ci = index.condition_index as int;
                    if ri < old(self)@.rules.len() && ci < old(self)@.rules[ri].conditions.len() {
                        final(self)@.rules == old(self)@.rules.update(
                            ri,
                            (RuleV {
                                input: old(self)@.rules[ri].input,
                                output: old(self)@.rules[ri].output,
                                conditions: old(self)@.rules[ri].conditions.update(
                                    ci,
                                    (ConditionV {
                                        variant: variant@,
                                        pattern: old(self)@.rules[ri].conditions[ci].pattern,
                                        inverted: old(self)@.rules[ri].conditions[ci].inverted,
                                    }),
                                ),
                            }),
                        )
                    } else {
                        final(self)@.rules == old(self)@.rules
                    }
                },
                ConditionEvent::OperatorChanged(index) => {
                    let ri = index.rule_index as int;
                    let ci = index.condition_index as int;
                    if ri < old(self)@.rules.len() && ci < old(self)@.rules[ri].conditions.len() {
                        match old(self)@.rules[ri].conditions[ci].variant {
                            ConditionVariantV::Directional(_) => final(self)@.rules == old(self)@.rules,
                            ConditionVariantV::Count(op) => final(self)@.rules == old(self)@.rules.update(
                                ri,
                                (RuleV {
                                    input: old(self)@.rules[ri].input,
                                    output: old(self)@.rules[ri].output,
                                    conditions: old(self)@.rules[ri].conditions.update(
                                        ci,
                                        (ConditionV {
                                            variant: ConditionVariantV::Count(
                                                match op {
                                                    OperatorV::List(vs) => OperatorV::Greater(
                                                        if vs.len() > 0 {
                                                            vs[0]
                                                        } else {
                                                            0u8
                                                        },
                                                    ),
                                                    OperatorV::Greater(b) => OperatorV::Less(b),
                                                    OperatorV::Less(b) => OperatorV::List(
                                                        seq![b],
                                                    ),
                                                },
                                            ),
                                            pattern: old(self)@.rules[ri].conditions[ci].pattern,
                                            inverted: old(self)@.rules[ri].conditions[ci].inverted,
                                        }),
                                    ),
                                }),
                            ),
                        }
                    } else {
                        final(self)@.rules == old(self)@.rules
                    }
                },
                ConditionEvent::Inverted(index) => {
                    let ri = index.rule_index as int;
                    let ci = index.condition_index as int;
                    if ri < old(self)@.rules.len() && ci < old(self)@.rules[ri].conditions.len() {
                        final(self)@.rules == old(self)@.rules.update(
                            ri,
                            (RuleV {
                                input: old(self)@.rules[ri].input,
                                output: old(self)@.rules[ri].output,
                                conditions: old(self)@.rules[ri].conditions.update(
                                    ci,
                                    (ConditionV {
                                        variant: old(self)@.rules[ri].conditions[ci].variant,
                                        pattern: old(self)@.rules[ri].conditions[ci].pattern,
                                        inverted: !old(self)@.rules[ri].conditions[ci].inverted,
                                    }),
                                ),
                            }),
                        )
                    } else {
                        final(self)@.rules == old(self)@.rules
                    }
                },
            },
    {
        let ghost oldrules = self@.rules;
        match event {
            ConditionEvent::Created(rule_index) => {
                if rule_index < self.rules.len() {
                    let condition = Condition::new(self);
                    let ghost cv = condition@;
                    let rule = &mut self.rules[rule_index];
                    rule.conditions.push(condition);
                    proof {
                        assert(cv == (ConditionV {
                            variant: ConditionVariantV::Count(OperatorV::List(seq![0u8])),
                            pattern: PatternV::Material(old(self)@.materials[0].id),
                            inverted: false,
                        }));
                        assert(rule@.conditions =~= oldrules[rule_index as int].conditions.push(
                            cv,
                        ));
                        assert(self@.rules =~= oldrules.update(rule_index as int, rule@));
                    }
                }
            },
            ConditionEvent::Copied(index) => {
                let (ri, ci) = index.values();
                if ri < self.rules.len() {
                    let rule = &mut self.rules[ri];
                    if ci < rule.conditions.len() {
                        let copy = rule.conditions[ci].clone();
                        rule.conditions.insert(ci, copy);
                        proof {
                            assert(final(rule)@.conditions =~= oldrules[ri as int].conditions
                                .insert(ci as int, oldrules[ri as int].conditions[ci as int]));
                            assert(self@.rules =~= oldrules.update(ri as int, final(rule)@));
                        }
                    } else {
                        proof {
                            assert(self@.rules =~= oldrules);
                        }
                    }
                }
            },
            ConditionEvent::Deleted(index) => {
                let (ri, ci) = index.values();
                if ri < self.rules.len() {
                    let rule = &mut self.rules[ri];
                    if ci < rule.conditions.len() {
                        rule.conditions.remove(ci);
                        proof {
                            assert(final(rule)@.conditions =~= oldrules[ri as int].conditions
                                .remove(ci as int));
                            assert(self@.rules =~= oldrules.update(ri as int, final(rule)@));
                        }
                    } else {
                        proof {
                            assert(self@.rules =~= oldrules);
                        }
                    }
                }
            },
            ConditionEvent::PatternSet(index, pattern_index) => {
                let (ri, ci) = index.values();
                if ri < self.rules.len() {
                    match Pattern::from_index(self, pattern_index) {
                        Some(pattern) => {
                            let rule = &mut self.rules[ri];
                            if ci < rule.conditions.len() {
                                let condition = &mut rule.conditions[ci];
                                condition.pattern = pattern;
                                proof {
                                    assert(final(rule)@.conditions =~= oldrules[ri as int]
                                        .conditions.update(ci as int, final(condition)@));
                                    assert(self@.rules =~= oldrules.update(
                                        ri as int,
                                        final(rule)@,
                                    ));
                                }
                            } else {
                                proof {
                                    assert(self@.rules =~= oldrules);
                                }
                            }
                        },
                        None => {
                        },
                    }
                }
            },
            ConditionEvent::DirectionToggled(index, direction) => {
                let (ri, ci) = index.values();
                if ri < self.rules.len() {
                    let rule = &mut self.rules[ri];
                    if ci < rule.conditions.len() {
                        let condition = &mut rule.conditions[ci];
                        condition.variant.toggle_direction(direction);
                        proof {
                            assert(final(rule)@.conditions =~= oldrules[ri as int].conditions
                                .update(ci as int, final(condition)@));
                            assert(self@.rules =~= oldrules.update(ri as int, final(rule)@));
                        }
                    } else {
                        proof {
                            assert(self@.rules =~= oldrules);
                        }
                    }
                }
            },
            ConditionEvent::CountUpdated(index, text) => {
                let (ri, ci) = index.values();
                if ri < self.rules.len() {
                    let rule = &mut self.rules[ri];
                    if ci < rule.conditions.len() {
                        let is_count = match &rule.conditions[ci].variant {
                            ConditionVariant::Count(_) => true,
                            ConditionVariant::Directional(_) => false,
                        };
                        if is_count {
                            let elements = crate::condition::parse_count_text(text.as_str());
                            let ghost es = elements@;
                            let ghost cs = spec_count_set(text@);
                            let condition = &mut rule.conditions[ci];
                            let ghost oldop = condition@.variant->Count_0;
                            let new_op = match &condition.variant {
                                ConditionVariant::Count(op) => op.with_elements(elements),
                                ConditionVariant::Directional(_) => Operator::Greater(0),
                            };
                            let ghost newop = new_op@;
                            condition.variant = ConditionVariant::Count(new_op);
                            proof {
                                assert(forall|v: u8| es.contains(v) ==> v <= 8);
                                assert(forall|v: u8| #[trigger] es.contains(v) <==> cs.contains(v));
                                match oldop {
                                    OperatorV::List(_) => {
                                        let vs = newop->List_0;
                                        assert(forall|v: u8|
                                            #[trigger] vs.contains(v) <==> cs.contains(v));
                                    },
                                    OperatorV::Greater(_) => {
                                        let m = newop->Greater_0;
                                        if forall|v: u8| !(#[trigger] cs.contains(v)) {
                                            if es.len() > 0 {
                                                assert(es.contains(es[0]));
                                                assert(false);
                                            }
                                        }
                                        if exists|v: u8| #[trigger] cs.contains(v) {
                                            let w = choose|v: u8| #[trigger] cs.contains(v);
                                            assert(es.contains(w));
                                            assert(es.len() > 0);
                                            assert(cs.contains(m));
                                            assert forall|v: u8|
                                                #[trigger] cs.contains(v) implies m <= v by {
                                                assert(es.contains(v));
                                                let i = choose|i: int|
                                                    0 <= i < es.len() && es[i] == v;
                                                assert(m <= es[i]);
                                            }
                                        }
                                    },
                                    OperatorV::Less(_) => {
                                        let m = newop->Less_0;
                                        if forall|v: u8| !(#[trigger] cs.contains(v)) {
                                            if es.len() > 0 {
                                                assert(es.contains(es[0]));
                                                assert(false);
                                            }
                                        }
                                        if exists|v: u8| #[trigger] cs.contains(v) {
                                            let w = choose|v: u8| #[trigger] cs.contains(v);
                                            assert(es.contains(w));
                                            assert(es.len() > 0);
                                            assert(cs.contains(m));
                                            assert forall|v: u8|
                                                #[trigger] cs.contains(v) implies m >= v by {
                                                assert(es.contains(v));
                                                let i = choose|i: int|
                                                    0 <= i < es.len() && es[i] == v;
                                                assert(m >= es[i]);
                                            }
                                        }
                                    },
                                }
                                assert(count_edit_relation(oldop, newop, cs));
                                assert(final(rule)@.conditions =~= oldrules[ri as int].conditions
                                    .update(ci as int, final(condition)@));
                                assert(self@.rules =~= oldrules.update(
                                    ri as int,
                                    final(rule)@,
                                ));
                            }
                        } else {
                            proof {
                                assert(self@.rules =~= oldrules);
                            }
                        }
                    } else {
                        proof {
                            assert(self@.rules =~= oldrules);
                        }
                    }
                }
            },
            ConditionEvent::VariantChanged(index, variant) => {
                let (ri, ci) = index.values();
                if ri < self.rules.len() {
                    let rule = &mut self.rules[ri];
                    if ci < rule.conditions.len() {
                        let condition = &mut rule.conditions[ci];
                        condition.variant = variant;
                        proof {
                            assert(final(rule)@.conditions =~= oldrules[ri as int].conditions
                                .update(ci as int, final(condition)@));
                            assert(self@.rules =~= oldrules.update(ri as int, final(rule)@));
                        }
                    } else {
                        proof {
                            assert(self@.rules =~= oldrules);
                        }
                    }
                }
            },
            ConditionEvent::OperatorChanged(index) => {
                let (ri, ci) = index.values();
                if ri < self.rules.len() {
                    let rule = &mut self.rules[ri];
                    if ci < rule.conditions.len() {
                        let is_count = match &rule.conditions[ci].variant {
                            ConditionVariant::Count(_) => true,
                            ConditionVariant::Directional(_) => false,
                        };
                        if is_count {
                            let condition = &mut rule.conditions[ci];
                            let new_op = match &condition.variant {
                                ConditionVariant::Count(op) => op.cycled(),
                                ConditionVariant::Directional(_) => Operator::Greater(0),
                            };
                            condition.variant = ConditionVariant::Count(new_op);
                            proof {
                                assert(final(rule)@.conditions =~= oldrules[ri as int].conditions
                                    .update(ci as int, final(condition)@));
                                assert(self@.rules =~= oldrules.update(
                                    ri as int,
                                    final(rule)@,
                                ));
                            }
                        } else {
                            proof {
                                assert(self@.rules =~= oldrules);
                            }
                        }
                    } else {
                        proof {
                            assert(self@.rules =~= oldrules);
                        }
                    }
                }
            },
            ConditionEvent::Inverted(index) => {
                let (ri, ci) = index.values();
                if ri < self.rules.len() {
                    let rule = &mut self.rules[ri];
                    if ci < rule.conditions.len() {
                        let condition = &mut rule.conditions[ci];
                        condition.inverted = !condition.inverted;
                        proof {
                            assert(final(rule)@.conditions =~= oldrules[ri as int].conditions
                                .update(ci as int, final(condition)@));
                            assert(self@.rules =~= oldrules.update(ri as int, final(rule)@));
                        }
                    } else {
                        proof {
                            assert(self@.rules =~= oldrules);
                        }
                    }
                }
            },
        }
    }
}

} // verus!
