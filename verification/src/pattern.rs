//! Patterns: predicates on a single cell.
//!
//! A pattern either names one material, which matches a cell holding
//! exactly that material, or names a group, which matches a cell whose
//! material is among the group's members. A group handle that does not
//! resolve in the rule set never matches.

use crate::grid::Cell;
use crate::id::Identifiable;
use crate::material::{first_index_of, GroupId, MaterialId};
use crate::ruleset::{group_ids, Ruleset, RulesetV};
use vstd::prelude::*;

verus! {

/// Mathematical value of a pattern, over raw handle values.
pub ghost enum PatternV {
    Material(u32),
    Group(u32),
}

/// Position of the first group with the handle, or -1.
pub open spec fn spec_group_find(rs: RulesetV, id: u32) -> int {
    first_index_of(group_ids(rs.groups), id)
}

/// Whether a pattern matches a cell holding material `cell_mat`, per the
/// rule set `rs`: a material pattern compares handles, a group pattern
/// requires the group to resolve and the material to be among its members.
pub open spec fn spec_pattern_matches(p: PatternV, rs: RulesetV, cell_mat: u32) -> bool {
    match p {
        PatternV::Material(id) => id == cell_mat,
        PatternV::Group(id) => {
            let k = spec_group_find(rs, id);
            k != -1 && rs.groups[k].members.contains(cell_mat)
        },
    }
}

/// Predicate on a single cell: a material to equal, or a group to belong to.
#[derive(Debug, Clone, Copy, PartialEq, Eq)]
pub enum Pattern {
    Material(MaterialId),
    Group(GroupId),
}

impl View for Pattern {
    type V = PatternV;

    open spec fn view(&self) -> PatternV {
        match *self {
            Pattern::Material(id) => PatternV::Material(id@),
            Pattern::Group(id) => PatternV::Group(id@),
        }
    }
}

impl Pattern {
    /// Whether this pattern matches the cell, per the rule set.
    pub fn matches(self, ruleset: &Ruleset, target: Cell) -> (r: bool)
        ensures
            r == spec_pattern_matches(self@, ruleset@, target@),
    {
        match self {
            Pattern::Material(id) => id.get() == target.material_id.get(),
            Pattern::Group(id) => match ruleset.group(id) {
                Some(group) => group.contains(target.material_id),
                None => false,
            },
        }
    }

    /// Decode a position in the concatenation `materials ++ groups` back to
    /// a pattern: material positions come first, group positions after.
    /// This is the inverse of the position assignment of `pattern_values`.
    pub fn from_index(ruleset: &Ruleset, index: usize) -> (r: Option<Self>)
        ensures
            match r {
                Some(p) => index < ruleset@.materials.len() + ruleset@.groups.len() && p@ == (
                if index < ruleset@.materials.len() {
                    PatternV::Material(ruleset@.materials[index as int].id)
                } else {
                    PatternV::Group(ruleset@.groups[index - ruleset@.materials.len()].id)
                }),
                None => index >= ruleset@.materials.len() + ruleset@.groups.len(),
            },
    {
        let m = ruleset.materials.len();
        match ruleset.materials.get_at(index) {
            Some(material) => Some(Pattern::Material(material.id())),
            None => {
                let group_index = index - m;
                match ruleset.group_at(group_index) {
                    Some(group) => Some(Pattern::Group(group.id())),
                    None => None,
                }
            },
        }
    }
}

} // verus!
