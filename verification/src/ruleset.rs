//! Rule sets: a name, the material registry, the groups, and the ordered
//! rules; and the rules themselves.
//!
//! A rule rewrites a matching cell to its output material when all its
//! conditions hold for the cell's neighborhood. Rules are tried in order;
//! the first match wins.

use crate::condition::{spec_condition_matches, Condition, ConditionV};
use crate::grid::{Cell, Grid};
use crate::id::Identifiable;
use crate::material::{
    first_index_of, GroupId, GroupV, Material, MaterialGroup, MaterialId, MaterialMap, MaterialV,
};
use crate::pattern::{spec_pattern_matches, Pattern, PatternV};
use vstd::prelude::*;

verus! {

/// Mathematical value of a rule.
pub ghost struct RuleV {
    pub input: PatternV,
    pub output: u32,
    pub conditions: Seq<ConditionV>,
}

/// Mathematical value of a rule set.
pub ghost struct RulesetV {
    pub name: Seq<char>,
    pub rules: Seq<RuleV>,
    pub materials: Seq<MaterialV>,
    pub groups: Seq<GroupV>,
}

/// The handle values of a group sequence, in order.
pub open spec fn group_ids(groups: Seq<GroupV>) -> Seq<u32> {
    groups.map_values(|g: GroupV| g.id)
}

/// What a rule yields on a cell with the given neighborhood: the output
/// material if the input pattern matches the cell and every condition
/// holds, nothing otherwise.
pub open spec fn spec_rule_transformed(
    r: RuleV,
    rs: RulesetV,
    cell_mat: u32,
    nbrs: Seq<Option<u32>>,
) -> Option<u32> {
    if spec_pattern_matches(r.input, rs, cell_mat) && (forall|i: int|
        0 <= i < r.conditions.len() ==> spec_condition_matches(#[trigger] r.conditions[i], nbrs, rs))
     {
        Some(r.output)
    } else {
        None
    }
}

/// The material a cell holds after one generation: what the first matching
/// rule yields, or the old material when no rule matches.
pub open spec fn spec_step_cell(
    rules: Seq<RuleV>,
    rs: RulesetV,
    cell_mat: u32,
    nbrs: Seq<Option<u32>>,
) -> u32
    decreases rules.len(),
{
    if rules.len() == 0 {
        cell_mat
    } else {
        match spec_rule_transformed(rules[0], rs, cell_mat, nbrs) {
            Some(out) => out,
            None => spec_step_cell(rules.drop_first(), rs, cell_mat, nbrs),
        }
    }
}

/// Input pattern, output material, and the guarding conditions, in order.
#[derive(Debug, PartialEq, Eq)]
pub struct Rule {
    pub input: Pattern,
    pub output: MaterialId,
    pub conditions: Vec<Condition>,
}

impl View for Rule {
    type V = RuleV;

    open spec fn view(&self) -> RuleV {
        RuleV {
            input: self.input@,
            output: self.output@,
            conditions: self.conditions@.map_values(|c: Condition| c@),
        }
    }
}

impl Clone for Rule {
    fn clone(&self) -> (r: Self)
        ensures
            r@ == self@,
    {
        let mut conditions: Vec<Condition> = Vec::new();
        let mut k: usize = 0;
        while k < self.conditions.len()
            invariant
                0 <= k <= self.conditions@.len(),
                conditions@.len() == k,
                forall|i: int| 0 <= i < k ==> conditions@[i]@ == self.conditions@[i]@,
            decreases self.conditions@.len() - k,
        {
            conditions.push(self.conditions[k].clone());
            k = k + 1;
        }
        let r = Rule { input: self.input, output: self.output, conditions };
        proof {
            assert(r@.conditions =~= self@.conditions);
        }
        r
    }
}

impl Rule {
    /// A new rule rewriting the default material to itself, with no
    /// conditions.
    pub fn new(ruleset: &Ruleset) -> (r: Self)
        requires
            ruleset@.materials.len() > 0,
        ensures
            r@.input == PatternV::Material(ruleset@.materials[0].id),
            r@.output == ruleset@.materials[0].id,
            r@.conditions == Seq::<ConditionV>::empty(),
    {
        let default_id = ruleset.materials.default().id();
        let r = Rule {
            input: Pattern::Material(default_id),
            output: default_id,
            conditions: Vec::new(),
        };
        proof {
            assert(r@.conditions =~= Seq::<ConditionV>::empty());
        }
        r
    }

    /// What this rule yields for the cell at `index`: the output material
    /// if the input pattern matches the cell and every condition holds for
    /// the cell's neighborhood, nothing otherwise.
    pub fn transformed(&self, grid: &Grid, cell: Cell, index: usize) -> (r: Option<Cell>)
        requires
            grid.wf(),
            grid.size > 0,
            index < grid.spec_cells().len(),
        ensures
            match r {
                Some(c) => spec_rule_transformed(
                    self@,
                    grid.ruleset@,
                    cell@,
                    grid.spec_neighbors(index as int),
                ) == Some(c@),
                None => spec_rule_transformed(
                    self@,
                    grid.ruleset@,
                    cell@,
                    grid.spec_neighbors(index as int),
                ) is None,
            },
    {
        if !self.input.matches(&grid.ruleset, cell) {
            return None;
        }
        let neighbors = grid.neighbors(index);
        let n = self.conditions.len();
        let mut k: usize = 0;
        while k < n
            invariant
                n == self.conditions@.len(),
                0 <= k <= n,
                grid.wf(),
                grid.size > 0,
                index < grid.spec_cells().len(),
                neighbors@ == grid.spec_neighbors(index as int),
                forall|i: int|
                    0 <= i < k ==> spec_condition_matches(
                        #[trigger] self@.conditions[i],
                        neighbors@,
                        grid.ruleset@,
                    ),
            decreases n - k,
        {
            if !self.conditions[k].matches(neighbors, &grid.ruleset) {
                assert(!spec_condition_matches(
                    self@.conditions[k as int],
                    neighbors@,
                    grid.ruleset@,
                ));
                return None;
            }
            k = k + 1;
        }
        Some(Cell::new(self.output))
    }
}

/// The complete, serializable definition of materials, groups and rules
/// under a name.
#[derive(Debug, PartialEq, Eq)]
pub struct Ruleset {
    pub name: String,
    pub rules: Vec<Rule>,
    pub materials: MaterialMap,
    pub groups: Vec<MaterialGroup>,
}

impl View for Ruleset {
    type V = RulesetV;

    open spec fn view(&self) -> RulesetV {
        RulesetV {
            name: self.name@,
            rules: self.rules@.map_values(|r: Rule| r@),
            materials: self.materials@,
            groups: self.groups@.map_values(|g: MaterialGroup| g@),
        }
    }
}

impl Clone for Ruleset {
    fn clone(&self) -> (r: Self)
        ensures
            r@ == self@,
    {
        let mut rules: Vec<Rule> = Vec::new();
        let mut k: usize = 0;
        while k < self.rules.len()
            invariant
                0 <= k <= self.rules@.len(),
                rules@.len() == k,
                forall|i: int| 0 <= i < k ==> rules@[i]@ == self.rules@[i]@,
            decreases self.rules@.len() - k,
        {
            rules.push(self.rules[k].clone());
            k = k + 1;
        }
        let mut groups: Vec<MaterialGroup> = Vec::new();
        let mut k2: usize = 0;
        while k2 < self.groups.len()
            invariant
                0 <= k2 <= self.groups@.len(),
                groups@.len() == k2,
                forall|i: int| 0 <= i < k2 ==> groups@[i]@ == self.groups@[i]@,
            decreases self.groups@.len() - k2,
        {
            groups.push(self.groups[k2].clone());
            k2 = k2 + 1;
        }
        let r = Ruleset {
            name: self.name.clone(),
            rules,
            materials: self.materials.clone(),
            groups,
        };
        proof {
            assert(r@.rules =~= self@.rules);
            assert(r@.groups =~= self@.groups);
        }
        r
    }
}

impl Ruleset {
    /// A fresh rule set named "New Ruleset": one default material, no
    /// rules, no groups.
    pub fn new() -> (r: Self)
        ensures
            r@.name == "New Ruleset"@,
            r@.rules == Seq::<RuleV>::empty(),
            r@.groups == Seq::<GroupV>::empty(),
            r@.materials.len() == 1,
            r@.materials[0].name == "Empty"@,
            r@.materials[0].color == (crate::material::MaterialColor { r: 0u8, g: 0u8, b: 0u8 }),
    {
        let r = Ruleset {
            name: String::from_str("New Ruleset"),
            rules: Vec::new(),
            materials: MaterialMap::new(Material::default()),
            groups: Vec::new(),
        };
        proof {
            assert(r@.rules =~= Seq::<RuleV>::empty());
            assert(r@.groups =~= Seq::<GroupV>::empty());
        }
        r
    }

    /// The built-in "Blank" rule set: one white material, no rules, no
    /// groups.
    pub fn blank() -> (r: Self)
        ensures
            r@.name == "Blank"@,
            r@.rules == Seq::<RuleV>::empty(),
            r@.groups == Seq::<GroupV>::empty(),
            r@.materials.len() == 1,
            r@.materials[0].name == "Blank"@,
            r@.materials[0].color == (crate::material::MaterialColor {
                r: 255u8,
                g: 255u8,
                b: 255u8,
            }),
    {
        let r = Ruleset {
            name: String::from_str("Blank"),
            rules: Vec::new(),
            materials: MaterialMap::new(Material::blank()),
            groups: Vec::new(),
        };
        proof {
            assert(r@.rules =~= Seq::<RuleV>::empty());
            assert(r@.groups =~= Seq::<GroupV>::empty());
        }
        r
    }

    /// First group carrying the handle, if any.
    pub fn group(&self, id: GroupId) -> (r: Option<&MaterialGroup>)
        ensures
            match r {
                Some(g) => {
                    let k = first_index_of(group_ids(self@.groups), id@);
                    0 <= k < self@.groups.len() && g@ == self@.groups[k]
                },
                None => first_index_of(group_ids(self@.groups), id@) == -1,
            },
    {
        let n = self.groups.len();
        let mut k: usize = 0;
        while k < n
            invariant
                n == self@.groups.len(),
                0 <= k <= n,
                forall|j: int| 0 <= j < k ==> group_ids(self@.groups)[j] != id@,
            decreases n - k,
        {
            if self.groups[k].id().get() == id.get() {
                proof {
                    crate::material::lemma_first_index_at(group_ids(self@.groups), id@, k as int);
                }
                return Some(&self.groups[k]);
            }
            k = k + 1;
        }
        proof {
            crate::material::lemma_first_index(group_ids(self@.groups), id@);
        }
        None
    }

    /// Position of the first group carrying the handle, if any.
    pub fn index_of_group(&self, id: GroupId) -> (r: Option<usize>)
        ensures
            match r {
                Some(k) => first_index_of(group_ids(self@.groups), id@) == k as int,
                None => first_index_of(group_ids(self@.groups), id@) == -1,
            },
    {
        let n = self.groups.len();
        let mut k: usize = 0;
        while k < n
            invariant
                n == self@.groups.len(),
                0 <= k <= n,
                forall|j: int| 0 <= j < k ==> group_ids(self@.groups)[j] != id@,
            decreases n - k,
        {
            if self.groups[k].id().get() == id.get() {
                proof {
                    crate::material::lemma_first_index_at(group_ids(self@.groups), id@, k as int);
                }
                return Some(k);
            }
            k = k + 1;
        }
        proof {
            crate::material::lemma_first_index(group_ids(self@.groups), id@);
        }
        None
    }

    /// The group at the position, if it exists.
    pub fn group_at(&self, index: usize) -> (r: Option<&MaterialGroup>)
        ensures
            match r {
                Some(g) => index < self@.groups.len() && g@ == self@.groups[index as int],
                None => index >= self@.groups.len(),
            },
    {
        if index < self.groups.len() {
            Some(&self.groups[index])
        } else {
            None
        }
    }

    /// The display names behind `Pattern::from_index`: material names
    /// first, then group names prefixed with `#`, in positional order.
    pub fn pattern_values(&self) -> (r: Vec<String>)
        ensures
            r@.len() == self@.materials.len() + self@.groups.len(),
            forall|i: int| 0 <= i < self@.materials.len() ==> r@[i]@ == self@.materials[i].name,
            forall|j: int|
                0 <= j < self@.groups.len() ==> r@[self@.materials.len() + j]@ == seq!['#']
                    + self@.groups[j].name,
    {
        let mut out = self.materials.names();
        let n = self.groups.len();
        let ghost m = self@.materials.len();
        let mut k: usize = 0;
        while k < n
            invariant
                n == self@.groups.len(),
                0 <= k <= n,
                m == self@.materials.len(),
                out@.len() == m + k,
                forall|i: int| 0 <= i < m ==> out@[i]@ == self@.materials[i].name,
                forall|j: int| 0 <= j < k ==> out@[m + j]@ == seq!['#'] + self@.groups[j].name,
            decreases n - k,
        {
            let mut entry = String::from_str("#");
            entry.append(self.groups[k].name.as_str());
            proof {
                reveal_strlit("#");
                assert(entry@ =~= seq!['#'] + self@.groups[k as int].name);
            }
            out.push(entry);
            k = k + 1;
        }
        out
    }
}

impl Default for Ruleset {
    /// Same as a fresh "New Ruleset".
    fn default() -> (r: Self)
        ensures
            r@.name == "New Ruleset"@,
            r@.rules == Seq::<RuleV>::empty(),
            r@.groups == Seq::<GroupV>::empty(),
            r@.materials.len() == 1,
    {
        Ruleset::new()
    }
}

} // verus!
