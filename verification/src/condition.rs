//! Conditions: predicates on a cell's 8-neighborhood.
//!
//! A condition holds a pattern and either a set of directions (match if any
//! listed neighbor exists and matches the pattern) or a count operator
//! (match if the number of matching neighbors satisfies the operator). The
//! effective result is the raw match XOR the `inverted` flag, except that
//! an empty direction list never matches, inverted or not.

use crate::grid::{spec_count_matching, spec_dir_index, CellNeighbors};
use crate::id::Identifiable;
use crate::pattern::{spec_pattern_matches, Pattern, PatternV};
use crate::ruleset::{Ruleset, RulesetV};
use vstd::prelude::*;

verus! {

/// One of the eight compass neighbors of a cell.
#[derive(Debug, Clone, Copy, PartialEq, Eq, Structural)]
pub enum Direction {
    Northwest,
    North,
    Northeast,
    West,
    East,
    Southwest,
    South,
    Southeast,
}

/// Mathematical value of a count operator.
pub ghost enum OperatorV {
    List(Seq<u8>),
    Greater(u8),
    Less(u8),
}

/// Count operator: a neighbor count `k` in `[0, 8]` satisfies
/// `List(vs)` iff `k` is listed, `Greater(b)` iff `b < k <= 8`,
/// and `Less(b)` iff `k < b`.
#[derive(Debug, PartialEq, Eq)]
pub enum Operator {
    List(Vec<u8>),
    Greater(u8),
    Less(u8),
}

impl View for Operator {
    type V = OperatorV;

    open spec fn view(&self) -> OperatorV {
        match self {
            Operator::List(vs) => OperatorV::List(vs@),
            Operator::Greater(b) => OperatorV::Greater(*b),
            Operator::Less(b) => OperatorV::Less(*b),
        }
    }
}

impl Clone for Operator {
    fn clone(&self) -> (r: Self)
        ensures
            r@ == self@,
    {
        match self {
            Operator::List(vs) => {
                let mut copy: Vec<u8> = Vec::new();
                let mut k: usize = 0;
                while k < vs.len()
                    invariant
                        0 <= k <= vs@.len(),
                        copy@.len() == k,
                        forall|i: int| 0 <= i < k ==> copy@[i] == vs@[i],
                    decreases vs@.len() - k,
                {
                    copy.push(vs[k]);
                    k = k + 1;
                }
                proof {
                    assert(copy@ =~= vs@);
                }
                Operator::List(copy)
            },
            Operator::Greater(b) => Operator::Greater(*b),
            Operator::Less(b) => Operator::Less(*b),
        }
    }
}

/// Whether the count `k` satisfies the operator.
pub open spec fn spec_op_contains(op: OperatorV, k: u8) -> bool {
    match op {
        OperatorV::List(vs) => vs.contains(k),
        OperatorV::Greater(b) => b < k <= 8,
        OperatorV::Less(b) => k < b,
    }
}

/// Strictly ascending, hence duplicate-free.
pub open spec fn sorted_unique(vs: Seq<u8>) -> bool {
    forall|i: int, j: int| 0 <= i < j < vs.len() ==> vs[i] < vs[j]
}

/// The value of a decimal digit character, if `c` is one.
pub open spec fn spec_digit_val(c: char) -> Option<u8> {
    let u = c as u32;
    if 48 <= u <= 57 {
        Some((u - 48) as u8)
    } else {
        None
    }
}

/// True iff `vec` holds `x`.
fn vec_contains_u8(vec: &Vec<u8>, x: u8) -> (r: bool)
    ensures
        r == vec@.contains(x),
{
    let n = vec.len();
    let mut k: usize = 0;
    while k < n
        invariant
            n == vec@.len(),
            0 <= k <= n,
            forall|j: int| 0 <= j < k ==> vec@[j] != x,
        decreases n - k,
    {
        if vec[k] == x {
            assert(vec@[k as int] == x);
            return true;
        }
        k = k + 1;
    }
    false
}

/// The counts named in `elements`, kept only up to 8, sorted, without
/// duplicates.
fn normalized_counts(elements: &Vec<u8>) -> (r: Vec<u8>)
    ensures
        sorted_unique(r@),
        forall|v: u8| r@.contains(v) <==> (elements@.contains(v) && v <= 8),
{
    let mut out: Vec<u8> = Vec::new();
    let mut d: u8 = 0;
    while d < 9
        invariant
            0 <= d <= 9,
            sorted_unique(out@),
            forall|i: int| 0 <= i < out@.len() ==> out@[i] < d,
            forall|v: u8| out@.contains(v) <==> (elements@.contains(v) && v < d),
        decreases 9 - d,
    {
        let ghost prev = out@;
        if vec_contains_u8(elements, d) {
            out.push(d);
        }
        proof {
            assert forall|v: u8| #[trigger] out@.contains(v) implies (elements@.contains(v) && v
                < d + 1) by {
                let i = choose|i: int| 0 <= i < out@.len() && out@[i] == v;
                if i < prev.len() {
                    assert(prev[i] == v);
                    assert(prev.contains(v));
                } else {
                    assert(v == d);
                }
            }
            assert forall|v: u8| elements@.contains(v) && v < d + 1 implies #[trigger] out@
                .contains(v) by {
                if v < d {
                    assert(prev.contains(v));
                    let i = choose|i: int| 0 <= i < prev.len() && prev[i] == v;
                    assert(out@[i] == v);
                } else {
                    assert(out@[out@.len() - 1] == d);
                }
            }
        }
        d = d + 1;
    }
    out
}

impl Operator {
    /// Whether the neighbor count satisfies this operator.
    pub fn contains(&self, element: u8) -> (r: bool)
        ensures
            r == spec_op_contains(self@, element),
    {
        match self {
            Operator::List(vs) => vec_contains_u8(vs, element),
            Operator::Greater(bound) => *bound < element && element <= 8,
            Operator::Less(bound) => element < *bound,
        }
    }

    /// A new operator of the same kind built from edited count values:
    /// a list is normalized (sorted, deduplicated, values above 8
    /// discarded), a bound becomes the least or greatest value given, or 0
    /// when none is.
    pub fn with_elements(&self, elements: Vec<u8>) -> (r: Self)
        ensures
            self@ is List ==> (r@ matches OperatorV::List(vs) && sorted_unique(vs) && (forall|
                v: u8,
            |
                vs.contains(v) <==> (elements@.contains(v) && v <= 8))),
            self@ is Greater ==> (r@ matches OperatorV::Greater(m) && (elements@.len() == 0 ==> m
                == 0) && (elements@.len() > 0 ==> elements@.contains(m) && (forall|i: int|
                0 <= i < elements@.len() ==> m <= elements@[i]))),
            self@ is Less ==> (r@ matches OperatorV::Less(m) && (elements@.len() == 0 ==> m == 0)
                && (elements@.len() > 0 ==> elements@.contains(m) && (forall|i: int|
                0 <= i < elements@.len() ==> m >= elements@[i]))),
    {
        match self {
            Operator::List(_) => Operator::List(normalized_counts(&elements)),
            Operator::Greater(_) => Operator::Greater(min_or_zero(&elements)),
            Operator::Less(_) => Operator::Less(max_or_zero(&elements)),
        }
    }

    /// Advance the operator kind one step: list to greater-than, greater
    /// to less-than, less back to list. Moving away from a list keeps its
    /// first element (or 0) as the bound; moving back wraps the bound in a
    /// one-element list.
    pub fn cycled(&self) -> (r: Self)
        ensures
            r@ == match self@ {
                OperatorV::List(vs) => OperatorV::Greater(
                    if vs.len() > 0 {
                        vs[0]
                    } else {
                        0u8
                    },
                ),
                OperatorV::Greater(b) => OperatorV::Less(b),
                OperatorV::Less(b) => OperatorV::List(seq![b]),
            },
    {
        match self {
            Operator::List(vs) => {
                if vs.len() > 0 {
                    Operator::Greater(vs[0])
                } else {
                    Operator::Greater(0)
                }
            },
            Operator::Greater(b) => Operator::Less(*b),
            Operator::Less(b) => {
                let mut one: Vec<u8> = Vec::new();
                one.push(*b);
                let r = Operator::List(one);
                proof {
                    assert(one@ =~= seq![*b]);
                }
                r
            },
        }
    }
}

/// The least element of `elements`, or 0 when it is empty.
fn min_or_zero(elements: &Vec<u8>) -> (m: u8)
    ensures
        elements@.len() == 0 ==> m == 0,
        elements@.len() > 0 ==> elements@.contains(m) && (forall|i: int|
            0 <= i < elements@.len() ==> m <= elements@[i]),
{
    let n = elements.len();
    if n == 0 {
        return 0;
    }
    let mut m = elements[0];
    let mut k: usize = 1;
    while k < n
        invariant
            n == elements@.len(),
            1 <= k <= n,
            elements@.contains(m),
            forall|i: int| 0 <= i < k ==> m <= elements@[i],
        decreases n - k,
    {
        if elements[k] < m {
            m = elements[k];
            assert(elements@[k as int] == m);
        }
        k = k + 1;
    }
    m
}

/// The greatest element of `elements`, or 0 when it is empty.
fn max_or_zero(elements: &Vec<u8>) -> (m: u8)
    ensures
        elements@.len() == 0 ==> m == 0,
        elements@.len() > 0 ==> elements@.contains(m) && (forall|i: int|
            0 <= i < elements@.len() ==> m >= elements@[i]),
{
    let n = elements.len();
    if n == 0 {
        return 0;
    }
    let mut m = elements[0];
    let mut k: usize = 1;
    while k < n
        invariant
            n == elements@.len(),
            1 <= k <= n,
            elements@.contains(m),
            forall|i: int| 0 <= i < k ==> m >= elements@[i],
        decreases n - k,
    {
        if elements[k] > m {
            m = elements[k];
            assert(elements@[k as int] == m);
        }
        k = k + 1;
    }
    m
}

/// Parse edited count text: every decimal digit character counts as one
/// single-digit value, all other characters are skipped, digits above 8
/// are discarded, and the result is sorted and duplicate-free. An empty
/// result is permitted.
pub fn parse_count_text(text: &str) -> (r: Vec<u8>)
    ensures
        sorted_unique(r@),
        forall|v: u8|
            r@.contains(v) <==> (v <= 8 && exists|i: int|
                0 <= i < text@.len() && spec_digit_val(#[trigger] text@[i]) == Some(v)),
{
    let n = text.unicode_len();
    let mut digits: Vec<u8> = Vec::new();
    let mut k: usize = 0;
    while k < n
        invariant
            n == text@.len(),
            0 <= k <= n,
            forall|v: u8|
                digits@.contains(v) <==> exists|i: int|
                    0 <= i < k && spec_digit_val(#[trigger] text@[i]) == Some(v),
        decreases n - k,
    {
        let c = text.get_char(k);
        let u = c as u32;
        let ghost prev = digits@;
        if 48 <= u && u <= 57 {
            let v = (u - 48) as u8;
            digits.push(v);
            proof {
                assert(spec_digit_val(text@[k as int]) == Some(v));
            }
        }
        proof {
            assert forall|w: u8| #[trigger] digits@.contains(w) implies exists|i: int|
                0 <= i < k + 1 && spec_digit_val(#[trigger] text@[i]) == Some(w) by {
                let j = choose|j: int| 0 <= j < digits@.len() && digits@[j] == w;
                if j < prev.len() {
                    assert(prev[j] == w);
                    assert(prev.contains(w));
                } else {
                    assert(spec_digit_val(text@[k as int]) == Some(w));
                }
            }
            assert forall|w: u8| (exists|i: int|
                0 <= i < k + 1 && spec_digit_val(#[trigger] text@[i]) == Some(w)) implies #[trigger] digits@
                .contains(w) by {
                let i = choose|i: int|
                    0 <= i < k + 1 && spec_digit_val(#[trigger] text@[i]) == Some(w);
                if i < k as int {
                    assert(prev.contains(w));
                    let j = choose|j: int| 0 <= j < prev.len() && prev[j] == w;
                    assert(digits@[j] == w);
                } else {
                    assert(spec_digit_val(text@[k as int]) == Some(w));
                    assert(digits@[digits@.len() - 1] == w);
                }
            }
        }
        k = k + 1;
    }
    normalized_counts(&digits)
}


/// How toggling a direction changes a variant: a count variant is left
/// alone; a direction is removed at its first occurrence or appended.
pub open spec fn toggle_relation(
    oldv: ConditionVariantV,
    newv: ConditionVariantV,
    d: Direction,
) -> bool {
    match oldv {
        ConditionVariantV::Count(_) => newv == oldv,
        ConditionVariantV::Directional(dirs) => {
            if dirs.contains(d) {
                exists|k: int|
                    0 <= k < dirs.len() && dirs[k] == d && (forall|j: int|
                        0 <= j < k ==> dirs[j] != d) && newv == ConditionVariantV::Directional(
                        dirs.remove(k),
                    )
            } else {
                newv == ConditionVariantV::Directional(dirs.push(d))
            }
        },
    }
}

/// How edited count text changes a count operator: the kind is kept; a
/// list becomes the named counts, a bound becomes their least or greatest
/// value, or 0 when none is named.
pub open spec fn count_edit_relation(oldop: OperatorV, newop: OperatorV, counts: Set<u8>) -> bool {
    match oldop {
        OperatorV::List(_) => newop matches OperatorV::List(vs) && sorted_unique(vs) && (forall|
            v: u8,
        |
            vs.contains(v) <==> counts.contains(v)),
        OperatorV::Greater(_) => newop matches OperatorV::Greater(m) && ((forall|v: u8|
            !counts.contains(v)) ==> m == 0) && ((exists|v: u8| counts.contains(v))
            ==> counts.contains(m) && (forall|v: u8| counts.contains(v) ==> m <= v)),
        OperatorV::Less(_) => newop matches OperatorV::Less(m) && ((forall|v: u8|
            !counts.contains(v)) ==> m == 0) && ((exists|v: u8| counts.contains(v))
            ==> counts.contains(m) && (forall|v: u8| counts.contains(v) ==> m >= v)),
    }
}

/// Mathematical value of a condition variant.
pub ghost enum ConditionVariantV {
    Directional(Seq<Direction>),
    Count(OperatorV),
}

/// Either a set of directions to probe, or a count operator over the
/// whole neighborhood.
#[derive(Debug, PartialEq, Eq)]
pub enum ConditionVariant {
    Directional(Vec<Direction>),
    Count(Operator),
}

impl View for ConditionVariant {
    type V = ConditionVariantV;

    open spec fn view(&self) -> ConditionVariantV {
        match self {
            ConditionVariant::Directional(dirs) => ConditionVariantV::Directional(dirs@),
            ConditionVariant::Count(op) => ConditionVariantV::Count(op@),
        }
    }
}

impl Clone for ConditionVariant {
    fn clone(&self) -> (r: Self)
        ensures
            r@ == self@,
    {
        match self {
            ConditionVariant::Directional(dirs) => {
                let mut copy: Vec<Direction> = Vec::new();
                let mut k: usize = 0;
                while k < dirs.len()
                    invariant
                        0 <= k <= dirs@.len(),
                        copy@.len() == k,
                        forall|i: int| 0 <= i < k ==> copy@[i] == dirs@[i],
                    decreases dirs@.len() - k,
                {
                    copy.push(dirs[k]);
                    k = k + 1;
                }
                proof {
                    assert(copy@ =~= dirs@);
                }
                ConditionVariant::Directional(copy)
            },
            ConditionVariant::Count(op) => ConditionVariant::Count(op.clone()),
        }
    }
}

impl ConditionVariant {
    /// Toggle a direction: remove its first occurrence if present, append
    /// it otherwise. A count variant is left unchanged.
    pub fn toggle_direction(&mut self, direction: Direction)
        ensures
            match old(self)@ {
                ConditionVariantV::Directional(dirs) => {
                    if dirs.contains(direction) {
                        exists|k: int|
                            0 <= k < dirs.len() && dirs[k] == direction && (forall|j: int|
                                0 <= j < k ==> dirs[j] != direction) && final(self)@
                                == ConditionVariantV::Directional(dirs.remove(k))
                    } else {
                        final(self)@ == ConditionVariantV::Directional(dirs.push(direction))
                    }
                },
                ConditionVariantV::Count(_) => final(self)@ == old(self)@,
            },
    {
        let replacement: Option<Vec<Direction>> = match &*self {
            ConditionVariant::Count(_) => None,
            ConditionVariant::Directional(dirs) => {
                let ghost odirs = dirs@;
                let n = dirs.len();
                let mut pos: usize = n;
                let mut k: usize = 0;
                while k < n
                    invariant
                        odirs == dirs@,
                        n == dirs@.len(),
                        0 <= k <= n,
                        pos == n || (pos < k && dirs@[pos as int] == direction),
                        pos == n ==> forall|j: int| 0 <= j < k ==> dirs@[j] != direction,
                        pos < n ==> forall|j: int| 0 <= j < pos ==> dirs@[j] != direction,
                    decreases n - k,
                {
                    if pos == n && dirs[k] == direction {
                        pos = k;
                    }
                    k = k + 1;
                }
                if pos < n {
                    proof {
                        assert(odirs[pos as int] == direction);
                        assert(odirs.contains(direction));
                    }
                    let mut out: Vec<Direction> = Vec::new();
                    let mut i: usize = 0;
                    while i < n
                        invariant
                            odirs == dirs@,
                            n == dirs@.len(),
                            pos < n,
                            0 <= i <= n,
                            i <= pos ==> out@.len() == i,
                            i > pos ==> out@.len() == i - 1,
                            forall|j: int| 0 <= j < i && j < pos ==> out@[j] == odirs[j],
                            forall|j: int| pos < j < i ==> out@[j - 1] == odirs[j],
                        decreases n - i,
                    {
                        if i != pos {
                            out.push(dirs[i]);
                        }
                        i = i + 1;
                    }
                    proof {
                        assert(out@ =~= odirs.remove(pos as int));
                    }
                    Some(out)
                } else {
                    proof {
                        assert(!odirs.contains(direction));
                    }
                    let mut out: Vec<Direction> = Vec::new();
                    let mut i: usize = 0;
                    while i < n
                        invariant
                            odirs == dirs@,
                            n == dirs@.len(),
                            0 <= i <= n,
                            out@.len() == i,
                            forall|j: int| 0 <= j < i ==> out@[j] == odirs[j],
                        decreases n - i,
                    {
                        out.push(dirs[i]);
                        i = i + 1;
                    }
                    out.push(direction);
                    proof {
                        assert(out@ =~= odirs.push(direction));
                    }
                    Some(out)
                }
            },
        };
        match replacement {
            Some(out) => {
                *self = ConditionVariant::Directional(out);
            },
            None => {
            },
        }
    }
}

/// Mathematical value of a condition.
pub ghost struct ConditionV {
    pub variant: ConditionVariantV,
    pub pattern: PatternV,
    pub inverted: bool,
}

/// Whether the neighbor in direction `d` exists and matches the pattern.
pub open spec fn spec_dir_hit(
    d: Direction,
    nbrs: Seq<Option<u32>>,
    rs: RulesetV,
    p: PatternV,
) -> bool {
    match nbrs[spec_dir_index(d)] {
        Some(mat) => spec_pattern_matches(p, rs, mat),
        None => false,
    }
}

/// Whether any listed direction has a neighbor that exists and matches the
/// pattern.
pub open spec fn spec_directional_matches(
    dirs: Seq<Direction>,
    nbrs: Seq<Option<u32>>,
    rs: RulesetV,
    p: PatternV,
) -> bool {
    exists|i: int| 0 <= i < dirs.len() && spec_dir_hit(#[trigger] dirs[i], nbrs, rs, p)
}

/// The effective result of a condition on a neighborhood: the raw match
/// XOR the inverted flag, except that an empty direction list never
/// matches, inverted or not.
pub open spec fn spec_condition_matches(
    c: ConditionV,
    nbrs: Seq<Option<u32>>,
    rs: RulesetV,
) -> bool {
    match c.variant {
        ConditionVariantV::Directional(dirs) => {
            if dirs.len() == 0 {
                false
            } else {
                spec_directional_matches(dirs, nbrs, rs, c.pattern) != c.inverted
            }
        },
        ConditionVariantV::Count(op) => {
            let k = spec_count_matching(nbrs, rs, c.pattern);
            spec_op_contains(op, k as u8) != c.inverted
        },
    }
}

/// Predicate on a cell's 8-neighborhood: a pattern probed by directions or
/// counted over all neighbors, optionally inverted.
#[derive(Debug, PartialEq, Eq)]
pub struct Condition {
    pub variant: ConditionVariant,
    pub pattern: Pattern,
    pub inverted: bool,
}

impl View for Condition {
    type V = ConditionV;

    open spec fn view(&self) -> ConditionV {
        ConditionV { variant: self.variant@, pattern: self.pattern@, inverted: self.inverted }
    }
}

impl Clone for Condition {
    fn clone(&self) -> (r: Self)
        ensures
            r@ == self@,
    {
        Condition {
            variant: self.variant.clone(),
            pattern: self.pattern,
            inverted: self.inverted,
        }
    }
}

impl Condition {
    /// The starting condition of the editor: count in `[0]`, the default
    /// material as pattern, not inverted.
    pub fn new(ruleset: &Ruleset) -> (c: Self)
        requires
            ruleset@.materials.len() > 0,
        ensures
            c@.variant == ConditionVariantV::Count(OperatorV::List(seq![0u8])),
            c@.pattern == PatternV::Material(ruleset@.materials[0].id),
            c@.inverted == false,
    {
        let mut zero: Vec<u8> = Vec::new();
        zero.push(0);
        proof {
            assert(zero@ =~= seq![0u8]);
        }
        Condition {
            variant: ConditionVariant::Count(Operator::List(zero)),
            pattern: Pattern::Material(ruleset.materials.default().id()),
            inverted: false,
        }
    }

    /// The same condition with the inverted flag flipped.
    pub fn with_inverted(&self) -> (c: Self)
        ensures
            c@ == (ConditionV {
                variant: self@.variant,
                pattern: self@.pattern,
                inverted: !self@.inverted,
            }),
    {
        Condition {
            variant: self.variant.clone(),
            pattern: self.pattern,
            inverted: !self.inverted,
        }
    }

    /// Whether this condition holds for the neighborhood, per the rule set.
    pub fn matches(&self, neighbors: CellNeighbors, ruleset: &Ruleset) -> (r: bool)
        ensures
            r == spec_condition_matches(self@, neighbors@, ruleset@),
    {
        match &self.variant {
            ConditionVariant::Directional(dirs) => {
                let n = dirs.len();
                if n == 0 {
                    return false;
                }
                let mut found = false;
                let mut k: usize = 0;
                while k < n
                    invariant
                        n == dirs@.len(),
                        0 <= k <= n,
                        found == exists|i: int|
                            0 <= i < k && spec_dir_hit(
                                #[trigger] dirs@[i],
                                neighbors@,
                                ruleset@,
                                self@.pattern,
                            ),
                    decreases n - k,
                {
                    if !found {
                        let hit = match neighbors.in_direction(dirs[k]) {
                            Some(cell) => self.pattern.matches(ruleset, cell),
                            None => false,
                        };
                        if hit {
                            found = true;
                            assert(spec_dir_hit(dirs@[k as int], neighbors@, ruleset@, self@.pattern));
                        } else {
                            assert(!spec_dir_hit(dirs@[k as int], neighbors@, ruleset@, self@.pattern));
                        }
                    }
                    k = k + 1;
                }
                found != self.inverted
            },
            ConditionVariant::Count(op) => {
                let count = neighbors.count_matching(ruleset, self.pattern);
                let m = op.contains(count);
                m != self.inverted
            },
        }
    }
}

/// A condition whose count operator lists no values matches no
/// neighborhood, as long as it is not inverted.
pub proof fn lemma_empty_count_never_matches(
    c: ConditionV,
    nbrs: Seq<Option<u32>>,
    rs: RulesetV,
)
    requires
        c.variant == ConditionVariantV::Count(OperatorV::List(Seq::<u8>::empty())),
        !c.inverted,
    ensures
        !spec_condition_matches(c, nbrs, rs),
{
}

/// Inversion law: flipping the inverted flag flips the result of every
/// condition on every neighborhood, except that a directional condition
/// with no directions stays false either way.
pub proof fn lemma_inversion(c: ConditionV, nbrs: Seq<Option<u32>>, rs: RulesetV)
    ensures
        ({
            let flipped = ConditionV {
                variant: c.variant,
                pattern: c.pattern,
                inverted: !c.inverted,
            };
            match c.variant {
                ConditionVariantV::Directional(dirs) => {
                    if dirs.len() == 0 {
                        !spec_condition_matches(c, nbrs, rs) && !spec_condition_matches(
                            flipped,
                            nbrs,
                            rs,
                        )
                    } else {
                        spec_condition_matches(c, nbrs, rs) != spec_condition_matches(
                            flipped,
                            nbrs,
                            rs,
                        )
                    }
                },
                ConditionVariantV::Count(_) => spec_condition_matches(c, nbrs, rs)
                    != spec_condition_matches(flipped, nbrs, rs),
            }
        }),
{
}

} // verus!
