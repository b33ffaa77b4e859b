//! Materials, their colors, the ordered material registry, and named
//! material groups.
//!
//! The element at position 0 of the registry is the default material; the
//! registry is never empty. Lookup by handle is a linear search that returns
//! the first match.

use crate::id::{Identifiable, UniqueId};
use vstd::prelude::*;

verus! {

pub type MaterialId = UniqueId<Material>;

pub type GroupId = UniqueId<MaterialGroup>;

/// First position in `ids` holding `id`, or -1 if none does.
pub open spec fn first_index_of(ids: Seq<u32>, id: u32) -> int
    decreases ids.len(),
{
    if ids.len() == 0 {
        -1
    } else if ids[0] == id {
        0
    } else if first_index_of(ids.drop_first(), id) < 0 {
        -1
    } else {
        first_index_of(ids.drop_first(), id) + 1
    }
}

/// `first_index_of` finds the first match: it is -1 exactly when no element
/// matches, and otherwise points at a match with a match-free prefix.
pub proof fn lemma_first_index(ids: Seq<u32>, id: u32)
    ensures
        first_index_of(ids, id) == -1 <==> (forall|i: int|
            0 <= i < ids.len() ==> ids[i] != id),
        first_index_of(ids, id) != -1 ==> 0 <= first_index_of(ids, id) < ids.len()
            && ids[first_index_of(ids, id)] == id && (forall|j: int|
            0 <= j < first_index_of(ids, id) ==> ids[j] != id),
    decreases ids.len(),
{
    if ids.len() > 0 && ids[0] != id {
        let rest = ids.drop_first();
        lemma_first_index(rest, id);
        assert(forall|i: int| 0 <= i < rest.len() ==> rest[i] == ids[i + 1]);
        if first_index_of(rest, id) == -1 {
            assert forall|i: int| 0 <= i < ids.len() implies ids[i] != id by {
                if i > 0 {
                    assert(rest[i - 1] == ids[i]);
                }
            }
        } else {
            let r = first_index_of(rest, id);
            assert(ids[r + 1] == rest[r]);
            assert forall|j: int| 0 <= j < r + 1 implies ids[j] != id by {
                if j > 0 {
                    assert(rest[j - 1] == ids[j]);
                }
            }
        }
    }
}

/// If `k` is a match with a match-free prefix, it is the first match.
pub proof fn lemma_first_index_at(ids: Seq<u32>, id: u32, k: int)
    requires
        0 <= k < ids.len(),
        ids[k] == id,
        forall|j: int| 0 <= j < k ==> ids[j] != id,
    ensures
        first_index_of(ids, id) == k,
{
    lemma_first_index(ids, id);
    let r = first_index_of(ids, id);
    if r == -1 {
    } else if r < k {
    } else if r > k {
    }
}

/// Errors of the material registry.
#[derive(Debug, Clone, Copy, PartialEq, Eq, Structural)]
pub enum RegistryError {
    /// Removing this material would leave the registry empty.
    WouldEmptyRegistry,
}

/// Errors of color-text parsing.
#[derive(Debug, Clone, Copy, PartialEq, Eq, Structural)]
pub enum ColorError {
    /// The text does not start with `#`.
    MissingPrefix,
    /// The text is not exactly `#` followed by six digits.
    WrongLength,
    /// A character after `#` is not a hexadecimal digit.
    InvalidDigit,
}

/// The hexadecimal digit for `n`, uppercase.
pub open spec fn hex_digit(n: int) -> char {
    if n == 0 {
        '0'
    } else if n == 1 {
        '1'
    } else if n == 2 {
        '2'
    } else if n == 3 {
        '3'
    } else if n == 4 {
        '4'
    } else if n == 5 {
        '5'
    } else if n == 6 {
        '6'
    } else if n == 7 {
        '7'
    } else if n == 8 {
        '8'
    } else if n == 9 {
        '9'
    } else if n == 10 {
        'A'
    } else if n == 11 {
        'B'
    } else if n == 12 {
        'C'
    } else if n == 13 {
        'D'
    } else if n == 14 {
        'E'
    } else {
        'F'
    }
}

/// The value of a hexadecimal digit, either case, if `c` is one.
pub open spec fn spec_hex_val(c: char) -> Option<u8> {
    let u = c as u32;
    if 48 <= u <= 57 {
        Some((u - 48) as u8)
    } else if 65 <= u <= 70 {
        Some((u - 55) as u8)
    } else if 97 <= u <= 102 {
        Some((u - 87) as u8)
    } else {
        None
    }
}

/// Two uppercase hexadecimal digits for a byte.
pub open spec fn spec_hex2(n: u8) -> Seq<char> {
    seq![hex_digit(n as int / 16), hex_digit(n as int % 16)]
}

/// The text form of a color: `#` followed by six uppercase hexadecimal
/// digits, two per component.
pub open spec fn spec_color_text(c: MaterialColor) -> Seq<char> {
    seq!['#'] + spec_hex2(c.r) + spec_hex2(c.g) + spec_hex2(c.b)
}

/// What color-text parsing yields on any input.
pub open spec fn spec_parse_color(s: Seq<char>) -> Result<MaterialColor, ColorError> {
    if s.len() < 1 || s[0] != '#' {
        Err(ColorError::MissingPrefix)
    } else if s.len() != 7 {
        Err(ColorError::WrongLength)
    } else if spec_hex_val(s[1]) is None || spec_hex_val(s[2]) is None || spec_hex_val(s[3]) is None
        || spec_hex_val(s[4]) is None || spec_hex_val(s[5]) is None || spec_hex_val(
        s[6],
    ) is None {
        Err(ColorError::InvalidDigit)
    } else {
        Ok(MaterialColor {
            r: (spec_hex_val(s[1]).unwrap() * 16 + spec_hex_val(s[2]).unwrap()) as u8,
            g: (spec_hex_val(s[3]).unwrap() * 16 + spec_hex_val(s[4]).unwrap()) as u8,
            b: (spec_hex_val(s[5]).unwrap() * 16 + spec_hex_val(s[6]).unwrap()) as u8,
        })
    }
}

/// Parsing the emitted text form of a color yields the color back.
pub proof fn lemma_color_text_round_trip(c: MaterialColor)
    ensures
        spec_parse_color(spec_color_text(c)) == Ok::<MaterialColor, ColorError>(c),
{
    assert forall|n: int| 0 <= n < 16 implies spec_hex_val(hex_digit(n)) == Some(n as u8) by {
    }
}

/// 24-bit RGB color of a material.
#[derive(Debug, Clone, Copy, PartialEq, Eq, Structural)]
pub struct MaterialColor {
    pub r: u8,
    pub g: u8,
    pub b: u8,
}

impl MaterialColor {
    pub fn new(r: u8, g: u8, b: u8) -> (c: Self)
        ensures
            c == (MaterialColor { r, g, b }),
    {
        MaterialColor { r, g, b }
    }

    /// The all-white color of the blank material.
    pub fn blank() -> (c: Self)
        ensures
            c == (MaterialColor { r: 255u8, g: 255u8, b: 255u8 }),
    {
        MaterialColor { r: 255, g: 255, b: 255 }
    }

    /// The gray that contrasts with this color: each component is replaced
    /// by the average of the inverted components.
    pub fn invert_grayscale(self) -> (c: Self)
        ensures
            c.r == ((255 - self.r) + (255 - self.g) + (255 - self.b)) as int / 3,
            c.g == c.r,
            c.b == c.r,
    {
        let avg: u32 = ((255 - self.r as u32) + (255 - self.g as u32) + (255 - self.b as u32)) / 3;
        MaterialColor { r: avg as u8, g: avg as u8, b: avg as u8 }
    }

    /// The `#RRGGBB` text form.
    pub fn hex_string(&self) -> (s: String)
        ensures
            s@ == spec_color_text(*self),
    {
        let mut s = String::new();
        s.append("#");
        s.append(hex_digit_str((self.r / 16) as usize));
        s.append(hex_digit_str((self.r % 16) as usize));
        s.append(hex_digit_str((self.g / 16) as usize));
        s.append(hex_digit_str((self.g % 16) as usize));
        s.append(hex_digit_str((self.b / 16) as usize));
        s.append(hex_digit_str((self.b % 16) as usize));
        proof {
            reveal_strlit("#");
            assert(s@ =~= spec_color_text(*self));
        }
        s
    }

    /// Parse the `#RRGGBB` text form, accepting either letter case.
    pub fn parse_hex(s: &str) -> (r: Result<Self, ColorError>)
        ensures
            r == spec_parse_color(s@),
    {
        let len = s.unicode_len();
        if len < 1 || s.get_char(0) != '#' {
            return Err(ColorError::MissingPrefix);
        }
        if len != 7 {
            return Err(ColorError::WrongLength);
        }
        let d1 = hex_val(s.get_char(1));
        let d2 = hex_val(s.get_char(2));
        let d3 = hex_val(s.get_char(3));
        let d4 = hex_val(s.get_char(4));
        let d5 = hex_val(s.get_char(5));
        let d6 = hex_val(s.get_char(6));
        match (d1, d2, d3, d4, d5, d6) {
            (Some(h1), Some(l1), Some(h2), Some(l2), Some(h3), Some(l3)) => Ok(
                MaterialColor { r: h1 * 16 + l1, g: h2 * 16 + l2, b: h3 * 16 + l3 },
            ),
            _ => Err(ColorError::InvalidDigit),
        }
    }
}

impl Default for MaterialColor {
    /// The all-black default color of a new material.
    fn default() -> (c: Self)
        ensures
            c == (MaterialColor { r: 0u8, g: 0u8, b: 0u8 }),
    {
        MaterialColor { r: 0, g: 0, b: 0 }
    }
}

/// The digit as a one-character piece of text.
pub(crate) fn hex_digit_str(n: usize) -> (s: &'static str)
    requires
        n < 16,
    ensures
        s@ == seq![hex_digit(n as int)],
{
    let s: &'static str = match n {
        0 => "0",
        1 => "1",
        2 => "2",
        3 => "3",
        4 => "4",
        5 => "5",
        6 => "6",
        7 => "7",
        8 => "8",
        9 => "9",
        10 => "A",
        11 => "B",
        12 => "C",
        13 => "D",
        14 => "E",
        _ => "F",
    };
    proof {
        reveal_strlit("0");
        reveal_strlit("1");
        reveal_strlit("2");
        reveal_strlit("3");
        reveal_strlit("4");
        reveal_strlit("5");
        reveal_strlit("6");
        reveal_strlit("7");
        reveal_strlit("8");
        reveal_strlit("9");
        reveal_strlit("A");
        reveal_strlit("B");
        reveal_strlit("C");
        reveal_strlit("D");
        reveal_strlit("E");
        reveal_strlit("F");
        assert(s@ =~= seq![hex_digit(n as int)]);
    }
    s
}

/// The value of a hexadecimal digit character, either case.
fn hex_val(c: char) -> (r: Option<u8>)
    ensures
        r == spec_hex_val(c),
{
    let u = c as u32;
    if 48 <= u && u <= 57 {
        Some((u - 48) as u8)
    } else if 65 <= u && u <= 70 {
        Some((u - 55) as u8)
    } else if 97 <= u && u <= 102 {
        Some((u - 87) as u8)
    } else {
        None
    }
}

/// Mathematical value of a material: handle, name and color.
pub ghost struct MaterialV {
    pub id: u32,
    pub name: Seq<char>,
    pub color: MaterialColor,
}

/// A named, colored species that a cell may be.
#[derive(Debug, PartialEq, Eq)]
pub struct Material {
    pub id: u32,
    pub name: String,
    pub color: MaterialColor,
}

impl View for Material {
    type V = MaterialV;

    open spec fn view(&self) -> MaterialV {
        MaterialV { id: self.id, name: self.name@, color: self.color }
    }
}

impl Identifiable for Material {
    open spec fn spec_id(&self) -> u32 {
        self.id
    }

    fn id(&self) -> (r: UniqueId<Material>)
        ensures
            r@ == self.spec_id(),
    {
        UniqueId::new_unchecked(self.id)
    }
}

impl Clone for Material {
    fn clone(&self) -> (r: Self)
        ensures
            r@ == self@,
    {
        Material { id: self.id, name: self.name.clone(), color: self.color }
    }
}

impl Material {
    /// A new material named "Empty", black, with a handle free in the
    /// rule set's registry.
    pub fn new(ruleset: &crate::ruleset::Ruleset) -> (m: Self)
        requires
            ruleset.materials@.len() < u32::MAX as nat,
        ensures
            forall|i: int|
                0 <= i < ruleset.materials@.len() ==> ruleset.materials@[i].id != m@.id,
            m@.name == "Empty"@,
            m@.color == (MaterialColor { r: 0u8, g: 0u8, b: 0u8 }),
    {
        Material {
            id: UniqueId::<Material>::new(ruleset.materials.entries()).get(),
            name: String::from_str("Empty"),
            color: MaterialColor::default(),
        }
    }

    /// A material with the given handle, named "Empty", black.
    pub fn new_unchecked(id: MaterialId) -> (m: Self)
        ensures
            m@.id == id@,
            m@.name == "Empty"@,
            m@.color == (MaterialColor { r: 0u8, g: 0u8, b: 0u8 }),
    {
        Material { id: id.get(), name: String::from_str("Empty"), color: MaterialColor::default() }
    }

    /// The single material of the built-in blank rule set: white, named
    /// "Blank", with an arbitrary fresh handle.
    pub fn blank() -> (m: Self)
        ensures
            m@.name == "Blank"@,
            m@.color == (MaterialColor { r: 255u8, g: 255u8, b: 255u8 }),
    {
        let empty: Vec<Material> = Vec::new();
        Material {
            id: UniqueId::<Material>::new(empty.as_slice()).get(),
            name: String::from_str("Blank"),
            color: MaterialColor::blank(),
        }
    }

    /// A material built from raw parts, as read from a persisted rule set.
    pub fn from_parts(id: u32, name: String, color: MaterialColor) -> (m: Self)
        ensures
            m@ == (MaterialV { id, name: name@, color }),
    {
        Material { id, name, color }
    }
}

impl Default for Material {
    /// A new material named "Empty", black, with an arbitrary fresh handle.
    fn default() -> (m: Self)
        ensures
            m@.name == "Empty"@,
            m@.color == (MaterialColor { r: 0u8, g: 0u8, b: 0u8 }),
    {
        let empty: Vec<Material> = Vec::new();
        Material {
            id: UniqueId::<Material>::new(empty.as_slice()).get(),
            name: String::from_str("Empty"),
            color: MaterialColor::default(),
        }
    }
}

/// The handle values of a material sequence, in order.
pub open spec fn material_ids(s: Seq<MaterialV>) -> Seq<u32> {
    s.map_values(|m: MaterialV| m.id)
}

/// Ordered registry of materials. The element at position 0 is the default
/// material; the registry is constructed nonempty and removal keeps it so.
#[derive(Debug, PartialEq, Eq)]
pub struct MaterialMap(Vec<Material>);

impl View for MaterialMap {
    type V = Seq<MaterialV>;

    closed spec fn view(&self) -> Seq<MaterialV> {
        self.0@.map_values(|m: Material| m@)
    }
}

impl Clone for MaterialMap {
    fn clone(&self) -> (r: Self)
        ensures
            r@ == self@,
    {
        let mut v: Vec<Material> = Vec::new();
        let mut k: usize = 0;
        while k < self.0.len()
            invariant
                0 <= k <= self.0@.len(),
                v@.len() == k,
                forall|i: int| 0 <= i < k ==> v@[i]@ == self.0@[i]@,
            decreases self.0@.len() - k,
        {
            v.push(self.0[k].clone());
            k = k + 1;
        }
        let r = MaterialMap(v);
        proof {
            assert(r@ =~= self@);
        }
        r
    }
}

impl MaterialMap {
    /// A registry holding only the given default material.
    pub fn new(default: Material) -> (r: Self)
        ensures
            r@ =~= seq![default@],
    {
        let mut v: Vec<Material> = Vec::new();
        v.push(default);
        MaterialMap(v)
    }

    /// A registry holding exactly the given materials, unchecked.
    pub fn new_unchecked(v: Vec<Material>) -> (r: Self)
        ensures
            r@ == v@.map_values(|m: Material| m@),
    {
        MaterialMap(v)
    }

    /// The materials as a vector, for encoding.
    pub fn entries_vec(&self) -> (r: &Vec<Material>)
        ensures
            r@.map_values(|m: Material| m@) == self@,
    {
        &self.0
    }

    /// The materials as a slice, for handle generation.
    pub fn entries(&self) -> (r: &[Material])
        ensures
            r@.map_values(|m: Material| m@) == self@,
    {
        self.0.as_slice()
    }

    /// The default material: the element at position 0.
    pub fn default(&self) -> (r: &Material)
        requires
            self@.len() > 0,
        ensures
            r@ == self@[0],
    {
        &self.0[0]
    }

    /// First material carrying the handle, if any.
    pub fn get(&self, key: MaterialId) -> (r: Option<&Material>)
        ensures
            match r {
                Some(m) => {
                    let k = first_index_of(material_ids(self@), key@);
                    0 <= k < self@.len() && m@ == self@[k]
                },
                None => first_index_of(material_ids(self@), key@) == -1,
            },
    {
        let n = self.0.len();
        let mut k: usize = 0;
        while k < n
            invariant
                n == self@.len(),
                0 <= k <= n,
                forall|j: int| 0 <= j < k ==> material_ids(self@)[j] != key@,
            decreases n - k,
        {
            if self.0[k].id().get() == key.get() {
                proof {
                    lemma_first_index_at(material_ids(self@), key@, k as int);
                }
                return Some(&self.0[k]);
            }
            k = k + 1;
        }
        proof {
            lemma_first_index(material_ids(self@), key@);
        }
        None
    }

    /// Position of the first material carrying the handle, if any.
    pub fn index_of(&self, id: MaterialId) -> (r: Option<usize>)
        ensures
            match r {
                Some(k) => first_index_of(material_ids(self@), id@) == k as int,
                None => first_index_of(material_ids(self@), id@) == -1,
            },
    {
        let n = self.0.len();
        let mut k: usize = 0;
        while k < n
            invariant
                n == self@.len(),
                0 <= k <= n,
                forall|j: int| 0 <= j < k ==> material_ids(self@)[j] != id@,
            decreases n - k,
        {
            if self.0[k].id().get() == id.get() {
                proof {
                    lemma_first_index_at(material_ids(self@), id@, k as int);
                }
                return Some(k);
            }
            k = k + 1;
        }
        proof {
            lemma_first_index(material_ids(self@), id@);
        }
        None
    }

    /// Remove the first material carrying the handle. Fails, leaving the
    /// registry unchanged, if that removal would empty the registry; a
    /// handle that resolves to nothing is ignored.
    pub fn remove(&mut self, id: MaterialId) -> (r: Result<(), RegistryError>)
        ensures
            ({
                let k = first_index_of(material_ids(old(self)@), id@);
                if k == -1 {
                    r is Ok && final(self)@ == old(self)@
                } else if old(self)@.len() == 1 {
                    r == Err::<(), RegistryError>(RegistryError::WouldEmptyRegistry)
                        && final(self)@ == old(self)@
                } else {
                    r is Ok && final(self)@ == old(self)@.remove(k)
                }
            }),
    {
        let pos = self.index_of(id);
        match pos {
            None => Ok(()),
            Some(k) => {
                if self.0.len() == 1 {
                    Err(RegistryError::WouldEmptyRegistry)
                } else {
                    proof {
                        lemma_first_index(material_ids(self@), id@);
                    }
                    self.0.remove(k);
                    proof {
                        assert(self@ =~= old(self)@.remove(
                            first_index_of(material_ids(old(self)@), id@),
                        ));
                    }
                    Ok(())
                }
            },
        }
    }

    /// The material names, in positional order.
    pub fn names(&self) -> (r: Vec<String>)
        ensures
            r@.len() == self@.len(),
            forall|i: int| 0 <= i < self@.len() ==> r@[i]@ == self@[i].name,
    {
        let n = self.0.len();
        let mut out: Vec<String> = Vec::new();
        let mut k: usize = 0;
        while k < n
            invariant
                n == self@.len(),
                0 <= k <= n,
                out@.len() == k,
                forall|i: int| 0 <= i < k ==> out@[i]@ == self@[i].name,
            decreases n - k,
        {
            out.push(self.0[k].name.clone());
            k = k + 1;
        }
        out
    }

    /// The material at the position, if it exists.
    pub fn get_at(&self, index: usize) -> (r: Option<&Material>)
        ensures
            match r {
                Some(m) => index < self@.len() && m@ == self@[index as int],
                None => index >= self@.len(),
            },
    {
        if index < self.0.len() {
            Some(&self.0[index])
        } else {
            None
        }
    }

    /// Rename the material at the position; out of range changes nothing.
    pub fn rename_at(&mut self, index: usize, name: String) -> (r: bool)
        ensures
            index < old(self)@.len() ==> r && final(self)@ == old(self)@.update(
                index as int,
                (MaterialV {
                    id: old(self)@[index as int].id,
                    name: name@,
                    color: old(self)@[index as int].color,
                }),
            ),
            index >= old(self)@.len() ==> !r && final(self)@ == old(self)@,
    {
        if index < self.0.len() {
            let id = self.0[index].id;
            let color = self.0[index].color;
            self.0.set(index, Material { id, name, color });
            proof {
                assert(self@ =~= old(self)@.update(
                    index as int,
                    (MaterialV {
                        id: old(self)@[index as int].id,
                        name: name@,
                        color: old(self)@[index as int].color,
                    }),
                ));
            }
            true
        } else {
            false
        }
    }

    /// Recolor the material at the position; out of range changes nothing.
    pub fn recolor_at(&mut self, index: usize, color: MaterialColor) -> (r: bool)
        ensures
            index < old(self)@.len() ==> r && final(self)@ == old(self)@.update(
                index as int,
                (MaterialV {
                    id: old(self)@[index as int].id,
                    name: old(self)@[index as int].name,
                    color,
                }),
            ),
            index >= old(self)@.len() ==> !r && final(self)@ == old(self)@,
    {
        if index < self.0.len() {
            let id = self.0[index].id;
            let name = self.0[index].name.clone();
            self.0.set(index, Material { id, name, color });
            proof {
                assert(self@ =~= old(self)@.update(
                    index as int,
                    (MaterialV {
                        id: old(self)@[index as int].id,
                        name: old(self)@[index as int].name,
                        color,
                    }),
                ));
            }
            true
        } else {
            false
        }
    }

    /// Append a material.
    pub fn push(&mut self, material: Material)
        ensures
            final(self)@ == old(self)@.push(material@),
    {
        self.0.push(material);
        proof {
            assert(self@ =~= old(self)@.push(material@));
        }
    }

    /// Number of materials.
    pub fn len(&self) -> (r: usize)
        ensures
            r == self@.len(),
    {
        self.0.len()
    }
}

/// Mathematical value of a group: handle, name and member handles.
pub ghost struct GroupV {
    pub id: u32,
    pub name: Seq<char>,
    pub members: Seq<u32>,
}

/// A named, ordered collection of material handles. Duplicates are
/// permitted and preserved; membership ignores them.
#[derive(Debug, PartialEq, Eq)]
pub struct MaterialGroup {
    pub id: u32,
    pub name: String,
    pub materials: Vec<MaterialId>,
}

impl View for MaterialGroup {
    type V = GroupV;

    open spec fn view(&self) -> GroupV {
        GroupV {
            id: self.id,
            name: self.name@,
            members: self.materials@.map_values(|m: MaterialId| m@),
        }
    }
}

impl Identifiable for MaterialGroup {
    open spec fn spec_id(&self) -> u32 {
        self.id
    }

    fn id(&self) -> (r: UniqueId<MaterialGroup>)
        ensures
            r@ == self.spec_id(),
    {
        UniqueId::new_unchecked(self.id)
    }
}

impl Clone for MaterialGroup {
    fn clone(&self) -> (r: Self)
        ensures
            r@ == self@,
    {
        let r = MaterialGroup {
            id: self.id,
            name: self.name.clone(),
            materials: self.materials.clone(),
        };
        proof {
            assert(r@.members =~= self@.members);
        }
        r
    }
}

impl MaterialGroup {
    /// A new, empty group named "New Group", with a handle free among the
    /// rule set's groups.
    pub fn new(ruleset: &crate::ruleset::Ruleset) -> (g: Self)
        requires
            ruleset.groups@.len() < u32::MAX as nat,
        ensures
            forall|i: int| 0 <= i < ruleset.groups@.len() ==> ruleset.groups@[i]@.id != g@.id,
            g@.name == "New Group"@,
            g@.members == Seq::<u32>::empty(),
    {
        let g = MaterialGroup {
            id: UniqueId::<MaterialGroup>::new(ruleset.groups.as_slice()).get(),
            name: String::from_str("New Group"),
            materials: Vec::new(),
        };
        proof {
            assert(g@.members =~= Seq::<u32>::empty());
        }
        g
    }

    /// A group with the given handle and members, named "New Group".
    pub fn new_unchecked(id: GroupId, materials: Vec<MaterialId>) -> (g: Self)
        ensures
            g@.id == id@,
            g@.name == "New Group"@,
            g@.members == materials@.map_values(|m: MaterialId| m@),
    {
        MaterialGroup { id: id.get(), name: String::from_str("New Group"), materials }
    }

    /// A group built from raw parts, as read from a persisted rule set.
    pub fn from_parts(id: u32, name: String, member_ids: Vec<MaterialId>) -> (g: Self)
        ensures
            g@ == (GroupV {
                id,
                name: name@,
                members: member_ids@.map_values(|m: MaterialId| m@),
            }),
    {
        MaterialGroup { id, name, materials: member_ids }
    }

    /// Whether the handle is among the members.
    pub fn contains(&self, id: MaterialId) -> (r: bool)
        ensures
            r == self@.members.contains(id@),
    {
        let n = self.materials.len();
        let mut k: usize = 0;
        while k < n
            invariant
                n == self@.members.len(),
                0 <= k <= n,
                forall|j: int| 0 <= j < k ==> self@.members[j] != id@,
            decreases n - k,
        {
            if self.materials[k].get() == id.get() {
                assert(self@.members[k as int] == id@);
                return true;
            }
            k = k + 1;
        }
        false
    }

    /// Append a member handle.
    pub fn push(&mut self, id: MaterialId)
        ensures
            final(self)@ == (GroupV {
                id: old(self)@.id,
                name: old(self)@.name,
                members: old(self)@.members.push(id@),
            }),
    {
        self.materials.push(id);
        proof {
            assert(self@.members =~= old(self)@.members.push(id@));
        }
    }

    /// The member handle at the position, if it exists.
    pub fn get_at(&self, index: usize) -> (r: Option<MaterialId>)
        ensures
            match r {
                Some(m) => index < self@.members.len() && m@ == self@.members[index as int],
                None => index >= self@.members.len(),
            },
    {
        if index < self.materials.len() {
            Some(self.materials[index])
        } else {
            None
        }
    }

    /// Replace the member at the position; out of range changes nothing.
    pub fn set_at(&mut self, index: usize, id: MaterialId) -> (r: bool)
        ensures
            index < old(self)@.members.len() ==> r && final(self)@ == (GroupV {
                id: old(self)@.id,
                name: old(self)@.name,
                members: old(self)@.members.update(index as int, id@),
            }),
            index >= old(self)@.members.len() ==> !r && final(self)@ == old(self)@,
    {
        if index < self.materials.len() {
            self.materials.set(index, id);
            proof {
                assert(self@.members =~= old(self)@.members.update(index as int, id@));
            }
            true
        } else {
            false
        }
    }

    /// Remove the member at the position.
    pub fn remove_at(&mut self, index: usize)
        requires
            index < old(self)@.members.len(),
        ensures
            final(self)@ == (GroupV {
                id: old(self)@.id,
                name: old(self)@.name,
                members: old(self)@.members.remove(index as int),
            }),
    {
        self.materials.remove(index);
        proof {
            assert(self@.members =~= old(self)@.members.remove(index as int));
        }
    }

    /// Number of member entries, duplicates included.
    pub fn member_count(&self) -> (r: usize)
        ensures
            r == self@.members.len(),
    {
        self.materials.len()
    }
}

} // verus!
