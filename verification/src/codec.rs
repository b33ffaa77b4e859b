//! The text form of rule sets: a table-structured, human-editable
//! document with sections for the name, the materials, the groups and the
//! rules.
//!
//! The encoder emits one canonical text for every rule set; the decoder
//! reads that canonical shape back. Decoding what was encoded yields the
//! rule set unchanged, which is proved in `lemma_ruleset_round_trip`.

use crate::pattern::Pattern;
use vstd::prelude::*;

verus! {

/// A decimal digit.
pub open spec fn is_digit(c: char) -> bool {
    48 <= c as u32 <= 57
}

/// The value of a decimal digit character.
pub open spec fn digit_val(c: char) -> int {
    c as u32 - 48
}

/// The decimal text of a nonnegative number, most significant digit first.
pub open spec fn dec_nat(n: int) -> Seq<char>
    decreases n,
{
    if n < 10 {
        seq![crate::material::hex_digit(if n < 0 {
            0
        } else {
            n
        })]
    } else {
        dec_nat(n / 10).push(crate::material::hex_digit(n % 10))
    }
}

/// Decimal text consists of digit characters and reads back digit by digit.
pub proof fn lemma_dec_nat_digits(n: int)
    requires
        n >= 0,
    ensures
        dec_nat(n).len() >= 1,
        forall|k: int| 0 <= k < dec_nat(n).len() ==> is_digit(#[trigger] dec_nat(n)[k]),
    decreases n,
{
    if n >= 10 {
        lemma_dec_nat_digits(n / 10);
    }
}

/// `lit` stands at position `i` of `s`.
pub open spec fn has_at(s: Seq<char>, i: int, lit: Seq<char>) -> bool {
    0 <= i && i + lit.len() <= s.len() && s.subrange(i, i + lit.len()) == lit
}

/// The first position at or after `i` that does not hold a digit.
pub open spec fn digits_end(s: Seq<char>, i: int) -> int
    decreases s.len() - i,
{
    if 0 <= i < s.len() && is_digit(s[i]) {
        digits_end(s, i + 1)
    } else {
        i
    }
}

/// The value of the digits `s[i .. j)`, read as a decimal number.
pub open spec fn digits_val(s: Seq<char>, i: int, j: int) -> int
    decreases j - i,
{
    if i >= j {
        0
    } else {
        digits_val(s, i, j - 1) * 10 + digit_val(s[j - 1])
    }
}

/// What number parsing yields at position `i`: the greedily read digit
/// run and its value, if there is at least one digit and the value fits.
pub open spec fn parse_u32_at(s: Seq<char>, i: int) -> Option<(u32, int)> {
    let j = digits_end(s, i);
    if j == i || digits_val(s, i, j) > u32::MAX {
        None
    } else {
        Some((digits_val(s, i, j) as u32, j))
    }
}

/// `digits_end` runs to `j` exactly when everything before `j` is a digit
/// and `j` is the end or a non-digit.
pub proof fn lemma_digits_end_at(s: Seq<char>, i: int, j: int)
    requires
        0 <= i <= j <= s.len(),
        forall|k: int| i <= k < j ==> is_digit(s[k]),
        j == s.len() || !is_digit(s[j]),
    ensures
        digits_end(s, i) == j,
    decreases j - i,
{
    if i < j {
        lemma_digits_end_at(s, i + 1, j);
    }
}

/// Reading back the decimal text of `n` written into `s` yields `n`.
pub proof fn lemma_digits_val_of_dec(s: Seq<char>, i: int, n: int)
    requires
        n >= 0,
        0 <= i,
        i + dec_nat(n).len() <= s.len(),
        forall|k: int| 0 <= k < dec_nat(n).len() ==> s[i + k] == dec_nat(n)[k],
    ensures
        digits_val(s, i, i + dec_nat(n).len()) == n,
    decreases n,
{
    lemma_dec_nat_digits(n);
    if n < 10 {
        assert(s[i + 0] == dec_nat(n)[0]);
        assert(digits_val(s, i, i) == 0);
        assert(digits_val(s, i, i + 1) == digits_val(s, i, i) * 10 + digit_val(s[i]));
        assert(digit_val(dec_nat(n)[0]) == n);
    } else {
        let prefix = dec_nat(n / 10);
        assert(dec_nat(n) == prefix.push(crate::material::hex_digit(n % 10)));
        assert(forall|k: int| 0 <= k < prefix.len() ==> #[trigger] prefix[k] == dec_nat(n)[k]);
        lemma_digits_val_of_dec(s, i, n / 10);
        let j = i + dec_nat(n).len();
        assert(s[j - 1] == dec_nat(n)[dec_nat(n).len() - 1]);
        assert(dec_nat(n)[dec_nat(n).len() - 1] == crate::material::hex_digit(n % 10));
        assert(digit_val(crate::material::hex_digit(n % 10)) == n % 10);
        assert(digits_val(s, i, j) == digits_val(s, i, j - 1) * 10 + digit_val(s[j - 1]));
    }
}

/// Parsing right after the decimal text of `n` stops at its end and
/// yields `n`, as long as no digit follows it.
pub proof fn lemma_parse_u32_of_dec(s: Seq<char>, i: int, n: u32)
    requires
        has_at(s, i, dec_nat(n as int)),
        i + dec_nat(n as int).len() == s.len() || !is_digit(s[i + dec_nat(n as int).len()]),
    ensures
        parse_u32_at(s, i) == Some((n, i + dec_nat(n as int).len())),
{
    let t = dec_nat(n as int);
    lemma_dec_nat_digits(n as int);
    assert forall|k: int| 0 <= k < t.len() implies s[i + k] == t[k] by {
        assert(s.subrange(i, i + t.len())[k] == s[i + k]);
    }
    assert forall|k: int| i <= k < i + t.len() implies is_digit(s[k]) by {
        assert(s[k] == t[k - i]);
    }
    lemma_digits_end_at(s, i, i + t.len());
    lemma_digits_val_of_dec(s, i, n as int);
}

/// One escaped character of quoted text: quotes, backslashes, newlines,
/// tabs and carriage returns hide behind a backslash; everything else
/// stands for itself.
pub open spec fn esc_char(c: char) -> Seq<char> {
    if c == '"' {
        seq!['\\', '"']
    } else if c == '\\' {
        seq!['\\', '\\']
    } else if c == '\n' {
        seq!['\\', 'n']
    } else if c == '\t' {
        seq!['\\', 't']
    } else if c == '\r' {
        seq!['\\', 'r']
    } else {
        seq![c]
    }
}

/// The character named by an escape code, if the code is one.
pub open spec fn unesc_char(c: char) -> Option<char> {
    if c == '"' {
        Some('"')
    } else if c == '\\' {
        Some('\\')
    } else if c == 'n' {
        Some('\n')
    } else if c == 't' {
        Some('\t')
    } else if c == 'r' {
        Some('\r')
    } else {
        None
    }
}

/// The escaped body of quoted text.
pub open spec fn esc(s: Seq<char>) -> Seq<char>
    decreases s.len(),
{
    if s.len() == 0 {
        Seq::empty()
    } else {
        esc_char(s[0]) + esc(s.drop_first())
    }
}

/// Text in quotes, with its body escaped.
pub open spec fn quoted(s: Seq<char>) -> Seq<char> {
    seq!['"'] + esc(s) + seq!['"']
}

/// What reading a quoted body yields from position `i` on: the unescaped
/// text up to the closing quote, and the position after it.
pub open spec fn parse_qbody_at(s: Seq<char>, i: int) -> Option<(Seq<char>, int)>
    decreases s.len() - i,
{
    if i < 0 || i >= s.len() {
        None
    } else if s[i] == '"' {
        Some((Seq::empty(), i + 1))
    } else if s[i] == '\\' {
        if i + 1 >= s.len() {
            None
        } else {
            match unesc_char(s[i + 1]) {
                None => None,
                Some(c) => match parse_qbody_at(s, i + 2) {
                    None => None,
                    Some((rest, j)) => Some((seq![c] + rest, j)),
                },
            }
        }
    } else {
        match parse_qbody_at(s, i + 1) {
            None => None,
            Some((rest, j)) => Some((seq![s[i]] + rest, j)),
        }
    }
}

/// What reading quoted text yields at position `i`: the unescaped body,
/// if an opening quote stands here and a closing quote follows.
pub open spec fn parse_quoted_at(s: Seq<char>, i: int) -> Option<(Seq<char>, int)> {
    if 0 <= i < s.len() && s[i] == '"' {
        parse_qbody_at(s, i + 1)
    } else {
        None
    }
}

/// Reading an escaped body back yields the original text.
pub proof fn lemma_parse_qbody_of_esc(s: Seq<char>, i: int, t: Seq<char>)
    requires
        0 <= i,
        i + esc(t).len() + 1 <= s.len(),
        forall|k: int| 0 <= k < esc(t).len() ==> s[i + k] == esc(t)[k],
        s[i + esc(t).len()] == '"',
    ensures
        parse_qbody_at(s, i) == Some((t, i + esc(t).len() + 1)),
    decreases t.len(),
{
    if t.len() == 0 {
        assert(s[i] == '"');
    } else {
        let c = t[0];
        let e = esc_char(c);
        let rest = t.drop_first();
        assert(esc(t) == e + esc(rest));
        assert(forall|k: int| 0 <= k < e.len() ==> e[k] == esc(t)[k]);
        assert(forall|k: int|
            0 <= k < esc(rest).len() ==> esc(rest)[k] == esc(t)[e.len() + k]);
        assert(forall|k: int|
            0 <= k < esc(rest).len() ==> s[i + e.len() + k] == esc(rest)[k]);
        lemma_parse_qbody_of_esc(s, i + e.len(), rest);
        if c == '"' || c == '\\' || c == '\n' || c == '\t' || c == '\r' {
            assert(esc(t)[0] == e[0]);
            assert(s[i + 0] == esc(t)[0]);
            assert(s[i] == '\\');
            assert(esc(t)[1] == e[1]);
            assert(s[i + 1] == esc(t)[1]);
            assert(unesc_char(s[i + 1]) == Some(c));
            assert(seq![c] + rest =~= t);
        } else {
            assert(esc(t)[0] == e[0]);
            assert(s[i + 0] == esc(t)[0]);
            assert(s[i] == c);
            assert(s[i] != '"' && s[i] != '\\');
            assert(seq![c] + rest =~= t);
        }
    }
}

/// Reading quoted text back yields the original text.
pub proof fn lemma_parse_quoted_of_quoted(s: Seq<char>, i: int, t: Seq<char>)
    requires
        has_at(s, i, quoted(t)),
    ensures
        parse_quoted_at(s, i) == Some((t, i + quoted(t).len())),
{
    let q = quoted(t);
    assert forall|k: int| 0 <= k < q.len() implies s[i + k] == q[k] by {
        assert(s.subrange(i, i + q.len())[k] == s[i + k]);
    }
    assert(q[0] == '"');
    assert(s[i + 0] == q[0]);
    assert forall|k: int| 0 <= k < esc(t).len() implies s[i + 1 + k] == esc(t)[k] by {
        assert(q[1 + k] == esc(t)[k]);
        assert(s[i + (1 + k)] == q[1 + k]);
    }
    assert(q[1 + esc(t).len() as int] == '"');
    assert(s[i + 1 + esc(t).len()] == q[1 + esc(t).len() as int]);
    lemma_parse_qbody_of_esc(s, i + 1, t);
}

/// Splitting a match of concatenated text into its two halves.
pub proof fn lemma_has_at_split(s: Seq<char>, i: int, a: Seq<char>, b: Seq<char>)
    requires
        has_at(s, i, a + b),
    ensures
        has_at(s, i, a),
        has_at(s, i + a.len(), b),
{
    let ab = a + b;
    assert forall|k: int| 0 <= k < ab.len() implies s[i + k] == ab[k] by {
        assert(s.subrange(i, i + ab.len())[k] == s[i + k]);
    }
    assert(s.subrange(i, i + a.len()) =~= a);
    assert forall|k: int| 0 <= k < b.len() implies s.subrange(
        i + a.len(),
        i + a.len() + b.len(),
    )[k] == b[k] by {
        assert(s[i + (a.len() + k)] == ab[a.len() + k]);
    }
    assert(s.subrange(i + a.len(), i + a.len() + b.len()) =~= b);
}

/// A matched piece of text is present character by character.
pub proof fn lemma_char_at(s: Seq<char>, i: int, a: Seq<char>, k: int)
    requires
        has_at(s, i, a),
        0 <= k < a.len(),
    ensures
        s[i + k] == a[k],
{
    assert(s.subrange(i, i + a.len())[k] == s[i + k]);
}

/// The name of a direction in the persisted form.
pub open spec fn dir_name(d: crate::condition::Direction) -> Seq<char> {
    match d {
        crate::condition::Direction::Northwest => seq!['N', 'o', 'r', 't', 'h', 'w', 'e', 's', 't'],
        crate::condition::Direction::North => seq!['N', 'o', 'r', 't', 'h'],
        crate::condition::Direction::Northeast => seq!['N', 'o', 'r', 't', 'h', 'e', 'a', 's', 't'],
        crate::condition::Direction::West => seq!['W', 'e', 's', 't'],
        crate::condition::Direction::East => seq!['E', 'a', 's', 't'],
        crate::condition::Direction::Southwest => seq!['S', 'o', 'u', 't', 'h', 'w', 'e', 's', 't'],
        crate::condition::Direction::South => seq!['S', 'o', 'u', 't', 'h'],
        crate::condition::Direction::Southeast => seq!['S', 'o', 'u', 't', 'h', 'e', 'a', 's', 't'],
    }
}

/// The direction a whole word names, if it names one.
pub open spec fn dir_of_word(w: Seq<char>) -> Option<crate::condition::Direction> {
    if w == dir_name(crate::condition::Direction::Northwest) {
        Some(crate::condition::Direction::Northwest)
    } else if w == dir_name(crate::condition::Direction::North) {
        Some(crate::condition::Direction::North)
    } else if w == dir_name(crate::condition::Direction::Northeast) {
        Some(crate::condition::Direction::Northeast)
    } else if w == dir_name(crate::condition::Direction::West) {
        Some(crate::condition::Direction::West)
    } else if w == dir_name(crate::condition::Direction::East) {
        Some(crate::condition::Direction::East)
    } else if w == dir_name(crate::condition::Direction::Southwest) {
        Some(crate::condition::Direction::Southwest)
    } else if w == dir_name(crate::condition::Direction::South) {
        Some(crate::condition::Direction::South)
    } else if w == dir_name(crate::condition::Direction::Southeast) {
        Some(crate::condition::Direction::Southeast)
    } else {
        None
    }
}

/// The first position at or after `i` holding a comma or a closing
/// bracket, where a word in a list ends.
pub open spec fn word_end(s: Seq<char>, i: int) -> int
    decreases s.len() - i,
{
    if 0 <= i < s.len() && s[i] != ',' && s[i] != ']' {
        word_end(s, i + 1)
    } else {
        i
    }
}

/// `word_end` runs to `j` exactly when no comma or bracket stands before
/// `j` and `j` is the end or holds one.
pub proof fn lemma_word_end_at(s: Seq<char>, i: int, j: int)
    requires
        0 <= i <= j <= s.len(),
        forall|k: int| i <= k < j ==> s[k] != ',' && s[k] != ']',
        j == s.len() || s[j] == ',' || s[j] == ']',
    ensures
        word_end(s, i) == j,
    decreases j - i,
{
    if i < j {
        lemma_word_end_at(s, i + 1, j);
    }
}

/// What reading one direction word yields at position `i`.
pub open spec fn parse_dir_at(s: Seq<char>, i: int) -> Option<(
    crate::condition::Direction,
    int,
)> {
    if i < 0 {
        None
    } else {
        let j = word_end(s, i);
        match dir_of_word(s.subrange(i, j)) {
            Some(d) => Some((d, j)),
            None => None,
        }
    }
}

/// The body of a direction list: the names separated by commas.
pub open spec fn ser_dir_body(dirs: Seq<crate::condition::Direction>) -> Seq<char>
    decreases dirs.len(),
{
    if dirs.len() == 0 {
        Seq::empty()
    } else if dirs.len() == 1 {
        dir_name(dirs[0])
    } else {
        dir_name(dirs[0]) + seq![',', ' '] + ser_dir_body(dirs.drop_first())
    }
}

/// A direction list in brackets.
pub open spec fn ser_dir_list(dirs: Seq<crate::condition::Direction>) -> Seq<char> {
    seq!['['] + ser_dir_body(dirs) + seq![']']
}

/// What reading the rest of a direction list yields: items after a comma,
/// until the closing bracket.
pub open spec fn parse_dir_tail_at(s: Seq<char>, i: int) -> Option<(
    Seq<crate::condition::Direction>,
    int,
)>
    decreases s.len() - i,
{
    if i < 0 || i >= s.len() {
        None
    } else if s[i] == ']' {
        Some((Seq::empty(), i + 1))
    } else if i + 2 <= s.len() && s[i] == ',' && s[i + 1] == ' ' {
        match parse_dir_at(s, i + 2) {
            None => None,
            Some((d, j)) => if j <= i || j > s.len() {
                None
            } else {
                match parse_dir_tail_at(s, j) {
                    None => None,
                    Some((rest, k)) => Some((seq![d] + rest, k)),
                }
            },
        }
    } else {
        None
    }
}

/// What reading a whole direction list yields at position `i`.
pub open spec fn parse_dir_list_at(s: Seq<char>, i: int) -> Option<(
    Seq<crate::condition::Direction>,
    int,
)> {
    if 0 <= i < s.len() && s[i] == '[' {
        if i + 1 < s.len() && s[i + 1] == ']' {
            Some((Seq::empty(), i + 2))
        } else {
            match parse_dir_at(s, i + 1) {
                None => None,
                Some((d, j)) => if j <= i || j > s.len() {
                    None
                } else {
                    match parse_dir_tail_at(s, j) {
                        None => None,
                        Some((rest, k)) => Some((seq![d] + rest, k)),
                    }
                },
            }
        }
    } else {
        None
    }
}

/// The body of a number list: decimal values separated by commas.
pub open spec fn ser_num_body(ns: Seq<int>) -> Seq<char>
    decreases ns.len(),
{
    if ns.len() == 0 {
        Seq::empty()
    } else if ns.len() == 1 {
        dec_nat(ns[0])
    } else {
        dec_nat(ns[0]) + seq![',', ' '] + ser_num_body(ns.drop_first())
    }
}

/// A number list in brackets.
pub open spec fn ser_num_list(ns: Seq<int>) -> Seq<char> {
    seq!['['] + ser_num_body(ns) + seq![']']
}

/// What reading the rest of a number list yields.
pub open spec fn parse_num_tail_at(s: Seq<char>, i: int) -> Option<(Seq<u32>, int)>
    decreases s.len() - i,
{
    if i < 0 || i >= s.len() {
        None
    } else if s[i] == ']' {
        Some((Seq::empty(), i + 1))
    } else if i + 2 <= s.len() && s[i] == ',' && s[i + 1] == ' ' {
        match parse_u32_at(s, i + 2) {
            None => None,
            Some((n, j)) => if j <= i || j > s.len() {
                None
            } else {
                match parse_num_tail_at(s, j) {
                    None => None,
                    Some((rest, k)) => Some((seq![n] + rest, k)),
                }
            },
        }
    } else {
        None
    }
}

/// What reading a whole number list yields at position `i`.
pub open spec fn parse_num_list_at(s: Seq<char>, i: int) -> Option<(Seq<u32>, int)> {
    if 0 <= i < s.len() && s[i] == '[' {
        if i + 1 < s.len() && s[i + 1] == ']' {
            Some((Seq::empty(), i + 2))
        } else {
            match parse_u32_at(s, i + 1) {
                None => None,
                Some((n, j)) => if j <= i || j > s.len() {
                    None
                } else {
                    match parse_num_tail_at(s, j) {
                        None => None,
                        Some((rest, k)) => Some((seq![n] + rest, k)),
                    }
                },
            }
        }
    } else {
        None
    }
}

/// The scalar text of a pattern: the handle value followed by `m` for a
/// material or `g` for a group.
pub open spec fn pattern_text(p: crate::pattern::PatternV) -> Seq<char> {
    match p {
        crate::pattern::PatternV::Material(id) => dec_nat(id as int).push('m'),
        crate::pattern::PatternV::Group(id) => dec_nat(id as int).push('g'),
    }
}

/// The pattern a whole scalar word denotes, if it denotes one.
pub open spec fn pattern_of_text(t: Seq<char>) -> Option<crate::pattern::PatternV> {
    match parse_u32_at(t, 0) {
        None => None,
        Some((id, j)) => if j != t.len() - 1 {
            None
        } else if t[j] == 'm' {
            Some(crate::pattern::PatternV::Material(id))
        } else if t[j] == 'g' {
            Some(crate::pattern::PatternV::Group(id))
        } else {
            None
        },
    }
}

/// What reading a quoted pattern scalar yields at position `i`.
pub open spec fn parse_pattern_at(s: Seq<char>, i: int) -> Option<(
    crate::pattern::PatternV,
    int,
)> {
    match parse_quoted_at(s, i) {
        None => None,
        Some((t, j)) => match pattern_of_text(t) {
            None => None,
            Some(p) => Some((p, j)),
        },
    }
}

/// The text of a boolean.
pub open spec fn bool_text(b: bool) -> Seq<char> {
    if b {
        seq!['t', 'r', 'u', 'e']
    } else {
        seq!['f', 'a', 'l', 's', 'e']
    }
}

/// What reading a boolean yields at position `i`.
pub open spec fn parse_bool_at(s: Seq<char>, i: int) -> Option<(bool, int)> {
    if has_at(s, i, bool_text(true)) {
        Some((true, i + 4))
    } else if has_at(s, i, bool_text(false)) {
        Some((false, i + 5))
    } else {
        None
    }
}

/// The text of a count operator: its kind and its values, as a tagged
/// inline table.
pub open spec fn ser_op(op: crate::condition::OperatorV) -> Seq<char> {
    match op {
        crate::condition::OperatorV::List(vs) => "{ List = "@ + ser_num_list(
            vs.map_values(|v: u8| v as int),
        ) + " }"@,
        crate::condition::OperatorV::Greater(b) => "{ Greater = "@ + dec_nat(b as int) + " }"@,
        crate::condition::OperatorV::Less(b) => "{ Less = "@ + dec_nat(b as int) + " }"@,
    }
}

/// What reading a count operator yields at position `i`.
pub open spec fn parse_op_at(s: Seq<char>, i: int) -> Option<(
    crate::condition::OperatorV,
    int,
)> {
    if has_at(s, i, "{ List = "@) {
        match parse_num_list_at(s, i + "{ List = "@.len()) {
            None => None,
            Some((ns, j)) => if (forall|k: int| 0 <= k < ns.len() ==> ns[k] <= 255) && has_at(
                s,
                j,
                " }"@,
            ) {
                Some(
                    (
                        crate::condition::OperatorV::List(ns.map_values(|n: u32| n as u8)),
                        j + " }"@.len(),
                    ),
                )
            } else {
                None
            },
        }
    } else if has_at(s, i, "{ Greater = "@) {
        match parse_u32_at(s, i + "{ Greater = "@.len()) {
            None => None,
            Some((n, j)) => if n <= 255 && has_at(s, j, " }"@) {
                Some((crate::condition::OperatorV::Greater(n as u8), j + " }"@.len()))
            } else {
                None
            },
        }
    } else if has_at(s, i, "{ Less = "@) {
        match parse_u32_at(s, i + "{ Less = "@.len()) {
            None => None,
            Some((n, j)) => if n <= 255 && has_at(s, j, " }"@) {
                Some((crate::condition::OperatorV::Less(n as u8), j + " }"@.len()))
            } else {
                None
            },
        }
    } else {
        None
    }
}

/// The text of a condition variant: directions or a count operator, as a
/// tagged inline table.
pub open spec fn ser_variant(v: crate::condition::ConditionVariantV) -> Seq<char> {
    match v {
        crate::condition::ConditionVariantV::Directional(dirs) => "{ Directional = "@
            + ser_dir_list(dirs) + " }"@,
        crate::condition::ConditionVariantV::Count(op) => "{ Count = "@ + ser_op(op) + " }"@,
    }
}

/// What reading a condition variant yields at position `i`.
pub open spec fn parse_variant_at(s: Seq<char>, i: int) -> Option<(
    crate::condition::ConditionVariantV,
    int,
)> {
    if has_at(s, i, "{ Directional = "@) {
        match parse_dir_list_at(s, i + "{ Directional = "@.len()) {
            None => None,
            Some((dirs, j)) => if has_at(s, j, " }"@) {
                Some((crate::condition::ConditionVariantV::Directional(dirs), j + " }"@.len()))
            } else {
                None
            },
        }
    } else if has_at(s, i, "{ Count = "@) {
        match parse_op_at(s, i + "{ Count = "@.len()) {
            None => None,
            Some((op, j)) => if has_at(s, j, " }"@) {
                Some((crate::condition::ConditionVariantV::Count(op), j + " }"@.len()))
            } else {
                None
            },
        }
    } else {
        None
    }
}

/// The text of one condition: its variant, its pattern and its inverted
/// flag, as an inline table.
pub open spec fn ser_condition(c: crate::condition::ConditionV) -> Seq<char> {
    "{ variant = "@ + ser_variant(c.variant) + ", pattern = "@ + quoted(pattern_text(c.pattern))
        + ", inverted = "@ + bool_text(c.inverted) + " }"@
}

/// What reading one condition yields at position `i`.
pub open spec fn parse_condition_at(s: Seq<char>, i: int) -> Option<(
    crate::condition::ConditionV,
    int,
)> {
    if has_at(s, i, "{ variant = "@) {
        match parse_variant_at(s, i + "{ variant = "@.len()) {
            None => None,
            Some((v, j)) => if has_at(s, j, ", pattern = "@) {
                match parse_pattern_at(s, j + ", pattern = "@.len()) {
                    None => None,
                    Some((p, j2)) => if has_at(s, j2, ", inverted = "@) {
                        match parse_bool_at(s, j2 + ", inverted = "@.len()) {
                            None => None,
                            Some((b, j3)) => if has_at(s, j3, " }"@) {
                                Some(
                                    (
                                        crate::condition::ConditionV {
                                            variant: v,
                                            pattern: p,
                                            inverted: b,
                                        },
                                        j3 + " }"@.len(),
                                    ),
                                )
                            } else {
                                None
                            },
                        }
                    } else {
                        None
                    },
                }
            } else {
                None
            },
        }
    } else {
        None
    }
}

/// The body of a condition list.
pub open spec fn ser_cond_body(cs: Seq<crate::condition::ConditionV>) -> Seq<char>
    decreases cs.len(),
{
    if cs.len() == 0 {
        Seq::empty()
    } else if cs.len() == 1 {
        ser_condition(cs[0])
    } else {
        ser_condition(cs[0]) + seq![',', ' '] + ser_cond_body(cs.drop_first())
    }
}

/// A condition list in brackets.
pub open spec fn ser_cond_list(cs: Seq<crate::condition::ConditionV>) -> Seq<char> {
    seq!['['] + ser_cond_body(cs) + seq![']']
}

/// What reading the rest of a condition list yields.
pub open spec fn parse_cond_tail_at(s: Seq<char>, i: int) -> Option<(
    Seq<crate::condition::ConditionV>,
    int,
)>
    decreases s.len() - i,
{
    if i < 0 || i >= s.len() {
        None
    } else if s[i] == ']' {
        Some((Seq::empty(), i + 1))
    } else if i + 2 <= s.len() && s[i] == ',' && s[i + 1] == ' ' {
        match parse_condition_at(s, i + 2) {
            None => None,
            Some((c, j)) => if j <= i || j > s.len() {
                None
            } else {
                match parse_cond_tail_at(s, j) {
                    None => None,
                    Some((rest, k)) => Some((seq![c] + rest, k)),
                }
            },
        }
    } else {
        None
    }
}

/// What reading a whole condition list yields at position `i`.
pub open spec fn parse_cond_list_at(s: Seq<char>, i: int) -> Option<(
    Seq<crate::condition::ConditionV>,
    int,
)> {
    if 0 <= i < s.len() && s[i] == '[' {
        if i + 1 < s.len() && s[i + 1] == ']' {
            Some((Seq::empty(), i + 2))
        } else {
            match parse_condition_at(s, i + 1) {
                None => None,
                Some((c, j)) => if j <= i || j > s.len() {
                    None
                } else {
                    match parse_cond_tail_at(s, j) {
                        None => None,
                        Some((rest, k)) => Some((seq![c] + rest, k)),
                    }
                },
            }
        }
    } else {
        None
    }
}

/// The text of one material section.
pub open spec fn ser_material(m: crate::material::MaterialV) -> Seq<char> {
    "\n[[materials]]\nid = "@ + dec_nat(m.id as int) + "\nname = "@ + quoted(m.name)
        + "\ncolor = "@ + quoted(crate::material::spec_color_text(m.color)) + "\n"@
}

/// What reading one material section yields at position `i`, the section
/// header included.
pub open spec fn parse_material_at(s: Seq<char>, i: int) -> Option<(
    crate::material::MaterialV,
    int,
)> {
    if has_at(s, i, "\n[[materials]]\nid = "@) {
        match parse_u32_at(s, i + "\n[[materials]]\nid = "@.len()) {
            None => None,
            Some((id, j)) => if has_at(s, j, "\nname = "@) {
                match parse_quoted_at(s, j + "\nname = "@.len()) {
                    None => None,
                    Some((name, j2)) => if has_at(s, j2, "\ncolor = "@) {
                        match parse_quoted_at(s, j2 + "\ncolor = "@.len()) {
                            None => None,
                            Some((ctext, j3)) => match crate::material::spec_parse_color(ctext) {
                                Err(_) => None,
                                Ok(color) => if has_at(s, j3, "\n"@) {
                                    Some(
                                        (
                                            crate::material::MaterialV { id, name, color },
                                            j3 + "\n"@.len(),
                                        ),
                                    )
                                } else {
                                    None
                                },
                            },
                        }
                    } else {
                        None
                    },
                }
            } else {
                None
            },
        }
    } else {
        None
    }
}

/// The text of one group section.
pub open spec fn ser_group(g: crate::material::GroupV) -> Seq<char> {
    "\n[[groups]]\nid = "@ + dec_nat(g.id as int) + "\nname = "@ + quoted(g.name)
        + "\nmaterials = "@ + ser_num_list(g.members.map_values(|v: u32| v as int)) + "\n"@
}

/// What reading one group section yields at position `i`.
pub open spec fn parse_group_at(s: Seq<char>, i: int) -> Option<(crate::material::GroupV, int)> {
    if has_at(s, i, "\n[[groups]]\nid = "@) {
        match parse_u32_at(s, i + "\n[[groups]]\nid = "@.len()) {
            None => None,
            Some((id, j)) => if has_at(s, j, "\nname = "@) {
                match parse_quoted_at(s, j + "\nname = "@.len()) {
                    None => None,
                    Some((name, j2)) => if has_at(s, j2, "\nmaterials = "@) {
                        match parse_num_list_at(s, j2 + "\nmaterials = "@.len()) {
                            None => None,
                            Some((members, j3)) => if has_at(s, j3, "\n"@) {
                                Some(
                                    (
                                        crate::material::GroupV { id, name, members },
                                        j3 + "\n"@.len(),
                                    ),
                                )
                            } else {
                                None
                            },
                        }
                    } else {
                        None
                    },
                }
            } else {
                None
            },
        }
    } else {
        None
    }
}

/// The text of one rule section.
pub open spec fn ser_rule(r: crate::ruleset::RuleV) -> Seq<char> {
    "\n[[rules]]\ninput = "@ + quoted(pattern_text(r.input)) + "\noutput = "@ + dec_nat(
        r.output as int,
    ) + "\nconditions = "@ + ser_cond_list(r.conditions) + "\n"@
}

/// What reading one rule section yields at position `i`.
pub open spec fn parse_rule_at(s: Seq<char>, i: int) -> Option<(crate::ruleset::RuleV, int)> {
    if has_at(s, i, "\n[[rules]]\ninput = "@) {
        match parse_pattern_at(s, i + "\n[[rules]]\ninput = "@.len()) {
            None => None,
            Some((input, j)) => if has_at(s, j, "\noutput = "@) {
                match parse_u32_at(s, j + "\noutput = "@.len()) {
                    None => None,
                    Some((output, j2)) => if has_at(s, j2, "\nconditions = "@) {
                        match parse_cond_list_at(s, j2 + "\nconditions = "@.len()) {
                            None => None,
                            Some((conditions, j3)) => if has_at(s, j3, "\n"@) {
                                Some(
                                    (
                                        crate::ruleset::RuleV { input, output, conditions },
                                        j3 + "\n"@.len(),
                                    ),
                                )
                            } else {
                                None
                            },
                        }
                    } else {
                        None
                    },
                }
            } else {
                None
            },
        }
    } else {
        None
    }
}

/// The material sections, one after the other.
pub open spec fn ser_materials(ms: Seq<crate::material::MaterialV>) -> Seq<char>
    decreases ms.len(),
{
    if ms.len() == 0 {
        Seq::empty()
    } else {
        ser_material(ms[0]) + ser_materials(ms.drop_first())
    }
}

/// The group sections, one after the other.
pub open spec fn ser_groups(gs: Seq<crate::material::GroupV>) -> Seq<char>
    decreases gs.len(),
{
    if gs.len() == 0 {
        Seq::empty()
    } else {
        ser_group(gs[0]) + ser_groups(gs.drop_first())
    }
}

/// The rule sections, one after the other.
pub open spec fn ser_rules(rs: Seq<crate::ruleset::RuleV>) -> Seq<char>
    decreases rs.len(),
{
    if rs.len() == 0 {
        Seq::empty()
    } else {
        ser_rule(rs[0]) + ser_rules(rs.drop_first())
    }
}

/// What reading material sections yields: sections as long as their
/// header stands at the position.
pub open spec fn parse_materials_at(s: Seq<char>, i: int) -> Option<(
    Seq<crate::material::MaterialV>,
    int,
)>
    decreases s.len() - i,
{
    if !has_at(s, i, "\n[[materials]]\nid = "@) {
        Some((Seq::empty(), i))
    } else {
        match parse_material_at(s, i) {
            None => None,
            Some((m, j)) => if j <= i || j > s.len() {
                None
            } else {
                match parse_materials_at(s, j) {
                    None => None,
                    Some((rest, k)) => Some((seq![m] + rest, k)),
                }
            },
        }
    }
}

/// What reading group sections yields.
pub open spec fn parse_groups_at(s: Seq<char>, i: int) -> Option<(
    Seq<crate::material::GroupV>,
    int,
)>
    decreases s.len() - i,
{
    if !has_at(s, i, "\n[[groups]]\nid = "@) {
        Some((Seq::empty(), i))
    } else {
        match parse_group_at(s, i) {
            None => None,
            Some((g, j)) => if j <= i || j > s.len() {
                None
            } else {
                match parse_groups_at(s, j) {
                    None => None,
                    Some((rest, k)) => Some((seq![g] + rest, k)),
                }
            },
        }
    }
}

/// What reading rule sections yields.
pub open spec fn parse_rules_at(s: Seq<char>, i: int) -> Option<(
    Seq<crate::ruleset::RuleV>,
    int,
)>
    decreases s.len() - i,
{
    if !has_at(s, i, "\n[[rules]]\ninput = "@) {
        Some((Seq::empty(), i))
    } else {
        match parse_rule_at(s, i) {
            None => None,
            Some((r, j)) => if j <= i || j > s.len() {
                None
            } else {
                match parse_rules_at(s, j) {
                    None => None,
                    Some((rest, k)) => Some((seq![r] + rest, k)),
                }
            },
        }
    }
}

/// The whole text of a rule set: its name, then the material, group and
/// rule sections.
pub open spec fn ser_ruleset(rv: crate::ruleset::RulesetV) -> Seq<char> {
    "name = "@ + quoted(rv.name) + "\n"@ + ser_materials(rv.materials) + ser_groups(rv.groups)
        + ser_rules(rv.rules)
}

/// What reading a whole rule set document yields: the name line, the
/// sections, and nothing after them.
pub open spec fn parse_ruleset_text(s: Seq<char>) -> Option<crate::ruleset::RulesetV> {
    if has_at(s, 0, "name = "@) {
        match parse_quoted_at(s, "name = "@.len() as int) {
            None => None,
            Some((name, j)) => if has_at(s, j, "\n"@) {
                match parse_materials_at(s, j + 1) {
                    None => None,
                    Some((materials, j2)) => match parse_groups_at(s, j2) {
                        None => None,
                        Some((groups, j3)) => match parse_rules_at(s, j3) {
                            None => None,
                            Some((rules, j4)) => if j4 == s.len() {
                                Some(crate::ruleset::RulesetV { name, rules, materials, groups })
                            } else {
                                None
                            },
                        },
                    },
                }
            } else {
                None
            },
        }
    } else {
        None
    }
}

/// The characters of direction names are ordinary letters.
pub proof fn lemma_dir_name_chars(d: crate::condition::Direction)
    ensures
        1 <= dir_name(d).len() <= 9,
        forall|k: int|
            0 <= k < dir_name(d).len() ==> #[trigger] dir_name(d)[k] != ',' && dir_name(d)[k]
                != ']' && dir_name(d)[k] != '"',
{
    let n = dir_name(d);
    assert forall|k: int| 0 <= k < n.len() implies #[trigger] n[k] != ',' && n[k] != ']' && n[k]
        != '"' by {
        match d {
            crate::condition::Direction::Northwest => {
                assert(n =~= seq!['N', 'o', 'r', 't', 'h', 'w', 'e', 's', 't']);
            },
            crate::condition::Direction::North => {
                assert(n =~= seq!['N', 'o', 'r', 't', 'h']);
            },
            crate::condition::Direction::Northeast => {
                assert(n =~= seq!['N', 'o', 'r', 't', 'h', 'e', 'a', 's', 't']);
            },
            crate::condition::Direction::West => {
                assert(n =~= seq!['W', 'e', 's', 't']);
            },
            crate::condition::Direction::East => {
                assert(n =~= seq!['E', 'a', 's', 't']);
            },
            crate::condition::Direction::Southwest => {
                assert(n =~= seq!['S', 'o', 'u', 't', 'h', 'w', 'e', 's', 't']);
            },
            crate::condition::Direction::South => {
                assert(n =~= seq!['S', 'o', 'u', 't', 'h']);
            },
            crate::condition::Direction::Southeast => {
                assert(n =~= seq!['S', 'o', 'u', 't', 'h', 'e', 'a', 's', 't']);
            },
        }
    }
}

/// A whole direction name reads back as its direction.
pub proof fn lemma_dir_of_word(d: crate::condition::Direction)
    ensures
        dir_of_word(dir_name(d)) == Some(d),
{
    let nw = dir_name(crate::condition::Direction::Northwest);
    let n = dir_name(crate::condition::Direction::North);
    let ne = dir_name(crate::condition::Direction::Northeast);
    let w = dir_name(crate::condition::Direction::West);
    let e = dir_name(crate::condition::Direction::East);
    let sw = dir_name(crate::condition::Direction::Southwest);
    let so = dir_name(crate::condition::Direction::South);
    let se = dir_name(crate::condition::Direction::Southeast);
    assert(nw.len() == 9 && nw[0] == 'N' && nw[5] == 'w');
    assert(n.len() == 5 && n[0] == 'N');
    assert(ne.len() == 9 && ne[0] == 'N' && ne[5] == 'e');
    assert(w.len() == 4 && w[0] == 'W');
    assert(e.len() == 4 && e[0] == 'E');
    assert(sw.len() == 9 && sw[0] == 'S' && sw[5] == 'w');
    assert(so.len() == 5 && so[0] == 'S');
    assert(se.len() == 9 && se[0] == 'S' && se[5] == 'e');
}

/// A direction name followed by a list separator or closer reads back as
/// its direction and stops right after the name.
pub proof fn lemma_parse_dir_of_name(s: Seq<char>, i: int, d: crate::condition::Direction)
    requires
        has_at(s, i, dir_name(d)),
        ({
            let e = i + dir_name(d).len();
            e == s.len() || s[e] == ',' || s[e] == ']'
        }),
    ensures
        parse_dir_at(s, i) == Some((d, i + dir_name(d).len())),
{
    let t = dir_name(d);
    let e = i + t.len();
    lemma_dir_name_chars(d);
    assert forall|k: int| i <= k < e implies s[k] != ',' && s[k] != ']' by {
        lemma_char_at(s, i, t, k - i);
    }
    lemma_word_end_at(s, i, e);
    assert forall|k: int| 0 <= k < t.len() implies s.subrange(i, e)[k] == t[k] by {
        lemma_char_at(s, i, t, k);
    }
    assert(s.subrange(i, e) =~= t);
    lemma_dir_of_word(d);
}

/// The rest of a direction list after an item: the separators, names and
/// the closing bracket.
pub open spec fn dir_tail_text(dirs: Seq<crate::condition::Direction>) -> Seq<char>
    decreases dirs.len(),
{
    if dirs.len() == 0 {
        seq![']']
    } else {
        seq![',', ' '] + dir_name(dirs[0]) + dir_tail_text(dirs.drop_first())
    }
}

/// A nonempty direction-list body with its closer splits into the first
/// name and the rest.
pub proof fn lemma_dir_body_decomp(dirs: Seq<crate::condition::Direction>)
    requires
        dirs.len() > 0,
    ensures
        ser_dir_body(dirs) + seq![']'] == dir_name(dirs[0]) + dir_tail_text(dirs.drop_first()),
    decreases dirs.len(),
{
    if dirs.len() == 1 {
        assert(ser_dir_body(dirs) + seq![']'] =~= dir_name(dirs[0]) + dir_tail_text(
            dirs.drop_first(),
        ));
    } else {
        let rest = dirs.drop_first();
        lemma_dir_body_decomp(rest);
        assert(ser_dir_body(dirs) + seq![']'] =~= dir_name(dirs[0]) + (seq![',', ' '] + (
        ser_dir_body(rest) + seq![']'])));
        assert(seq![',', ' '] + (ser_dir_body(rest) + seq![']']) =~= seq![',', ' '] + (dir_name(
            rest[0],
        ) + dir_tail_text(rest.drop_first())));
        assert(dir_tail_text(rest) =~= seq![',', ' '] + dir_name(rest[0]) + dir_tail_text(
            rest.drop_first(),
        ));
        assert(dir_name(dirs[0]) + (seq![',', ' '] + (dir_name(rest[0]) + dir_tail_text(
            rest.drop_first(),
        ))) =~= dir_name(dirs[0]) + dir_tail_text(rest));
    }
}

/// The tail of a direction list reads back as its items.
pub proof fn lemma_parse_dir_tail(s: Seq<char>, i: int, dirs: Seq<crate::condition::Direction>)
    requires
        has_at(s, i, dir_tail_text(dirs)),
    ensures
        parse_dir_tail_at(s, i) == Some((dirs, i + dir_tail_text(dirs).len())),
    decreases dirs.len(),
{
    if dirs.len() == 0 {
        lemma_char_at(s, i, dir_tail_text(dirs), 0);
    } else {
        let d0 = dirs[0];
        let rest = dirs.drop_first();
        let t = dir_tail_text(dirs);
        assert(t == seq![',', ' '] + dir_name(d0) + dir_tail_text(rest));
        lemma_has_at_split(s, i, seq![',', ' '] + dir_name(d0), dir_tail_text(rest));
        lemma_has_at_split(s, i, seq![',', ' '], dir_name(d0));
        lemma_char_at(s, i, seq![',', ' '], 0);
        lemma_char_at(s, i, seq![',', ' '], 1);
        let j = i + 2 + dir_name(d0).len();
        assert(has_at(s, i + 2, dir_name(d0)));
        assert(has_at(s, j, dir_tail_text(rest)));
        lemma_char_at(s, j, dir_tail_text(rest), 0);
        if rest.len() == 0 {
            assert(s[j] == ']');
        } else {
            assert(dir_tail_text(rest)[0] == ',');
        }
        lemma_parse_dir_of_name(s, i + 2, d0);
        lemma_parse_dir_tail(s, j, rest);
        assert(seq![d0] + rest =~= dirs);
    }
}

/// A whole direction list reads back as its items.
pub proof fn lemma_parse_dir_list(s: Seq<char>, i: int, dirs: Seq<crate::condition::Direction>)
    requires
        has_at(s, i, ser_dir_list(dirs)),
    ensures
        parse_dir_list_at(s, i) == Some((dirs, i + ser_dir_list(dirs).len())),
{
    let t = ser_dir_list(dirs);
    lemma_char_at(s, i, t, 0);
    if dirs.len() == 0 {
        assert(t =~= seq!['[', ']']);
        lemma_char_at(s, i, t, 1);
    } else {
        lemma_dir_body_decomp(dirs);
        assert(t =~= seq!['['] + (ser_dir_body(dirs) + seq![']']));
        assert(t =~= seq!['['] + (dir_name(dirs[0]) + dir_tail_text(dirs.drop_first())));
        lemma_has_at_split(s, i, seq!['['], dir_name(dirs[0]) + dir_tail_text(dirs.drop_first()));
        lemma_has_at_split(s, i + 1, dir_name(dirs[0]), dir_tail_text(dirs.drop_first()));
        lemma_dir_name_chars(dirs[0]);
        lemma_char_at(s, i + 1, dir_name(dirs[0]), 0);
        assert(i + 1 < s.len());
        assert(s[i + 1] != ']');
        let j = i + 1 + dir_name(dirs[0]).len();
        lemma_char_at(s, j, dir_tail_text(dirs.drop_first()), 0);
        if dirs.drop_first().len() == 0 {
        } else {
            assert(dir_tail_text(dirs.drop_first())[0] == ',');
        }
        lemma_parse_dir_of_name(s, i + 1, dirs[0]);
        lemma_parse_dir_tail(s, j, dirs.drop_first());
        assert(seq![dirs[0]] + dirs.drop_first() =~= dirs);
    }
}

/// The rest of a number list after an item.
pub open spec fn num_tail_text(ns: Seq<int>) -> Seq<char>
    decreases ns.len(),
{
    if ns.len() == 0 {
        seq![']']
    } else {
        seq![',', ' '] + dec_nat(ns[0]) + num_tail_text(ns.drop_first())
    }
}

/// A nonempty number-list body with its closer splits into the first
/// number and the rest.
pub proof fn lemma_num_body_decomp(ns: Seq<int>)
    requires
        ns.len() > 0,
    ensures
        ser_num_body(ns) + seq![']'] == dec_nat(ns[0]) + num_tail_text(ns.drop_first()),
    decreases ns.len(),
{
    if ns.len() == 1 {
        assert(ser_num_body(ns) + seq![']'] =~= dec_nat(ns[0]) + num_tail_text(ns.drop_first()));
    } else {
        let rest = ns.drop_first();
        lemma_num_body_decomp(rest);
        assert(ser_num_body(ns) + seq![']'] =~= dec_nat(ns[0]) + (seq![',', ' '] + (ser_num_body(
            rest,
        ) + seq![']'])));
        assert(num_tail_text(rest) =~= seq![',', ' '] + dec_nat(rest[0]) + num_tail_text(
            rest.drop_first(),
        ));
        assert(dec_nat(ns[0]) + (seq![',', ' '] + (dec_nat(rest[0]) + num_tail_text(
            rest.drop_first(),
        ))) =~= dec_nat(ns[0]) + num_tail_text(rest));
    }
}

/// The tail of a number list reads back as its values.
pub proof fn lemma_parse_num_tail(s: Seq<char>, i: int, ns: Seq<u32>)
    requires
        has_at(s, i, num_tail_text(ns.map_values(|v: u32| v as int))),
    ensures
        parse_num_tail_at(s, i) == Some(
            (ns, i + num_tail_text(ns.map_values(|v: u32| v as int)).len()),
        ),
    decreases ns.len(),
{
    let nsi = ns.map_values(|v: u32| v as int);
    if ns.len() == 0 {
        lemma_char_at(s, i, num_tail_text(nsi), 0);
    } else {
        let rest = ns.drop_first();
        let resti = rest.map_values(|v: u32| v as int);
        assert(nsi.drop_first() =~= resti);
        assert(num_tail_text(nsi) == seq![',', ' '] + dec_nat(nsi[0]) + num_tail_text(resti));
        lemma_has_at_split(s, i, seq![',', ' '] + dec_nat(nsi[0]), num_tail_text(resti));
        lemma_has_at_split(s, i, seq![',', ' '], dec_nat(nsi[0]));
        lemma_char_at(s, i, seq![',', ' '], 0);
        lemma_char_at(s, i, seq![',', ' '], 1);
        let j = i + 2 + dec_nat(nsi[0]).len();
        lemma_char_at(s, j, num_tail_text(resti), 0);
        if rest.len() == 0 {
            assert(s[j] == ']');
        } else {
            assert(num_tail_text(resti)[0] == ',');
        }
        assert(!is_digit(s[j]));
        lemma_parse_u32_of_dec(s, i + 2, ns[0]);
        lemma_parse_num_tail(s, j, rest);
        assert(seq![ns[0]] + rest =~= ns);
    }
}

/// A whole number list reads back as its values.
pub proof fn lemma_parse_num_list(s: Seq<char>, i: int, ns: Seq<u32>)
    requires
        has_at(s, i, ser_num_list(ns.map_values(|v: u32| v as int))),
    ensures
        parse_num_list_at(s, i) == Some(
            (ns, i + ser_num_list(ns.map_values(|v: u32| v as int)).len()),
        ),
{
    let nsi = ns.map_values(|v: u32| v as int);
    let t = ser_num_list(nsi);
    lemma_char_at(s, i, t, 0);
    if ns.len() == 0 {
        assert(t =~= seq!['[', ']']);
        lemma_char_at(s, i, t, 1);
    } else {
        lemma_num_body_decomp(nsi);
        assert(nsi.drop_first() =~= ns.drop_first().map_values(|v: u32| v as int));
        assert(t =~= seq!['['] + (dec_nat(nsi[0]) + num_tail_text(nsi.drop_first())));
        lemma_has_at_split(s, i, seq!['['], dec_nat(nsi[0]) + num_tail_text(nsi.drop_first()));
        lemma_has_at_split(s, i + 1, dec_nat(nsi[0]), num_tail_text(nsi.drop_first()));
        lemma_dec_nat_digits(nsi[0]);
        lemma_char_at(s, i + 1, dec_nat(nsi[0]), 0);
        assert(i + 1 < s.len());
        assert(is_digit(s[i + 1]));
        assert(s[i + 1] != ']');
        let j = i + 1 + dec_nat(nsi[0]).len();
        lemma_char_at(s, j, num_tail_text(nsi.drop_first()), 0);
        if ns.drop_first().len() == 0 {
        } else {
            assert(num_tail_text(nsi.drop_first())[0] == ',');
        }
        assert(!is_digit(s[j]));
        lemma_parse_u32_of_dec(s, i + 1, ns[0]);
        lemma_parse_num_tail(s, j, ns.drop_first());
        assert(seq![ns[0]] + ns.drop_first() =~= ns);
    }
}

/// A pattern scalar word reads back as its pattern.
pub proof fn lemma_pattern_of_text(p: crate::pattern::PatternV)
    ensures
        pattern_of_text(pattern_text(p)) == Some(p),
{
    let t = pattern_text(p);
    let id: u32 = match p {
        crate::pattern::PatternV::Material(id) => id,
        crate::pattern::PatternV::Group(id) => id,
    };
    let d = dec_nat(id as int);
    lemma_dec_nat_digits(id as int);
    assert(t == d.push(if p is Material {
        'm'
    } else {
        'g'
    }));
    assert(t.len() == d.len() + 1);
    assert(forall|k: int| 0 <= k < d.len() ==> t[k] == d[k]);
    assert(!is_digit('m') && !is_digit('g'));
    assert(!is_digit(t[d.len() as int]));
    assert(has_at(t, 0, d)) by {
        assert(t.subrange(0, d.len() as int) =~= d);
    }
    lemma_parse_u32_of_dec(t, 0, id);
}

/// A quoted pattern scalar reads back as its pattern.
pub proof fn lemma_parse_pattern(s: Seq<char>, i: int, p: crate::pattern::PatternV)
    requires
        has_at(s, i, quoted(pattern_text(p))),
    ensures
        parse_pattern_at(s, i) == Some((p, i + quoted(pattern_text(p)).len())),
{
    lemma_parse_quoted_of_quoted(s, i, pattern_text(p));
    lemma_pattern_of_text(p);
}

/// A boolean text reads back as its value.
pub proof fn lemma_parse_bool(s: Seq<char>, i: int, b: bool)
    requires
        has_at(s, i, bool_text(b)),
    ensures
        parse_bool_at(s, i) == Some((b, i + bool_text(b).len())),
{
    if !b {
        if has_at(s, i, bool_text(true)) {
            lemma_char_at(s, i, bool_text(true), 0);
            lemma_char_at(s, i, bool_text(false), 0);
        }
    }
}

/// A count operator's text reads back as the operator.
pub proof fn lemma_parse_op(s: Seq<char>, i: int, op: crate::condition::OperatorV)
    requires
        has_at(s, i, ser_op(op)),
    ensures
        parse_op_at(s, i) == Some((op, i + ser_op(op).len())),
{
    reveal_strlit("{ List = ");
    reveal_strlit("{ Greater = ");
    reveal_strlit("{ Less = ");
    reveal_strlit(" }");
    match op {
        crate::condition::OperatorV::List(vs) => {
            let ns = vs.map_values(|v: u8| v as u32);
            let nsi = ns.map_values(|v: u32| v as int);
            let vsi = vs.map_values(|v: u8| v as int);
            assert(nsi =~= vsi);
            let x = ser_num_list(vsi);
            lemma_has_at_split(s, i, "{ List = "@ + x, " }"@);
            lemma_has_at_split(s, i, "{ List = "@, x);
            lemma_parse_num_list(s, i + "{ List = "@.len(), ns);
            assert(forall|k: int| 0 <= k < ns.len() ==> ns[k] <= 255);
            assert(ns.map_values(|n: u32| n as u8) =~= vs);
        },
        crate::condition::OperatorV::Greater(b) => {
            let x = dec_nat(b as int);
            lemma_has_at_split(s, i, "{ Greater = "@ + x, " }"@);
            lemma_has_at_split(s, i, "{ Greater = "@, x);
            if has_at(s, i, "{ List = "@) {
                lemma_char_at(s, i, "{ List = "@, 2);
                lemma_char_at(s, i, "{ Greater = "@, 2);
            }
            let j = i + "{ Greater = "@.len() + x.len();
            lemma_char_at(s, j, " }"@, 0);
            assert(!is_digit(' '));
            lemma_parse_u32_of_dec(s, i + "{ Greater = "@.len(), b as u32);
        },
        crate::condition::OperatorV::Less(b) => {
            let x = dec_nat(b as int);
            lemma_has_at_split(s, i, "{ Less = "@ + x, " }"@);
            lemma_has_at_split(s, i, "{ Less = "@, x);
            if has_at(s, i, "{ List = "@) {
                lemma_char_at(s, i, "{ List = "@, 3);
                lemma_char_at(s, i, "{ Less = "@, 3);
            }
            if has_at(s, i, "{ Greater = "@) {
                lemma_char_at(s, i, "{ Greater = "@, 2);
                lemma_char_at(s, i, "{ Less = "@, 2);
            }
            let j = i + "{ Less = "@.len() + x.len();
            lemma_char_at(s, j, " }"@, 0);
            assert(!is_digit(' '));
            lemma_parse_u32_of_dec(s, i + "{ Less = "@.len(), b as u32);
        },
    }
}

/// A condition variant's text reads back as the variant.
pub proof fn lemma_parse_variant(s: Seq<char>, i: int, v: crate::condition::ConditionVariantV)
    requires
        has_at(s, i, ser_variant(v)),
    ensures
        parse_variant_at(s, i) == Some((v, i + ser_variant(v).len())),
{
    reveal_strlit("{ Directional = ");
    reveal_strlit("{ Count = ");
    reveal_strlit(" }");
    match v {
        crate::condition::ConditionVariantV::Directional(dirs) => {
            let x = ser_dir_list(dirs);
            lemma_has_at_split(s, i, "{ Directional = "@ + x, " }"@);
            lemma_has_at_split(s, i, "{ Directional = "@, x);
            lemma_parse_dir_list(s, i + "{ Directional = "@.len(), dirs);
        },
        crate::condition::ConditionVariantV::Count(op) => {
            let x = ser_op(op);
            lemma_has_at_split(s, i, "{ Count = "@ + x, " }"@);
            lemma_has_at_split(s, i, "{ Count = "@, x);
            if has_at(s, i, "{ Directional = "@) {
                lemma_char_at(s, i, "{ Directional = "@, 2);
                lemma_char_at(s, i, "{ Count = "@, 2);
            }
            lemma_parse_op(s, i + "{ Count = "@.len(), op);
        },
    }
}

/// A condition's text reads back as the condition.
pub proof fn lemma_parse_condition(s: Seq<char>, i: int, c: crate::condition::ConditionV)
    requires
        has_at(s, i, ser_condition(c)),
    ensures
        parse_condition_at(s, i) == Some((c, i + ser_condition(c).len())),
{
    reveal_strlit("{ variant = ");
    reveal_strlit(", pattern = ");
    reveal_strlit(", inverted = ");
    reveal_strlit(" }");
    let v = ser_variant(c.variant);
    let q = quoted(pattern_text(c.pattern));
    let b = bool_text(c.inverted);
    let p1 = "{ variant = "@;
    let p2 = ", pattern = "@;
    let p3 = ", inverted = "@;
    let p4 = " }"@;
    lemma_has_at_split(s, i, p1 + v + p2 + q + p3 + b, p4);
    lemma_has_at_split(s, i, p1 + v + p2 + q + p3, b);
    lemma_has_at_split(s, i, p1 + v + p2 + q, p3);
    lemma_has_at_split(s, i, p1 + v + p2, q);
    lemma_has_at_split(s, i, p1 + v, p2);
    lemma_has_at_split(s, i, p1, v);
    lemma_parse_variant(s, i + p1.len(), c.variant);
    lemma_parse_pattern(s, i + p1.len() + v.len() + p2.len(), c.pattern);
    lemma_parse_bool(s, i + p1.len() + v.len() + p2.len() + q.len() + p3.len(), c.inverted);
}

/// The rest of a condition list after an item.
pub open spec fn cond_tail_text(cs: Seq<crate::condition::ConditionV>) -> Seq<char>
    decreases cs.len(),
{
    if cs.len() == 0 {
        seq![']']
    } else {
        seq![',', ' '] + ser_condition(cs[0]) + cond_tail_text(cs.drop_first())
    }
}

/// A nonempty condition-list body with its closer splits into the first
/// condition and the rest.
pub proof fn lemma_cond_body_decomp(cs: Seq<crate::condition::ConditionV>)
    requires
        cs.len() > 0,
    ensures
        ser_cond_body(cs) + seq![']'] == ser_condition(cs[0]) + cond_tail_text(cs.drop_first()),
    decreases cs.len(),
{
    if cs.len() == 1 {
        assert(ser_cond_body(cs) + seq![']'] =~= ser_condition(cs[0]) + cond_tail_text(
            cs.drop_first(),
        ));
    } else {
        let rest = cs.drop_first();
        lemma_cond_body_decomp(rest);
        assert(cond_tail_text(rest) =~= seq![',', ' '] + ser_condition(rest[0]) + cond_tail_text(
            rest.drop_first(),
        ));
        assert(ser_cond_body(cs) + seq![']'] =~= ser_condition(cs[0]) + (seq![',', ' '] + (
        ser_cond_body(rest) + seq![']'])));
        assert(ser_condition(cs[0]) + (seq![',', ' '] + (ser_condition(rest[0]) + cond_tail_text(
            rest.drop_first(),
        ))) =~= ser_condition(cs[0]) + cond_tail_text(rest));
    }
}

/// The tail of a condition list reads back as its items.
pub proof fn lemma_parse_cond_tail(s: Seq<char>, i: int, cs: Seq<crate::condition::ConditionV>)
    requires
        has_at(s, i, cond_tail_text(cs)),
    ensures
        parse_cond_tail_at(s, i) == Some((cs, i + cond_tail_text(cs).len())),
    decreases cs.len(),
{
    reveal_strlit("{ variant = ");
    if cs.len() == 0 {
        lemma_char_at(s, i, cond_tail_text(cs), 0);
    } else {
        let c0 = cs[0];
        let rest = cs.drop_first();
        assert(cond_tail_text(cs) == seq![',', ' '] + ser_condition(c0) + cond_tail_text(rest));
        lemma_has_at_split(s, i, seq![',', ' '] + ser_condition(c0), cond_tail_text(rest));
        lemma_has_at_split(s, i, seq![',', ' '], ser_condition(c0));
        lemma_char_at(s, i, seq![',', ' '], 0);
        lemma_char_at(s, i, seq![',', ' '], 1);
        let j = i + 2 + ser_condition(c0).len();
        lemma_char_at(s, j, cond_tail_text(rest), 0);
        if rest.len() == 0 {
        } else {
            assert(cond_tail_text(rest)[0] == ',');
        }
        lemma_parse_condition(s, i + 2, c0);
        lemma_parse_cond_tail(s, j, rest);
        assert(seq![c0] + rest =~= cs);
    }
}

/// A whole condition list reads back as its items.
#[verifier::rlimit(100)]
#[verifier::spinoff_prover]
pub proof fn lemma_parse_cond_list(s: Seq<char>, i: int, cs: Seq<crate::condition::ConditionV>)
    requires
        has_at(s, i, ser_cond_list(cs)),
    ensures
        parse_cond_list_at(s, i) == Some((cs, i + ser_cond_list(cs).len())),
{
    reveal_strlit("{ variant = ");
    let t = ser_cond_list(cs);
    lemma_char_at(s, i, t, 0);
    if cs.len() == 0 {
        assert(t =~= seq!['[', ']']);
        lemma_char_at(s, i, t, 1);
    } else {
        lemma_cond_body_decomp(cs);
        assert(t =~= seq!['['] + (ser_condition(cs[0]) + cond_tail_text(cs.drop_first())));
        lemma_has_at_split(s, i, seq!['['], ser_condition(cs[0]) + cond_tail_text(
            cs.drop_first(),
        ));
        lemma_has_at_split(s, i + 1, ser_condition(cs[0]), cond_tail_text(cs.drop_first()));
        let p1 = "{ variant = "@;
        assert(ser_condition(cs[0]) =~= p1 + (ser_variant(cs[0].variant) + ", pattern = "@
            + quoted(pattern_text(cs[0].pattern)) + ", inverted = "@ + bool_text(cs[0].inverted)
            + " }"@));
        lemma_has_at_split(
            s,
            i + 1,
            p1,
            ser_variant(cs[0].variant) + ", pattern = "@ + quoted(pattern_text(cs[0].pattern))
                + ", inverted = "@ + bool_text(cs[0].inverted) + " }"@,
        );
        lemma_char_at(s, i + 1, p1, 0);
        assert(s[i + 1] == '{');
        assert(i + 1 < s.len());
        lemma_parse_condition(s, i + 1, cs[0]);
        let j = i + 1 + ser_condition(cs[0]).len();
        lemma_char_at(s, j, cond_tail_text(cs.drop_first()), 0);
        if cs.drop_first().len() == 0 {
        } else {
            assert(cond_tail_text(cs.drop_first())[0] == ',');
        }
        lemma_parse_cond_tail(s, j, cs.drop_first());
        assert(seq![cs[0]] + cs.drop_first() =~= cs);
    }
}

/// A material section reads back as its material.
pub proof fn lemma_parse_material(s: Seq<char>, i: int, m: crate::material::MaterialV)
    requires
        has_at(s, i, ser_material(m)),
    ensures
        parse_material_at(s, i) == Some((m, i + ser_material(m).len())),
{
    reveal_strlit("\n[[materials]]\nid = ");
    reveal_strlit("\nname = ");
    reveal_strlit("\ncolor = ");
    reveal_strlit("\n");
    let p1 = "\n[[materials]]\nid = "@;
    let p2 = "\nname = "@;
    let p3 = "\ncolor = "@;
    let p4 = "\n"@;
    let d = dec_nat(m.id as int);
    let qn = quoted(m.name);
    let qc = quoted(crate::material::spec_color_text(m.color));
    lemma_has_at_split(s, i, p1 + d + p2 + qn + p3 + qc, p4);
    lemma_has_at_split(s, i, p1 + d + p2 + qn + p3, qc);
    lemma_has_at_split(s, i, p1 + d + p2 + qn, p3);
    lemma_has_at_split(s, i, p1 + d + p2, qn);
    lemma_has_at_split(s, i, p1 + d, p2);
    lemma_has_at_split(s, i, p1, d);
    lemma_char_at(s, i + p1.len() + d.len(), p2, 0);
    assert(!is_digit('\n'));
    lemma_parse_u32_of_dec(s, i + p1.len(), m.id);
    lemma_parse_quoted_of_quoted(s, i + p1.len() + d.len() + p2.len(), m.name);
    lemma_parse_quoted_of_quoted(
        s,
        i + p1.len() + d.len() + p2.len() + qn.len() + p3.len(),
        crate::material::spec_color_text(m.color),
    );
    crate::material::lemma_color_text_round_trip(m.color);
}

/// A group section reads back as its group.
pub proof fn lemma_parse_group(s: Seq<char>, i: int, g: crate::material::GroupV)
    requires
        has_at(s, i, ser_group(g)),
    ensures
        parse_group_at(s, i) == Some((g, i + ser_group(g).len())),
{
    reveal_strlit("\n[[groups]]\nid = ");
    reveal_strlit("\nname = ");
    reveal_strlit("\nmaterials = ");
    reveal_strlit("\n");
    let p1 = "\n[[groups]]\nid = "@;
    let p2 = "\nname = "@;
    let p3 = "\nmaterials = "@;
    let p4 = "\n"@;
    let d = dec_nat(g.id as int);
    let qn = quoted(g.name);
    let ml = ser_num_list(g.members.map_values(|v: u32| v as int));
    lemma_has_at_split(s, i, p1 + d + p2 + qn + p3 + ml, p4);
    lemma_has_at_split(s, i, p1 + d + p2 + qn + p3, ml);
    lemma_has_at_split(s, i, p1 + d + p2 + qn, p3);
    lemma_has_at_split(s, i, p1 + d + p2, qn);
    lemma_has_at_split(s, i, p1 + d, p2);
    lemma_has_at_split(s, i, p1, d);
    lemma_char_at(s, i + p1.len() + d.len(), p2, 0);
    assert(!is_digit('\n'));
    lemma_parse_u32_of_dec(s, i + p1.len(), g.id);
    lemma_parse_quoted_of_quoted(s, i + p1.len() + d.len() + p2.len(), g.name);
    lemma_parse_num_list(
        s,
        i + p1.len() + d.len() + p2.len() + qn.len() + p3.len(),
        g.members,
    );
}

/// A rule section reads back as its rule.
pub proof fn lemma_parse_rule(s: Seq<char>, i: int, r: crate::ruleset::RuleV)
    requires
        has_at(s, i, ser_rule(r)),
    ensures
        parse_rule_at(s, i) == Some((r, i + ser_rule(r).len())),
{
    reveal_strlit("\n[[rules]]\ninput = ");
    reveal_strlit("\noutput = ");
    reveal_strlit("\nconditions = ");
    reveal_strlit("\n");
    let p1 = "\n[[rules]]\ninput = "@;
    let p2 = "\noutput = "@;
    let p3 = "\nconditions = "@;
    let p4 = "\n"@;
    let qi = quoted(pattern_text(r.input));
    let d = dec_nat(r.output as int);
    let cl = ser_cond_list(r.conditions);
    lemma_has_at_split(s, i, p1 + qi + p2 + d + p3 + cl, p4);
    lemma_has_at_split(s, i, p1 + qi + p2 + d + p3, cl);
    lemma_has_at_split(s, i, p1 + qi + p2 + d, p3);
    lemma_has_at_split(s, i, p1 + qi + p2, d);
    lemma_has_at_split(s, i, p1 + qi, p2);
    lemma_has_at_split(s, i, p1, qi);
    lemma_parse_pattern(s, i + p1.len(), r.input);
    lemma_char_at(s, i + p1.len() + qi.len() + p2.len() + d.len(), p3, 0);
    assert(!is_digit('\n'));
    lemma_parse_u32_of_dec(s, i + p1.len() + qi.len() + p2.len(), r.output);
    lemma_parse_cond_list(s, i + p1.len() + qi.len() + p2.len() + d.len() + p3.len(),
        r.conditions);
}

/// Material sections read back as their materials, stopping where the
/// section header no longer stands.
pub proof fn lemma_parse_materials(s: Seq<char>, i: int, ms: Seq<crate::material::MaterialV>)
    requires
        has_at(s, i, ser_materials(ms)),
        !has_at(s, i + ser_materials(ms).len(), "\n[[materials]]\nid = "@),
    ensures
        parse_materials_at(s, i) == Some((ms, i + ser_materials(ms).len())),
    decreases ms.len(),
{
    reveal_strlit("\n[[materials]]\nid = ");
    if ms.len() == 0 {
        assert(ser_materials(ms).len() == 0);
    } else {
        let m0 = ms[0];
        let rest = ms.drop_first();
        lemma_has_at_split(s, i, ser_material(m0), ser_materials(rest));
        let p1 = "\n[[materials]]\nid = "@;
        assert(ser_material(m0) =~= p1 + (dec_nat(m0.id as int) + "\nname = "@ + quoted(m0.name)
            + "\ncolor = "@ + quoted(crate::material::spec_color_text(m0.color)) + "\n"@));
        lemma_has_at_split(s, i, p1, dec_nat(m0.id as int) + "\nname = "@ + quoted(m0.name)
            + "\ncolor = "@ + quoted(crate::material::spec_color_text(m0.color)) + "\n"@);
        lemma_parse_material(s, i, m0);
        let j = i + ser_material(m0).len();
        assert(j > i);
        lemma_parse_materials(s, j, rest);
        assert(seq![m0] + rest =~= ms);
    }
}

/// Group sections read back as their groups.
pub proof fn lemma_parse_groups(s: Seq<char>, i: int, gs: Seq<crate::material::GroupV>)
    requires
        has_at(s, i, ser_groups(gs)),
        !has_at(s, i + ser_groups(gs).len(), "\n[[groups]]\nid = "@),
    ensures
        parse_groups_at(s, i) == Some((gs, i + ser_groups(gs).len())),
    decreases gs.len(),
{
    reveal_strlit("\n[[groups]]\nid = ");
    if gs.len() == 0 {
        assert(ser_groups(gs).len() == 0);
    } else {
        let g0 = gs[0];
        let rest = gs.drop_first();
        lemma_has_at_split(s, i, ser_group(g0), ser_groups(rest));
        let p1 = "\n[[groups]]\nid = "@;
        assert(ser_group(g0) =~= p1 + (dec_nat(g0.id as int) + "\nname = "@ + quoted(g0.name)
            + "\nmaterials = "@ + ser_num_list(g0.members.map_values(|v: u32| v as int))
            + "\n"@));
        lemma_has_at_split(s, i, p1, dec_nat(g0.id as int) + "\nname = "@ + quoted(g0.name)
            + "\nmaterials = "@ + ser_num_list(g0.members.map_values(|v: u32| v as int))
            + "\n"@);
        lemma_parse_group(s, i, g0);
        let j = i + ser_group(g0).len();
        assert(j > i);
        lemma_parse_groups(s, j, rest);
        assert(seq![g0] + rest =~= gs);
    }
}

/// Rule sections read back as their rules.
#[verifier::rlimit(100)]
pub proof fn lemma_parse_rules(s: Seq<char>, i: int, rs: Seq<crate::ruleset::RuleV>)
    requires
        has_at(s, i, ser_rules(rs)),
        !has_at(s, i + ser_rules(rs).len(), "\n[[rules]]\ninput = "@),
    ensures
        parse_rules_at(s, i) == Some((rs, i + ser_rules(rs).len())),
    decreases rs.len(),
{
    reveal_strlit("\n[[rules]]\ninput = ");
    if rs.len() == 0 {
        assert(ser_rules(rs).len() == 0);
    } else {
        let r0 = rs[0];
        let rest = rs.drop_first();
        lemma_has_at_split(s, i, ser_rule(r0), ser_rules(rest));
        let p1 = "\n[[rules]]\ninput = "@;
        assert(ser_rule(r0) =~= p1 + (quoted(pattern_text(r0.input)) + "\noutput = "@ + dec_nat(
            r0.output as int,
        ) + "\nconditions = "@ + ser_cond_list(r0.conditions) + "\n"@));
        lemma_has_at_split(s, i, p1, quoted(pattern_text(r0.input)) + "\noutput = "@ + dec_nat(
            r0.output as int,
        ) + "\nconditions = "@ + ser_cond_list(r0.conditions) + "\n"@);
        lemma_parse_rule(s, i, r0);
        let j = i + ser_rule(r0).len();
        assert(j > i);
        lemma_parse_rules(s, j, rest);
        assert(seq![r0] + rest =~= rs);
    }
}


/// A group section starts with the group header.
pub proof fn lemma_group_header(s: Seq<char>, i: int, g: crate::material::GroupV)
    requires
        has_at(s, i, ser_group(g)),
    ensures
        has_at(s, i, "\n[[groups]]\nid = "@),
{
    let hg = "\n[[groups]]\nid = "@;
    assert(ser_group(g) =~= hg + (dec_nat(g.id as int) + "\nname = "@ + quoted(g.name)
        + "\nmaterials = "@ + ser_num_list(g.members.map_values(|v: u32| v as int)) + "\n"@));
    lemma_has_at_split(s, i, hg, dec_nat(g.id as int) + "\nname = "@ + quoted(g.name)
        + "\nmaterials = "@ + ser_num_list(g.members.map_values(|v: u32| v as int)) + "\n"@);
}

/// A rule section starts with the rule header.
pub proof fn lemma_rule_header(s: Seq<char>, i: int, r: crate::ruleset::RuleV)
    requires
        has_at(s, i, ser_rule(r)),
    ensures
        has_at(s, i, "\n[[rules]]\ninput = "@),
{
    let hr = "\n[[rules]]\ninput = "@;
    assert(ser_rule(r) =~= hr + (quoted(pattern_text(r.input)) + "\noutput = "@ + dec_nat(
        r.output as int,
    ) + "\nconditions = "@ + ser_cond_list(r.conditions) + "\n"@));
    lemma_has_at_split(s, i, hr, quoted(pattern_text(r.input)) + "\noutput = "@ + dec_nat(
        r.output as int,
    ) + "\nconditions = "@ + ser_cond_list(r.conditions) + "\n"@);
}

/// Nonempty group sections start with the group header.
pub proof fn lemma_groups_header(s: Seq<char>, i: int, gs: Seq<crate::material::GroupV>)
    requires
        has_at(s, i, ser_groups(gs)),
        gs.len() > 0,
    ensures
        has_at(s, i, "\n[[groups]]\nid = "@),
{
    lemma_has_at_split(s, i, ser_group(gs[0]), ser_groups(gs.drop_first()));
    lemma_group_header(s, i, gs[0]);
}

/// Nonempty rule sections start with the rule header.
pub proof fn lemma_rules_header(s: Seq<char>, i: int, rs: Seq<crate::ruleset::RuleV>)
    requires
        has_at(s, i, ser_rules(rs)),
        rs.len() > 0,
    ensures
        has_at(s, i, "\n[[rules]]\ninput = "@),
{
    lemma_has_at_split(s, i, ser_rule(rs[0]), ser_rules(rs.drop_first()));
    lemma_rule_header(s, i, rs[0]);
}

/// Decoding the encoded text of any rule set yields that rule set: the
/// round trip is the identity.
#[verifier::rlimit(100)]
#[verifier::spinoff_prover]
pub proof fn lemma_ruleset_round_trip(rv: crate::ruleset::RulesetV)
    ensures
        parse_ruleset_text(ser_ruleset(rv)) == Some(rv),
{
    reveal_strlit("name = ");
    reveal_strlit("\n");
    reveal_strlit("\n[[materials]]\nid = ");
    reveal_strlit("\n[[groups]]\nid = ");
    reveal_strlit("\n[[rules]]\ninput = ");
    let s = ser_ruleset(rv);
    let p1 = "name = "@;
    let nl = "\n"@;
    let qn = quoted(rv.name);
    let m = ser_materials(rv.materials);
    let g = ser_groups(rv.groups);
    let r = ser_rules(rv.rules);
    assert(has_at(s, 0, s)) by {
        assert(s.subrange(0, s.len() as int) =~= s);
    }
    lemma_has_at_split(s, 0, p1 + qn + nl + m + g, r);
    lemma_has_at_split(s, 0, p1 + qn + nl + m, g);
    lemma_has_at_split(s, 0, p1 + qn + nl, m);
    lemma_has_at_split(s, 0, p1 + qn, nl);
    lemma_has_at_split(s, 0, p1, qn);
    lemma_parse_quoted_of_quoted(s, p1.len() as int, rv.name);
    let j: int = p1.len() as int + qn.len() as int;
    let e_m: int = j + 1 + m.len() as int;
    let e_g: int = e_m + g.len() as int;
    let e_r: int = e_g + r.len() as int;
    assert(e_r == s.len());
    let hm = "\n[[materials]]\nid = "@;
    let hg = "\n[[groups]]\nid = "@;
    let hr = "\n[[rules]]\ninput = "@;
    // After the material sections nothing looks like another material
    // section: a group or rule header differs, and the end is too short.
    if has_at(s, e_m, hm) {
        if rv.groups.len() > 0 {
            lemma_groups_header(s, e_m, rv.groups);
            lemma_char_at(s, e_m, hm, 3);
            lemma_char_at(s, e_m, hg, 3);
            assert(false);
        } else if rv.rules.len() > 0 {
            assert(g.len() == 0);
            lemma_rules_header(s, e_m, rv.rules);
            lemma_char_at(s, e_m, hm, 3);
            lemma_char_at(s, e_m, hr, 3);
            assert(false);
        } else {
            assert(e_m == s.len());
            assert(false);
        }
    }
    lemma_parse_materials(s, j + 1, rv.materials);
    // After the group sections: a rule header differs, the end is too
    // short.
    if has_at(s, e_g, hg) {
        if rv.rules.len() > 0 {
            lemma_rules_header(s, e_g, rv.rules);
            lemma_char_at(s, e_g, hg, 3);
            lemma_char_at(s, e_g, hr, 3);
            assert(false);
        } else {
            assert(e_g == s.len());
            assert(false);
        }
    }
    lemma_parse_groups(s, e_m, rv.groups);
    if has_at(s, e_r, hr) {
        assert(false);
    }
    lemma_parse_rules(s, e_g, rv.rules);
    assert(parse_ruleset_text(s) == Some(
        crate::ruleset::RulesetV {
            name: rv.name,
            rules: rv.rules,
            materials: rv.materials,
            groups: rv.groups,
        },
    ));
    assert(crate::ruleset::RulesetV {
        name: rv.name,
        rules: rv.rules,
        materials: rv.materials,
        groups: rv.groups,
    } == rv);
}

/// Escaping one more character extends the escaped text at its end.
pub proof fn lemma_esc_snoc(a: Seq<char>, c: char)
    ensures
        esc(a.push(c)) == esc(a) + esc_char(c),
    decreases a.len(),
{
    let x = a.push(c);
    assert(x.len() == a.len() + 1);
    if a.len() == 0 {
        assert(x[0] == c);
        assert(x.drop_first() =~= Seq::<char>::empty());
        assert(esc(x) == esc_char(c) + esc(Seq::<char>::empty()));
        assert(a =~= Seq::<char>::empty());
        assert(esc(a) == Seq::<char>::empty());
        assert(esc(x) =~= esc(a) + esc_char(c));
    } else {
        assert(x[0] == a[0]);
        assert(x.drop_first() =~= a.drop_first().push(c));
        lemma_esc_snoc(a.drop_first(), c);
        assert(esc(x) == esc_char(a[0]) + (esc(a.drop_first()) + esc_char(c)));
        assert(esc_char(a[0]) + (esc(a.drop_first()) + esc_char(c)) =~= (esc_char(a[0]) + esc(
            a.drop_first(),
        )) + esc_char(c));
        assert(esc(x) =~= esc(a) + esc_char(c));
    }
}

/// Relies on String::push: appends exactly the one character.
#[verifier::external_body]
fn push_char(out: &mut String, c: char)
    ensures
        final(out)@ == old(out)@.push(c),
{
    out.push(c);
}

/// The characters of a piece of text, in order.
pub fn string_to_chars(text: &str) -> (r: Vec<char>)
    ensures
        r@ == text@,
{
    let n = text.unicode_len();
    let mut out: Vec<char> = Vec::new();
    let mut k: usize = 0;
    while k < n
        invariant
            n == text@.len(),
            0 <= k <= n,
            out@.len() == k,
            forall|i: int| 0 <= i < k ==> out@[i] == text@[i],
        decreases n - k,
    {
        out.push(text.get_char(k));
        k = k + 1;
    }
    proof {
        assert(out@ =~= text@);
    }
    out
}

/// Append the decimal text of a number.
fn push_dec(out: &mut String, n: u32)
    ensures
        final(out)@ == old(out)@ + dec_nat(n as int),
    decreases n,
{
    if n < 10 {
        out.append(crate::material::hex_digit_str(n as usize));
        proof {
            assert(out@ =~= old(out)@ + dec_nat(n as int));
        }
    } else {
        push_dec(out, n / 10);
        out.append(crate::material::hex_digit_str((n % 10) as usize));
        proof {
            assert(out@ =~= old(out)@ + dec_nat(n as int));
        }
    }
}

/// Append text in quotes, escaping what must not stand raw.
fn push_quoted(out: &mut String, text: &str)
    ensures
        final(out)@ == old(out)@ + quoted(text@),
{
    out.append("\"");
    proof {
        reveal_strlit("\"");
        assert(text@.take(0) =~= Seq::<char>::empty());
        assert(out@ =~= old(out)@ + seq!['"'] + esc(text@.take(0)));
    }
    let n = text.unicode_len();
    let mut k: usize = 0;
    while k < n
        invariant
            n == text@.len(),
            0 <= k <= n,
            out@ == old(out)@ + seq!['"'] + esc(text@.take(k as int)),
        decreases n - k,
    {
        let c = text.get_char(k);
        if c == '"' {
            out.append("\\\"");
            proof {
                reveal_strlit("\\\"");
            }
        } else if c == '\\' {
            out.append("\\\\");
            proof {
                reveal_strlit("\\\\");
            }
        } else if c == '\n' {
            out.append("\\n");
            proof {
                reveal_strlit("\\n");
            }
        } else if c == '\t' {
            out.append("\\t");
            proof {
                reveal_strlit("\\t");
            }
        } else if c == '\r' {
            out.append("\\r");
            proof {
                reveal_strlit("\\r");
            }
        } else {
            push_char(out, c);
        }
        proof {
            let prev = text@.take(k as int);
            assert(text@.take(k as int + 1) =~= prev.push(text@[k as int]));
            lemma_esc_snoc(prev, text@[k as int]);
            assert(out@ =~= old(out)@ + seq!['"'] + esc(text@.take(k as int + 1)));
        }
        k = k + 1;
    }
    out.append("\"");
    proof {
        reveal_strlit("\"");
        assert(text@.take(n as int) =~= text@);
        assert(out@ =~= old(out)@ + quoted(text@));
    }
}

/// Append the scalar text of a pattern, in quotes.
fn push_pattern(out: &mut String, p: Pattern)
    ensures
        final(out)@ == old(out)@ + quoted(pattern_text(p@)),
{
    out.append("\"");
    match p {
        Pattern::Material(id) => {
            push_dec(out, id.get());
            out.append("m");
        },
        Pattern::Group(id) => {
            push_dec(out, id.get());
            out.append("g");
        },
    }
    out.append("\"");
    proof {
        reveal_strlit("\"");
        reveal_strlit("m");
        reveal_strlit("g");
        let t = pattern_text(p@);
        lemma_dec_nat_digits(match p@ {
            crate::pattern::PatternV::Material(id) => id as int,
            crate::pattern::PatternV::Group(id) => id as int,
        });
        lemma_esc_of_plain(t);
        assert(out@ =~= old(out)@ + quoted(t));
    }
}

/// Text without quotes, backslashes or control characters escapes to
/// itself.
pub proof fn lemma_esc_of_plain(t: Seq<char>)
    requires
        forall|k: int|
            0 <= k < t.len() ==> t[k] != '"' && t[k] != '\\' && t[k] != '\n' && t[k] != '\t'
                && t[k] != '\r',
    ensures
        esc(t) == t,
    decreases t.len(),
{
    if t.len() == 0 {
        assert(esc(t) =~= t);
    } else {
        lemma_esc_of_plain(t.drop_first());
        assert(esc(t) =~= t);
    }
}

/// The scalar text of a pattern holds only digits and a kind letter.
pub proof fn lemma_pattern_text_plain(p: crate::pattern::PatternV)
    ensures
        forall|k: int|
            0 <= k < pattern_text(p).len() ==> #[trigger] pattern_text(p)[k] != '"'
                && pattern_text(p)[k] != '\\' && pattern_text(p)[k] != '\n' && pattern_text(
                p,
            )[k] != '\t' && pattern_text(p)[k] != '\r',
{
    let t = pattern_text(p);
    let id: int = match p {
        crate::pattern::PatternV::Material(id) => id as int,
        crate::pattern::PatternV::Group(id) => id as int,
    };
    lemma_dec_nat_digits(id);
    assert forall|k: int| 0 <= k < t.len() implies #[trigger] t[k] != '"' && t[k] != '\\'
        && t[k] != '\n' && t[k] != '\t' && t[k] != '\r' by {
        if k < t.len() - 1 {
            assert(t[k] == dec_nat(id)[k]);
            assert(is_digit(t[k]));
        }
    }
}

/// Append the persisted name of a direction.
fn push_dir_name(out: &mut String, d: crate::condition::Direction)
    ensures
        final(out)@ == old(out)@ + dir_name(d),
{
    match d {
        crate::condition::Direction::Northwest => {
            out.append("Northwest");
            proof {
                reveal_strlit("Northwest");
                assert(out@ =~= old(out)@ + dir_name(d));
            }
        },
        crate::condition::Direction::North => {
            out.append("North");
            proof {
                reveal_strlit("North");
                assert(out@ =~= old(out)@ + dir_name(d));
            }
        },
        crate::condition::Direction::Northeast => {
            out.append("Northeast");
            proof {
                reveal_strlit("Northeast");
                assert(out@ =~= old(out)@ + dir_name(d));
            }
        },
        crate::condition::Direction::West => {
            out.append("West");
            proof {
                reveal_strlit("West");
                assert(out@ =~= old(out)@ + dir_name(d));
            }
        },
        crate::condition::Direction::East => {
            out.append("East");
            proof {
                reveal_strlit("East");
                assert(out@ =~= old(out)@ + dir_name(d));
            }
        },
        crate::condition::Direction::Southwest => {
            out.append("Southwest");
            proof {
                reveal_strlit("Southwest");
                assert(out@ =~= old(out)@ + dir_name(d));
            }
        },
        crate::condition::Direction::South => {
            out.append("South");
            proof {
                reveal_strlit("South");
                assert(out@ =~= old(out)@ + dir_name(d));
            }
        },
        crate::condition::Direction::Southeast => {
            out.append("Southeast");
            proof {
                reveal_strlit("Southeast");
                assert(out@ =~= old(out)@ + dir_name(d));
            }
        },
    }
}

/// Append the items of a direction list from position `k` on.
fn push_dir_body(out: &mut String, dirs: &Vec<crate::condition::Direction>, k: usize)
    requires
        k <= dirs@.len(),
    ensures
        final(out)@ == old(out)@ + ser_dir_body(dirs@.skip(k as int)),
    decreases dirs@.len() - k,
{
    let n = dirs.len();
    if k == n {
        proof {
            assert(dirs@.skip(k as int).len() == 0);
            assert(out@ =~= old(out)@ + ser_dir_body(dirs@.skip(k as int)));
        }
    } else if k + 1 == n {
        push_dir_name(out, dirs[k]);
        proof {
            assert(dirs@.skip(k as int).len() == 1);
            assert(dirs@.skip(k as int)[0] == dirs@[k as int]);
            assert(out@ =~= old(out)@ + ser_dir_body(dirs@.skip(k as int)));
        }
    } else {
        push_dir_name(out, dirs[k]);
        out.append(", ");
        push_dir_body(out, dirs, k + 1);
        proof {
            reveal_strlit(", ");
            assert(", "@ =~= seq![',', ' ']);
            let t = dirs@.skip(k as int);
            assert(t[0] == dirs@[k as int]);
            assert(t.drop_first() =~= dirs@.skip(k as int + 1));
            assert(out@ =~= old(out)@ + ser_dir_body(t));
        }
    }
}

/// Append a whole direction list.
fn push_dir_list(out: &mut String, dirs: &Vec<crate::condition::Direction>)
    ensures
        final(out)@ == old(out)@ + ser_dir_list(dirs@),
{
    out.append("[");
    push_dir_body(out, dirs, 0);
    out.append("]");
    proof {
        reveal_strlit("[");
        reveal_strlit("]");
        assert(dirs@.skip(0) =~= dirs@);
        assert(out@ =~= old(out)@ + ser_dir_list(dirs@));
    }
}

/// Append the items of a count list from position `k` on.
fn push_u8_body(out: &mut String, vs: &Vec<u8>, k: usize)
    requires
        k <= vs@.len(),
    ensures
        final(out)@ == old(out)@ + ser_num_body(vs@.map_values(|v: u8| v as int).skip(k as int)),
    decreases vs@.len() - k,
{
    let ghost m = vs@.map_values(|v: u8| v as int);
    let n = vs.len();
    if k == n {
        proof {
            assert(m.skip(k as int).len() == 0);
            assert(out@ =~= old(out)@ + ser_num_body(m.skip(k as int)));
        }
    } else if k + 1 == n {
        push_dec(out, vs[k] as u32);
        proof {
            assert(m.skip(k as int).len() == 1);
            assert(m.skip(k as int)[0] == m[k as int]);
            assert(out@ =~= old(out)@ + ser_num_body(m.skip(k as int)));
        }
    } else {
        push_dec(out, vs[k] as u32);
        out.append(", ");
        push_u8_body(out, vs, k + 1);
        proof {
            reveal_strlit(", ");
            assert(", "@ =~= seq![',', ' ']);
            let t = m.skip(k as int);
            assert(t[0] == m[k as int]);
            assert(t.drop_first() =~= m.skip(k as int + 1));
            assert(out@ =~= old(out)@ + ser_num_body(t));
        }
    }
}

/// Append the member handles of a group from position `k` on.
fn push_id_body(out: &mut String, ids: &Vec<crate::material::MaterialId>, k: usize)
    requires
        k <= ids@.len(),
    ensures
        final(out)@ == old(out)@ + ser_num_body(
            ids@.map_values(|m: crate::material::MaterialId| m@ as int).skip(k as int),
        ),
    decreases ids@.len() - k,
{
    let ghost m = ids@.map_values(|mm: crate::material::MaterialId| mm@ as int);
    let n = ids.len();
    if k == n {
        proof {
            assert(m.skip(k as int).len() == 0);
            assert(out@ =~= old(out)@ + ser_num_body(m.skip(k as int)));
        }
    } else if k + 1 == n {
        push_dec(out, ids[k].get());
        proof {
            assert(m.skip(k as int).len() == 1);
            assert(m.skip(k as int)[0] == m[k as int]);
            assert(out@ =~= old(out)@ + ser_num_body(m.skip(k as int)));
        }
    } else {
        push_dec(out, ids[k].get());
        out.append(", ");
        push_id_body(out, ids, k + 1);
        proof {
            reveal_strlit(", ");
            assert(", "@ =~= seq![',', ' ']);
            let t = m.skip(k as int);
            assert(t[0] == m[k as int]);
            assert(t.drop_first() =~= m.skip(k as int + 1));
            assert(out@ =~= old(out)@ + ser_num_body(t));
        }
    }
}

/// Append a count operator.
fn push_op(out: &mut String, op: &crate::condition::Operator)
    ensures
        final(out)@ == old(out)@ + ser_op(op@),
{
    match op {
        crate::condition::Operator::List(vs) => {
            out.append("{ List = [");
            push_u8_body(out, vs, 0);
            out.append("] }");
            proof {
                reveal_strlit("{ List = [");
                reveal_strlit("{ List = ");
                reveal_strlit("[");
                reveal_strlit("] }");
                reveal_strlit("]");
                reveal_strlit(" }");
                let m = vs@.map_values(|v: u8| v as int);
                assert(m.skip(0) =~= m);
                assert(out@ =~= old(out)@ + ser_op(op@));
            }
        },
        crate::condition::Operator::Greater(b) => {
            out.append("{ Greater = ");
            push_dec(out, *b as u32);
            out.append(" }");
            proof {
                reveal_strlit("{ Greater = ");
                reveal_strlit(" }");
                assert(out@ =~= old(out)@ + ser_op(op@));
            }
        },
        crate::condition::Operator::Less(b) => {
            out.append("{ Less = ");
            push_dec(out, *b as u32);
            out.append(" }");
            proof {
                reveal_strlit("{ Less = ");
                reveal_strlit(" }");
                assert(out@ =~= old(out)@ + ser_op(op@));
            }
        },
    }
}

/// Append a condition variant.
fn push_variant(out: &mut String, v: &crate::condition::ConditionVariant)
    ensures
        final(out)@ == old(out)@ + ser_variant(v@),
{
    match v {
        crate::condition::ConditionVariant::Directional(dirs) => {
            out.append("{ Directional = ");
            push_dir_list(out, dirs);
            out.append(" }");
            proof {
                reveal_strlit("{ Directional = ");
                reveal_strlit(" }");
                assert(out@ =~= old(out)@ + ser_variant(v@));
            }
        },
        crate::condition::ConditionVariant::Count(op) => {
            out.append("{ Count = ");
            push_op(out, op);
            out.append(" }");
            proof {
                reveal_strlit("{ Count = ");
                reveal_strlit(" }");
                assert(out@ =~= old(out)@ + ser_variant(v@));
            }
        },
    }
}

/// Append one condition.
fn push_condition(out: &mut String, c: &crate::condition::Condition)
    ensures
        final(out)@ == old(out)@ + ser_condition(c@),
{
    out.append("{ variant = ");
    push_variant(out, &c.variant);
    out.append(", pattern = ");
    push_pattern(out, c.pattern);
    out.append(", inverted = ");
    if c.inverted {
        out.append("true");
    } else {
        out.append("false");
    }
    out.append(" }");
    proof {
        reveal_strlit("{ variant = ");
        reveal_strlit(", pattern = ");
        reveal_strlit(", inverted = ");
        reveal_strlit("true");
        reveal_strlit("false");
        reveal_strlit(" }");
        assert("true"@ =~= bool_text(true));
        assert("false"@ =~= bool_text(false));
        assert(out@ =~= old(out)@ + ser_condition(c@));
    }
}

/// Append the items of a condition list from position `k` on.
fn push_cond_body(out: &mut String, cs: &Vec<crate::condition::Condition>, k: usize)
    requires
        k <= cs@.len(),
    ensures
        final(out)@ == old(out)@ + ser_cond_body(
            cs@.map_values(|c: crate::condition::Condition| c@).skip(k as int),
        ),
    decreases cs@.len() - k,
{
    let ghost m = cs@.map_values(|c: crate::condition::Condition| c@);
    let n = cs.len();
    if k == n {
        proof {
            assert(m.skip(k as int).len() == 0);
            assert(out@ =~= old(out)@ + ser_cond_body(m.skip(k as int)));
        }
    } else if k + 1 == n {
        push_condition(out, &cs[k]);
        proof {
            assert(m.skip(k as int).len() == 1);
            assert(m.skip(k as int)[0] == m[k as int]);
            assert(out@ =~= old(out)@ + ser_cond_body(m.skip(k as int)));
        }
    } else {
        push_condition(out, &cs[k]);
        out.append(", ");
        push_cond_body(out, cs, k + 1);
        proof {
            reveal_strlit(", ");
            assert(", "@ =~= seq![',', ' ']);
            let t = m.skip(k as int);
            assert(t[0] == m[k as int]);
            assert(t.drop_first() =~= m.skip(k as int + 1));
            assert(out@ =~= old(out)@ + ser_cond_body(t));
        }
    }
}

/// Append one material section.
fn push_material(out: &mut String, m: &crate::material::Material)
    ensures
        final(out)@ == old(out)@ + ser_material(m@),
{
    out.append("\n[[materials]]\nid = ");
    push_dec(out, m.id);
    out.append("\nname = ");
    push_quoted(out, m.name.as_str());
    out.append("\ncolor = \"");
    let hex = m.color.hex_string();
    out.append(hex.as_str());
    out.append("\"\n");
    proof {
        reveal_strlit("\n[[materials]]\nid = ");
        reveal_strlit("\nname = ");
        reveal_strlit("\ncolor = \"");
        reveal_strlit("\ncolor = ");
        reveal_strlit("\"\n");
        reveal_strlit("\"");
        reveal_strlit("\n");
        lemma_color_text_plain(m.color);
        lemma_esc_of_plain(crate::material::spec_color_text(m.color));
        assert(out@ =~= old(out)@ + ser_material(m@));
    }
}

/// The text form of a color holds only a hash sign and digits.
pub proof fn lemma_color_text_plain(c: crate::material::MaterialColor)
    ensures
        forall|k: int|
            0 <= k < crate::material::spec_color_text(c).len()
                ==> #[trigger] crate::material::spec_color_text(c)[k] != '"'
                && crate::material::spec_color_text(c)[k] != '\\'
                && crate::material::spec_color_text(c)[k] != '\n'
                && crate::material::spec_color_text(c)[k] != '\t'
                && crate::material::spec_color_text(c)[k] != '\r',
{
    let t = crate::material::spec_color_text(c);
    assert forall|k: int| 0 <= k < t.len() implies #[trigger] t[k] != '"' && t[k] != '\\'
        && t[k] != '\n' && t[k] != '\t' && t[k] != '\r' by {
        assert(forall|n: int| 0 <= n < 16 ==> #[trigger] crate::material::hex_digit(n) != '"');
        assert(t.len() == 7);
    }
}

/// Append one group section.
fn push_group(out: &mut String, g: &crate::material::MaterialGroup)
    ensures
        final(out)@ == old(out)@ + ser_group(g@),
{
    out.append("\n[[groups]]\nid = ");
    push_dec(out, g.id);
    out.append("\nname = ");
    push_quoted(out, g.name.as_str());
    out.append("\nmaterials = [");
    push_id_body(out, &g.materials, 0);
    out.append("]\n");
    proof {
        reveal_strlit("\n[[groups]]\nid = ");
        reveal_strlit("\nname = ");
        reveal_strlit("\nmaterials = [");
        reveal_strlit("\nmaterials = ");
        reveal_strlit("[");
        reveal_strlit("]\n");
        reveal_strlit("]");
        reveal_strlit("\n");
        let m = g.materials@.map_values(|mm: crate::material::MaterialId| mm@ as int);
        assert(m.skip(0) =~= m);
        assert(g@.members.map_values(|v: u32| v as int) =~= m);
        assert(out@ =~= old(out)@ + ser_group(g@));
    }
}

/// Append one rule section.
fn push_rule(out: &mut String, r: &crate::ruleset::Rule)
    ensures
        final(out)@ == old(out)@ + ser_rule(r@),
{
    out.append("\n[[rules]]\ninput = ");
    push_pattern(out, r.input);
    out.append("\noutput = ");
    push_dec(out, r.output.get());
    out.append("\nconditions = [");
    push_cond_body(out, &r.conditions, 0);
    out.append("]\n");
    proof {
        reveal_strlit("\n[[rules]]\ninput = ");
        reveal_strlit("\noutput = ");
        reveal_strlit("\nconditions = [");
        reveal_strlit("\nconditions = ");
        reveal_strlit("[");
        reveal_strlit("]\n");
        reveal_strlit("]");
        reveal_strlit("\n");
        let m = r.conditions@.map_values(|c: crate::condition::Condition| c@);
        assert(m.skip(0) =~= m);
        assert(out@ =~= old(out)@ + ser_rule(r@));
    }
}

/// Append the material sections from position `k` on.
fn push_materials(out: &mut String, ms: &Vec<crate::material::Material>, k: usize)
    requires
        k <= ms@.len(),
    ensures
        final(out)@ == old(out)@ + ser_materials(
            ms@.map_values(|m: crate::material::Material| m@).skip(k as int),
        ),
    decreases ms@.len() - k,
{
    let ghost m = ms@.map_values(|mm: crate::material::Material| mm@);
    if k == ms.len() {
        proof {
            assert(m.skip(k as int).len() == 0);
            assert(out@ =~= old(out)@ + ser_materials(m.skip(k as int)));
        }
    } else {
        push_material(out, &ms[k]);
        push_materials(out, ms, k + 1);
        proof {
            let t = m.skip(k as int);
            assert(t[0] == m[k as int]);
            assert(t.drop_first() =~= m.skip(k as int + 1));
            assert(out@ =~= old(out)@ + ser_materials(t));
        }
    }
}

/// Append the group sections from position `k` on.
fn push_groups(out: &mut String, gs: &Vec<crate::material::MaterialGroup>, k: usize)
    requires
        k <= gs@.len(),
    ensures
        final(out)@ == old(out)@ + ser_groups(
            gs@.map_values(|g: crate::material::MaterialGroup| g@).skip(k as int),
        ),
    decreases gs@.len() - k,
{
    let ghost m = gs@.map_values(|gg: crate::material::MaterialGroup| gg@);
    if k == gs.len() {
        proof {
            assert(m.skip(k as int).len() == 0);
            assert(out@ =~= old(out)@ + ser_groups(m.skip(k as int)));
        }
    } else {
        push_group(out, &gs[k]);
        push_groups(out, gs, k + 1);
        proof {
            let t = m.skip(k as int);
            assert(t[0] == m[k as int]);
            assert(t.drop_first() =~= m.skip(k as int + 1));
            assert(out@ =~= old(out)@ + ser_groups(t));
        }
    }
}

/// Append the rule sections from position `k` on.
fn push_rules(out: &mut String, rs: &Vec<crate::ruleset::Rule>, k: usize)
    requires
        k <= rs@.len(),
    ensures
        final(out)@ == old(out)@ + ser_rules(
            rs@.map_values(|r: crate::ruleset::Rule| r@).skip(k as int),
        ),
    decreases rs@.len() - k,
{
    let ghost m = rs@.map_values(|rr: crate::ruleset::Rule| rr@);
    if k == rs.len() {
        proof {
            assert(m.skip(k as int).len() == 0);
            assert(out@ =~= old(out)@ + ser_rules(m.skip(k as int)));
        }
    } else {
        push_rule(out, &rs[k]);
        push_rules(out, rs, k + 1);
        proof {
            let t = m.skip(k as int);
            assert(t[0] == m[k as int]);
            assert(t.drop_first() =~= m.skip(k as int + 1));
            assert(out@ =~= old(out)@ + ser_rules(t));
        }
    }
}

/// Encode a whole rule set as its canonical text.
pub fn serialize_ruleset(rs: &crate::ruleset::Ruleset) -> (r: String)
    ensures
        r@ == ser_ruleset(rs@),
{
    let mut out = String::new();
    out.append("name = ");
    push_quoted(&mut out, rs.name.as_str());
    out.append("\n");
    push_materials(&mut out, rs.materials.entries_vec(), 0);
    push_groups(&mut out, &rs.groups, 0);
    push_rules(&mut out, &rs.rules, 0);
    proof {
        reveal_strlit("name = ");
        reveal_strlit("\n");
        assert(rs.materials@.skip(0) =~= rs.materials@);
        assert(rs.groups@.map_values(|g: crate::material::MaterialGroup| g@).skip(0)
            =~= rs.groups@.map_values(|g: crate::material::MaterialGroup| g@));
        assert(rs.rules@.map_values(|r: crate::ruleset::Rule| r@).skip(0) =~= rs.rules@.map_values(
            |r: crate::ruleset::Rule| r@,
        ));
        assert(out@ =~= ser_ruleset(rs@));
    }
    out
}

/// Errors of decoding persisted text.
#[derive(Debug, Clone, Copy, PartialEq, Eq, Structural)]
pub enum DecodeError {
    /// The document does not have the expected shape.
    Malformed,
    /// A pattern scalar has a malformed number or kind suffix.
    InvalidPatternToken,
}

/// Whether the text of `lit` stands at position `i` of `v`.
fn at_lit(v: &Vec<char>, i: usize, lit: &str) -> (r: bool)
    ensures
        r == has_at(v@, i as int, lit@),
{
    let m = lit.unicode_len();
    let n = v.len();
    if i > n || m > n - i {
        return false;
    }
    let mut k: usize = 0;
    while k < m
        invariant
            m == lit@.len(),
            n == v@.len(),
            i + m <= n,
            0 <= k <= m,
            forall|j: int| 0 <= j < k ==> v@[i + j] == lit@[j],
        decreases m - k,
    {
        if v[i + k] != lit.get_char(k) {
            proof {
                if has_at(v@, i as int, lit@) {
                    lemma_char_at(v@, i as int, lit@, k as int);
                }
            }
            return false;
        }
        k = k + 1;
    }
    proof {
        assert(v@.subrange(i as int, i + m) =~= lit@);
    }
    true
}

/// Everything before `digits_end` is a digit, and `digits_end` lies
/// between `i` and the end.
proof fn lemma_digits_end_props(s: Seq<char>, i: int)
    requires
        0 <= i <= s.len(),
    ensures
        i <= digits_end(s, i) <= s.len(),
        forall|k: int| i <= k < digits_end(s, i) ==> is_digit(s[k]),
        digits_end(s, i) == s.len() || !is_digit(s[digits_end(s, i)]),
    decreases s.len() - i,
{
    if i < s.len() && is_digit(s[i]) {
        lemma_digits_end_props(s, i + 1);
    }
}

/// The value of a digit run is nonnegative.
proof fn lemma_digits_val_nonneg(s: Seq<char>, i: int, j: int)
    requires
        i <= j,
        forall|k: int| i <= k < j ==> is_digit(s[k]),
    ensures
        digits_val(s, i, j) >= 0,
    decreases j - i,
{
    if i < j {
        lemma_digits_val_nonneg(s, i, j - 1);
    }
}

/// The value of a digit run only grows as the run extends.
proof fn lemma_digits_val_mono(s: Seq<char>, i: int, j: int, m: int)
    requires
        i <= j <= m,
        forall|k: int| i <= k < m ==> is_digit(s[k]),
    ensures
        digits_val(s, i, j) <= digits_val(s, i, m),
    decreases m - j,
{
    if j < m {
        lemma_digits_val_mono(s, i, j, m - 1);
        lemma_digits_val_nonneg(s, i, m - 1);
    }
}

/// Whether `c` is a decimal digit.
fn is_digit_char(c: char) -> (r: bool)
    ensures
        r == is_digit(c),
{
    let u = c as u32;
    48 <= u && u <= 57
}

/// Read a decimal number at position `i`, greedily.
fn parse_u32_ex(v: &Vec<char>, i: usize) -> (r: Option<(u32, usize)>)
    requires
        i <= v@.len(),
    ensures
        match r {
            Some((x, j)) => parse_u32_at(v@, i as int) == Some((x, j as int)) && i < j <= v@.len(),
            None => parse_u32_at(v@, i as int) is None,
        },
{
    let n = v.len();
    let mut j: usize = i;
    let mut acc: u64 = 0;
    while j < n && is_digit_char(v[j])
        invariant
            n == v@.len(),
            i <= j <= n,
            forall|k: int| i <= k < j ==> is_digit(v@[k]),
            acc == digits_val(v@, i as int, j as int),
            acc <= u32::MAX as u64,
        decreases n - j,
    {
        let d: u64 = (v[j] as u32 - 48) as u64;
        let nd: u64 = acc * 10 + d;
        if nd > u32::MAX as u64 {
            proof {
                lemma_digits_end_props(v@, i as int);
                let e = digits_end(v@, i as int);
                lemma_digits_end_at(v@, i as int, e);
                if e <= j as int {
                    assert(is_digit(v@[e]));
                    assert(false);
                }
                lemma_digits_val_mono(v@, i as int, j + 1, e);
                assert(digits_val(v@, i as int, j + 1) == nd);
                assert(digits_val(v@, i as int, e) > u32::MAX);
            }
            return None;
        }
        acc = nd;
        j = j + 1;
    }
    proof {
        lemma_digits_end_at(v@, i as int, j as int);
    }
    if j == i {
        None
    } else {
        Some((acc as u32, j))
    }
}

/// Read a quoted piece of text at position `i`, unescaping its body.
fn parse_quoted_ex(v: &Vec<char>, i: usize) -> (r: Option<(String, usize)>)
    ensures
        match r {
            Some((t, j)) => parse_quoted_at(v@, i as int) == Some((t@, j as int)),
            None => parse_quoted_at(v@, i as int) is None,
        },
{
    let n = v.len();
    if i >= n || v[i] != '"' {
        return None;
    }
    let mut acc = String::new();
    let mut cur: usize = i + 1;
    loop
        invariant
            n == v@.len(),
            i < n,
            v@[i as int] == '"',
            i + 1 <= cur,
            cur <= n + 2,
            match parse_qbody_at(v@, cur as int) {
                Some((t, j)) => parse_qbody_at(v@, i + 1) == Some((acc@ + t, j)),
                None => parse_qbody_at(v@, i + 1) is None,
            },
        decreases n - cur,
    {
        if cur >= n {
            return None;
        }
        let c = v[cur];
        if c == '"' {
            proof {
                assert(acc@ + Seq::<char>::empty() =~= acc@);
            }
            return Some((acc, cur + 1));
        }
        if c == '\\' {
            if cur + 1 >= n {
                return None;
            }
            let c2 = v[cur + 1];
            let u: char = if c2 == '"' {
                '"'
            } else if c2 == '\\' {
                '\\'
            } else if c2 == 'n' {
                '\n'
            } else if c2 == 't' {
                '\t'
            } else if c2 == 'r' {
                '\r'
            } else {
                return None;
            };
            let ghost prev = acc@;
            push_char(&mut acc, u);
            proof {
                assert(unesc_char(v@[cur as int + 1]) == Some(u));
                if parse_qbody_at(v@, cur as int + 2) is Some {
                    let (t, j) = parse_qbody_at(v@, cur as int + 2).unwrap();
                    assert(parse_qbody_at(v@, cur as int) == Some((seq![u] + t, j)));
                    assert(prev + (seq![u] + t) =~= acc@ + t);
                }
            }
            cur = cur + 2;
        } else {
            let ghost prev = acc@;
            push_char(&mut acc, c);
            proof {
                if parse_qbody_at(v@, cur as int + 1) is Some {
                    let (t, j) = parse_qbody_at(v@, cur as int + 1).unwrap();
                    assert(parse_qbody_at(v@, cur as int) == Some((seq![c] + t, j)));
                    assert(prev + (seq![c] + t) =~= acc@ + t);
                }
            }
            cur = cur + 1;
        }
    }
}

/// The persisted name of a direction as a piece of text.
fn dir_name_str(d: crate::condition::Direction) -> (r: &'static str)
    ensures
        r@ == dir_name(d),
{
    match d {
        crate::condition::Direction::Northwest => {
            proof {
                reveal_strlit("Northwest");
                assert("Northwest"@ =~= dir_name(d));
            }
            "Northwest"
        },
        crate::condition::Direction::North => {
            proof {
                reveal_strlit("North");
                assert("North"@ =~= dir_name(d));
            }
            "North"
        },
        crate::condition::Direction::Northeast => {
            proof {
                reveal_strlit("Northeast");
                assert("Northeast"@ =~= dir_name(d));
            }
            "Northeast"
        },
        crate::condition::Direction::West => {
            proof {
                reveal_strlit("West");
                assert("West"@ =~= dir_name(d));
            }
            "West"
        },
        crate::condition::Direction::East => {
            proof {
                reveal_strlit("East");
                assert("East"@ =~= dir_name(d));
            }
            "East"
        },
        crate::condition::Direction::Southwest => {
            proof {
                reveal_strlit("Southwest");
                assert("Southwest"@ =~= dir_name(d));
            }
            "Southwest"
        },
        crate::condition::Direction::South => {
            proof {
                reveal_strlit("South");
                assert("South"@ =~= dir_name(d));
            }
            "South"
        },
        crate::condition::Direction::Southeast => {
            proof {
                reveal_strlit("Southeast");
                assert("Southeast"@ =~= dir_name(d));
            }
            "Southeast"
        },
    }
}

/// Whether the word `v[i .. j)` is exactly the name of `d`.
fn word_is(v: &Vec<char>, i: usize, j: usize, d: crate::condition::Direction) -> (r: bool)
    requires
        i <= j <= v@.len(),
    ensures
        r == (v@.subrange(i as int, j as int) == dir_name(d)),
{
    let name = dir_name_str(d);
    let m = name.unicode_len();
    if j - i != m {
        proof {
            assert(v@.subrange(i as int, j as int).len() == j - i);
        }
        return false;
    }
    let r = at_lit(v, i, name);
    proof {
        if r {
            assert(v@.subrange(i as int, i + m) =~= v@.subrange(i as int, j as int));
        } else {
            if v@.subrange(i as int, j as int) == dir_name(d) {
                assert(v@.subrange(i as int, i + m) == dir_name(d));
            }
        }
    }
    r
}

/// Read one direction word at position `i`.
fn parse_dir_ex(v: &Vec<char>, i: usize) -> (r: Option<(crate::condition::Direction, usize)>)
    requires
        i <= v@.len(),
    ensures
        match r {
            Some((d, j)) => parse_dir_at(v@, i as int) == Some((d, j as int)),
            None => parse_dir_at(v@, i as int) is None,
        },
{
    let n = v.len();
    let mut j: usize = i;
    while j < n && v[j] != ',' && v[j] != ']'
        invariant
            n == v@.len(),
            i <= j <= n,
            forall|k: int| i <= k < j ==> v@[k] != ',' && v@[k] != ']',
        decreases n - j,
    {
        j = j + 1;
    }
    proof {
        lemma_word_end_at(v@, i as int, j as int);
    }
    if word_is(v, i, j, crate::condition::Direction::Northwest) {
        Some((crate::condition::Direction::Northwest, j))
    } else if word_is(v, i, j, crate::condition::Direction::North) {
        Some((crate::condition::Direction::North, j))
    } else if word_is(v, i, j, crate::condition::Direction::Northeast) {
        Some((crate::condition::Direction::Northeast, j))
    } else if word_is(v, i, j, crate::condition::Direction::West) {
        Some((crate::condition::Direction::West, j))
    } else if word_is(v, i, j, crate::condition::Direction::East) {
        Some((crate::condition::Direction::East, j))
    } else if word_is(v, i, j, crate::condition::Direction::Southwest) {
        Some((crate::condition::Direction::Southwest, j))
    } else if word_is(v, i, j, crate::condition::Direction::South) {
        Some((crate::condition::Direction::South, j))
    } else if word_is(v, i, j, crate::condition::Direction::Southeast) {
        Some((crate::condition::Direction::Southeast, j))
    } else {
        None
    }
}

/// Read the rest of a direction list: items after a comma, then the
/// closing bracket.
fn parse_dir_tail_ex(v: &Vec<char>, i: usize) -> (r: Option<(
    Vec<crate::condition::Direction>,
    usize,
)>)
    ensures
        match r {
            Some((ds, j)) => parse_dir_tail_at(v@, i as int) == Some((ds@, j as int)),
            None => parse_dir_tail_at(v@, i as int) is None,
        },
    decreases v@.len() - i,
{
    let n = v.len();
    if i >= n {
        return None;
    }
    if v[i] == ']' {
        let out: Vec<crate::condition::Direction> = Vec::new();
        proof {
            assert(out@ =~= Seq::<crate::condition::Direction>::empty());
        }
        return Some((out, i + 1));
    }
    if n - i >= 2 && v[i] == ',' && v[i + 1] == ' ' {
        match parse_dir_ex(v, i + 2) {
            None => None,
            Some((d, j)) => {
                if j <= i || j > n {
                    return None;
                }
                match parse_dir_tail_ex(v, j) {
                    None => None,
                    Some((mut rest, k)) => {
                        rest.insert(0, d);
                        proof {
                            assert(rest@ =~= seq![d] + rest@.drop_first());
                        }
                        Some((rest, k))
                    },
                }
            },
        }
    } else {
        None
    }
}

/// Read a whole direction list at position `i`.
fn parse_dir_list_ex(v: &Vec<char>, i: usize) -> (r: Option<(
    Vec<crate::condition::Direction>,
    usize,
)>)
    ensures
        match r {
            Some((ds, j)) => parse_dir_list_at(v@, i as int) == Some((ds@, j as int)),
            None => parse_dir_list_at(v@, i as int) is None,
        },
{
    let n = v.len();
    if i >= n || v[i] != '[' {
        return None;
    }
    if i + 1 < n && v[i + 1] == ']' {
        let out: Vec<crate::condition::Direction> = Vec::new();
        proof {
            assert(out@ =~= Seq::<crate::condition::Direction>::empty());
        }
        return Some((out, i + 2));
    }
    match parse_dir_ex(v, i + 1) {
        None => None,
        Some((d, j)) => {
            if j <= i || j > n {
                return None;
            }
            match parse_dir_tail_ex(v, j) {
                None => None,
                Some((mut rest, k)) => {
                    rest.insert(0, d);
                    proof {
                        assert(rest@ =~= seq![d] + rest@.drop_first());
                    }
                    Some((rest, k))
                },
            }
        },
    }
}

/// Read the rest of a number list.
fn parse_num_tail_ex(v: &Vec<char>, i: usize) -> (r: Option<(Vec<u32>, usize)>)
    ensures
        match r {
            Some((ns, j)) => parse_num_tail_at(v@, i as int) == Some((ns@, j as int)),
            None => parse_num_tail_at(v@, i as int) is None,
        },
    decreases v@.len() - i,
{
    let n = v.len();
    if i >= n {
        return None;
    }
    if v[i] == ']' {
        let out: Vec<u32> = Vec::new();
        proof {
            assert(out@ =~= Seq::<u32>::empty());
        }
        return Some((out, i + 1));
    }
    if n - i >= 2 && v[i] == ',' && v[i + 1] == ' ' {
        match parse_u32_ex(v, i + 2) {
            None => None,
            Some((x, j)) => {
                if j <= i || j > n {
                    return None;
                }
                match parse_num_tail_ex(v, j) {
                    None => None,
                    Some((mut rest, k)) => {
                        rest.insert(0, x);
                        proof {
                            assert(rest@ =~= seq![x] + rest@.drop_first());
                        }
                        Some((rest, k))
                    },
                }
            },
        }
    } else {
        None
    }
}

/// Read a whole number list at position `i`.
fn parse_num_list_ex(v: &Vec<char>, i: usize) -> (r: Option<(Vec<u32>, usize)>)
    ensures
        match r {
            Some((ns, j)) => parse_num_list_at(v@, i as int) == Some((ns@, j as int)),
            None => parse_num_list_at(v@, i as int) is None,
        },
{
    let n = v.len();
    if i >= n || v[i] != '[' {
        return None;
    }
    if i + 1 < n && v[i + 1] == ']' {
        let out: Vec<u32> = Vec::new();
        proof {
            assert(out@ =~= Seq::<u32>::empty());
        }
        return Some((out, i + 2));
    }
    match parse_u32_ex(v, i + 1) {
        None => None,
        Some((x, j)) => {
            if j <= i || j > n {
                return None;
            }
            match parse_num_tail_ex(v, j) {
                None => None,
                Some((mut rest, k)) => {
                    rest.insert(0, x);
                    proof {
                        assert(rest@ =~= seq![x] + rest@.drop_first());
                    }
                    Some((rest, k))
                },
            }
        },
    }
}

/// Read a quoted pattern scalar at position `i`.
fn parse_pattern_ex(v: &Vec<char>, i: usize) -> (r: Option<(Pattern, usize)>)
    ensures
        match r {
            Some((p, j)) => parse_pattern_at(v@, i as int) == Some((p@, j as int)),
            None => parse_pattern_at(v@, i as int) is None,
        },
{
    match parse_quoted_ex(v, i) {
        None => None,
        Some((t, j)) => {
            let w = string_to_chars(t.as_str());
            match pattern_from_chars(&w) {
                None => None,
                Some(p) => Some((p, j)),
            }
        },
    }
}

/// The pattern a whole scalar word denotes, if it denotes one.
fn pattern_from_chars(w: &Vec<char>) -> (r: Option<Pattern>)
    ensures
        match r {
            Some(p) => pattern_of_text(w@) == Some(p@),
            None => pattern_of_text(w@) is None,
        },
{
    match parse_u32_ex(w, 0) {
        None => None,
        Some((id, j)) => {
            if j != w.len() - 1 {
                return None;
            }
            let c = w[j];
            if c == 'm' {
                Some(Pattern::Material(crate::id::UniqueId::new_unchecked(id)))
            } else if c == 'g' {
                Some(Pattern::Group(crate::id::UniqueId::new_unchecked(id)))
            } else {
                None
            }
        },
    }
}

/// Read a boolean at position `i`.
fn parse_bool_ex(v: &Vec<char>, i: usize) -> (r: Option<(bool, usize)>)
    ensures
        match r {
            Some((b, j)) => parse_bool_at(v@, i as int) == Some((b, j as int)),
            None => parse_bool_at(v@, i as int) is None,
        },
{
    let n = v.len();
    proof {
        reveal_strlit("true");
        reveal_strlit("false");
        assert("true"@ =~= bool_text(true));
        assert("false"@ =~= bool_text(false));
    }
    if at_lit(v, i, "true") {
        Some((true, i + 4))
    } else if at_lit(v, i, "false") {
        Some((false, i + 5))
    } else {
        None
    }
}

/// Advance over `lit` if it stands at position `i`.
fn expect_lit(v: &Vec<char>, i: usize, lit: &str) -> (r: Option<usize>)
    ensures
        match r {
            Some(j) => has_at(v@, i as int, lit@) && j == i + lit@.len() && j <= v@.len(),
            None => !has_at(v@, i as int, lit@),
        },
{
    let n = v.len();
    let m = lit.unicode_len();
    if at_lit(v, i, lit) {
        Some(i + m)
    } else {
        None
    }
}

/// Read a count operator at position `i`.
fn parse_op_ex(v: &Vec<char>, i: usize) -> (r: Option<(crate::condition::Operator, usize)>)
    ensures
        match r {
            Some((op, j)) => parse_op_at(v@, i as int) == Some((op@, j as int)),
            None => parse_op_at(v@, i as int) is None,
        },
{
    let n = v.len();
    match expect_lit(v, i, "{ List = ") {
        Some(j0) => {
            match parse_num_list_ex(v, j0) {
                None => None,
                Some((ns, j1)) => {
                    let mut vs: Vec<u8> = Vec::new();
                    let mut k: usize = 0;
                    let nn = ns.len();
                    while k < nn
                        invariant
                            nn == ns@.len(),
                            0 <= k <= nn,
                            vs@.len() == k,
                            has_at(v@, i as int, "{ List = "@),
                            parse_num_list_at(v@, i + "{ List = "@.len()) == Some(
                                (ns@, j1 as int),
                            ),
                            forall|t: int| 0 <= t < k ==> ns@[t] <= 255,
                            forall|t: int| 0 <= t < k ==> vs@[t] == ns@[t] as u8,
                        decreases nn - k,
                    {
                        let x = ns[k];
                        if x > 255 {
                            proof {
                                assert(ns@[k as int] > 255);
                            }
                            return None;
                        }
                        vs.push(x as u8);
                        k = k + 1;
                    }
                    match expect_lit(v, j1, " }") {
                        None => None,
                        Some(j2) => {
                            proof {
                                assert(forall|t: int| 0 <= t < ns@.len() ==> ns@[t] <= 255);
                                assert(vs@ =~= ns@.map_values(|x: u32| x as u8));
                            }
                            Some((crate::condition::Operator::List(vs), j2))
                        },
                    }
                },
            }
        },
        None => match expect_lit(v, i, "{ Greater = ") {
            Some(j0) => {
                if j0 > n {
                    return None;
                }
                match parse_u32_ex(v, j0) {
                    None => None,
                    Some((x, j1)) => {
                        if x > 255 {
                            return None;
                        }
                        match expect_lit(v, j1, " }") {
                            None => None,
                            Some(j2) => Some((crate::condition::Operator::Greater(x as u8), j2)),
                        }
                    },
                }
            },
            None => match expect_lit(v, i, "{ Less = ") {
                Some(j0) => {
                    if j0 > n {
                        return None;
                    }
                    match parse_u32_ex(v, j0) {
                        None => None,
                        Some((x, j1)) => {
                            if x > 255 {
                                return None;
                            }
                            match expect_lit(v, j1, " }") {
                                None => None,
                                Some(j2) => Some((crate::condition::Operator::Less(x as u8), j2)),
                            }
                        },
                    }
                },
                None => None,
            },
        },
    }
}

/// Read a condition variant at position `i`.
fn parse_variant_ex(v: &Vec<char>, i: usize) -> (r: Option<(
    crate::condition::ConditionVariant,
    usize,
)>)
    ensures
        match r {
            Some((cv, j)) => parse_variant_at(v@, i as int) == Some((cv@, j as int)),
            None => parse_variant_at(v@, i as int) is None,
        },
{
    match expect_lit(v, i, "{ Directional = ") {
        Some(j0) => {
            match parse_dir_list_ex(v, j0) {
                None => None,
                Some((ds, j1)) => match expect_lit(v, j1, " }") {
                    None => None,
                    Some(j2) => Some((crate::condition::ConditionVariant::Directional(ds), j2)),
                },
            }
        },
        None => match expect_lit(v, i, "{ Count = ") {
            Some(j0) => {
                match parse_op_ex(v, j0) {
                    None => None,
                    Some((op, j1)) => match expect_lit(v, j1, " }") {
                        None => None,
                        Some(j2) => Some((crate::condition::ConditionVariant::Count(op), j2)),
                    },
                }
            },
            None => None,
        },
    }
}

/// Read one condition at position `i`.
fn parse_condition_ex(v: &Vec<char>, i: usize) -> (r: Option<(
    crate::condition::Condition,
    usize,
)>)
    ensures
        match r {
            Some((c, j)) => parse_condition_at(v@, i as int) == Some((c@, j as int)),
            None => parse_condition_at(v@, i as int) is None,
        },
{
    match expect_lit(v, i, "{ variant = ") {
        None => None,
        Some(j0) => match parse_variant_ex(v, j0) {
            None => None,
            Some((cv, j1)) => match expect_lit(v, j1, ", pattern = ") {
                None => None,
                Some(j2) => match parse_pattern_ex(v, j2) {
                    None => None,
                    Some((p, j3)) => match expect_lit(v, j3, ", inverted = ") {
                        None => None,
                        Some(j4) => match parse_bool_ex(v, j4) {
                            None => None,
                            Some((b, j5)) => match expect_lit(v, j5, " }") {
                                None => None,
                                Some(j6) => Some(
                                    (
                                        crate::condition::Condition {
                                            variant: cv,
                                            pattern: p,
                                            inverted: b,
                                        },
                                        j6,
                                    ),
                                ),
                            },
                        },
                    },
                },
            },
        },
    }
}

/// Read the rest of a condition list.
fn parse_cond_tail_ex(v: &Vec<char>, i: usize) -> (r: Option<(
    Vec<crate::condition::Condition>,
    usize,
)>)
    ensures
        match r {
            Some((cs, j)) => parse_cond_tail_at(v@, i as int) == Some(
                (cs@.map_values(|c: crate::condition::Condition| c@), j as int),
            ),
            None => parse_cond_tail_at(v@, i as int) is None,
        },
    decreases v@.len() - i,
{
    let n = v.len();
    if i >= n {
        return None;
    }
    if v[i] == ']' {
        let out: Vec<crate::condition::Condition> = Vec::new();
        proof {
            assert(out@.map_values(|c: crate::condition::Condition| c@) =~= Seq::<
                crate::condition::ConditionV,
            >::empty());
        }
        return Some((out, i + 1));
    }
    if n - i >= 2 && v[i] == ',' && v[i + 1] == ' ' {
        match parse_condition_ex(v, i + 2) {
            None => None,
            Some((c, j)) => {
                if j <= i || j > n {
                    return None;
                }
                match parse_cond_tail_ex(v, j) {
                    None => None,
                    Some((mut rest, k)) => {
                        let ghost cv = c@;
                        let ghost restv = rest@.map_values(|cc: crate::condition::Condition| cc@);
                        rest.insert(0, c);
                        proof {
                            assert(rest@.map_values(|cc: crate::condition::Condition| cc@)
                                =~= seq![cv] + restv);
                        }
                        Some((rest, k))
                    },
                }
            },
        }
    } else {
        None
    }
}

/// Read a whole condition list at position `i`.
fn parse_cond_list_ex(v: &Vec<char>, i: usize) -> (r: Option<(
    Vec<crate::condition::Condition>,
    usize,
)>)
    ensures
        match r {
            Some((cs, j)) => parse_cond_list_at(v@, i as int) == Some(
                (cs@.map_values(|c: crate::condition::Condition| c@), j as int),
            ),
            None => parse_cond_list_at(v@, i as int) is None,
        },
{
    let n = v.len();
    if i >= n || v[i] != '[' {
        return None;
    }
    if i + 1 < n && v[i + 1] == ']' {
        let out: Vec<crate::condition::Condition> = Vec::new();
        proof {
            assert(out@.map_values(|c: crate::condition::Condition| c@) =~= Seq::<
                crate::condition::ConditionV,
            >::empty());
        }
        return Some((out, i + 2));
    }
    match parse_condition_ex(v, i + 1) {
        None => None,
        Some((c, j)) => {
            if j <= i || j > n {
                return None;
            }
            match parse_cond_tail_ex(v, j) {
                None => None,
                Some((mut rest, k)) => {
                    let ghost cv = c@;
                    let ghost restv = rest@.map_values(|cc: crate::condition::Condition| cc@);
                    rest.insert(0, c);
                    proof {
                        assert(rest@.map_values(|cc: crate::condition::Condition| cc@) =~= seq![cv]
                            + restv);
                    }
                    Some((rest, k))
                },
            }
        },
    }
}

/// Read one material section at position `i`.
fn parse_material_ex(v: &Vec<char>, i: usize) -> (r: Option<(crate::material::Material, usize)>)
    ensures
        match r {
            Some((m, j)) => parse_material_at(v@, i as int) == Some((m@, j as int)),
            None => parse_material_at(v@, i as int) is None,
        },
{
    match expect_lit(v, i, "\n[[materials]]\nid = ") {
        None => None,
        Some(j0) => match parse_u32_ex(v, j0) {
            None => None,
            Some((id, j1)) => match expect_lit(v, j1, "\nname = ") {
                None => None,
                Some(j2) => match parse_quoted_ex(v, j2) {
                    None => None,
                    Some((name, j3)) => match expect_lit(v, j3, "\ncolor = ") {
                        None => None,
                        Some(j4) => match parse_quoted_ex(v, j4) {
                            None => None,
                            Some((ctext, j5)) => match crate::material::MaterialColor::parse_hex(
                                ctext.as_str(),
                            ) {
                                Err(_) => None,
                                Ok(color) => match expect_lit(v, j5, "\n") {
                                    None => None,
                                    Some(j6) => Some(
                                        (crate::material::Material::from_parts(id, name, color), j6),
                                    ),
                                },
                            },
                        },
                    },
                },
            },
        },
    }
}

/// Read one group section at position `i`.
fn parse_group_ex(v: &Vec<char>, i: usize) -> (r: Option<(
    crate::material::MaterialGroup,
    usize,
)>)
    ensures
        match r {
            Some((g, j)) => parse_group_at(v@, i as int) == Some((g@, j as int)),
            None => parse_group_at(v@, i as int) is None,
        },
{
    match expect_lit(v, i, "\n[[groups]]\nid = ") {
        None => None,
        Some(j0) => match parse_u32_ex(v, j0) {
            None => None,
            Some((id, j1)) => match expect_lit(v, j1, "\nname = ") {
                None => None,
                Some(j2) => match parse_quoted_ex(v, j2) {
                    None => None,
                    Some((name, j3)) => match expect_lit(v, j3, "\nmaterials = ") {
                        None => None,
                        Some(j4) => match parse_num_list_ex(v, j4) {
                            None => None,
                            Some((ids, j5)) => match expect_lit(v, j5, "\n") {
                                None => None,
                                Some(j6) => {
                                    let mut member_ids: Vec<crate::material::MaterialId> =
                                        Vec::new();
                                    let mut k: usize = 0;
                                    let nn = ids.len();
                                    while k < nn
                                        invariant
                                            nn == ids@.len(),
                                            0 <= k <= nn,
                                            member_ids@.len() == k,
                                            forall|t: int|
                                                0 <= t < k ==> member_ids@[t]@ == ids@[t],
                                        decreases nn - k,
                                    {
                                        member_ids.push(
                                            crate::id::UniqueId::new_unchecked(ids[k]),
                                        );
                                        k = k + 1;
                                    }
                                    let g = crate::material::MaterialGroup::from_parts(
                                        id,
                                        name,
                                        member_ids,
                                    );
                                    proof {
                                        assert(g@.members =~= ids@);
                                    }
                                    Some((g, j6))
                                },
                            },
                        },
                    },
                },
            },
        },
    }
}

/// Read one rule section at position `i`.
fn parse_rule_ex(v: &Vec<char>, i: usize) -> (r: Option<(crate::ruleset::Rule, usize)>)
    ensures
        match r {
            Some((ru, j)) => parse_rule_at(v@, i as int) == Some((ru@, j as int)),
            None => parse_rule_at(v@, i as int) is None,
        },
{
    match expect_lit(v, i, "\n[[rules]]\ninput = ") {
        None => None,
        Some(j0) => match parse_pattern_ex(v, j0) {
            None => None,
            Some((input, j1)) => match expect_lit(v, j1, "\noutput = ") {
                None => None,
                Some(j2) => match parse_u32_ex(v, j2) {
                    None => None,
                    Some((output, j3)) => match expect_lit(v, j3, "\nconditions = ") {
                        None => None,
                        Some(j4) => match parse_cond_list_ex(v, j4) {
                            None => None,
                            Some((conditions, j5)) => match expect_lit(v, j5, "\n") {
                                None => None,
                                Some(j6) => Some(
                                    (
                                        crate::ruleset::Rule {
                                            input,
                                            output: crate::id::UniqueId::new_unchecked(output),
                                            conditions,
                                        },
                                        j6,
                                    ),
                                ),
                            },
                        },
                    },
                },
            },
        },
    }
}

/// Read the material sections from position `i` on.
fn parse_materials_ex(v: &Vec<char>, i: usize) -> (r: Option<(
    Vec<crate::material::Material>,
    usize,
)>)
    ensures
        match r {
            Some((ms, j)) => parse_materials_at(v@, i as int) == Some(
                (ms@.map_values(|m: crate::material::Material| m@), j as int),
            ),
            None => parse_materials_at(v@, i as int) is None,
        },
    decreases v@.len() - i,
{
    let n = v.len();
    if !at_lit(v, i, "\n[[materials]]\nid = ") {
        let out: Vec<crate::material::Material> = Vec::new();
        proof {
            assert(out@.map_values(|m: crate::material::Material| m@) =~= Seq::<
                crate::material::MaterialV,
            >::empty());
        }
        return Some((out, i));
    }
    match parse_material_ex(v, i) {
        None => None,
        Some((m, j)) => {
            if j <= i || j > n {
                return None;
            }
            match parse_materials_ex(v, j) {
                None => None,
                Some((mut rest, k)) => {
                    let ghost mv = m@;
                    let ghost restv = rest@.map_values(|mm: crate::material::Material| mm@);
                    rest.insert(0, m);
                    proof {
                        assert(rest@.map_values(|mm: crate::material::Material| mm@) =~= seq![mv]
                            + restv);
                    }
                    Some((rest, k))
                },
            }
        },
    }
}

/// Read the group sections from position `i` on.
fn parse_groups_ex(v: &Vec<char>, i: usize) -> (r: Option<(
    Vec<crate::material::MaterialGroup>,
    usize,
)>)
    ensures
        match r {
            Some((gs, j)) => parse_groups_at(v@, i as int) == Some(
                (gs@.map_values(|g: crate::material::MaterialGroup| g@), j as int),
            ),
            None => parse_groups_at(v@, i as int) is None,
        },
    decreases v@.len() - i,
{
    let n = v.len();
    if !at_lit(v, i, "\n[[groups]]\nid = ") {
        let out: Vec<crate::material::MaterialGroup> = Vec::new();
        proof {
            assert(out@.map_values(|g: crate::material::MaterialGroup| g@) =~= Seq::<
                crate::material::GroupV,
            >::empty());
        }
        return Some((out, i));
    }
    match parse_group_ex(v, i) {
        None => None,
        Some((g, j)) => {
            if j <= i || j > n {
                return None;
            }
            match parse_groups_ex(v, j) {
                None => None,
                Some((mut rest, k)) => {
                    let ghost gv = g@;
                    let ghost restv = rest@.map_values(|gg: crate::material::MaterialGroup| gg@);
                    rest.insert(0, g);
                    proof {
                        assert(rest@.map_values(|gg: crate::material::MaterialGroup| gg@)
                            =~= seq![gv] + restv);
                    }
                    Some((rest, k))
                },
            }
        },
    }
}

/// Read the rule sections from position `i` on.
fn parse_rules_ex(v: &Vec<char>, i: usize) -> (r: Option<(Vec<crate::ruleset::Rule>, usize)>)
    ensures
        match r {
            Some((rs, j)) => parse_rules_at(v@, i as int) == Some(
                (rs@.map_values(|ru: crate::ruleset::Rule| ru@), j as int),
            ),
            None => parse_rules_at(v@, i as int) is None,
        },
    decreases v@.len() - i,
{
    let n = v.len();
    if !at_lit(v, i, "\n[[rules]]\ninput = ") {
        let out: Vec<crate::ruleset::Rule> = Vec::new();
        proof {
            assert(out@.map_values(|ru: crate::ruleset::Rule| ru@) =~= Seq::<
                crate::ruleset::RuleV,
            >::empty());
        }
        return Some((out, i));
    }
    match parse_rule_ex(v, i) {
        None => None,
        Some((ru, j)) => {
            if j <= i || j > n {
                return None;
            }
            match parse_rules_ex(v, j) {
                None => None,
                Some((mut rest, k)) => {
                    let ghost rv = ru@;
                    let ghost restv = rest@.map_values(|rr: crate::ruleset::Rule| rr@);
                    rest.insert(0, ru);
                    proof {
                        assert(rest@.map_values(|rr: crate::ruleset::Rule| rr@) =~= seq![rv]
                            + restv);
                    }
                    Some((rest, k))
                },
            }
        },
    }
}

/// Decode a whole rule set from its persisted text. Succeeds exactly on
/// documents of the canonical shape; in particular on everything the
/// encoder emits.
pub fn deserialize_ruleset(text: &str) -> (r: Result<
    crate::ruleset::Ruleset,
    DecodeError,
>)
    ensures
        match r {
            Ok(rs) => parse_ruleset_text(text@) == Some(rs@),
            Err(_) => parse_ruleset_text(text@) is None,
        },
{
    proof {
        reveal_strlit("\n");
    }
    let v = string_to_chars(text);
    let n = v.len();
    match expect_lit(&v, 0, "name = ") {
        None => Err(DecodeError::Malformed),
        Some(j0) => match parse_quoted_ex(&v, j0) {
            None => Err(DecodeError::Malformed),
            Some((name, j1)) => match expect_lit(&v, j1, "\n") {
                None => Err(DecodeError::Malformed),
                Some(j2) => match parse_materials_ex(&v, j2) {
                    None => Err(DecodeError::Malformed),
                    Some((materials, j3)) => match parse_groups_ex(&v, j3) {
                        None => Err(DecodeError::Malformed),
                        Some((groups, j4)) => match parse_rules_ex(&v, j4) {
                            None => Err(DecodeError::Malformed),
                            Some((rules, j5)) => {
                                if j5 != n {
                                    return Err(DecodeError::Malformed);
                                }
                                let rs = crate::ruleset::Ruleset {
                                    name,
                                    rules,
                                    materials: crate::material::MaterialMap::new_unchecked(
                                        materials,
                                    ),
                                    groups,
                                };
                                Ok(rs)
                            },
                        },
                    },
                },
            },
        },
    }
}

/// Encode one material as its section text.
pub fn serialize_material(m: &crate::material::Material) -> (r: String)
    ensures
        r@ == ser_material(m@),
{
    let mut out = String::new();
    push_material(&mut out, m);
    out
}

/// Decode one material from its section text; the text must hold exactly
/// one section.
pub fn deserialize_material(text: &str) -> (r: Result<crate::material::Material, DecodeError>)
    ensures
        match r {
            Ok(m) => parse_material_at(text@, 0) == Some((m@, text@.len() as int)),
            Err(_) => parse_material_at(text@, 0) is None || parse_material_at(
                text@,
                0,
            ).unwrap().1 != text@.len(),
        },
{
    let v = string_to_chars(text);
    match parse_material_ex(&v, 0) {
        None => Err(DecodeError::Malformed),
        Some((m, j)) => {
            if j == v.len() {
                Ok(m)
            } else {
                Err(DecodeError::Malformed)
            }
        },
    }
}

/// Encode one rule as its section text.
pub fn serialize_rule(r: &crate::ruleset::Rule) -> (out: String)
    ensures
        out@ == ser_rule(r@),
{
    let mut out = String::new();
    push_rule(&mut out, r);
    out
}

/// Decode one rule from its section text; the text must hold exactly one
/// section.
pub fn deserialize_rule(text: &str) -> (r: Result<crate::ruleset::Rule, DecodeError>)
    ensures
        match r {
            Ok(ru) => parse_rule_at(text@, 0) == Some((ru@, text@.len() as int)),
            Err(_) => parse_rule_at(text@, 0) is None || parse_rule_at(text@, 0).unwrap().1
                != text@.len(),
        },
{
    let v = string_to_chars(text);
    match parse_rule_ex(&v, 0) {
        None => Err(DecodeError::Malformed),
        Some((ru, j)) => {
            if j == v.len() {
                Ok(ru)
            } else {
                Err(DecodeError::Malformed)
            }
        },
    }
}

/// The scalar text of a pattern: its handle value followed by `m` or `g`.
pub fn pattern_to_string(p: Pattern) -> (r: String)
    ensures
        r@ == pattern_text(p@),
{
    let mut out = String::new();
    match p {
        Pattern::Material(id) => {
            push_dec(&mut out, id.get());
            out.append("m");
        },
        Pattern::Group(id) => {
            push_dec(&mut out, id.get());
            out.append("g");
        },
    }
    proof {
        reveal_strlit("m");
        reveal_strlit("g");
        assert(out@ =~= pattern_text(p@));
    }
    out
}

/// Decode a pattern scalar: a handle value followed by `m` for a material
/// or `g` for a group. Any other text is rejected.
pub fn pattern_from_str(text: &str) -> (r: Result<Pattern, DecodeError>)
    ensures
        match r {
            Ok(p) => pattern_of_text(text@) == Some(p@),
            Err(_) => pattern_of_text(text@) is None,
        },
{
    let v = string_to_chars(text);
    match pattern_from_chars(&v) {
        None => Err(DecodeError::InvalidPatternToken),
        Some(p) => Ok(p),
    }
}

} // verus!
