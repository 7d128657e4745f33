//! The model of the format specification (`format.yaml`) and of its rules
//! (`rules.yaml`), with lookups by name, the width of a field type and the name
//! of the variant that a rule id becomes.
use crate::strmap::SortedStrMap;
use crate::text::{
    ascii_upper, is_ascii_lower, parse_u64, parse_u64_spec, starts_with, text_eq,
    text_starts_with,
};
use vstd::prelude::*;

verus! {

/// The only `spec_schema` that these checks understand.
pub const SPEC_SCHEMA: u32 = 1;

#[derive(Debug)]
pub struct Format {
    pub spec_schema: u32,
    pub format_version: Version,
    pub status: String,
    pub inputs: Vec<String>,
    pub endianness: String,
    pub offset_origin: String,
    pub acceptance: Acceptance,
    pub constants: Vec<Constant>,
    pub magics: Vec<Magic>,
    pub enums: Vec<Enum>,
    /// The content kinds allowed for each file type, keyed and walked in
    /// ascending order of the type's name.
    pub content_kind_by_type: SortedStrMap<Vec<String>>,
    pub flag_sets: Vec<FlagSet>,
    pub block_types: Vec<BlockType>,
    pub layouts: Vec<Layout>,
    pub index_tables: Vec<IndexTable>,
    pub heap: Heap,
    pub phases: Vec<Phase>,
    pub notes: Vec<Note>,
}

#[derive(Debug)]
pub struct Version {
    pub major: u16,
    pub minor: u16,
}

#[derive(Debug)]
pub struct Acceptance {
    pub rows: Vec<AcceptRow>,
    pub otherwise: String,
}

#[derive(Debug)]
pub struct AcceptRow {
    pub file_major: u16,
    pub file_minor: u16,
    pub verdict: String,
}

#[derive(Debug)]
pub struct Constant {
    pub name: String,
    pub value: u64,
    pub doc: String,
}

#[derive(Debug)]
pub struct Magic {
    pub name: String,
    pub bytes: Vec<u8>,
    pub doc: String,
}

#[derive(Debug)]
pub struct Enum {
    pub name: String,
    pub width: String,
    pub mask: Option<u64>,
    pub values: Vec<EnumValue>,
}

#[derive(Debug)]
pub struct EnumValue {
    pub name: String,
    pub value: u64,
    pub registered_undefined: bool,
    pub doc: String,
}

#[derive(Debug)]
pub struct FlagSet {
    pub name: String,
    pub width: String,
    pub unknown_odd_rule: String,
    pub bits: Vec<FlagBit>,
}

#[derive(Debug)]
pub struct FlagBit {
    pub bit: u32,
    pub name: String,
    pub doc: String,
}

#[derive(Debug)]
pub struct BlockType {
    pub id: String,
    pub status: String,
    pub doc: String,
}

#[derive(Debug)]
pub struct Layout {
    pub name: String,
    pub size: u64,
    pub doc: String,
    pub heap_refs: Vec<(String, String)>,
    pub fields: Vec<Field>,
}

#[derive(Debug)]
pub struct Field {
    pub off: u64,
    pub name: String,
    pub ty: String,
    pub doc: Option<String>,
    pub enum_: Option<String>,
    pub flags: Option<String>,
    pub reserved: bool,
}

#[derive(Debug)]
pub struct IndexTable {
    pub name: String,
    pub record: Option<String>,
    pub count: String,
}

#[derive(Debug)]
pub struct Heap {
    pub length_field: String,
    pub offset_origin: String,
    pub follows: String,
}

#[derive(Debug)]
pub struct Phase {
    pub name: String,
    pub doc: String,
}

#[derive(Debug)]
pub struct Note {
    pub text: String,
    pub not_a_rule_because: String,
}

#[derive(Debug)]
pub struct Rules {
    pub rules: Vec<Rule>,
}

#[derive(Debug)]
pub struct Rule {
    pub id: String,
    pub level: String,
    pub phase: Option<String>,
    pub scope: String,
    pub text: String,
    pub fixtures: Vec<String>,
    pub no_fixture_because: Option<String>,
}

/// Position `i` holds the first occurrence of `name` in `names`.
pub open spec fn is_first(names: Seq<Seq<char>>, name: Seq<char>, i: int) -> bool {
    &&& 0 <= i < names.len()
    &&& names[i] == name
    &&& forall|j: int| 0 <= j < i ==> names[j] != name
}

/// The position of the first occurrence of `name` in `names`.
pub open spec fn first_index(names: Seq<Seq<char>>, name: Seq<char>) -> Option<int> {
    if names.contains(name) {
        Some(choose|i: int| is_first(names, name, i))
    } else {
        None
    }
}

/// The first occurrence is the one that `first_index` names.
pub proof fn lemma_first_index(names: Seq<Seq<char>>, name: Seq<char>, i: int)
    requires
        is_first(names, name, i),
    ensures
        first_index(names, name) == Some(i),
{
    assert(names.contains(name));
    let k = choose|k: int| is_first(names, name, k);
    assert(is_first(names, name, k));
    if k < i {
        assert(names[k] != name);
    }
    if i < k {
        assert(names[i] != name);
    }
}

pub open spec fn layout_names(s: Seq<Layout>) -> Seq<Seq<char>> {
    s.map_values(|x: Layout| x.name@)
}

pub open spec fn enum_names(s: Seq<Enum>) -> Seq<Seq<char>> {
    s.map_values(|x: Enum| x.name@)
}

pub open spec fn flag_set_names(s: Seq<FlagSet>) -> Seq<Seq<char>> {
    s.map_values(|x: FlagSet| x.name@)
}

pub open spec fn field_names(s: Seq<Field>) -> Seq<Seq<char>> {
    s.map_values(|x: Field| x.name@)
}

pub open spec fn value_names(s: Seq<EnumValue>) -> Seq<Seq<char>> {
    s.map_values(|x: EnumValue| x.name@)
}

/// The first layout named `name`.
pub open spec fn find_layout(f: Format, name: Seq<char>) -> Option<Layout> {
    match first_index(layout_names(f.layouts@), name) {
        Some(i) => Some(f.layouts@[i]),
        None => None,
    }
}

/// The first enum named `name`.
pub open spec fn find_enum(f: Format, name: Seq<char>) -> Option<Enum> {
    match first_index(enum_names(f.enums@), name) {
        Some(i) => Some(f.enums@[i]),
        None => None,
    }
}

/// The first flag set named `name`.
pub open spec fn find_flag_set(f: Format, name: Seq<char>) -> Option<FlagSet> {
    match first_index(flag_set_names(f.flag_sets@), name) {
        Some(i) => Some(f.flag_sets@[i]),
        None => None,
    }
}

/// The first field of `l` named `name`.
pub open spec fn find_field(l: Layout, name: Seq<char>) -> Option<Field> {
    match first_index(field_names(l.fields@), name) {
        Some(i) => Some(l.fields@[i]),
        None => None,
    }
}

/// The number of the first value of `e` named `name`.
pub open spec fn find_value(e: Enum, name: Seq<char>) -> Option<u64> {
    match first_index(value_names(e.values@), name) {
        Some(i) => Some(e.values@[i].value),
        None => None,
    }
}

impl Format {
    pub fn layout(&self, name: &str) -> (r: Option<&Layout>)
        ensures
            r is Some <==> find_layout(*self, name@) is Some,
            r matches Some(x) ==> find_layout(*self, name@) == Some(*x),
    {
        let n = self.layouts.len();
        let mut i: usize = 0;
        while i < n
            invariant
                n == self.layouts@.len(),
                i <= n,
                forall|j: int| 0 <= j < i ==> layout_names(self.layouts@)[j] != name@,
            decreases n - i,
        {
            if text_eq(self.layouts[i].name.as_str(), name) {
                proof {
                    lemma_first_index(layout_names(self.layouts@), name@, i as int);
                }
                return Some(&self.layouts[i]);
            }
            i = i + 1;
        }
        None
    }

    pub fn enum_(&self, name: &str) -> (r: Option<&Enum>)
        ensures
            r is Some <==> find_enum(*self, name@) is Some,
            r matches Some(x) ==> find_enum(*self, name@) == Some(*x),
    {
        let n = self.enums.len();
        let mut i: usize = 0;
        while i < n
            invariant
                n == self.enums@.len(),
                i <= n,
                forall|j: int| 0 <= j < i ==> enum_names(self.enums@)[j] != name@,
            decreases n - i,
        {
            if text_eq(self.enums[i].name.as_str(), name) {
                proof {
                    lemma_first_index(enum_names(self.enums@), name@, i as int);
                }
                return Some(&self.enums[i]);
            }
            i = i + 1;
        }
        None
    }

    pub fn flag_set(&self, name: &str) -> (r: Option<&FlagSet>)
        ensures
            r is Some <==> find_flag_set(*self, name@) is Some,
            r matches Some(x) ==> find_flag_set(*self, name@) == Some(*x),
    {
        let n = self.flag_sets.len();
        let mut i: usize = 0;
        while i < n
            invariant
                n == self.flag_sets@.len(),
                i <= n,
                forall|j: int| 0 <= j < i ==> flag_set_names(self.flag_sets@)[j] != name@,
            decreases n - i,
        {
            if text_eq(self.flag_sets[i].name.as_str(), name) {
                proof {
                    lemma_first_index(flag_set_names(self.flag_sets@), name@, i as int);
                }
                return Some(&self.flag_sets[i]);
            }
            i = i + 1;
        }
        None
    }
}

impl Layout {
    pub fn field(&self, name: &str) -> (r: Option<&Field>)
        ensures
            r is Some <==> find_field(*self, name@) is Some,
            r matches Some(x) ==> find_field(*self, name@) == Some(*x),
    {
        let n = self.fields.len();
        let mut i: usize = 0;
        while i < n
            invariant
                n == self.fields@.len(),
                i <= n,
                forall|j: int| 0 <= j < i ==> field_names(self.fields@)[j] != name@,
            decreases n - i,
        {
            if text_eq(self.fields[i].name.as_str(), name) {
                proof {
                    lemma_first_index(field_names(self.fields@), name@, i as int);
                }
                return Some(&self.fields[i]);
            }
            i = i + 1;
        }
        None
    }
}

impl Enum {
    pub fn value(&self, name: &str) -> (r: Option<u64>)
        ensures
            r == find_value(*self, name@),
    {
        let n = self.values.len();
        let mut i: usize = 0;
        while i < n
            invariant
                n == self.values@.len(),
                i <= n,
                forall|j: int| 0 <= j < i ==> value_names(self.values@)[j] != name@,
            decreases n - i,
        {
            if text_eq(self.values[i].name.as_str(), name) {
                proof {
                    lemma_first_index(value_names(self.values@), name@, i as int);
                }
                return Some(self.values[i].value);
            }
            i = i + 1;
        }
        None
    }
}

/// Byte width of a field type: `u16`, `u32`, `u64`, `i64`, or `bytes` followed
/// by a count as `str::parse::<u64>` reads it; `None` for any other text.
pub open spec fn type_size_spec(ty: Seq<char>) -> Option<u64> {
    if ty == "u16"@ {
        Some(2)
    } else if ty == "u32"@ {
        Some(4)
    } else if ty == "u64"@ || ty == "i64"@ {
        Some(8)
    } else if starts_with(ty, "bytes"@) {
        parse_u64_spec(ty.skip("bytes"@.len() as int))
    } else {
        None
    }
}

/// Byte width of a field type, or None if the type is not in the vocabulary.
pub fn type_size(ty: &str) -> (r: Option<u64>)
    ensures
        r == type_size_spec(ty@),
{
    if text_eq(ty, "u16") {
        Some(2)
    } else if text_eq(ty, "u32") {
        Some(4)
    } else if text_eq(ty, "u64") || text_eq(ty, "i64") {
        Some(8)
    } else if text_starts_with(ty, "bytes") {
        proof {
            reveal_strlit("bytes");
        }
        let n = ty.unicode_len();
        let rest = ty.substring_char(5, n);
        parse_u64(rest)
    } else {
        None
    }
}

pub open spec fn is_separator(c: char) -> bool {
    c == '.' || c == '_'
}

/// The character at `i` opens a piece: it is first, or follows a separator.
pub open spec fn opens_piece(s: Seq<char>, i: int) -> bool {
    i == 0 || is_separator(s[i - 1])
}

/// What the first `n` characters of `s` contribute to the variant name: each
/// character that is not a separator, in upper case where it opens a piece.
pub open spec fn variant_prefix(s: Seq<char>, n: nat) -> Seq<char>
    decreases n,
{
    if n == 0 || n > s.len() {
        Seq::empty()
    } else {
        let i = n - 1;
        let c = s[i];
        variant_prefix(s, (n - 1) as nat) + if is_separator(c) {
            Seq::empty()
        } else if opens_piece(s, i) {
            seq![ascii_upper(c)]
        } else {
            seq![c]
        }
    }
}

/// The variant name of a rule id: split at `.` and `_`, each piece with its
/// first character in upper case, the pieces joined.
pub open spec fn rule_variant_spec(id: Seq<char>) -> Seq<char> {
    variant_prefix(id, id.len())
}

/// Calls `String::push`, which std documents as appending the character to the
/// end of the string: the contract claims that the characters of `s` become
/// those it had followed by `c`.
#[verifier::external_body]
fn push_char(s: &mut String, c: char)
    ensures
        final(s)@ == old(s)@.push(c),
{
    s.push(c)
}

/// Upper case of an ASCII lower-case letter; any other character unchanged.
fn upper_char(c: char) -> (r: char)
    ensures
        r == ascii_upper(c),
{
    if 'a' <= c && c <= 'z' {
        let code: u32 = c as u32 - 32;
        let b: u8 = code as u8;
        b as char
    } else {
        c
    }
}

/// No separator survives into a variant name.
pub proof fn lemma_variant_prefix_plain(s: Seq<char>, n: nat)
    ensures
        forall|k: int|
            0 <= k < variant_prefix(s, n).len() ==> !is_separator(
                #[trigger] variant_prefix(s, n)[k],
            ),
    decreases n,
{
    if n > 0 && n <= s.len() {
        lemma_variant_prefix_plain(s, (n - 1) as nat);
        let c = s[n - 1];
        if !is_separator(c) && is_ascii_lower(c) {
            assert(!is_separator(ascii_upper(c)));
        }
        let prev = variant_prefix(s, (n - 1) as nat);
        assert forall|k: int| 0 <= k < variant_prefix(s, n).len() implies !is_separator(
            #[trigger] variant_prefix(s, n)[k],
        ) by {
            if k < prev.len() {
                assert(variant_prefix(s, n)[k] == prev[k]);
            }
        }
    }
}

/// Rust enum variant for a rule id: `header.version_unsupported` -> `HeaderVersionUnsupported`.
pub fn rule_variant(id: &str) -> (r: String)
    ensures
        r@ == rule_variant_spec(id@),
        forall|k: int| 0 <= k < r@.len() ==> !is_separator(#[trigger] r@[k]),
{
    proof {
        lemma_variant_prefix_plain(id@, id@.len());
    }
    let n = id.unicode_len();
    let mut out = String::new();
    let mut opens = true;
    let mut i: usize = 0;
    while i < n
        invariant
            n == id@.len(),
            i <= n,
            out@ == variant_prefix(id@, i as nat),
            i < n ==> opens == opens_piece(id@, i as int),
        decreases n - i,
    {
        let c = id.get_char(i);
        if c == '.' || c == '_' {
            opens = true;
        } else {
            if opens {
                let u = upper_char(c);
                push_char(&mut out, u);
            } else {
                push_char(&mut out, c);
            }
            opens = false;
        }
        i = i + 1;
    }
    out
}

} // verus!
