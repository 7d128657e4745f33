//! The problems that the semantic checks of a specification report.
//!
//! A problem is generic in its text type: the checks report `Problem<String>`,
//! and their contracts speak of `Problem<Seq<char>>`, the view of each text.
use vstd::prelude::*;

verus! {

#[derive(Debug, Clone, PartialEq, Eq)]
pub enum Problem<S> {
    /// `spec_schema` is not the one these checks read.
    SchemaUnknown { found: u32 },
    /// A file in the spec directory that `inputs` does not declare.
    UndeclaredInput { name: S },
    /// A declared input that the spec directory does not hold.
    MissingInput { name: S },
    /// The spec directory could not be listed.
    SpecDirUnreadable { message: S },
    EndiannessUnsupported { endianness: S },
    /// `status` is not `UNSTABLE` exactly when the major version is 0.
    StatusMismatch,
    /// `acceptance.otherwise` is not `reject`.
    OtherwiseNotReject,
    RowVerdict { major: u16, minor: u16 },
    RowDuplicated { major: u16, minor: u16 },
    /// No acceptance row accepts the current format version.
    CurrentNotAccepted,
    /// A constant or magic name defined twice.
    NameDefinedTwice { name: S },
    NameNotScreamingSnake { name: S },
    MagicLength { name: S },
    /// Two magics have the same bytes.
    MagicBytesCollide,
    EnumDefinedTwice { name: S },
    EnumWidthUnsupported { name: S, width: S },
    EnumFirstNotInvalid { name: S },
    EnumValueDuplicate { name: S, value: S },
    EnumValueTooWide { name: S, value: S, width: S },
    EnumValueOutsideMask { name: S, value: S },
    EnumInvalidRegistered { name: S },
    /// The keys of `content_kind_by_type` are not the non-invalid file types.
    ContentKindKeys,
    ContentKindInvalid { file_type: S, kind: S },
    /// The enums `file_type` and `content_kind` are not both defined.
    EnumsRequired,
    /// Two phases share a name.
    PhaseNamesRepeat,
    RuleIdShape { id: S },
    RuleDefinedTwice { id: S },
    RuleVariantCollision { id: S },
    RuleLevel { id: S },
    RuleNeedsPhase { id: S },
    RuleNeedsFixture { id: S, scope: S },
    RuleReasonMisplaced { id: S },
    RuleShouldCannotReject { id: S },
    RuleTakesNoFixtures { id: S, scope: S },
    RuleReasonRequired { id: S },
    RuleScopeUnknown { id: S, scope: S },
    FixtureCitedTwice { fixture: S },
    FlagSetWidth { name: S, width: S },
    FlagBitInvalid { set: S, bit: S },
    FlagSetOddRule { set: S, rule: S },
    BlockTypeShape { id: S },
    BlockTypeDefinedTwice { id: S },
    BlockTypeStatus { id: S, status: S },
    BlockTypeRequired { id: S },
    LayoutDefinedTwice { name: S },
    FieldDefinedTwice { layout: S, field: S },
    FieldOffset { layout: S, field: S, off: u64, end: u64 },
    FieldTypeUnknown { layout: S, field: S, ty: S },
    FieldEnum { layout: S, field: S, enum_name: S },
    FieldFlags { layout: S, field: S, flag_set: S },
    FieldReserved { layout: S, field: S },
    LayoutSize { layout: S, end: u64, size: u64 },
    LayoutAlignment { layout: S, size: u64 },
    HeapRef { layout: S, offset_field: S, length_field: S },
    LayoutRequired { name: S },
    IndexTableTwice { name: S },
    IndexTableCount { name: S, count: S },
    IndexTableRecord { name: S, record: S },
    /// `heap.length_field` does not name a field of `index_header`.
    HeapLengthField,
}

impl View for Problem<String> {
    type V = Problem<Seq<char>>;

    open spec fn view(&self) -> Problem<Seq<char>> {
        match *self {
            Problem::SchemaUnknown { found } => Problem::SchemaUnknown { found },
            Problem::UndeclaredInput { name } => Problem::UndeclaredInput { name: name@ },
            Problem::MissingInput { name } => Problem::MissingInput { name: name@ },
            Problem::SpecDirUnreadable { message } => Problem::SpecDirUnreadable {
                message: message@,
            },
            Problem::EndiannessUnsupported { endianness } => Problem::EndiannessUnsupported {
                endianness: endianness@,
            },
            Problem::StatusMismatch => Problem::StatusMismatch,
            Problem::OtherwiseNotReject => Problem::OtherwiseNotReject,
            Problem::RowVerdict { major, minor } => Problem::RowVerdict { major, minor },
            Problem::RowDuplicated { major, minor } => Problem::RowDuplicated { major, minor },
            Problem::CurrentNotAccepted => Problem::CurrentNotAccepted,
            Problem::NameDefinedTwice { name } => Problem::NameDefinedTwice { name: name@ },
            Problem::NameNotScreamingSnake { name } => Problem::NameNotScreamingSnake {
                name: name@,
            },
            Problem::MagicLength { name } => Problem::MagicLength { name: name@ },
            Problem::MagicBytesCollide => Problem::MagicBytesCollide,
            Problem::EnumDefinedTwice { name } => Problem::EnumDefinedTwice { name: name@ },
            Problem::EnumWidthUnsupported { name, width } => Problem::EnumWidthUnsupported {
                name: name@,
                width: width@,
            },
            Problem::EnumFirstNotInvalid { name } => Problem::EnumFirstNotInvalid { name: name@ },
            Problem::EnumValueDuplicate { name, value } => Problem::EnumValueDuplicate {
                name: name@,
                value: value@,
            },
            Problem::EnumValueTooWide { name, value, width } => Problem::EnumValueTooWide {
                name: name@,
                value: value@,
                width: width@,
            },
            Problem::EnumValueOutsideMask { name, value } => Problem::EnumValueOutsideMask {
                name: name@,
                value: value@,
            },
            Problem::EnumInvalidRegistered { name } => Problem::EnumInvalidRegistered {
                name: name@,
            },
            Problem::ContentKindKeys => Problem::ContentKindKeys,
            Problem::ContentKindInvalid { file_type, kind } => Problem::ContentKindInvalid {
                file_type: file_type@,
                kind: kind@,
            },
            Problem::EnumsRequired => Problem::EnumsRequired,
            Problem::PhaseNamesRepeat => Problem::PhaseNamesRepeat,
            Problem::RuleIdShape { id } => Problem::RuleIdShape { id: id@ },
            Problem::RuleDefinedTwice { id } => Problem::RuleDefinedTwice { id: id@ },
            Problem::RuleVariantCollision { id } => Problem::RuleVariantCollision { id: id@ },
            Problem::RuleLevel { id } => Problem::RuleLevel { id: id@ },
            Problem::RuleNeedsPhase { id } => Problem::RuleNeedsPhase { id: id@ },
            Problem::RuleNeedsFixture { id, scope } => Problem::RuleNeedsFixture {
                id: id@,
                scope: scope@,
            },
            Problem::RuleReasonMisplaced { id } => Problem::RuleReasonMisplaced { id: id@ },
            Problem::RuleShouldCannotReject { id } => Problem::RuleShouldCannotReject { id: id@ },
            Problem::RuleTakesNoFixtures { id, scope } => Problem::RuleTakesNoFixtures {
                id: id@,
                scope: scope@,
            },
            Problem::RuleReasonRequired { id } => Problem::RuleReasonRequired { id: id@ },
            Problem::RuleScopeUnknown { id, scope } => Problem::RuleScopeUnknown {
                id: id@,
                scope: scope@,
            },
            Problem::FixtureCitedTwice { fixture } => Problem::FixtureCitedTwice {
                fixture: fixture@,
            },
            Problem::FlagSetWidth { name, width } => Problem::FlagSetWidth {
                name: name@,
                width: width@,
            },
            Problem::FlagBitInvalid { set, bit } => Problem::FlagBitInvalid {
                set: set@,
                bit: bit@,
            },
            Problem::FlagSetOddRule { set, rule } => Problem::FlagSetOddRule {
                set: set@,
                rule: rule@,
            },
            Problem::BlockTypeShape { id } => Problem::BlockTypeShape { id: id@ },
            Problem::BlockTypeDefinedTwice { id } => Problem::BlockTypeDefinedTwice { id: id@ },
            Problem::BlockTypeStatus { id, status } => Problem::BlockTypeStatus {
                id: id@,
                status: status@,
            },
            Problem::BlockTypeRequired { id } => Problem::BlockTypeRequired { id: id@ },
            Problem::LayoutDefinedTwice { name } => Problem::LayoutDefinedTwice { name: name@ },
            Problem::FieldDefinedTwice { layout, field } => Problem::FieldDefinedTwice {
                layout: layout@,
                field: field@,
            },
            Problem::FieldOffset { layout, field, off, end } => Problem::FieldOffset {
                layout: layout@,
                field: field@,
                off,
                end,
            },
            Problem::FieldTypeUnknown { layout, field, ty } => Problem::FieldTypeUnknown {
                layout: layout@,
                field: field@,
                ty: ty@,
            },
            Problem::FieldEnum { layout, field, enum_name } => Problem::FieldEnum {
                layout: layout@,
                field: field@,
                enum_name: enum_name@,
            },
            Problem::FieldFlags { layout, field, flag_set } => Problem::FieldFlags {
                layout: layout@,
                field: field@,
                flag_set: flag_set@,
            },
            Problem::FieldReserved { layout, field } => Problem::FieldReserved {
                layout: layout@,
                field: field@,
            },
            Problem::LayoutSize { layout, end, size } => Problem::LayoutSize {
                layout: layout@,
                end,
                size,
            },
            Problem::LayoutAlignment { layout, size } => Problem::LayoutAlignment {
                layout: layout@,
                size,
            },
            Problem::HeapRef { layout, offset_field, length_field } => Problem::HeapRef {
                layout: layout@,
                offset_field: offset_field@,
                length_field: length_field@,
            },
            Problem::LayoutRequired { name } => Problem::LayoutRequired { name: name@ },
            Problem::IndexTableTwice { name } => Problem::IndexTableTwice { name: name@ },
            Problem::IndexTableCount { name, count } => Problem::IndexTableCount {
                name: name@,
                count: count@,
            },
            Problem::IndexTableRecord { name, record } => Problem::IndexTableRecord {
                name: name@,
                record: record@,
            },
            Problem::HeapLengthField => Problem::HeapLengthField,
        }
    }
}

/// The view of each problem of `s`.
pub open spec fn problem_views(s: Seq<Problem<String>>) -> Seq<Problem<Seq<char>>> {
    s.map_values(|p: Problem<String>| p@)
}

/// `p` when `c` holds, nothing otherwise.
pub open spec fn only_if(c: bool, p: Problem<Seq<char>>) -> Seq<Problem<Seq<char>>> {
    if c {
        seq![p]
    } else {
        Seq::empty()
    }
}

/// Appends `p` to the problems found so far.
pub fn report(out: &mut Vec<Problem<String>>, p: Problem<String>)
    ensures
        problem_views(final(out)@) == problem_views(old(out)@).push(p@),
{
    let ghost v = p@;
    out.push(p);
    assert(problem_views(out@) =~= problem_views(old(out)@).push(v));
}

/// A clone of `s` with the same text.
pub fn copy(s: &String) -> (r: String)
    ensures
        r@ == s@,
{
    s.clone()
}

} // verus!
