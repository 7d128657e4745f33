//! Which block type ids the checks blame for their shape: exactly those that
//! are not four ASCII upper-case letters or digits.
use crate::problem::{only_if, Problem};
use crate::schema::{
    field_names, find_enum, find_flag_set, find_layout, type_size_spec, value_names, Enum, FlagSet, Format, Rule, Rules, SPEC_SCHEMA,
};
use crate::text::{is_ascii_digit, is_ascii_lower, is_ascii_upper, starts_with};
use crate::validate::checkable;
use crate::validate::facts::{
    lemma_names_enum_resolves, lemma_names_flag_set_resolves, names_enum_of_width,
    names_flag_set_of_width,
};
use crate::validate::common::{appears_before, concat_upto};
use crate::validate::constants::{
    acceptance_problems, constant_problems, magic_length_problems, name_problems, row_problems,
};
use crate::validate::enums::{
    content_kind_problems, entry_problems, enum_problems, enum_section, file_type_names,
    file_types_present, kind_problems, value_problems,
};
use crate::validate::inputs::{header_problems, input_problems};
use crate::validate::laws::lemma_concat_empty;
use crate::validate::layouts::{
    block_section, block_type_problems, defines_block, field_end, field_problems, heap_ref_problems, index_section,
    layout_problems, layout_section, table_problems,
};
use crate::validate::rules::{
    bit_problems, fixture_problems, flag_section, flag_set_problems, is_rule_id, rule_ids,
    rule_problems, rule_section, scope_problems, variant_taken_before,
};
use crate::validate::validate_spec;
use vstd::prelude::*;

verus! {

/// Exactly four characters, each an ASCII upper-case letter or an ASCII digit.
pub open spec fn four_upper_alnum(id: Seq<char>) -> bool {
    id.len() == 4 && forall|i: int|
        0 <= i < 4 ==> ('A' <= #[trigger] id[i] && id[i] <= 'Z') || ('0' <= id[i] && id[i] <= '9')
}

/// Dotted lower_snake segments, stated by characters: only `.`, ASCII
/// lower-case letters, ASCII digits and `_`; at least one `.`; none first or
/// last; never two in a row.
pub open spec fn dotted_lower_snake(id: Seq<char>) -> bool {
    &&& forall|c: int|
        0 <= c < id.len() ==> #[trigger] id[c] == '.' || ('a' <= id[c] && id[c] <= 'z') || ('0'
            <= id[c] && id[c] <= '9') || id[c] == '_'
    &&& exists|c: int| 0 <= c < id.len() && id[c] == '.'
    &&& id.len() > 0 && id[0] != '.' && id[id.len() - 1] != '.'
    &&& forall|c: int| 1 <= c < id.len() && #[trigger] id[c] == '.' ==> id[c - 1] != '.'
}

/// The keys of `content_kind_by_type` are exactly the names of the values of
/// `ft` after its first.
pub open spec fn keys_are_file_types(f: Format, ft: Enum) -> bool {
    forall|x: Seq<char>|
        f.content_kind_by_type.keys().contains(x) <==> exists|k: int|
            1 <= k < ft.values@.len() && ft.values@[k].name@ == x
}

/// A problem of these kinds is reported only where its cause is present: a
/// shape problem names a block id that is not four upper-case letters or
/// digits; a magic length problem names a magic that is not 8 bytes long; a
/// rule id problem names an id that is not dotted lower_snake; a key problem
/// comes with keys that are not exactly the file types; an enum or flag set
/// problem names a field of that layout whose reference does not resolve to an
/// enum or flag set of the field's width.
pub open spec fn justified(f: Format, p: Problem<Seq<char>>) -> bool {
    match p {
        Problem::BlockTypeShape { id } => !four_upper_alnum(id),
        Problem::MagicLength { name } => exists|i: int|
            0 <= i < f.magics@.len() && f.magics@[i].name@ == name && f.magics@[i].bytes@.len()
                != 8,
        Problem::RuleIdShape { id } => !dotted_lower_snake(id),
        Problem::ContentKindKeys => match find_enum(f, "file_type"@) {
            Some(ft) => !keys_are_file_types(f, ft),
            None => false,
        },
        Problem::FieldEnum { layout, field, enum_name } => exists|i: int, j: int|
            0 <= i < f.layouts@.len() && 0 <= j < f.layouts@[i].fields@.len()
                && f.layouts@[i].name@ == layout && f.layouts@[i].fields@[j].name@ == field
                && (match f.layouts@[i].fields@[j].enum_ {
                Some(en) => en@ == enum_name,
                None => false,
            }) && !names_enum_of_width(f, enum_name, f.layouts@[i].fields@[j].ty@),
        Problem::FieldFlags { layout, field, flag_set } => exists|i: int, j: int|
            0 <= i < f.layouts@.len() && 0 <= j < f.layouts@[i].fields@.len()
                && f.layouts@[i].name@ == layout && f.layouts@[i].fields@[j].name@ == field
                && (match f.layouts@[i].fields@[j].flags {
                Some(fs) => fs@ == flag_set,
                None => false,
            }) && !names_flag_set_of_width(f, flag_set, f.layouts@[i].fields@[j].ty@),
        _ => true,
    }
}

pub open spec fn all_justified(f: Format, s: Seq<Problem<Seq<char>>>) -> bool {
    forall|k: int| 0 <= k < s.len() ==> justified(f, #[trigger] s[k])
}

proof fn lemma_concat_justified(f: Format, a: Seq<Problem<Seq<char>>>, b: Seq<Problem<Seq<char>>>)
    requires
        all_justified(f, a),
        all_justified(f, b),
    ensures
        all_justified(f, a + b),
{
    assert forall|k: int| 0 <= k < (a + b).len() implies justified(f, #[trigger] (a + b)[k]) by {
        if k < a.len() {
            assert((a + b)[k] == a[k]);
        } else {
            assert((a + b)[k] == b[k - a.len()]);
        }
    }
}

proof fn lemma_upto_justified(f: Format, n: nat, item: spec_fn(int) -> Seq<Problem<Seq<char>>>)
    requires
        forall|k: int| 0 <= k < n ==> all_justified(f, #[trigger] item(k)),
    ensures
        all_justified(f, concat_upto(n, item)),
    decreases n,
{
    if n > 0 {
        lemma_upto_justified(f, (n - 1) as nat, item);
        assert(all_justified(f, item(n - 1)));
        lemma_concat_justified(f, concat_upto((n - 1) as nat, item), item(n - 1));
    }
}

proof fn lemma_inputs(listing: Result<Seq<Seq<char>>, Seq<char>>, f: Format)
    ensures
        all_justified(f, input_problems(listing, f)),
        all_justified(f, header_problems(f)),
        all_justified(f, acceptance_problems(f)),
        all_justified(f, constant_problems(f)),
{
    let rows = f.acceptance.rows@;
    lemma_upto_justified(f, rows.len(), |i: int| row_problems(rows, i));
    let names = crate::validate::constants::defined_names(f);
    lemma_upto_justified(f, names.len(), |i: int| name_problems(names, i));
    let magics = f.magics@;
    assert forall|i: int| 0 <= i < magics.len() implies all_justified(
        f,
        #[trigger] magic_length_problems(magics, i),
    ) by {
        if magics[i].bytes@.len() != 8 {
            assert(f.magics@[i].name@ == magics[i].name@);
        }
    }
    lemma_upto_justified(f, magics.len(), |i: int| magic_length_problems(magics, i));
}

proof fn lemma_content_kinds(f: Format)
    requires
        file_types_present(f),
    ensures
        all_justified(f, content_kind_problems(f)),
{
    if let (Some(ft), Some(ck)) = (find_enum(f, "file_type"@), find_enum(f, "content_kind"@)) {
        let entries = f.content_kind_by_type.entries();
        assert forall|i: int| 0 <= i < entries.len() implies all_justified(
            f,
            #[trigger] entry_problems(entries[i], ck),
        ) by {
            lemma_upto_justified(f, entries[i].1@.len(), |j: int| kind_problems(entries[i], ck, j));
        }
        lemma_upto_justified(f, entries.len(), |i: int| entry_problems(entries[i], ck));
        if keys_are_file_types(f, ft) {
            let names = value_names(ft.values@).skip(1);
            let keys = f.content_kind_by_type.key_set();
            assert forall|x: Seq<char>| file_type_names(ft).contains(x) <==> keys.contains(x) by {
                if names.to_set().contains(x) {
                    let a = choose|a: int| 0 <= a < names.len() && names[a] == x;
                    assert(ft.values@[a + 1].name@ == x);
                }
                if keys.contains(x) {
                    assert(f.content_kind_by_type.keys().contains(x));
                    let k = choose|k: int| 1 <= k < ft.values@.len() && ft.values@[k].name@ == x;
                    assert(names[k - 1] == x);
                }
            }
            assert(file_type_names(ft) =~= keys);
        }
    }
}

proof fn lemma_enums(f: Format)
    requires
        file_types_present(f),
    ensures
        all_justified(f, enum_section(f)),
{
    let enums = f.enums@;
    assert forall|i: int| 0 <= i < enums.len() implies all_justified(
        f,
        #[trigger] enum_problems(enums, i),
    ) by {
        let en = enums[i];
        if let Some(bits) = crate::validate::enums::enum_width_bits(en.width@) {
            lemma_upto_justified(f, en.values@.len(), |j: int| value_problems(en, bits, j));
        }
    }
    lemma_upto_justified(f, enums.len(), |i: int| enum_problems(enums, i));
    lemma_content_kinds(f);
}

/// An id that is dotted lower_snake by characters passes the rule id check.
proof fn lemma_dotted_is_rule_id(id: Seq<char>)
    requires
        dotted_lower_snake(id),
    ensures
        is_rule_id(id),
{
    assert forall|i: int| 0 <= i < id.len() implies {
        &&& #[trigger] id[i] == '.' ==> 0 < i && i + 1 < id.len() && id[i - 1] != '.'
        &&& id[i] == '.' || is_ascii_lower(id[i]) || is_ascii_digit(id[i]) || id[i] == '_'
    } by {
        if id[i] == '.' {
            if i == 0 {
                assert(id[0] != '.');
            }
            if i + 1 == id.len() {
                assert(id[id.len() - 1] != '.');
            }
        }
    }
}

proof fn lemma_rule(f: Format, rules: Seq<Rule>, i: int)
    requires
        0 <= i < rules.len(),
    ensures
        all_justified(f, rule_problems(f, rules, i)),
{
    let rule = rules[i];
    let id = rule.id@;
    let shape = only_if(!is_rule_id(id), Problem::RuleIdShape { id });
    if dotted_lower_snake(id) {
        lemma_dotted_is_rule_id(id);
    }
    assert(all_justified(f, shape));
    let twice = only_if(appears_before(rule_ids(rules), i), Problem::RuleDefinedTwice { id });
    let taken = only_if(variant_taken_before(rules, i), Problem::RuleVariantCollision { id });
    let level = only_if(
        rule.level@ != "MUST"@ && rule.level@ != "SHOULD"@,
        Problem::RuleLevel { id },
    );
    let sp = scope_problems(f, rule);
    assert(all_justified(f, twice));
    assert(all_justified(f, taken));
    assert(all_justified(f, level));
    assert(all_justified(f, sp));
    let fixtures = concat_upto(rule.fixtures@.len(), |j: int| fixture_problems(rules, i, j));
    lemma_upto_justified(f, rule.fixtures@.len(), |j: int| fixture_problems(rules, i, j));
    lemma_concat_justified(f, shape, twice);
    lemma_concat_justified(f, shape + twice, taken);
    lemma_concat_justified(f, shape + twice + taken, level);
    lemma_concat_justified(f, shape + twice + taken + level, sp);
    lemma_concat_justified(f, shape + twice + taken + level + sp, fixtures);
    assert(rule_problems(f, rules, i) == shape + twice + taken + level + sp + fixtures);
}

proof fn lemma_flag_set(f: Format, r: Rules, fs: FlagSet)
    ensures
        all_justified(f, flag_set_problems(r, fs)),
{
    lemma_upto_justified(f, fs.bits@.len(), |j: int| bit_problems(fs, j));
}

proof fn lemma_rules(f: Format, r: Rules)
    ensures
        all_justified(f, rule_section(f, r)),
        all_justified(f, flag_section(f, r)),
{
    let rules = r.rules@;
    assert forall|i: int| 0 <= i < rules.len() implies all_justified(
        f,
        #[trigger] rule_problems(f, rules, i),
    ) by {
        lemma_rule(f, rules, i);
    }
    lemma_upto_justified(f, rules.len(), |i: int| rule_problems(f, rules, i));
    let sets = f.flag_sets@;
    assert forall|i: int| 0 <= i < sets.len() implies all_justified(
        f,
        #[trigger] flag_set_problems(r, sets[i]),
    ) by {
        lemma_flag_set(f, r, sets[i]);
    }
    lemma_upto_justified(f, sets.len(), |i: int| flag_set_problems(r, sets[i]));
}

proof fn lemma_field_enum_part(f: Format, i: int, j: int)
    requires
        0 <= i < f.layouts@.len(),
        0 <= j < f.layouts@[i].fields@.len(),
    ensures
        all_justified(
            f,
            match f.layouts@[i].fields@[j].enum_ {
                Some(en) => only_if(
                    !(find_enum(f, en@) matches Some(x) && x.width@ == f.layouts@[i].fields@[j].ty@),
                    Problem::FieldEnum {
                        layout: f.layouts@[i].name@,
                        field: f.layouts@[i].fields@[j].name@,
                        enum_name: en@,
                    },
                ),
                None => Seq::empty(),
            },
        ),
{
    let fl = f.layouts@[i].fields@[j];
    if let Some(en) = fl.enum_ {
        if names_enum_of_width(f, en@, fl.ty@) {
            lemma_names_enum_resolves(f, en@, fl.ty@);
        } else {
            let p = Problem::FieldEnum {
                layout: f.layouts@[i].name@,
                field: fl.name@,
                enum_name: en@,
            };
            assert(justified(f, p));
        }
    }
}

proof fn lemma_field_flags_part(f: Format, i: int, j: int)
    requires
        0 <= i < f.layouts@.len(),
        0 <= j < f.layouts@[i].fields@.len(),
    ensures
        all_justified(
            f,
            match f.layouts@[i].fields@[j].flags {
                Some(fs) => only_if(
                    !(find_flag_set(f, fs@) matches Some(x) && x.width@
                        == f.layouts@[i].fields@[j].ty@),
                    Problem::FieldFlags {
                        layout: f.layouts@[i].name@,
                        field: f.layouts@[i].fields@[j].name@,
                        flag_set: fs@,
                    },
                ),
                None => Seq::empty(),
            },
        ),
{
    let fl = f.layouts@[i].fields@[j];
    if let Some(fs) = fl.flags {
        if names_flag_set_of_width(f, fs@, fl.ty@) {
            lemma_names_flag_set_resolves(f, fs@, fl.ty@);
        } else {
            let p = Problem::FieldFlags {
                layout: f.layouts@[i].name@,
                field: fl.name@,
                flag_set: fs@,
            };
            assert(justified(f, p));
        }
    }
}

proof fn lemma_field(f: Format, i: int, j: int)
    requires
        0 <= i < f.layouts@.len(),
        0 <= j < f.layouts@[i].fields@.len(),
    ensures
        all_justified(f, field_problems(f, f.layouts@[i], j)),
{
    let l = f.layouts@[i];
    let fl = l.fields@[j];
    let cursor = field_end(l.fields@, j as nat);
    let a = only_if(
        appears_before(field_names(l.fields@), j),
        Problem::FieldDefinedTwice { layout: l.name@, field: fl.name@ },
    );
    let b = only_if(
        fl.off != cursor,
        Problem::FieldOffset { layout: l.name@, field: fl.name@, off: fl.off, end: cursor as u64 },
    );
    assert(all_justified(f, a));
    assert(all_justified(f, b));
    lemma_concat_justified(f, a, b);
    match type_size_spec(fl.ty@) {
        None => {
            let c = seq![Problem::FieldTypeUnknown { layout: l.name@, field: fl.name@, ty: fl.ty@ }];
            assert(all_justified(f, c));
            lemma_concat_justified(f, a + b, c);
            assert(field_problems(f, l, j) == a + b + c);
        },
        Some(_) => {
            let e = match fl.enum_ {
                Some(en) => only_if(
                    !(find_enum(f, en@) matches Some(x) && x.width@ == fl.ty@),
                    Problem::FieldEnum { layout: l.name@, field: fl.name@, enum_name: en@ },
                ),
                None => Seq::empty(),
            };
            let g = match fl.flags {
                Some(fs) => only_if(
                    !(find_flag_set(f, fs@) matches Some(x) && x.width@ == fl.ty@),
                    Problem::FieldFlags { layout: l.name@, field: fl.name@, flag_set: fs@ },
                ),
                None => Seq::empty(),
            };
            let h = only_if(
                fl.reserved != starts_with(fl.name@, "reserved"@),
                Problem::FieldReserved { layout: l.name@, field: fl.name@ },
            );
            lemma_field_enum_part(f, i, j);
            lemma_field_flags_part(f, i, j);
            assert(all_justified(f, h));
            lemma_concat_justified(f, e, g);
            lemma_concat_justified(f, e + g, h);
            lemma_concat_justified(f, a + b, e + g + h);
            assert(field_problems(f, l, j) == a + b + (e + g + h));
        },
    }
}

proof fn lemma_block_type(f: Format, i: int)
    requires
        0 <= i < f.block_types@.len(),
    ensures
        all_justified(f, block_type_problems(f, i)),
{
    let id = f.block_types@[i].id@;
    if four_upper_alnum(id) {
        assert forall|j: int| 0 <= j < id.len() implies is_ascii_upper(#[trigger] id[j])
            || is_ascii_digit(id[j]) by {}
    }
}

proof fn lemma_layout(f: Format, i: int)
    requires
        0 <= i < f.layouts@.len(),
    ensures
        all_justified(f, layout_problems(f, i)),
{
    let l = f.layouts@[i];
    assert forall|j: int| 0 <= j < l.fields@.len() implies all_justified(
        f,
        #[trigger] field_problems(f, l, j),
    ) by {
        lemma_field(f, i, j);
    }
    lemma_upto_justified(f, l.fields@.len(), |j: int| field_problems(f, l, j));
    lemma_upto_justified(f, l.heap_refs@.len(), |k: int| heap_ref_problems(l, k));
}

proof fn lemma_block_section(f: Format)
    ensures
        all_justified(f, block_section(f)),
{
    let n = f.block_types@.len();
    let item = |i: int| block_type_problems(f, i);
    assert forall|i: int| 0 <= i < n implies all_justified(f, #[trigger] item(i)) by {
        lemma_block_type(f, i);
    }
    lemma_upto_justified(f, n, item);
    let missing = only_if(!defines_block(f, "DATA"@), Problem::BlockTypeRequired { id: "DATA"@ })
        + only_if(!defines_block(f, "INDX"@), Problem::BlockTypeRequired { id: "INDX"@ });
    assert(all_justified(f, missing));
    lemma_concat_justified(f, concat_upto(n, item), missing);
    assert(block_section(f) =~= concat_upto(n, item) + missing);
}

proof fn lemma_layout_section(f: Format)
    ensures
        all_justified(f, layout_section(f)),
{
    let n = f.layouts@.len();
    let item = |i: int| layout_problems(f, i);
    assert forall|i: int| 0 <= i < n implies all_justified(f, #[trigger] item(i)) by {
        lemma_layout(f, i);
    }
    lemma_upto_justified(f, n, item);
}

proof fn lemma_blocks_and_layouts(f: Format)
    ensures
        all_justified(f, block_section(f)),
        all_justified(f, layout_section(f)),
        all_justified(f, index_section(f)),
{
    lemma_block_section(f);
    lemma_layout_section(f);
    if let Some(ih) = find_layout(f, "index_header"@) {
        lemma_upto_justified(f, f.index_tables@.len(), |i: int| table_problems(f, ih, i));
    }
}

/// Every problem of the kinds that `justified` covers is reported only where
/// its cause is present. In particular an id such as `PAR2` or `DATA` never
/// draws a block type shape problem, a magic of 8 bytes never draws a length
/// problem, a dotted lower_snake rule id never draws an id problem, and a field
/// whose enum or flag set exists with the field's width draws no reference
/// problem.
pub proof fn law_problems_are_justified(
    listing: Result<Seq<Seq<char>>, Seq<char>>,
    f: Format,
    r: Rules,
)
    requires
        f.spec_schema == SPEC_SCHEMA ==> checkable(f),
    ensures
        forall|k: int|
            0 <= k < validate_spec(listing, f, r).len() ==> justified(
                f,
                #[trigger] validate_spec(listing, f, r)[k],
            ),
{
    let v = validate_spec(listing, f, r);
    if f.spec_schema == SPEC_SCHEMA {
        lemma_inputs(listing, f);
        lemma_enums(f);
        lemma_rules(f, r);
        lemma_blocks_and_layouts(f);
        let a = input_problems(listing, f);
        let b = header_problems(f);
        let c = acceptance_problems(f);
        let d = constant_problems(f);
        let e = enum_section(f);
        let g = rule_section(f, r);
        let h = flag_section(f, r);
        let i = block_section(f);
        let j = layout_section(f);
        let m = index_section(f);
        lemma_concat_justified(f, a, b);
        lemma_concat_justified(f, a + b, c);
        lemma_concat_justified(f, a + b + c, d);
        lemma_concat_justified(f, a + b + c + d, e);
        lemma_concat_justified(f, a + b + c + d + e, g);
        lemma_concat_justified(f, a + b + c + d + e + g, h);
        lemma_concat_justified(f, a + b + c + d + e + g + h, i);
        lemma_concat_justified(f, a + b + c + d + e + g + h + i, j);
        lemma_concat_justified(f, a + b + c + d + e + g + h + i + j, m);
    }
    assert(all_justified(f, v));
}

/// The checks blame a block type id for its shape only when it is not exactly
/// four ASCII upper-case letters or digits: an id such as `PAR2` or `DATA`
/// never draws a shape problem, whatever else the specification holds.
pub proof fn law_block_shape_blames_only_bad_ids(
    listing: Result<Seq<Seq<char>>, Seq<char>>,
    f: Format,
    r: Rules,
)
    requires
        f.spec_schema == SPEC_SCHEMA ==> checkable(f),
    ensures
        forall|k: int|
            0 <= k < validate_spec(listing, f, r).len() ==> (#[trigger] validate_spec(
                listing,
                f,
                r,
            )[k] matches Problem::BlockTypeShape { id } ==> !(id.len() == 4 && forall|i: int|
                0 <= i < 4 ==> ('A' <= #[trigger] id[i] && id[i] <= 'Z') || ('0' <= id[i] && id[i]
                    <= '9'))),
{
    law_problems_are_justified(listing, f, r);
    let v = validate_spec(listing, f, r);
    assert forall|k: int| 0 <= k < v.len() implies (#[trigger] v[k] matches Problem::BlockTypeShape {
        id,
    } ==> !(id.len() == 4 && forall|i: int|
        0 <= i < 4 ==> ('A' <= #[trigger] id[i] && id[i] <= 'Z') || ('0' <= id[i] && id[i]
            <= '9'))) by {
        assert(justified(f, v[k]));
    }
}

/// In a specification on which the checks find no problem, every block type id
/// is exactly four ASCII upper-case letters or digits.
pub proof fn law_clean_block_ids(listing: Result<Seq<Seq<char>>, Seq<char>>, f: Format, r: Rules)
    requires
        validate_spec(listing, f, r).len() == 0,
    ensures
        forall|k: int| 0 <= k < f.block_types@.len() ==> four_upper_alnum(
            #[trigger] f.block_types@[k].id@,
        ),
{
    assert(block_section(f).len() == 0);
    assert forall|k: int| 0 <= k < f.block_types@.len() implies four_upper_alnum(
        #[trigger] f.block_types@[k].id@,
    ) by {
        lemma_concat_empty(f.block_types@.len(), |i: int| block_type_problems(f, i), k);
        let id = f.block_types@[k].id@;
        assert(crate::validate::layouts::block_id_shape(id));
        assert forall|i: int| 0 <= i < 4 implies ('A' <= #[trigger] id[i] && id[i] <= 'Z') || (
        '0' <= id[i] && id[i] <= '9') by {
            assert(is_ascii_upper(id[i]) || is_ascii_digit(id[i]));
        }
    }
}

} // verus!
