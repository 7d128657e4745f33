//! What a specification that passes every check is known to satisfy.
use crate::problem::Problem;
use crate::schema::{
    find_layout, type_size_spec, Enum, FlagSet, Format, Rule, Rules, SPEC_SCHEMA,
};
use crate::strmap::string_views;
use crate::text::{lemma_sorted_list_exists, sorted_list};
use crate::validate::common::concat_upto;
use crate::validate::inputs::{declared_inputs, input_problems};
use vstd::seq_lib::seq_to_set_is_finite;
use crate::validate::constants::{accepts_current, row_problems, row_seen_before};
use crate::validate::layouts::{
    defines_block, field_end, field_problems, heap_length_ok, layout_problems, required_layout,
};
use crate::validate::enums::{
    enum_problems, enum_section, enum_width_bits, starts_invalid, too_wide, value_problems,
};
use crate::validate::rules::{
    bit_problems, flag_section, flag_set_problems, names_file_rule, rule_ids, fixture_problems, fixtures_before, is_rule_id, phase_names, rule_problems, rule_section,
};
use crate::validate::validate_spec;
use vstd::prelude::*;

verus! {

/// Where a concatenation of problems is empty, the problems of each index are.
pub proof fn lemma_concat_empty(n: nat, item: spec_fn(int) -> Seq<Problem<Seq<char>>>, k: int)
    requires
        concat_upto(n, item).len() == 0,
        0 <= k < n,
    ensures
        item(k).len() == 0,
    decreases n,
{
    if k < n - 1 {
        lemma_concat_empty((n - 1) as nat, item, k);
    }
}

proof fn lemma_inputs_match(listing: Result<Seq<Seq<char>>, Seq<char>>, f: Format, r: Rules)
    requires
        validate_spec(listing, f, r).len() == 0,
    ensures
        listing is Ok,
        listing matches Ok(names) ==> names.to_set() == declared_inputs(f),
{
    assert(input_problems(listing, f).len() == 0);
    if let Ok(names) = listing {
        let d = declared_inputs(f);
        let p = names.to_set();
        seq_to_set_is_finite(names);
        seq_to_set_is_finite(string_views(f.inputs@));
        lemma_sorted_list_exists(p.difference(d));
        lemma_sorted_list_exists(d.difference(p));
        assert(sorted_list(p.difference(d)).len() == 0);
        assert(sorted_list(d.difference(p)).len() == 0);
        assert forall|x: Seq<char>| p.contains(x) <==> d.contains(x) by {
            if p.contains(x) && !d.contains(x) {
                assert(p.difference(d).contains(x));
                assert(sorted_list(p.difference(d)).to_set().contains(x));
            }
            if d.contains(x) && !p.contains(x) {
                assert(d.difference(p).contains(x));
                assert(sorted_list(d.difference(p)).to_set().contains(x));
            }
        }
        assert(p =~= d);
    }
}

/// A specification on which the checks find no problem has the schema that is
/// understood; its directory could be listed and holds exactly `format.yaml`
/// and the declared inputs; it has little-endian integers; it is `UNSTABLE`
/// exactly when its major version is 0; it refuses unlisted versions, lists
/// each version once, accepts every listed version and the current one; it
/// defines the block types `DATA` and `INDX`; it has the layouts `header`,
/// `trailer`, `block_header`, `data_header` and `index_header`, and the heap's
/// length field is a field of `index_header`; and the fields of every layout
/// tile it: each field has a known width and starts where the one before it
/// ends (the first at 0), the last ends at the layout's size, and the size is
/// a multiple of 8.
pub proof fn law_clean_specification(
    listing: Result<Seq<Seq<char>>, Seq<char>>,
    f: Format,
    r: Rules,
)
    requires
        validate_spec(listing, f, r).len() == 0,
    ensures
        f.spec_schema == SPEC_SCHEMA,
        listing is Ok,
        listing matches Ok(names) ==> names.to_set() == declared_inputs(f),
        f.endianness@ == "little"@,
        (f.format_version.major == 0) == (f.status@ == "UNSTABLE"@),
        f.acceptance.otherwise@ == "reject"@,
        accepts_current(f),
        forall|i: int|
            0 <= i < f.acceptance.rows@.len() ==> #[trigger] f.acceptance.rows@[i].verdict@
                == "accept"@ && !row_seen_before(f.acceptance.rows@, i),
        defines_block(f, "DATA"@),
        defines_block(f, "INDX"@),
        find_layout(f, "header"@) is Some,
        find_layout(f, "trailer"@) is Some,
        find_layout(f, "block_header"@) is Some,
        find_layout(f, "data_header"@) is Some,
        find_layout(f, "index_header"@) matches Some(ih) && heap_length_ok(f, ih),
        forall|i: int, j: int|
            0 <= i < f.layouts@.len() && 0 <= j < f.layouts@[i].fields@.len() ==> {
                &&& type_size_spec(#[trigger] f.layouts@[i].fields@[j].ty@) is Some
                &&& f.layouts@[i].fields@[j].off == field_end(f.layouts@[i].fields@, j as nat)
            },
        forall|i: int|
            0 <= i < f.layouts@.len() ==> field_end(
                #[trigger] f.layouts@[i].fields@,
                f.layouts@[i].fields@.len(),
            ) == f.layouts@[i].size && f.layouts@[i].size % 8 == 0,
{
    lemma_inputs_match(listing, f, r);
    let rows = f.acceptance.rows@;
    assert forall|i: int| 0 <= i < rows.len() implies #[trigger] rows[i].verdict@ == "accept"@
        && !row_seen_before(rows, i) by {
        lemma_concat_empty(
            rows.len(),
            |i: int| row_problems(rows, i),
            i,
        );
    }
    let layouts = f.layouts@;
    let litem = |i: int| layout_problems(f, i);
    assert forall|i: int, j: int|
        0 <= i < layouts.len() && 0 <= j < layouts[i].fields@.len() implies {
        &&& type_size_spec(#[trigger] layouts[i].fields@[j].ty@) is Some
        &&& layouts[i].fields@[j].off == field_end(layouts[i].fields@, j as nat)
    } by {
        lemma_concat_empty(layouts.len(), litem, i);
        let l = layouts[i];
        lemma_concat_empty(
            l.fields@.len(),
            |j: int| field_problems(f, l, j),
            j,
        );
    }
    assert forall|i: int| 0 <= i < layouts.len() implies field_end(
        #[trigger] layouts[i].fields@,
        layouts[i].fields@.len(),
    ) == layouts[i].size && layouts[i].size % 8 == 0 by {
        lemma_concat_empty(layouts.len(), litem, i);
    }
    if find_layout(f, "index_header"@) is None {
        assert(required_layout(f, "index_header"@).len() > 0);
    }
}

/// No element of `s` occurs twice.
pub open spec fn all_distinct(s: Seq<Seq<char>>) -> bool {
    forall|a: int, b: int| 0 <= a < b < s.len() ==> s[a] != s[b]
}

proof fn lemma_fixtures_distinct(rules: Seq<Rule>, n: nat)
    requires
        n <= rules.len(),
        forall|i: int, j: int|
            0 <= i < n && 0 <= j < rules[i].fixtures@.len() ==> (#[trigger] fixture_problems(
                rules,
                i,
                j,
            )).len() == 0,
    ensures
        all_distinct(fixtures_before(rules, n)),
    decreases n,
{
    if n > 0 {
        let i = (n - 1) as int;
        lemma_fixtures_distinct(rules, (n - 1) as nat);
        let prior = fixtures_before(rules, (n - 1) as nat);
        let own = string_views(rules[i].fixtures@);
        let all = fixtures_before(rules, n);
        assert(all == prior + own);
        assert forall|a: int, b: int| 0 <= a < b < all.len() implies all[a] != all[b] by {
            if b >= prior.len() {
                let j = b - prior.len();
                assert(fixture_problems(rules, i, j).len() == 0);
                assert(own[j] == rules[i].fixtures@[j]@);
                let before = prior + own.take(j);
                assert(!before.contains(own[j]));
                if a < prior.len() {
                    assert(before[a] == all[a]);
                } else {
                    assert(before[a] == own[a - prior.len()]);
                }
            }
        }
    }
}

/// What the checks ask of the rule at `i`: a dotted lower_snake id that no
/// earlier rule has, level `MUST` or `SHOULD`; for a reader-checked rule (scope
/// `file` or `chain`) level `MUST`, a known phase, at least one broken fixture and
/// no stated reason for having none; for any other rule scope `writer` or
/// `behaviour`, no fixture, no phase and a reason that is not empty.
pub open spec fn rule_well_formed(f: Format, rules: Seq<Rule>, i: int) -> bool {
    let rule = rules[i];
    &&& is_rule_id(rule.id@)
    &&& forall|k: int| 0 <= k < i ==> rules[k].id@ != rule.id@
    &&& rule.level@ == "MUST"@ || rule.level@ == "SHOULD"@
    &&& rule.scope@ == "file"@ || rule.scope@ == "chain"@ ==> {
        &&& rule.phase matches Some(p) && phase_names(f).contains(p@)
        &&& rule.fixtures@.len() > 0
        &&& rule.level@ == "MUST"@
        &&& rule.no_fixture_because is None
    }
    &&& !(rule.scope@ == "file"@ || rule.scope@ == "chain"@) ==> {
        &&& rule.scope@ == "writer"@ || rule.scope@ == "behaviour"@
        &&& rule.fixtures@.len() == 0
        &&& rule.phase is None
        &&& rule.no_fixture_because matches Some(t) && t@.len() > 0
    }
}

proof fn lemma_rule_well_formed(f: Format, rules: Seq<Rule>, i: int)
    requires
        0 <= i < rules.len(),
        rule_problems(f, rules, i).len() == 0,
    ensures
        rule_well_formed(f, rules, i),
{
    assert forall|k: int| 0 <= k < i implies rules[k].id@ != rules[i].id@ by {
        assert(rule_ids(rules)[k] == rules[k].id@);
        assert(rule_ids(rules)[i] == rules[i].id@);
    }
}

proof fn lemma_rule_section_empty(listing: Result<Seq<Seq<char>>, Seq<char>>, f: Format, r: Rules)
    requires
        validate_spec(listing, f, r).len() == 0,
    ensures
        rule_section(f, r).len() == 0,
{
}

/// In a specification on which the checks find no problem, every rule is well
/// formed (see `rule_well_formed`) and no fixture is cited twice, so that each
/// broken fixture violates exactly one rule.
pub proof fn law_clean_rules(listing: Result<Seq<Seq<char>>, Seq<char>>, f: Format, r: Rules)
    requires
        validate_spec(listing, f, r).len() == 0,
    ensures
        forall|i: int| 0 <= i < r.rules@.len() ==> #[trigger] rule_well_formed(f, r.rules@, i),
        all_distinct(fixtures_before(r.rules@, r.rules@.len())),
{
    let rules = r.rules@;
    lemma_rule_section_empty(listing, f, r);
    let item = |i: int| rule_problems(f, rules, i);
    assert forall|i: int| 0 <= i < rules.len() implies #[trigger] rule_well_formed(f, rules, i) by {
        lemma_concat_empty(rules.len(), item, i);
        lemma_rule_well_formed(f, rules, i);
    }
    assert forall|i: int, j: int|
        0 <= i < rules.len() && 0 <= j < rules[i].fixtures@.len() implies (
        #[trigger] fixture_problems(rules, i, j)).len() == 0 by {
        lemma_concat_empty(rules.len(), item, i);
        lemma_concat_empty(rules[i].fixtures@.len(), |j: int| fixture_problems(rules, i, j), j);
    }
    lemma_fixtures_distinct(rules, rules.len());
}

/// What the checks ask of an enum: a width of 16 or 32 bits, `invalid = 0`
/// first, and values that fit the width, lie inside the mask, and are not 0
/// while registered undefined.
pub open spec fn enum_well_formed(en: Enum) -> bool {
    &&& enum_width_bits(en.width@) is Some
    &&& starts_invalid(en)
    &&& forall|j: int|
        0 <= j < en.values@.len() ==> {
            &&& !too_wide(#[trigger] en.values@[j].value, enum_width_bits(en.width@)->0)
            &&& !(en.mask matches Some(m) && en.values@[j].value & !m != 0)
            &&& !(en.values@[j].registered_undefined && en.values@[j].value == 0)
        }
}

/// What the checks ask of a flag set: 32 bits wide, each bit once and below 32,
/// and a rule for unknown odd bits whose last definition has scope `file`.
pub open spec fn flag_set_well_formed(r: Rules, fs: FlagSet) -> bool {
    &&& fs.width@ == "u32"@
    &&& names_file_rule(r, fs.unknown_odd_rule@)
    &&& forall|j: int|
        0 <= j < fs.bits@.len() ==> #[trigger] fs.bits@[j].bit < 32 && forall|k: int|
            0 <= k < j ==> fs.bits@[k].bit != fs.bits@[j].bit
}

proof fn lemma_enum_well_formed(enums: Seq<Enum>, i: int)
    requires
        0 <= i < enums.len(),
        enum_problems(enums, i).len() == 0,
    ensures
        enum_well_formed(enums[i]),
{
    let en = enums[i];
    let bits = enum_width_bits(en.width@)->0;
    assert forall|j: int| 0 <= j < en.values@.len() implies {
        &&& !too_wide(#[trigger] en.values@[j].value, bits)
        &&& !(en.mask matches Some(m) && en.values@[j].value & !m != 0)
        &&& !(en.values@[j].registered_undefined && en.values@[j].value == 0)
    } by {
        lemma_concat_empty(en.values@.len(), |j: int| value_problems(en, bits, j), j);
    }
}

proof fn lemma_flag_set_well_formed(r: Rules, fs: FlagSet)
    requires
        flag_set_problems(r, fs).len() == 0,
    ensures
        flag_set_well_formed(r, fs),
{
    assert forall|j: int| 0 <= j < fs.bits@.len() implies #[trigger] fs.bits@[j].bit < 32
        && forall|k: int| 0 <= k < j ==> fs.bits@[k].bit != fs.bits@[j].bit by {
        lemma_concat_empty(fs.bits@.len(), |j: int| bit_problems(fs, j), j);
    }
}

proof fn lemma_enum_and_flag_sections_empty(
    listing: Result<Seq<Seq<char>>, Seq<char>>,
    f: Format,
    r: Rules,
)
    requires
        validate_spec(listing, f, r).len() == 0,
    ensures
        enum_section(f).len() == 0,
        flag_section(f, r).len() == 0,
{
}

/// In a specification on which the checks find no problem, every enum and every
/// flag set is well formed (see `enum_well_formed`, `flag_set_well_formed`).
pub proof fn law_clean_enums_and_flags(
    listing: Result<Seq<Seq<char>>, Seq<char>>,
    f: Format,
    r: Rules,
)
    requires
        validate_spec(listing, f, r).len() == 0,
    ensures
        forall|i: int| 0 <= i < f.enums@.len() ==> enum_well_formed(#[trigger] f.enums@[i]),
        forall|i: int|
            0 <= i < f.flag_sets@.len() ==> flag_set_well_formed(r, #[trigger] f.flag_sets@[i]),
{
    lemma_enum_and_flag_sections_empty(listing, f, r);
    let enums = f.enums@;
    let eitem = |i: int| enum_problems(enums, i);
    assert forall|i: int| 0 <= i < enums.len() implies enum_well_formed(#[trigger] enums[i]) by {
        lemma_concat_empty(enums.len(), eitem, i);
        lemma_enum_well_formed(enums, i);
    }
    let sets = f.flag_sets@;
    let fitem = |i: int| flag_set_problems(r, sets[i]);
    assert forall|i: int| 0 <= i < sets.len() implies flag_set_well_formed(r, #[trigger] sets[i]) by {
        lemma_concat_empty(sets.len(), fitem, i);
        lemma_flag_set_well_formed(r, sets[i]);
    }
}

} // verus!
