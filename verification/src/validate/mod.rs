//! The semantic checks of a specification: every problem, in a fixed order.
//!
//! The checks run only on data that the YAML reader accepted, and collect every
//! problem before they report; no problem means the specification is valid.
pub mod block_ids;
pub mod common;
pub mod constants;
pub mod enums;
pub mod facts;
pub mod inputs;
pub mod laws;
pub mod layouts;
pub mod rules;

use crate::problem::{problem_views, Problem};
use crate::schema::{Format, Rules, SPEC_SCHEMA};
use crate::validate::constants::{
    acceptance_problems, check_acceptance, check_constants, constant_problems,
};
use crate::validate::enums::{check_enums, enum_section, file_types_present};
use crate::validate::inputs::{
    check_header, check_inputs, header_problems, input_problems, listing_view,
};
use crate::validate::layouts::{
    block_section, check_block_types, check_index, check_layouts, field_ends_fit, index_section,
    layout_section,
};
use crate::validate::rules::{check_flag_sets, check_rules, flag_section, rule_section};
use vstd::prelude::*;

verus! {

/// Every problem of a specification, in the order the checks find them. A
/// `spec_schema` other than the one understood is refused before anything else,
/// since the vocabulary itself may differ.
pub open spec fn validate_spec(
    listing: Result<Seq<Seq<char>>, Seq<char>>,
    f: Format,
    r: Rules,
) -> Seq<Problem<Seq<char>>> {
    if f.spec_schema != SPEC_SCHEMA {
        seq![Problem::SchemaUnknown { found: f.spec_schema }]
    } else {
        input_problems(listing, f) + header_problems(f) + acceptance_problems(f)
            + constant_problems(f) + enum_section(f) + rule_section(f, r) + flag_section(f, r)
            + block_section(f) + layout_section(f) + index_section(f)
    }
}

/// The data on which the checks run to the end: where both `file_type` and
/// `content_kind` are defined, `file_type` has a value; and every field whose
/// type has a width ends within 64 bits.
pub open spec fn checkable(f: Format) -> bool {
    file_types_present(f) && field_ends_fit(f)
}

/// Stage 2 of reading a specification: every problem found; empty means valid.
/// `listing` is the names of the files in the spec directory, or the message
/// of the failure to list it.
pub fn validate(
    listing: &Result<Vec<String>, String>,
    f: &Format,
    r: &Rules,
) -> (problems: Vec<Problem<String>>)
    requires
        f.spec_schema == SPEC_SCHEMA ==> checkable(*f),
    ensures
        problem_views(problems@) == validate_spec(listing_view(*listing), *f, *r),
        f.spec_schema != SPEC_SCHEMA ==> problems@.len() == 1 && problems@[0]@
            == (Problem::<Seq<char>>::SchemaUnknown { found: f.spec_schema }),
{
    let mut out: Vec<Problem<String>> = Vec::new();
    if f.spec_schema != SPEC_SCHEMA {
        out.push(Problem::SchemaUnknown { found: f.spec_schema });
        proof {
            assert(problem_views(out@) =~= validate_spec(listing_view(*listing), *f, *r));
        }
        return out;
    }
    assert(problem_views(out@) =~= Seq::<Problem<Seq<char>>>::empty());
    check_inputs(listing, f, &mut out);
    check_header(f, &mut out);
    check_acceptance(f, &mut out);
    check_constants(f, &mut out);
    check_enums(f, &mut out);
    check_rules(f, r, &mut out);
    check_flag_sets(f, r, &mut out);
    check_block_types(f, &mut out);
    check_layouts(f, &mut out);
    check_index(f, &mut out);
    proof {
        assert(problem_views(out@) =~= validate_spec(listing_view(*listing), *f, *r));
    }
    out
}

} // verus!
