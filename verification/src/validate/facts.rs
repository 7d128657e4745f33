//! Facts about the raw data of a specification on which the checks find no
//! problem, stated over its fields and characters.
use crate::problem::Problem;
use crate::schema::{
    enum_names, find_enum, find_flag_set, first_index, flag_set_names, is_first, type_size_spec,
    value_names, Enum, FlagSet, Format, Magic, Rules, SPEC_SCHEMA,
};
use crate::validate::checkable;
use crate::validate::common::concat_upto;
use crate::validate::constants::{constant_problems, magic_length_problems};
use crate::validate::enums::{content_kind_problems, enum_section, file_type_names};
use crate::validate::laws::{lemma_concat_empty, law_clean_rules, rule_well_formed};
use crate::validate::layouts::{field_problems, layout_problems, layout_section};
use crate::validate::validate_spec;
use vstd::prelude::*;

verus! {

/// A name that occurs has a first occurrence.
pub proof fn lemma_first_exists(names: Seq<Seq<char>>, name: Seq<char>)
    requires
        names.contains(name),
    ensures
        exists|i: int| is_first(names, name, i),
    decreases names.len(),
{
    if names[0] == name {
        assert(is_first(names, name, 0));
    } else {
        let rest = names.drop_first();
        let j = choose|j: int| 0 <= j < names.len() && names[j] == name;
        assert(rest[j - 1] == name);
        lemma_first_exists(rest, name);
        let i = choose|i: int| is_first(rest, name, i);
        assert forall|k: int| 0 <= k < i + 1 implies names[k] != name by {
            if k > 0 {
                assert(names[k] == rest[k - 1]);
            }
        }
        assert(is_first(names, name, i + 1));
    }
}

/// The first enum that `find_enum` gives is the first enum of that name.
proof fn lemma_find_enum_first(f: Format, name: Seq<char>)
    requires
        find_enum(f, name) is Some,
    ensures
        exists|k: int|
            0 <= k < f.enums@.len() && f.enums@[k].name@ == name && f.enums@[k] == find_enum(
                f,
                name,
            )->0 && forall|m: int| 0 <= m < k ==> f.enums@[m].name@ != name,
{
    let names = enum_names(f.enums@);
    lemma_first_exists(names, name);
    let k = first_index(names, name)->0;
    assert(is_first(names, name, k));
    assert(names[k] == f.enums@[k].name@);
    assert forall|m: int| 0 <= m < k implies f.enums@[m].name@ != name by {
        assert(names[m] == f.enums@[m].name@);
    }
}

proof fn lemma_find_flag_set_first(f: Format, name: Seq<char>)
    requires
        find_flag_set(f, name) is Some,
    ensures
        exists|k: int|
            0 <= k < f.flag_sets@.len() && f.flag_sets@[k].name@ == name && f.flag_sets@[k]
                == find_flag_set(f, name)->0 && forall|m: int|
                0 <= m < k ==> f.flag_sets@[m].name@ != name,
{
    let names = flag_set_names(f.flag_sets@);
    lemma_first_exists(names, name);
    let k = first_index(names, name)->0;
    assert(is_first(names, name, k));
    assert(names[k] == f.flag_sets@[k].name@);
    assert forall|m: int| 0 <= m < k implies f.flag_sets@[m].name@ != name by {
        assert(names[m] == f.flag_sets@[m].name@);
    }
}

proof fn lemma_sections_empty(listing: Result<Seq<Seq<char>>, Seq<char>>, f: Format, r: Rules)
    requires
        validate_spec(listing, f, r).len() == 0,
    ensures
        f.spec_schema == SPEC_SCHEMA,
        constant_problems(f).len() == 0,
        enum_section(f).len() == 0,
        layout_section(f).len() == 0,
{
}

/// The enum that `name` refers to: the first enum so named exists and has
/// width `ty`.
pub open spec fn names_enum_of_width(f: Format, name: Seq<char>, ty: Seq<char>) -> bool {
    exists|k: int|
        0 <= k < f.enums@.len() && f.enums@[k].name@ == name && f.enums@[k].width@ == ty
            && forall|m: int| 0 <= m < k ==> f.enums@[m].name@ != name
}

/// The flag set that `name` refers to: the first flag set so named exists and
/// has width `ty`.
pub open spec fn names_flag_set_of_width(f: Format, name: Seq<char>, ty: Seq<char>) -> bool {
    exists|k: int|
        0 <= k < f.flag_sets@.len() && f.flag_sets@[k].name@ == name && f.flag_sets@[k].width@
            == ty && forall|m: int| 0 <= m < k ==> f.flag_sets@[m].name@ != name
}

/// A reference that resolves by name and width passes the lookup the checks make.
pub proof fn lemma_names_enum_resolves(f: Format, name: Seq<char>, ty: Seq<char>)
    requires
        names_enum_of_width(f, name, ty),
    ensures
        find_enum(f, name) matches Some(x) && x.width@ == ty,
{
    let k = choose|k: int|
        0 <= k < f.enums@.len() && f.enums@[k].name@ == name && f.enums@[k].width@ == ty
            && forall|m: int| 0 <= m < k ==> f.enums@[m].name@ != name;
    let names = enum_names(f.enums@);
    assert forall|m: int| 0 <= m < k implies names[m] != name by {
        assert(names[m] == f.enums@[m].name@);
    }
    assert(names[k] == name);
    crate::schema::lemma_first_index(names, name, k);
}

pub proof fn lemma_names_flag_set_resolves(f: Format, name: Seq<char>, ty: Seq<char>)
    requires
        names_flag_set_of_width(f, name, ty),
    ensures
        find_flag_set(f, name) matches Some(x) && x.width@ == ty,
{
    let k = choose|k: int|
        0 <= k < f.flag_sets@.len() && f.flag_sets@[k].name@ == name && f.flag_sets@[k].width@
            == ty && forall|m: int| 0 <= m < k ==> f.flag_sets@[m].name@ != name;
    let names = flag_set_names(f.flag_sets@);
    assert forall|m: int| 0 <= m < k implies names[m] != name by {
        assert(names[m] == f.flag_sets@[m].name@);
    }
    assert(names[k] == name);
    crate::schema::lemma_first_index(names, name, k);
}

proof fn lemma_field_references(f: Format, i: int, j: int)
    requires
        0 <= i < f.layouts@.len(),
        0 <= j < f.layouts@[i].fields@.len(),
        layout_section(f).len() == 0,
    ensures
        f.layouts@[i].fields@[j].enum_ matches Some(en) ==> names_enum_of_width(
            f,
            en@,
            f.layouts@[i].fields@[j].ty@,
        ),
        f.layouts@[i].fields@[j].flags matches Some(fs) ==> names_flag_set_of_width(
            f,
            fs@,
            f.layouts@[i].fields@[j].ty@,
        ),
{
    let layouts = f.layouts@;
    let l = layouts[i];
    let fl = l.fields@[j];
    assert(concat_upto_len_zero(layout_section(f)));
    lemma_concat_empty(layouts.len(), |i: int| layout_problems(f, i), i);
    lemma_concat_empty(l.fields@.len(), |j: int| field_problems(f, l, j), j);
    assert(field_problems(f, l, j).len() == 0);
    assert(type_size_spec(fl.ty@) is Some);
    if let Some(en) = fl.enum_ {
        assert(find_enum(f, en@) is Some);
        lemma_find_enum_first(f, en@);
    }
    if let Some(fs) = fl.flags {
        assert(find_flag_set(f, fs@) is Some);
        lemma_find_flag_set_first(f, fs@);
    }
}

spec fn concat_upto_len_zero(s: Seq<Problem<Seq<char>>>) -> bool {
    s.len() == 0
}

/// In a specification on which the checks find no problem, every field that
/// names an enum names one that exists and is as wide as the field's type, and
/// every field that names a flag set names one that exists and is as wide as the
/// field's type (where several share the name, the first is the one named).
pub proof fn law_clean_field_references(
    listing: Result<Seq<Seq<char>>, Seq<char>>,
    f: Format,
    r: Rules,
)
    requires
        validate_spec(listing, f, r).len() == 0,
    ensures
        forall|i: int, j: int|
            0 <= i < f.layouts@.len() && 0 <= j < f.layouts@[i].fields@.len() ==> {
                let fl = #[trigger] f.layouts@[i].fields@[j];
                &&& fl.enum_ matches Some(en) ==> names_enum_of_width(f, en@, fl.ty@)
                &&& fl.flags matches Some(fs) ==> names_flag_set_of_width(f, fs@, fl.ty@)
                &&& fl.enum_ matches Some(en) ==> (find_enum(f, en@) matches Some(x) && x.width@
                    == fl.ty@)
                &&& fl.flags matches Some(fs) ==> (find_flag_set(f, fs@) matches Some(x)
                    && x.width@ == fl.ty@)
            },
{
    lemma_sections_empty(listing, f, r);
    assert forall|i: int, j: int|
        0 <= i < f.layouts@.len() && 0 <= j < f.layouts@[i].fields@.len() implies {
        let fl = #[trigger] f.layouts@[i].fields@[j];
        &&& fl.enum_ matches Some(en) ==> names_enum_of_width(f, en@, fl.ty@)
        &&& fl.flags matches Some(fs) ==> names_flag_set_of_width(f, fs@, fl.ty@)
        &&& fl.enum_ matches Some(en) ==> (find_enum(f, en@) matches Some(x) && x.width@
            == fl.ty@)
        &&& fl.flags matches Some(fs) ==> (find_flag_set(f, fs@) matches Some(x) && x.width@
            == fl.ty@)
    } by {
        lemma_field_references(f, i, j);
        let fl = f.layouts@[i].fields@[j];
        if let Some(en) = fl.enum_ {
            lemma_names_enum_resolves(f, en@, fl.ty@);
        }
        if let Some(fs) = fl.flags {
            lemma_names_flag_set_resolves(f, fs@, fl.ty@);
        }
    }
}

/// In a specification on which the checks find no problem, where the enums
/// `file_type` and `content_kind` are both defined, the keys of
/// `content_kind_by_type` are exactly the names of the values of `file_type`
/// after its first: every key names such a value, and every such value is a key.
pub proof fn law_clean_content_kind_keys(
    listing: Result<Seq<Seq<char>>, Seq<char>>,
    f: Format,
    r: Rules,
)
    requires
        validate_spec(listing, f, r).len() == 0,
        checkable(f),
    ensures
        (match (find_enum(f, "file_type"@), find_enum(f, "content_kind"@)) {
            (Some(ft), Some(_)) => forall|x: Seq<char>|
                f.content_kind_by_type.keys().contains(x) <==> exists|k: int|
                    1 <= k < ft.values@.len() && ft.values@[k].name@ == x,
            _ => true,
        }),
{
    lemma_sections_empty(listing, f, r);
    if let (Some(ft), Some(ck)) = (find_enum(f, "file_type"@), find_enum(f, "content_kind"@)) {
        assert(content_kind_problems(f).len() == 0);
        assert(file_type_names(ft) == f.content_kind_by_type.key_set());
        assert(ft.values@.len() >= 1);
        let names = value_names(ft.values@).skip(1);
        assert forall|x: Seq<char>| f.content_kind_by_type.keys().contains(x) <==> exists|k: int|
            1 <= k < ft.values@.len() && ft.values@[k].name@ == x by {
            if f.content_kind_by_type.keys().contains(x) {
                assert(f.content_kind_by_type.key_set().contains(x));
                assert(names.to_set().contains(x));
                let a = choose|a: int| 0 <= a < names.len() && names[a] == x;
                assert(ft.values@[a + 1].name@ == x);
            }
            if exists|k: int| 1 <= k < ft.values@.len() && ft.values@[k].name@ == x {
                let k = choose|k: int| 1 <= k < ft.values@.len() && ft.values@[k].name@ == x;
                assert(names[k - 1] == x);
                assert(names.to_set().contains(x));
                assert(f.content_kind_by_type.key_set().contains(x));
            }
        }
    }
}

/// In a specification on which the checks find no problem, every rule id is
/// made only of `.`, ASCII lower-case letters, ASCII digits and `_`; it holds a
/// `.`, neither begins nor ends with one, and never has two in a row.
pub proof fn law_clean_rule_id_characters(
    listing: Result<Seq<Seq<char>>, Seq<char>>,
    f: Format,
    r: Rules,
)
    requires
        validate_spec(listing, f, r).len() == 0,
    ensures
        forall|i: int|
            0 <= i < r.rules@.len() ==> {
                let id = (#[trigger] r.rules@[i]).id@;
                &&& forall|c: int|
                    0 <= c < id.len() ==> id[c] == '.' || ('a' <= id[c] && id[c] <= 'z') || (
                    '0' <= id[c] && id[c] <= '9') || id[c] == '_'
                &&& exists|c: int| 0 <= c < id.len() && id[c] == '.'
                &&& id.len() > 0 && id[0] != '.' && id[id.len() - 1] != '.'
                &&& forall|c: int| 1 <= c < id.len() && #[trigger] id[c] == '.' ==> id[c - 1] != '.'
            },
{
    law_clean_rules(listing, f, r);
    assert forall|i: int| 0 <= i < r.rules@.len() implies {
        let id = (#[trigger] r.rules@[i]).id@;
        &&& forall|c: int|
            0 <= c < id.len() ==> id[c] == '.' || ('a' <= id[c] && id[c] <= 'z') || ('0' <= id[c]
                && id[c] <= '9') || id[c] == '_'
        &&& exists|c: int| 0 <= c < id.len() && id[c] == '.'
        &&& id.len() > 0 && id[0] != '.' && id[id.len() - 1] != '.'
        &&& forall|c: int| 1 <= c < id.len() && #[trigger] id[c] == '.' ==> id[c - 1] != '.'
    } by {
        assert(rule_well_formed(f, r.rules@, i));
        let id = r.rules@[i].id@;
        let d = choose|c: int| 0 <= c < id.len() && id[c] == '.';
        assert(id[d] == '.');
        if id[0] == '.' {
            assert(id[0] == '.');
        }
        if id[id.len() - 1] == '.' {
            assert(id[id.len() - 1] == '.');
        }
    }
}

/// In a specification on which the checks find no problem, every magic is
/// exactly 8 bytes long.
pub proof fn law_clean_magic_lengths(
    listing: Result<Seq<Seq<char>>, Seq<char>>,
    f: Format,
    r: Rules,
)
    requires
        validate_spec(listing, f, r).len() == 0,
    ensures
        forall|i: int| 0 <= i < f.magics@.len() ==> (#[trigger] f.magics@[i]).bytes@.len() == 8,
{
    lemma_sections_empty(listing, f, r);
    let magics = f.magics@;
    let item = |i: int| magic_length_problems(magics, i);
    assert(concat_upto(magics.len(), item).len() == 0);
    assert forall|i: int| 0 <= i < magics.len() implies (#[trigger] magics[i]).bytes@.len() == 8 by {
        lemma_concat_empty(magics.len(), item, i);
        lemma_magic_length_unblamed(magics, i);
    }
}

/// A magic that draws no length problem is exactly 8 bytes long.
proof fn lemma_magic_length_unblamed(magics: Seq<Magic>, i: int)
    requires
        0 <= i < magics.len(),
        magic_length_problems(magics, i).len() == 0,
    ensures
        magics[i].bytes@.len() == 8,
{
}

} // verus!
