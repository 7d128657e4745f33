//! Enums and their values, and the content kinds allowed for each file type.
use crate::problem::{copy, only_if, problem_views, report, Problem};
use crate::schema::{enum_names, find_enum, find_value, value_names, Enum, EnumValue, Format};
use crate::text::text_eq;
use crate::validate::common::{appears_before, concat_upto};
use vstd::prelude::*;

verus! {

/// The bit width that an enum's `width` names, if it is one that enums may have.
pub open spec fn enum_width_bits(w: Seq<char>) -> Option<u32> {
    if w == "u16"@ {
        Some(16)
    } else if w == "u32"@ {
        Some(32)
    } else {
        None
    }
}

/// The value does not fit in `bits` bits.
pub open spec fn too_wide(v: u64, bits: u32) -> bool {
    if bits == 16 {
        v > 0xffff
    } else {
        v > 0xffff_ffff
    }
}

/// An earlier value of the enum has the same name.
pub open spec fn name_taken_before(values: Seq<EnumValue>, j: int) -> bool {
    exists|k: int| 0 <= k < j && values[k].name@ == values[j].name@
}

/// An earlier value whose name was new at its place has the same number.
pub open spec fn number_taken_before(values: Seq<EnumValue>, j: int) -> bool {
    exists|k: int|
        0 <= k < j && !name_taken_before(values, k) && values[k].value == values[j].value
}

pub open spec fn value_problems(en: Enum, bits: u32, j: int) -> Seq<Problem<Seq<char>>> {
    let v = en.values@[j];
    only_if(
        name_taken_before(en.values@, j) || number_taken_before(en.values@, j),
        Problem::EnumValueDuplicate { name: en.name@, value: v.name@ },
    ) + only_if(
        too_wide(v.value, bits),
        Problem::EnumValueTooWide { name: en.name@, value: v.name@, width: en.width@ },
    ) + only_if(
        en.mask matches Some(m) && v.value & !m != 0,
        Problem::EnumValueOutsideMask { name: en.name@, value: v.name@ },
    ) + only_if(
        v.registered_undefined && v.value == 0,
        Problem::EnumInvalidRegistered { name: en.name@ },
    )
}

/// The first value is `invalid = 0`.
pub open spec fn starts_invalid(en: Enum) -> bool {
    en.values@.len() > 0 && en.values@[0].name@ == "invalid"@ && en.values@[0].value == 0
}

pub open spec fn enum_problems(enums: Seq<Enum>, i: int) -> Seq<Problem<Seq<char>>> {
    let en = enums[i];
    only_if(appears_before(enum_names(enums), i), Problem::EnumDefinedTwice { name: en.name@ })
        + match enum_width_bits(en.width@) {
        None => seq![Problem::EnumWidthUnsupported { name: en.name@, width: en.width@ }],
        Some(bits) => only_if(!starts_invalid(en), Problem::EnumFirstNotInvalid { name: en.name@ })
            + concat_upto(en.values@.len(), |j: int| value_problems(en, bits, j)),
    }
}

pub open spec fn kind_problems(entry: (String, Vec<String>), ck: Enum, j: int) -> Seq<
    Problem<Seq<char>>,
> {
    let kind = entry.1@[j]@;
    only_if(
        kind == "invalid"@ || find_value(ck, kind) is None,
        Problem::ContentKindInvalid { file_type: entry.0@, kind },
    )
}

pub open spec fn entry_problems(entry: (String, Vec<String>), ck: Enum) -> Seq<
    Problem<Seq<char>>,
> {
    concat_upto(entry.1@.len(), |j: int| kind_problems(entry, ck, j))
}

/// The names of the file types other than the first, `invalid`.
pub open spec fn file_type_names(ft: Enum) -> Set<Seq<char>> {
    value_names(ft.values@).skip(1).to_set()
}

/// Keys that are not exactly the non-invalid file types, then each kind that
/// is `invalid` or not a content kind, walked in key order; or the absence of
/// the enums `file_type` and `content_kind`.
pub open spec fn content_kind_problems(f: Format) -> Seq<Problem<Seq<char>>> {
    match (find_enum(f, "file_type"@), find_enum(f, "content_kind"@)) {
        (Some(ft), Some(ck)) => {
            let entries = f.content_kind_by_type.entries();
            only_if(
                file_type_names(ft) != f.content_kind_by_type.key_set(),
                Problem::ContentKindKeys,
            ) + concat_upto(entries.len(), |i: int| entry_problems(entries[i], ck))
        },
        _ => seq![Problem::EnumsRequired],
    }
}

/// The enum `file_type`, where `content_kind` is defined too, has at least one
/// value; otherwise the content kind check has no file types to take.
pub open spec fn file_types_present(f: Format) -> bool {
    match (find_enum(f, "file_type"@), find_enum(f, "content_kind"@)) {
        (Some(ft), Some(_)) => ft.values@.len() >= 1,
        _ => true,
    }
}

/// Each enum's problems in order, then those of the content kinds.
pub open spec fn enum_section(f: Format) -> Seq<Problem<Seq<char>>> {
    let enums = f.enums@;
    concat_upto(enums.len(), |i: int| enum_problems(enums, i)) + content_kind_problems(f)
}

fn enum_seen_before(enums: &Vec<Enum>, i: usize) -> (r: bool)
    requires
        i < enums@.len(),
    ensures
        r == appears_before(enum_names(enums@), i as int),
{
    let mut j: usize = 0;
    while j < i
        invariant
            i < enums@.len(),
            j <= i,
            forall|k: int| 0 <= k < j ==> enum_names(enums@)[k] != enum_names(enums@)[i as int],
        decreases i - j,
    {
        if text_eq(enums[j].name.as_str(), enums[i].name.as_str()) {
            assert(enum_names(enums@)[j as int] == enum_names(enums@)[i as int]);
            return true;
        }
        j = j + 1;
    }
    false
}

fn name_taken(values: &Vec<EnumValue>, j: usize) -> (r: bool)
    requires
        j < values@.len(),
    ensures
        r == name_taken_before(values@, j as int),
{
    let mut k: usize = 0;
    while k < j
        invariant
            j < values@.len(),
            k <= j,
            forall|m: int| 0 <= m < k ==> values@[m].name@ != values@[j as int].name@,
        decreases j - k,
    {
        if text_eq(values[k].name.as_str(), values[j].name.as_str()) {
            return true;
        }
        k = k + 1;
    }
    false
}

fn value_repeats(values: &Vec<EnumValue>, j: usize) -> (r: bool)
    requires
        j < values@.len(),
    ensures
        r == (name_taken_before(values@, j as int) || number_taken_before(values@, j as int)),
{
    if name_taken(values, j) {
        return true;
    }
    let mut k: usize = 0;
    while k < j
        invariant
            j < values@.len(),
            k <= j,
            forall|m: int|
                0 <= m < k ==> !(!name_taken_before(values@, m) && values@[m].value
                    == values@[j as int].value),
        decreases j - k,
    {
        if values[k].value == values[j].value && !name_taken(values, k) {
            return true;
        }
        k = k + 1;
    }
    false
}

fn check_value(en: &Enum, bits: u32, j: usize, out: &mut Vec<Problem<String>>)
    requires
        bits == 16 || bits == 32,
        j < en.values@.len(),
    ensures
        problem_views(final(out)@) == problem_views(old(out)@) + value_problems(
            *en,
            bits,
            j as int,
        ),
{
    let ghost base = problem_views(out@);
    let v = &en.values[j];
    if value_repeats(&en.values, j) {
        report(out, Problem::EnumValueDuplicate { name: copy(&en.name), value: copy(&v.name) });
    }
    let wide = if bits == 16 {
        v.value > 0xffff
    } else {
        v.value > 0xffff_ffff
    };
    if wide {
        report(
            out,
            Problem::EnumValueTooWide {
                name: copy(&en.name),
                value: copy(&v.name),
                width: copy(&en.width),
            },
        );
    }
    if let Some(mask) = en.mask {
        if v.value & !mask != 0 {
            report(out, Problem::EnumValueOutsideMask { name: copy(&en.name), value: copy(&v.name) });
        }
    }
    if v.registered_undefined && v.value == 0 {
        report(out, Problem::EnumInvalidRegistered { name: copy(&en.name) });
    }
    proof {
        assert(problem_views(out@) =~= base + value_problems(*en, bits, j as int));
    }
}

fn check_values(en: &Enum, bits: u32, out: &mut Vec<Problem<String>>)
    requires
        bits == 16 || bits == 32,
    ensures
        problem_views(final(out)@) == problem_views(old(out)@) + concat_upto(
            en.values@.len(),
            |j: int| value_problems(*en, bits, j),
        ),
{
    let ghost base = problem_views(out@);
    let ghost item = |j: int| value_problems(*en, bits, j);
    let n = en.values.len();
    let mut j: usize = 0;
    while j < n
        invariant
            n == en.values@.len(),
            bits == 16 || bits == 32,
            j <= n,
            item == (|j: int| value_problems(*en, bits, j)),
            problem_views(out@) == base + concat_upto(j as nat, item),
        decreases n - j,
    {
        let ghost before = problem_views(out@);
        check_value(en, bits, j, out);
        proof {
            assert(problem_views(out@) =~= before + item(j as int));
        }
        j = j + 1;
    }
}

fn check_enum(enums: &Vec<Enum>, i: usize, out: &mut Vec<Problem<String>>)
    requires
        i < enums@.len(),
    ensures
        problem_views(final(out)@) == problem_views(old(out)@) + enum_problems(enums@, i as int),
{
    let ghost base = problem_views(out@);
    let en = &enums[i];
    if enum_seen_before(enums, i) {
        report(out, Problem::EnumDefinedTwice { name: copy(&en.name) });
    }
    let ghost mid = problem_views(out@);
    if text_eq(en.width.as_str(), "u16") || text_eq(en.width.as_str(), "u32") {
        let bits: u32 = if text_eq(en.width.as_str(), "u16") {
            16
        } else {
            32
        };
        let first_ok = en.values.len() > 0 && text_eq(en.values[0].name.as_str(), "invalid")
            && en.values[0].value == 0;
        if !first_ok {
            report(out, Problem::EnumFirstNotInvalid { name: copy(&en.name) });
        }
        check_values(en, bits, out);
    } else {
        report(out, Problem::EnumWidthUnsupported { name: copy(&en.name), width: copy(&en.width) });
    }
    proof {
        assert(problem_views(out@) =~= base + enum_problems(enums@, i as int));
    }
}

/// Some value after the first is named `key`.
pub open spec fn names_later_value(values: Seq<EnumValue>, key: Seq<char>) -> bool {
    exists|k: int| 1 <= k < values.len() && values[k].name@ == key
}

/// Whether the names of the values after the first are exactly the keys.
fn file_types_match(ft: &Enum, f: &Format) -> (r: bool)
    requires
        ft.values@.len() >= 1,
    ensures
        r == (file_type_names(*ft) == f.content_kind_by_type.key_set()),
{
    let map = &f.content_kind_by_type;
    let values = &ft.values;
    let ghost names = value_names(values@).skip(1);
    let n = values.len();
    let mut all_keys = true;
    let mut j: usize = 1;
    while j < n
        invariant
            n == values@.len(),
            values == &ft.values,
            names == value_names(values@).skip(1),
            1 <= j <= n,
            all_keys == forall|k: int| 1 <= k < j ==> map.key_set().contains(values@[k].name@),
        decreases n - j,
    {
        if !map.contains_key(values[j].name.as_str()) {
            all_keys = false;
        }
        j = j + 1;
    }
    let m = map.len();
    let mut all_types = true;
    let mut i: usize = 0;
    while i < m
        invariant
            m == map.entries().len(),
            n == values@.len(),
            n >= 1,
            values == &ft.values,
            i <= m,
            all_types == forall|a: int|
                0 <= a < i ==> names_later_value(values@, #[trigger] map.keys()[a]),
        decreases m - i,
    {
        let key = map.key_at(i);
        let mut found = false;
        let mut k: usize = 1;
        while k < n
            invariant
                n == values@.len(),
                values == &ft.values,
                1 <= k <= n,
                found == exists|b: int| 1 <= b < k && #[trigger] values@[b].name@ == key@,
            decreases n - k,
        {
            if text_eq(values[k].name.as_str(), key.as_str()) {
                found = true;
            }
            k = k + 1;
        }
        if !found {
            all_types = false;
        }
        proof {
            assert(map.keys()[i as int] == key@);
            assert(found == names_later_value(values@, key@));
        }
        i = i + 1;
    }
    proof {
        let keys = map.key_set();
        let types = file_type_names(*ft);
        if all_keys && all_types {
            assert forall|x: Seq<char>| types.contains(x) <==> keys.contains(x) by {
                if types.contains(x) {
                    let a = choose|a: int| 0 <= a < names.len() && names[a] == x;
                    assert(values@[a + 1].name@ == x);
                }
                if keys.contains(x) {
                    let a = choose|a: int| 0 <= a < map.keys().len() && map.keys()[a] == x;
                    assert(names_later_value(values@, map.keys()[a]));
                    let k = choose|k: int| 1 <= k < n && values@[k].name@ == map.keys()[a];
                    assert(names[k - 1] == x);
                }
            }
            assert(types =~= keys);
        } else if !all_keys {
            let k = choose|k: int| 1 <= k < n && !map.key_set().contains(values@[k].name@);
            assert(names[k - 1] == values@[k].name@);
            assert(types.contains(values@[k].name@));
        } else {
            let a = choose|a: int| 0 <= a < m && !names_later_value(values@, #[trigger] map.keys()[a]);
            assert(keys.contains(map.keys()[a]));
            if types.contains(map.keys()[a]) {
                let b = choose|b: int| 0 <= b < names.len() && names[b] == map.keys()[a];
                assert(values@[b + 1].name@ == map.keys()[a]);
            }
        }
    }
    all_keys && all_types
}

fn check_content_kinds(f: &Format, out: &mut Vec<Problem<String>>)
    requires
        file_types_present(*f),
    ensures
        problem_views(final(out)@) == problem_views(old(out)@) + content_kind_problems(*f),
{
    let ghost base = problem_views(out@);
    let ft = f.enum_("file_type");
    let ck = f.enum_("content_kind");
    match (ft, ck) {
        (Some(ft), Some(ck)) => {
            if !file_types_match(ft, f) {
                report(out, Problem::ContentKindKeys);
            }
            let ghost mid = problem_views(out@);
            let map = &f.content_kind_by_type;
            let ghost entries = map.entries();
            let ghost item = |i: int| entry_problems(entries[i], *ck);
            let n = map.len();
            let mut i: usize = 0;
            while i < n
                invariant
                    n == entries.len(),
                    entries == map.entries(),
                    i <= n,
                    item == (|i: int| entry_problems(entries[i], *ck)),
                    problem_views(out@) == mid + concat_upto(i as nat, item),
                decreases n - i,
            {
                let ghost before = problem_views(out@);
                let key = map.key_at(i);
                let kinds = map.value_at(i);
                check_entry_parts(key, kinds, ck, out);
                proof {
                    assert(entries[i as int] == (*key, *kinds));
                    assert(problem_views(out@) =~= before + item(i as int));
                }
                i = i + 1;
            }
        },
        _ => {
            report(out, Problem::EnumsRequired);
        },
    }
    proof {
        assert(problem_views(out@) =~= base + content_kind_problems(*f));
    }
}

fn check_entry_parts(key: &String, kinds: &Vec<String>, ck: &Enum, out: &mut Vec<Problem<String>>)
    ensures
        problem_views(final(out)@) == problem_views(old(out)@) + entry_problems(
            (*key, *kinds),
            *ck,
        ),
{
    let ghost entry = (*key, *kinds);
    let ghost base = problem_views(out@);
    let ghost item = |j: int| kind_problems(entry, *ck, j);
    let n = kinds.len();
    let mut j: usize = 0;
    while j < n
        invariant
            n == kinds@.len(),
            entry == (*key, *kinds),
            j <= n,
            item == (|j: int| kind_problems(entry, *ck, j)),
            problem_views(out@) == base + concat_upto(j as nat, item),
        decreases n - j,
    {
        let ghost before = problem_views(out@);
        let kind = &kinds[j];
        if text_eq(kind.as_str(), "invalid") || ck.value(kind.as_str()).is_none() {
            report(out, Problem::ContentKindInvalid { file_type: copy(key), kind: copy(kind) });
        }
        proof {
            assert(problem_views(out@) =~= before + item(j as int));
        }
        j = j + 1;
    }
}

pub fn check_enums(f: &Format, out: &mut Vec<Problem<String>>)
    requires
        file_types_present(*f),
    ensures
        problem_views(final(out)@) == problem_views(old(out)@) + enum_section(*f),
{
    let ghost base = problem_views(out@);
    let enums = &f.enums;
    let ghost item = |i: int| enum_problems(enums@, i);
    let n = enums.len();
    let mut i: usize = 0;
    while i < n
        invariant
            n == enums@.len(),
            enums == &f.enums,
            i <= n,
            item == (|i: int| enum_problems(enums@, i)),
            problem_views(out@) == base + concat_upto(i as nat, item),
        decreases n - i,
    {
        let ghost before = problem_views(out@);
        check_enum(enums, i, out);
        proof {
            assert(problem_views(out@) =~= before + item(i as int));
        }
        i = i + 1;
    }
    let ghost mid = problem_views(out@);
    check_content_kinds(f, out);
    proof {
        assert(problem_views(out@) =~= base + enum_section(*f));
    }
}

} // verus!
