//! Block types, the tiling of each layout's fields, and the index tables.
use crate::problem::{copy, only_if, problem_views, report, Problem};
use crate::schema::{
    field_names, find_enum, find_field, find_flag_set, find_layout, layout_names, type_size,
    type_size_spec, BlockType, Field, Format, IndexTable, Layout,
};
use crate::text::{is_ascii_digit, is_ascii_upper, starts_with, text_eq, text_starts_with};
use crate::validate::common::{appears_before, concat_upto, owned};
use vstd::prelude::*;

verus! {

pub open spec fn block_type_ids(f: Format) -> Seq<Seq<char>> {
    f.block_types@.map_values(|b: BlockType| b.id@)
}

/// Four ASCII upper-case letters or digits.
pub open spec fn block_id_shape(s: Seq<char>) -> bool {
    s.len() == 4 && forall|i: int|
        0 <= i < s.len() ==> is_ascii_upper(#[trigger] s[i]) || is_ascii_digit(s[i])
}

pub open spec fn block_type_problems(f: Format, i: int) -> Seq<Problem<Seq<char>>> {
    let bt = f.block_types@[i];
    only_if(!block_id_shape(bt.id@), Problem::BlockTypeShape { id: bt.id@ }) + only_if(
        appears_before(block_type_ids(f), i),
        Problem::BlockTypeDefinedTwice { id: bt.id@ },
    ) + only_if(
        bt.status@ != "defined"@ && bt.status@ != "registered_undefined"@,
        Problem::BlockTypeStatus { id: bt.id@, status: bt.status@ },
    )
}

/// Some block type with this id has status `defined`.
pub open spec fn defines_block(f: Format, id: Seq<char>) -> bool {
    exists|i: int|
        0 <= i < f.block_types@.len() && f.block_types@[i].id@ == id
            && f.block_types@[i].status@ == "defined"@
}

/// Each block type's problems, then `DATA` and `INDX` if either is not defined.
pub open spec fn block_section(f: Format) -> Seq<Problem<Seq<char>>> {
    concat_upto(f.block_types@.len(), |i: int| block_type_problems(f, i)) + only_if(
        !defines_block(f, "DATA"@),
        Problem::BlockTypeRequired { id: "DATA"@ },
    ) + only_if(!defines_block(f, "INDX"@), Problem::BlockTypeRequired { id: "INDX"@ })
}

/// Where the fields before position `n` end: the end of the last one among them
/// whose type has a width, or 0.
pub open spec fn field_end(fields: Seq<Field>, n: nat) -> int
    decreases n,
{
    if n == 0 || n > fields.len() {
        0
    } else {
        match type_size_spec(fields[n - 1].ty@) {
            Some(sz) => fields[n - 1].off + sz,
            None => field_end(fields, (n - 1) as nat),
        }
    }
}

/// Every field of every layout whose type has a width ends within 64 bits.
pub open spec fn field_ends_fit(f: Format) -> bool {
    forall|i: int, j: int|
        0 <= i < f.layouts@.len() && 0 <= j < f.layouts@[i].fields@.len() ==> match type_size_spec(
            #[trigger] f.layouts@[i].fields@[j].ty@,
        ) {
            Some(sz) => f.layouts@[i].fields@[j].off + sz <= u64::MAX,
            None => true,
        }
}

pub open spec fn layout_ends_fit(l: Layout) -> bool {
    forall|j: int|
        0 <= j < l.fields@.len() ==> match type_size_spec(#[trigger] l.fields@[j].ty@) {
            Some(sz) => l.fields@[j].off + sz <= u64::MAX,
            None => true,
        }
}

pub open spec fn field_problems(f: Format, l: Layout, j: int) -> Seq<Problem<Seq<char>>> {
    let fl = l.fields@[j];
    let cursor = field_end(l.fields@, j as nat);
    only_if(
        appears_before(field_names(l.fields@), j),
        Problem::FieldDefinedTwice { layout: l.name@, field: fl.name@ },
    ) + only_if(
        fl.off != cursor,
        Problem::FieldOffset { layout: l.name@, field: fl.name@, off: fl.off, end: cursor as u64 },
    ) + match type_size_spec(fl.ty@) {
        None => seq![Problem::FieldTypeUnknown { layout: l.name@, field: fl.name@, ty: fl.ty@ }],
        Some(_) => (match fl.enum_ {
            Some(en) => only_if(
                !(find_enum(f, en@) matches Some(x) && x.width@ == fl.ty@),
                Problem::FieldEnum { layout: l.name@, field: fl.name@, enum_name: en@ },
            ),
            None => Seq::empty(),
        }) + (match fl.flags {
            Some(fs) => only_if(
                !(find_flag_set(f, fs@) matches Some(x) && x.width@ == fl.ty@),
                Problem::FieldFlags { layout: l.name@, field: fl.name@, flag_set: fs@ },
            ),
            None => Seq::empty(),
        }) + only_if(
            fl.reserved != starts_with(fl.name@, "reserved"@),
            Problem::FieldReserved { layout: l.name@, field: fl.name@ },
        ),
    }
}

/// A heap reference names a `u64` offset field and a `u32` or `u64` length field.
pub open spec fn heap_ref_ok(l: Layout, off: Seq<char>, len: Seq<char>) -> bool {
    find_field(l, off) matches Some(o) && find_field(l, len) matches Some(n) && o.ty@ == "u64"@
        && (n.ty@ == "u32"@ || n.ty@ == "u64"@)
}

pub open spec fn heap_ref_problems(l: Layout, k: int) -> Seq<Problem<Seq<char>>> {
    let r = l.heap_refs@[k];
    only_if(
        !heap_ref_ok(l, r.0@, r.1@),
        Problem::HeapRef { layout: l.name@, offset_field: r.0@, length_field: r.1@ },
    )
}

pub open spec fn layout_problems(f: Format, i: int) -> Seq<Problem<Seq<char>>> {
    let l = f.layouts@[i];
    let end = field_end(l.fields@, l.fields@.len());
    only_if(
        appears_before(layout_names(f.layouts@), i),
        Problem::LayoutDefinedTwice { name: l.name@ },
    ) + concat_upto(l.fields@.len(), |j: int| field_problems(f, l, j)) + only_if(
        end != l.size,
        Problem::LayoutSize { layout: l.name@, end: end as u64, size: l.size },
    ) + only_if(l.size % 8 != 0, Problem::LayoutAlignment { layout: l.name@, size: l.size })
        + concat_upto(l.heap_refs@.len(), |k: int| heap_ref_problems(l, k))
}

pub open spec fn required_layout(f: Format, name: Seq<char>) -> Seq<Problem<Seq<char>>> {
    only_if(find_layout(f, name) is None, Problem::LayoutRequired { name })
}

/// Each layout's problems, then each required layout that is missing.
pub open spec fn layout_section(f: Format) -> Seq<Problem<Seq<char>>> {
    concat_upto(f.layouts@.len(), |i: int| layout_problems(f, i)) + required_layout(
        f,
        "header"@,
    ) + required_layout(f, "trailer"@) + required_layout(f, "block_header"@) + required_layout(
        f,
        "data_header"@,
    ) + required_layout(f, "index_header"@)
}

pub open spec fn table_names(f: Format) -> Seq<Seq<char>> {
    f.index_tables@.map_values(|t: IndexTable| t.name@)
}

/// `count` names a `u64` or `u32` field of the index header.
pub open spec fn count_ok(ih: Layout, count: Seq<char>) -> bool {
    find_field(ih, count) matches Some(c) && (c.ty@ == "u64"@ || c.ty@ == "u32"@)
}

pub open spec fn table_problems(f: Format, ih: Layout, i: int) -> Seq<Problem<Seq<char>>> {
    let t = f.index_tables@[i];
    only_if(appears_before(table_names(f), i), Problem::IndexTableTwice { name: t.name@ })
        + only_if(
        !count_ok(ih, t.count@),
        Problem::IndexTableCount { name: t.name@, count: t.count@ },
    ) + match t.record {
        Some(rec) => only_if(
            find_layout(f, rec@) is None,
            Problem::IndexTableRecord { name: t.name@, record: rec@ },
        ),
        None => Seq::empty(),
    }
}

/// `heap.length_field` is `index_header.` and a field of the index header.
pub open spec fn heap_length_ok(f: Format, ih: Layout) -> bool {
    let lf = f.heap.length_field@;
    starts_with(lf, "index_header."@) && find_field(ih, lf.skip("index_header."@.len() as int))
        is Some
}

/// With an index header: each table's problems, then the heap's length field.
pub open spec fn index_section(f: Format) -> Seq<Problem<Seq<char>>> {
    match find_layout(f, "index_header"@) {
        None => Seq::empty(),
        Some(ih) => concat_upto(f.index_tables@.len(), |i: int| table_problems(f, ih, i))
            + only_if(!heap_length_ok(f, ih), Problem::HeapLengthField),
    }
}

/// Whether `s` is four ASCII upper-case letters or digits.
pub fn is_block_id(s: &str) -> (r: bool)
    ensures
        r == block_id_shape(s@),
{
    let n = s.unicode_len();
    if n != 4 {
        return false;
    }
    let mut i: usize = 0;
    while i < n
        invariant
            n == s@.len(),
            i <= n,
            forall|j: int| 0 <= j < i ==> is_ascii_upper(#[trigger] s@[j]) || is_ascii_digit(s@[j]),
        decreases n - i,
    {
        let c = s.get_char(i);
        if !(('A' <= c && c <= 'Z') || ('0' <= c && c <= '9')) {
            return false;
        }
        i = i + 1;
    }
    true
}

fn block_seen_before(f: &Format, i: usize) -> (r: bool)
    requires
        i < f.block_types@.len(),
    ensures
        r == appears_before(block_type_ids(*f), i as int),
{
    let mut j: usize = 0;
    while j < i
        invariant
            i < f.block_types@.len(),
            j <= i,
            forall|k: int| 0 <= k < j ==> block_type_ids(*f)[k] != block_type_ids(*f)[i as int],
        decreases i - j,
    {
        if text_eq(f.block_types[j].id.as_str(), f.block_types[i].id.as_str()) {
            assert(block_type_ids(*f)[j as int] == block_type_ids(*f)[i as int]);
            return true;
        }
        j = j + 1;
    }
    false
}

fn block_defined(f: &Format, id: &str) -> (r: bool)
    ensures
        r == defines_block(*f, id@),
{
    let n = f.block_types.len();
    let mut i: usize = 0;
    while i < n
        invariant
            n == f.block_types@.len(),
            i <= n,
            forall|k: int|
                0 <= k < i ==> !(f.block_types@[k].id@ == id@ && f.block_types@[k].status@
                    == "defined"@),
        decreases n - i,
    {
        if text_eq(f.block_types[i].id.as_str(), id) && text_eq(
            f.block_types[i].status.as_str(),
            "defined",
        ) {
            return true;
        }
        i = i + 1;
    }
    false
}

pub fn check_block_types(f: &Format, out: &mut Vec<Problem<String>>)
    ensures
        problem_views(final(out)@) == problem_views(old(out)@) + block_section(*f),
{
    let ghost base = problem_views(out@);
    let ghost item = |i: int| block_type_problems(*f, i);
    let n = f.block_types.len();
    let mut i: usize = 0;
    while i < n
        invariant
            n == f.block_types@.len(),
            i <= n,
            item == (|i: int| block_type_problems(*f, i)),
            problem_views(out@) == base + concat_upto(i as nat, item),
        decreases n - i,
    {
        let ghost before = problem_views(out@);
        let bt = &f.block_types[i];
        if !is_block_id(bt.id.as_str()) {
            report(out, Problem::BlockTypeShape { id: copy(&bt.id) });
        }
        if block_seen_before(f, i) {
            report(out, Problem::BlockTypeDefinedTwice { id: copy(&bt.id) });
        }
        if !text_eq(bt.status.as_str(), "defined") && !text_eq(
            bt.status.as_str(),
            "registered_undefined",
        ) {
            report(out, Problem::BlockTypeStatus { id: copy(&bt.id), status: copy(&bt.status) });
        }
        proof {
            assert(problem_views(out@) =~= before + item(i as int));
        }
        i = i + 1;
    }
    if !block_defined(f, "DATA") {
        report(out, Problem::BlockTypeRequired { id: owned("DATA") });
    }
    if !block_defined(f, "INDX") {
        report(out, Problem::BlockTypeRequired { id: owned("INDX") });
    }
    proof {
        assert(problem_views(out@) =~= base + block_section(*f));
    }
}

fn field_seen_before(l: &Layout, j: usize) -> (r: bool)
    requires
        j < l.fields@.len(),
    ensures
        r == appears_before(field_names(l.fields@), j as int),
{
    let mut k: usize = 0;
    while k < j
        invariant
            j < l.fields@.len(),
            k <= j,
            forall|m: int| 0 <= m < k ==> field_names(l.fields@)[m] != field_names(l.fields@)[j as int],
        decreases j - k,
    {
        if text_eq(l.fields[k].name.as_str(), l.fields[j].name.as_str()) {
            assert(field_names(l.fields@)[k as int] == field_names(l.fields@)[j as int]);
            return true;
        }
        k = k + 1;
    }
    false
}

fn layout_seen_before(f: &Format, i: usize) -> (r: bool)
    requires
        i < f.layouts@.len(),
    ensures
        r == appears_before(layout_names(f.layouts@), i as int),
{
    let mut k: usize = 0;
    while k < i
        invariant
            i < f.layouts@.len(),
            k <= i,
            forall|m: int|
                0 <= m < k ==> layout_names(f.layouts@)[m] != layout_names(f.layouts@)[i as int],
        decreases i - k,
    {
        if text_eq(f.layouts[k].name.as_str(), f.layouts[i].name.as_str()) {
            assert(layout_names(f.layouts@)[k as int] == layout_names(f.layouts@)[i as int]);
            return true;
        }
        k = k + 1;
    }
    false
}

/// The problems of field `j`, given where the fields before it end.
fn check_field(f: &Format, l: &Layout, j: usize, cursor: u64, out: &mut Vec<Problem<String>>)
    requires
        j < l.fields@.len(),
        cursor == field_end(l.fields@, j as nat),
    ensures
        problem_views(final(out)@) == problem_views(old(out)@) + field_problems(*f, *l, j as int),
{
    let ghost base = problem_views(out@);
    let fl = &l.fields[j];
    if field_seen_before(l, j) {
        report(out, Problem::FieldDefinedTwice { layout: copy(&l.name), field: copy(&fl.name) });
    }
    if fl.off != cursor {
        report(
            out,
            Problem::FieldOffset {
                layout: copy(&l.name),
                field: copy(&fl.name),
                off: fl.off,
                end: cursor,
            },
        );
    }
    match type_size(fl.ty.as_str()) {
        None => {
            report(
                out,
                Problem::FieldTypeUnknown {
                    layout: copy(&l.name),
                    field: copy(&fl.name),
                    ty: copy(&fl.ty),
                },
            );
        },
        Some(_) => {
            if let Some(en) = &fl.enum_ {
                let ok = match f.enum_(en.as_str()) {
                    Some(x) => text_eq(x.width.as_str(), fl.ty.as_str()),
                    None => false,
                };
                if !ok {
                    report(
                        out,
                        Problem::FieldEnum {
                            layout: copy(&l.name),
                            field: copy(&fl.name),
                            enum_name: copy(en),
                        },
                    );
                }
            }
            if let Some(fsn) = &fl.flags {
                let ok = match f.flag_set(fsn.as_str()) {
                    Some(x) => text_eq(x.width.as_str(), fl.ty.as_str()),
                    None => false,
                };
                if !ok {
                    report(
                        out,
                        Problem::FieldFlags {
                            layout: copy(&l.name),
                            field: copy(&fl.name),
                            flag_set: copy(fsn),
                        },
                    );
                }
            }
            if fl.reserved != text_starts_with(fl.name.as_str(), "reserved") {
                report(out, Problem::FieldReserved { layout: copy(&l.name), field: copy(&fl.name) });
            }
        },
    }
    proof {
        assert(problem_views(out@) =~= base + field_problems(*f, *l, j as int));
    }
}

fn check_heap_ref(l: &Layout, k: usize, out: &mut Vec<Problem<String>>)
    requires
        k < l.heap_refs@.len(),
    ensures
        problem_views(final(out)@) == problem_views(old(out)@) + heap_ref_problems(*l, k as int),
{
    let ghost base = problem_views(out@);
    let r = &l.heap_refs[k];
    let ok = match (l.field(r.0.as_str()), l.field(r.1.as_str())) {
        (Some(o), Some(n)) => text_eq(o.ty.as_str(), "u64") && (text_eq(n.ty.as_str(), "u32")
            || text_eq(n.ty.as_str(), "u64")),
        _ => false,
    };
    if !ok {
        report(
            out,
            Problem::HeapRef {
                layout: copy(&l.name),
                offset_field: copy(&r.0),
                length_field: copy(&r.1),
            },
        );
    }
    proof {
        assert(problem_views(out@) =~= base + heap_ref_problems(*l, k as int));
    }
}

fn check_layout(f: &Format, i: usize, out: &mut Vec<Problem<String>>)
    requires
        i < f.layouts@.len(),
        layout_ends_fit(f.layouts@[i as int]),
    ensures
        problem_views(final(out)@) == problem_views(old(out)@) + layout_problems(*f, i as int),
{
    let ghost base = problem_views(out@);
    let l = &f.layouts[i];
    if layout_seen_before(f, i) {
        report(out, Problem::LayoutDefinedTwice { name: copy(&l.name) });
    }
    let ghost mid = problem_views(out@);
    let ghost item = |j: int| field_problems(*f, *l, j);
    let n = l.fields.len();
    let mut cursor: u64 = 0;
    let mut j: usize = 0;
    while j < n
        invariant
            n == l.fields@.len(),
            l == &f.layouts@[i as int],
            layout_ends_fit(*l),
            j <= n,
            cursor == field_end(l.fields@, j as nat),
            item == (|j: int| field_problems(*f, *l, j)),
            problem_views(out@) == mid + concat_upto(j as nat, item),
        decreases n - j,
    {
        let ghost before = problem_views(out@);
        check_field(f, l, j, cursor, out);
        let fl = &l.fields[j];
        match type_size(fl.ty.as_str()) {
            Some(sz) => {
                assert(fl.off + sz <= u64::MAX);
                cursor = fl.off + sz;
            },
            None => {},
        }
        proof {
            assert(problem_views(out@) =~= before + item(j as int));
        }
        j = j + 1;
    }
    let ghost after_fields = problem_views(out@);
    if cursor != l.size {
        report(out, Problem::LayoutSize { layout: copy(&l.name), end: cursor, size: l.size });
    }
    if l.size % 8 != 0 {
        report(out, Problem::LayoutAlignment { layout: copy(&l.name), size: l.size });
    }
    let ghost mid2 = problem_views(out@);
    let ghost item2 = |k: int| heap_ref_problems(*l, k);
    let m = l.heap_refs.len();
    let mut k: usize = 0;
    while k < m
        invariant
            m == l.heap_refs@.len(),
            k <= m,
            item2 == (|k: int| heap_ref_problems(*l, k)),
            problem_views(out@) == mid2 + concat_upto(k as nat, item2),
        decreases m - k,
    {
        let ghost before = problem_views(out@);
        check_heap_ref(l, k, out);
        proof {
            assert(problem_views(out@) =~= before + item2(k as int));
        }
        k = k + 1;
    }
    proof {
        assert(problem_views(out@) =~= base + layout_problems(*f, i as int));
    }
}

fn check_required_layout(f: &Format, name: &str, out: &mut Vec<Problem<String>>)
    ensures
        problem_views(final(out)@) == problem_views(old(out)@) + required_layout(*f, name@),
{
    let ghost base = problem_views(out@);
    if f.layout(name).is_none() {
        report(out, Problem::LayoutRequired { name: owned(name) });
    }
    proof {
        assert(problem_views(out@) =~= base + required_layout(*f, name@));
    }
}

pub fn check_layouts(f: &Format, out: &mut Vec<Problem<String>>)
    requires
        field_ends_fit(*f),
    ensures
        problem_views(final(out)@) == problem_views(old(out)@) + layout_section(*f),
{
    let ghost base = problem_views(out@);
    let ghost item = |i: int| layout_problems(*f, i);
    let n = f.layouts.len();
    let mut i: usize = 0;
    while i < n
        invariant
            n == f.layouts@.len(),
            field_ends_fit(*f),
            i <= n,
            item == (|i: int| layout_problems(*f, i)),
            problem_views(out@) == base + concat_upto(i as nat, item),
        decreases n - i,
    {
        let ghost before = problem_views(out@);
        proof {
            assert forall|j: int| 0 <= j < f.layouts@[i as int].fields@.len() implies match type_size_spec(
                #[trigger] f.layouts@[i as int].fields@[j].ty@,
            ) {
                Some(sz) => f.layouts@[i as int].fields@[j].off + sz <= u64::MAX,
                None => true,
            } by {}
        }
        check_layout(f, i, out);
        proof {
            assert(problem_views(out@) =~= before + item(i as int));
        }
        i = i + 1;
    }
    let ghost mid = problem_views(out@);
    check_required_layout(f, "header", out);
    check_required_layout(f, "trailer", out);
    check_required_layout(f, "block_header", out);
    check_required_layout(f, "data_header", out);
    check_required_layout(f, "index_header", out);
    proof {
        assert(problem_views(out@) =~= base + layout_section(*f));
    }
}

fn table_seen_before(f: &Format, i: usize) -> (r: bool)
    requires
        i < f.index_tables@.len(),
    ensures
        r == appears_before(table_names(*f), i as int),
{
    let mut k: usize = 0;
    while k < i
        invariant
            i < f.index_tables@.len(),
            k <= i,
            forall|m: int| 0 <= m < k ==> table_names(*f)[m] != table_names(*f)[i as int],
        decreases i - k,
    {
        if text_eq(f.index_tables[k].name.as_str(), f.index_tables[i].name.as_str()) {
            assert(table_names(*f)[k as int] == table_names(*f)[i as int]);
            return true;
        }
        k = k + 1;
    }
    false
}

fn check_table(f: &Format, ih: &Layout, i: usize, out: &mut Vec<Problem<String>>)
    requires
        i < f.index_tables@.len(),
    ensures
        problem_views(final(out)@) == problem_views(old(out)@) + table_problems(*f, *ih, i as int),
{
    let ghost base = problem_views(out@);
    let t = &f.index_tables[i];
    if table_seen_before(f, i) {
        report(out, Problem::IndexTableTwice { name: copy(&t.name) });
    }
    let ok = match ih.field(t.count.as_str()) {
        Some(c) => text_eq(c.ty.as_str(), "u64") || text_eq(c.ty.as_str(), "u32"),
        None => false,
    };
    if !ok {
        report(out, Problem::IndexTableCount { name: copy(&t.name), count: copy(&t.count) });
    }
    if let Some(rec) = &t.record {
        if f.layout(rec.as_str()).is_none() {
            report(out, Problem::IndexTableRecord { name: copy(&t.name), record: copy(rec) });
        }
    }
    proof {
        assert(problem_views(out@) =~= base + table_problems(*f, *ih, i as int));
    }
}

pub fn check_index(f: &Format, out: &mut Vec<Problem<String>>)
    ensures
        problem_views(final(out)@) == problem_views(old(out)@) + index_section(*f),
{
    let ghost base = problem_views(out@);
    if let Some(ih) = f.layout("index_header") {
        let ghost item = |i: int| table_problems(*f, *ih, i);
        let n = f.index_tables.len();
        let mut i: usize = 0;
        while i < n
            invariant
                n == f.index_tables@.len(),
                i <= n,
                item == (|i: int| table_problems(*f, *ih, i)),
                problem_views(out@) == base + concat_upto(i as nat, item),
            decreases n - i,
        {
            let ghost before = problem_views(out@);
            check_table(f, ih, i, out);
            proof {
                assert(problem_views(out@) =~= before + item(i as int));
            }
            i = i + 1;
        }
        let lf = f.heap.length_field.as_str();
        let ok = if text_starts_with(lf, "index_header.") {
            proof {
                reveal_strlit("index_header.");
            }
            let rest = lf.substring_char(13, lf.unicode_len());
            ih.field(rest).is_some()
        } else {
            false
        };
        if !ok {
            report(out, Problem::HeapLengthField);
        }
    }
    proof {
        assert(problem_views(out@) =~= base + index_section(*f));
    }
}

} // verus!
