//! Acceptance of format versions, and the names and bytes of constants and magics.
use crate::problem::{copy, only_if, problem_views, report, Problem};
use crate::schema::{AcceptRow, Constant, Format, Magic};
use crate::strmap::{lemma_views_push, string_views};
use crate::text::{is_ascii_digit, is_ascii_upper, text_eq};
use crate::validate::common::{appears_before, concat_upto, seen_before};
use vstd::prelude::*;

verus! {

/// An earlier row has the same version.
pub open spec fn row_seen_before(rows: Seq<AcceptRow>, i: int) -> bool {
    exists|j: int|
        0 <= j < i && rows[j].file_major == rows[i].file_major && rows[j].file_minor
            == rows[i].file_minor
}

pub open spec fn row_problems(rows: Seq<AcceptRow>, i: int) -> Seq<Problem<Seq<char>>> {
    only_if(
        rows[i].verdict@ != "accept"@,
        Problem::RowVerdict { major: rows[i].file_major, minor: rows[i].file_minor },
    ) + only_if(
        row_seen_before(rows, i),
        Problem::RowDuplicated { major: rows[i].file_major, minor: rows[i].file_minor },
    )
}

/// Some row is the current format version.
pub open spec fn accepts_current(f: Format) -> bool {
    exists|i: int|
        0 <= i < f.acceptance.rows@.len() && f.acceptance.rows@[i].file_major
            == f.format_version.major && f.acceptance.rows@[i].file_minor
            == f.format_version.minor
}

/// `otherwise` that is not `reject`, then each row's verdict and repetition,
/// then a current version that no row lists.
pub open spec fn acceptance_problems(f: Format) -> Seq<Problem<Seq<char>>> {
    let rows = f.acceptance.rows@;
    only_if(f.acceptance.otherwise@ != "reject"@, Problem::OtherwiseNotReject) + concat_upto(
        rows.len(),
        |i: int| row_problems(rows, i),
    ) + only_if(!accepts_current(f), Problem::CurrentNotAccepted)
}

/// Upper-case ASCII letters, digits and underscores only.
pub open spec fn screaming_snake(s: Seq<char>) -> bool {
    forall|i: int|
        0 <= i < s.len() ==> is_ascii_upper(#[trigger] s[i]) || is_ascii_digit(s[i]) || s[i]
            == '_'
}

/// The names of the constants, then those of the magics.
pub open spec fn defined_names(f: Format) -> Seq<Seq<char>> {
    f.constants@.map_values(|c: Constant| c.name@) + f.magics@.map_values(
        |m: Magic| m.name@,
    )
}

pub open spec fn name_problems(names: Seq<Seq<char>>, i: int) -> Seq<Problem<Seq<char>>> {
    only_if(appears_before(names, i), Problem::NameDefinedTwice { name: names[i] }) + only_if(
        !screaming_snake(names[i]),
        Problem::NameNotScreamingSnake { name: names[i] },
    )
}

pub open spec fn magic_length_problems(magics: Seq<Magic>, i: int) -> Seq<Problem<Seq<char>>> {
    only_if(magics[i].bytes@.len() != 8, Problem::MagicLength { name: magics[i].name@ })
}

/// Two magics have the same bytes.
pub open spec fn magic_bytes_repeat(magics: Seq<Magic>) -> bool {
    exists|i: int, j: int| 0 <= i < j < magics.len() && magics[i].bytes@ == magics[j].bytes@
}

/// Each name defined twice or not in SCREAMING_SNAKE_CASE, then each magic
/// that is not 8 bytes long, then magics with the same bytes.
pub open spec fn constant_problems(f: Format) -> Seq<Problem<Seq<char>>> {
    let names = defined_names(f);
    let magics = f.magics@;
    concat_upto(names.len(), |i: int| name_problems(names, i)) + concat_upto(
        magics.len(),
        |i: int| magic_length_problems(magics, i),
    ) + only_if(magic_bytes_repeat(magics), Problem::MagicBytesCollide)
}

fn row_seen(rows: &Vec<AcceptRow>, i: usize) -> (r: bool)
    requires
        i < rows@.len(),
    ensures
        r == row_seen_before(rows@, i as int),
{
    let mut j: usize = 0;
    while j < i
        invariant
            i < rows@.len(),
            j <= i,
            forall|k: int|
                0 <= k < j ==> !(rows@[k].file_major == rows@[i as int].file_major
                    && rows@[k].file_minor == rows@[i as int].file_minor),
        decreases i - j,
    {
        if rows[j].file_major == rows[i].file_major && rows[j].file_minor == rows[i].file_minor {
            return true;
        }
        j = j + 1;
    }
    false
}

pub fn check_acceptance(f: &Format, out: &mut Vec<Problem<String>>)
    ensures
        problem_views(final(out)@) == problem_views(old(out)@) + acceptance_problems(*f),
{
    let ghost base = problem_views(out@);
    if !text_eq(f.acceptance.otherwise.as_str(), "reject") {
        report(out, Problem::OtherwiseNotReject);
    }
    let ghost start = problem_views(out@);
    let rows = &f.acceptance.rows;
    let ghost item = |i: int| row_problems(rows@, i);
    let n = rows.len();
    let mut i: usize = 0;
    while i < n
        invariant
            n == rows@.len(),
            i <= n,
            item == (|i: int| row_problems(rows@, i)),
            problem_views(out@) == start + concat_upto(i as nat, item),
        decreases n - i,
    {
        let ghost before = problem_views(out@);
        let row = &rows[i];
        if !text_eq(row.verdict.as_str(), "accept") {
            report(out, Problem::RowVerdict { major: row.file_major, minor: row.file_minor });
        }
        if row_seen(rows, i) {
            report(out, Problem::RowDuplicated { major: row.file_major, minor: row.file_minor });
        }
        proof {
            assert(problem_views(out@) =~= before + item(i as int));
        }
        i = i + 1;
    }
    let ghost end = problem_views(out@);
    let mut found = false;
    let mut k: usize = 0;
    while k < n
        invariant
            n == rows@.len(),
            k <= n,
            rows == &f.acceptance.rows,
            found == exists|j: int|
                0 <= j < k && rows@[j].file_major == f.format_version.major
                    && rows@[j].file_minor == f.format_version.minor,
        decreases n - k,
    {
        if rows[k].file_major == f.format_version.major && rows[k].file_minor
            == f.format_version.minor {
            found = true;
        }
        k = k + 1;
    }
    if !found {
        report(out, Problem::CurrentNotAccepted);
    }
    proof {
        assert(problem_views(out@) =~= base + acceptance_problems(*f));
    }
}

/// Upper-case ASCII letters, digits and underscores only.
pub fn is_screaming_snake(s: &str) -> (r: bool)
    ensures
        r == screaming_snake(s@),
{
    let n = s.unicode_len();
    let mut i: usize = 0;
    while i < n
        invariant
            n == s@.len(),
            i <= n,
            forall|j: int|
                0 <= j < i ==> is_ascii_upper(#[trigger] s@[j]) || is_ascii_digit(s@[j]) || s@[j]
                    == '_',
        decreases n - i,
    {
        let c = s.get_char(i);
        if !(('A' <= c && c <= 'Z') || ('0' <= c && c <= '9') || c == '_') {
            return false;
        }
        i = i + 1;
    }
    true
}

fn collect_names(f: &Format) -> (names: Vec<String>)
    ensures
        string_views(names@) == defined_names(*f),
{
    let mut names: Vec<String> = Vec::new();
    let n = f.constants.len();
    let mut i: usize = 0;
    while i < n
        invariant
            n == f.constants@.len(),
            i <= n,
            string_views(names@) == f.constants@.take(i as int).map_values(
                |c: Constant| c.name@,
            ),
        decreases n - i,
    {
        let ghost old_names = names@;
        let x = copy(&f.constants[i].name);
        names.push(x);
        proof {
            lemma_views_push(old_names, x);
            assert(f.constants@.take(i + 1) =~= f.constants@.take(i as int).push(
                f.constants@[i as int],
            ));
            f.constants@.take(i as int).lemma_push_map_commute(
                |c: Constant| c.name@,
                f.constants@[i as int],
            );
            assert(string_views(names@) =~= f.constants@.take(i + 1).map_values(
                |c: Constant| c.name@,
            ));
        }
        i = i + 1;
    }
    let ghost first = string_views(names@);
    assert(f.constants@.take(n as int) =~= f.constants@);
    let m = f.magics.len();
    let mut j: usize = 0;
    while j < m
        invariant
            m == f.magics@.len(),
            j <= m,
            first == f.constants@.map_values(|c: Constant| c.name@),
            string_views(names@) == first + f.magics@.take(j as int).map_values(
                |x: Magic| x.name@,
            ),
        decreases m - j,
    {
        let ghost old_names = names@;
        let x = copy(&f.magics[j].name);
        names.push(x);
        proof {
            lemma_views_push(old_names, x);
            assert(f.magics@.take(j + 1) =~= f.magics@.take(j as int).push(f.magics@[j as int]));
            f.magics@.take(j as int).lemma_push_map_commute(|x: Magic| x.name@, f.magics@[j as int]);
            assert(string_views(names@) =~= first + f.magics@.take(j + 1).map_values(
                |x: Magic| x.name@,
            ));
        }
        j = j + 1;
    }
    assert(f.magics@.take(m as int) =~= f.magics@);
    names
}

fn bytes_eq(a: &Vec<u8>, b: &Vec<u8>) -> (r: bool)
    ensures
        r == (a@ == b@),
{
    if a.len() != b.len() {
        return false;
    }
    let n = a.len();
    let mut i: usize = 0;
    while i < n
        invariant
            n == a@.len(),
            n == b@.len(),
            i <= n,
            forall|j: int| 0 <= j < i ==> a@[j] == b@[j],
        decreases n - i,
    {
        if a[i] != b[i] {
            return false;
        }
        i = i + 1;
    }
    assert(a@ =~= b@);
    true
}

fn magics_repeat(magics: &Vec<Magic>) -> (r: bool)
    ensures
        r == magic_bytes_repeat(magics@),
{
    let n = magics.len();
    let mut j: usize = 0;
    while j < n
        invariant
            n == magics@.len(),
            j <= n,
            forall|a: int, b: int|
                0 <= a < b < j ==> #[trigger] magics@[a].bytes@ != #[trigger] magics@[b].bytes@,
        decreases n - j,
    {
        let mut i: usize = 0;
        while i < j
            invariant
                n == magics@.len(),
                i <= j < n,
                forall|a: int| 0 <= a < i ==> magics@[a].bytes@ != magics@[j as int].bytes@,
            decreases j - i,
        {
            if bytes_eq(&magics[i].bytes, &magics[j].bytes) {
                return true;
            }
            i = i + 1;
        }
        j = j + 1;
    }
    false
}

pub fn check_constants(f: &Format, out: &mut Vec<Problem<String>>)
    ensures
        problem_views(final(out)@) == problem_views(old(out)@) + constant_problems(*f),
{
    let ghost base = problem_views(out@);
    let names = collect_names(f);
    let ghost nv = defined_names(*f);
    let ghost item = |i: int| name_problems(nv, i);
    let n = names.len();
    let mut i: usize = 0;
    while i < n
        invariant
            n == names@.len(),
            nv == string_views(names@),
            i <= n,
            item == (|i: int| name_problems(nv, i)),
            problem_views(out@) == base + concat_upto(i as nat, item),
        decreases n - i,
    {
        let ghost before = problem_views(out@);
        if seen_before(&names, i) {
            report(out, Problem::NameDefinedTwice { name: copy(&names[i]) });
        }
        if !is_screaming_snake(names[i].as_str()) {
            report(out, Problem::NameNotScreamingSnake { name: copy(&names[i]) });
        }
        proof {
            assert(problem_views(out@) =~= before + item(i as int));
        }
        i = i + 1;
    }
    let ghost mid = problem_views(out@);
    let magics = &f.magics;
    let ghost item2 = |i: int| magic_length_problems(magics@, i);
    let m = magics.len();
    let mut j: usize = 0;
    while j < m
        invariant
            m == magics@.len(),
            j <= m,
            item2 == (|i: int| magic_length_problems(magics@, i)),
            problem_views(out@) == mid + concat_upto(j as nat, item2),
        decreases m - j,
    {
        let ghost before = problem_views(out@);
        if magics[j].bytes.len() != 8 {
            report(out, Problem::MagicLength { name: copy(&magics[j].name) });
        }
        proof {
            assert(problem_views(out@) =~= before + item2(j as int));
        }
        j = j + 1;
    }
    if magics_repeat(magics) {
        report(out, Problem::MagicBytesCollide);
    }
    proof {
        assert(problem_views(out@) =~= base + constant_problems(*f));
    }
}

} // verus!
