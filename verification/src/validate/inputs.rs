//! The declared inputs against the files of the spec directory, and the two
//! clocks' companions: endianness and status.
use crate::problem::{copy, problem_views, report, only_if, Problem};
use crate::schema::Format;
use crate::strmap::{string_views, SortedStrMap};
use crate::text::{sorted_list, text_eq};
use crate::validate::common::owned;
use vstd::prelude::*;

verus! {

/// The file names that the spec directory may hold: `format.yaml` and every
/// declared input.
pub open spec fn declared_inputs(f: Format) -> Set<Seq<char>> {
    string_views(f.inputs@).to_set().insert("format.yaml"@)
}

/// The listing of the spec directory as the checks see it: its file names, or
/// the message of the failure to list it.
pub open spec fn listing_view(p: Result<Vec<String>, String>) -> Result<
    Seq<Seq<char>>,
    Seq<char>,
> {
    match p {
        Ok(v) => Ok(string_views(v@)),
        Err(m) => Err(m@),
    }
}

/// Undeclared files in ascending order, then missing inputs in ascending order;
/// or the failure to list the directory.
pub open spec fn input_problems(listing: Result<Seq<Seq<char>>, Seq<char>>, f: Format) -> Seq<
    Problem<Seq<char>>,
> {
    match listing {
        Ok(names) => {
            let declared = declared_inputs(f);
            let present = names.to_set();
            sorted_list(present.difference(declared)).map_values(
                |n: Seq<char>| Problem::UndeclaredInput { name: n },
            ) + sorted_list(declared.difference(present)).map_values(
                |n: Seq<char>| Problem::MissingInput { name: n },
            )
        },
        Err(m) => seq![Problem::SpecDirUnreadable { message: m }],
    }
}

/// Endianness other than `little`, then a status that is not `UNSTABLE`
/// exactly when the major version is 0.
pub open spec fn header_problems(f: Format) -> Seq<Problem<Seq<char>>> {
    only_if(
        f.endianness@ != "little"@,
        Problem::EndiannessUnsupported { endianness: f.endianness@ },
    ) + only_if(
        (f.format_version.major == 0) != (f.status@ == "UNSTABLE"@),
        Problem::StatusMismatch,
    )
}

/// The set of the given names, in a sorted map.
fn name_set(names: &Vec<String>) -> (m: SortedStrMap<()>)
    ensures
        m.key_set() == string_views(names@).to_set(),
{
    let mut m: SortedStrMap<()> = SortedStrMap::new();
    let n = names.len();
    let mut i: usize = 0;
    proof {
        assert(m.key_set() =~= string_views(names@).take(0).to_set());
    }
    while i < n
        invariant
            n == names@.len(),
            i <= n,
            m.key_set() == string_views(names@).take(i as int).to_set(),
        decreases n - i,
    {
        proof {
            let v = string_views(names@);
            assert(v.take(i + 1) =~= v.take(i as int).push(v[i as int]));
            v.take(i as int).lemma_push_to_set_commute(v[i as int]);
        }
        m.insert(copy(&names[i]), ());
        i = i + 1;
    }
    proof {
        assert(string_views(names@).take(n as int) =~= string_views(names@));
    }
    m
}

pub fn check_inputs(
    listing: &Result<Vec<String>, String>,
    f: &Format,
    out: &mut Vec<Problem<String>>,
)
    ensures
        problem_views(final(out)@) == problem_views(old(out)@) + input_problems(
            listing_view(*listing),
            *f,
        ),
{
    match listing {
        Ok(names) => {
            let mut declared = name_set(&f.inputs);
            declared.insert(owned("format.yaml"), ());
            let present = name_set(names);
            let undeclared = present.keys_not_in(&declared);
            let missing = declared.keys_not_in(&present);
            let ghost base = problem_views(out@);
            let ghost u = string_views(undeclared@);
            let ghost m = string_views(missing@);
            let n = undeclared.len();
            let mut i: usize = 0;
            while i < n
                invariant
                    n == undeclared@.len(),
                    u == string_views(undeclared@),
                    i <= n,
                    problem_views(out@) == base + u.take(i as int).map_values(
                        |x: Seq<char>| Problem::UndeclaredInput { name: x },
                    ),
                decreases n - i,
            {
                report(out, Problem::UndeclaredInput { name: copy(&undeclared[i]) });
                proof {
                    assert(u.take(i + 1) =~= u.take(i as int).push(u[i as int]));
                    u.take(i as int).lemma_push_map_commute(
                        |x: Seq<char>| Problem::UndeclaredInput { name: x },
                        u[i as int],
                    );
                }
                i = i + 1;
            }
            assert(u.take(n as int) =~= u);
            let ghost mid = problem_views(out@);
            let k = missing.len();
            let mut j: usize = 0;
            while j < k
                invariant
                    k == missing@.len(),
                    m == string_views(missing@),
                    j <= k,
                    problem_views(out@) == mid + m.take(j as int).map_values(
                        |x: Seq<char>| Problem::MissingInput { name: x },
                    ),
                decreases k - j,
            {
                report(out, Problem::MissingInput { name: copy(&missing[j]) });
                proof {
                    assert(m.take(j + 1) =~= m.take(j as int).push(m[j as int]));
                    m.take(j as int).lemma_push_map_commute(
                        |x: Seq<char>| Problem::MissingInput { name: x },
                        m[j as int],
                    );
                }
                j = j + 1;
            }
            proof {
                assert(m.take(k as int) =~= m);
                assert(declared.key_set() =~= declared_inputs(*f));
            }
        },
        Err(message) => {
            report(out, Problem::SpecDirUnreadable { message: copy(message) });
        },
    }
}

pub fn check_header(f: &Format, out: &mut Vec<Problem<String>>)
    ensures
        problem_views(final(out)@) == problem_views(old(out)@) + header_problems(*f),
{
    let ghost base = problem_views(out@);
    if !text_eq(f.endianness.as_str(), "little") {
        report(out, Problem::EndiannessUnsupported { endianness: copy(&f.endianness) });
    }
    let ghost mid = problem_views(out@);
    let unstable = f.format_version.major == 0;
    if unstable != text_eq(f.status.as_str(), "UNSTABLE") {
        report(out, Problem::StatusMismatch);
    }
    proof {
        assert(problem_views(out@) =~= base + header_problems(*f));
    }
}

} // verus!
