//! Helpers shared by the checks: earlier occurrences of a name, and owned text.
use crate::problem::Problem;
use crate::strmap::string_views;
use crate::text::text_eq;
use vstd::prelude::*;

verus! {

/// The problems of each index below `n`, in order.
pub open spec fn concat_upto(n: nat, item: spec_fn(int) -> Seq<Problem<Seq<char>>>) -> Seq<
    Problem<Seq<char>>,
>
    decreases n,
{
    if n == 0 {
        Seq::empty()
    } else {
        concat_upto((n - 1) as nat, item) + item(n - 1)
    }
}

/// The name at `i` also occurs at some earlier position.
pub open spec fn appears_before(s: Seq<Seq<char>>, i: int) -> bool {
    exists|j: int| 0 <= j < i && s[j] == s[i]
}

/// Some two positions of `s` hold the same name.
pub open spec fn has_repeat(s: Seq<Seq<char>>) -> bool {
    exists|i: int, j: int| 0 <= i < j < s.len() && s[i] == s[j]
}

/// Whether `s` occurs among the first `upto` names.
pub fn occurs_in(names: &Vec<String>, upto: usize, s: &str) -> (r: bool)
    requires
        upto <= names@.len(),
    ensures
        r == (exists|j: int| 0 <= j < upto && names@[j]@ == s@),
{
    let mut j: usize = 0;
    while j < upto
        invariant
            upto <= names@.len(),
            j <= upto,
            forall|k: int| 0 <= k < j ==> names@[k]@ != s@,
        decreases upto - j,
    {
        if text_eq(names[j].as_str(), s) {
            return true;
        }
        j = j + 1;
    }
    false
}

/// Whether the name at `i` occurs at an earlier position.
pub fn seen_before(names: &Vec<String>, i: usize) -> (r: bool)
    requires
        i < names@.len(),
    ensures
        r == appears_before(string_views(names@), i as int),
{
    let r = occurs_in(names, i, names[i].as_str());
    proof {
        let v = string_views(names@);
        if r {
            let j = choose|j: int| 0 <= j < i && names@[j]@ == names@[i as int]@;
            assert(v[j] == v[i as int]);
        }
        if appears_before(v, i as int) {
            let j = choose|j: int| 0 <= j < i && v[j] == v[i as int];
            assert(names@[j]@ == names@[i as int]@);
        }
    }
    r
}

/// Whether some two names are the same.
pub fn any_repeat(names: &Vec<String>) -> (r: bool)
    ensures
        r == has_repeat(string_views(names@)),
{
    let n = names.len();
    let mut i: usize = 0;
    while i < n
        invariant
            n == names@.len(),
            i <= n,
            forall|a: int, b: int|
                0 <= a < b < i ==> #[trigger] string_views(names@)[a] != #[trigger] string_views(
                    names@,
                )[b],
        decreases n - i,
    {
        if seen_before(names, i) {
            proof {
                let v = string_views(names@);
                let j = choose|j: int| 0 <= j < i && v[j] == v[i as int];
                assert(v[j] == v[i as int]);
            }
            return true;
        }
        i = i + 1;
    }
    false
}

/// An owned copy of `s`.
pub fn owned(s: &str) -> (r: String)
    ensures
        r@ == s@,
{
    s.to_owned()
}

} // verus!
