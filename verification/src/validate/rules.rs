//! Phases, rules and their fixtures, and flag sets.
use crate::problem::{copy, only_if, problem_views, report, Problem};
use crate::schema::{rule_variant, rule_variant_spec, FlagBit, FlagSet, Format, Phase, Rule, Rules};
use crate::strmap::{lemma_views_push, string_views};
use crate::text::{is_ascii_digit, is_ascii_lower, text_eq};
use crate::validate::common::{
    any_repeat, appears_before, concat_upto, has_repeat, occurs_in, seen_before,
};
use vstd::prelude::*;

verus! {

pub open spec fn phase_names(f: Format) -> Seq<Seq<char>> {
    f.phases@.map_values(|p: Phase| p.name@)
}

pub open spec fn rule_ids(rules: Seq<Rule>) -> Seq<Seq<char>> {
    rules.map_values(|x: Rule| x.id@)
}

/// Dotted lower_snake segments: at least two segments, none empty, each made
/// of ASCII lower-case letters, digits and underscores.
pub open spec fn is_rule_id(s: Seq<char>) -> bool {
    &&& exists|i: int| 0 <= i < s.len() && s[i] == '.'
    &&& forall|i: int|
        0 <= i < s.len() ==> {
            &&& #[trigger] s[i] == '.' ==> 0 < i && i + 1 < s.len() && s[i - 1] != '.'
            &&& s[i] == '.' || is_ascii_lower(s[i]) || is_ascii_digit(s[i]) || s[i] == '_'
        }
}

/// An earlier rule's id has the same variant name.
pub open spec fn variant_taken_before(rules: Seq<Rule>, i: int) -> bool {
    exists|k: int| 0 <= k < i && rule_variant_spec(rules[k].id@) == rule_variant_spec(rules[i].id@)
}

/// What the rule's scope asks of its phase, fixtures, reason and level.
pub open spec fn scope_problems(f: Format, rule: Rule) -> Seq<Problem<Seq<char>>> {
    let id = rule.id@;
    let scope = rule.scope@;
    if scope == "file"@ || scope == "chain"@ {
        only_if(
            !(rule.phase matches Some(p) && phase_names(f).contains(p@)),
            Problem::RuleNeedsPhase { id },
        ) + only_if(rule.fixtures@.len() == 0, Problem::RuleNeedsFixture { id, scope })
            + only_if(rule.no_fixture_because is Some, Problem::RuleReasonMisplaced { id })
            + only_if(rule.level@ != "MUST"@, Problem::RuleShouldCannotReject { id })
    } else if scope == "writer"@ || scope == "behaviour"@ {
        only_if(
            rule.fixtures@.len() > 0 || rule.phase is Some,
            Problem::RuleTakesNoFixtures { id, scope },
        ) + only_if(
            match rule.no_fixture_because {
                None => true,
                Some(t) => t@.len() == 0,
            },
            Problem::RuleReasonRequired { id },
        )
    } else {
        seq![Problem::RuleScopeUnknown { id, scope }]
    }
}

/// The fixtures of the first `i` rules, in order.
pub open spec fn fixtures_before(rules: Seq<Rule>, i: nat) -> Seq<Seq<char>>
    decreases i,
{
    if i == 0 || i > rules.len() {
        Seq::empty()
    } else {
        fixtures_before(rules, (i - 1) as nat) + string_views(rules[i - 1].fixtures@)
    }
}

/// Fixture `j` of rule `i` was cited before.
pub open spec fn fixture_problems(rules: Seq<Rule>, i: int, j: int) -> Seq<Problem<Seq<char>>> {
    let fx = rules[i].fixtures@[j]@;
    only_if(
        (fixtures_before(rules, i as nat) + string_views(rules[i].fixtures@).take(j)).contains(fx),
        Problem::FixtureCitedTwice { fixture: fx },
    )
}

pub open spec fn rule_problems(f: Format, rules: Seq<Rule>, i: int) -> Seq<Problem<Seq<char>>> {
    let rule = rules[i];
    let id = rule.id@;
    only_if(!is_rule_id(id), Problem::RuleIdShape { id }) + only_if(
        appears_before(rule_ids(rules), i),
        Problem::RuleDefinedTwice { id },
    ) + only_if(variant_taken_before(rules, i), Problem::RuleVariantCollision { id }) + only_if(
        rule.level@ != "MUST"@ && rule.level@ != "SHOULD"@,
        Problem::RuleLevel { id },
    ) + scope_problems(f, rule) + concat_upto(
        rule.fixtures@.len(),
        |j: int| fixture_problems(rules, i, j),
    )
}

/// Repeated phase names, then each rule's problems in order.
pub open spec fn rule_section(f: Format, r: Rules) -> Seq<Problem<Seq<char>>> {
    let rules = r.rules@;
    only_if(has_repeat(phase_names(f)), Problem::PhaseNamesRepeat) + concat_upto(
        rules.len(),
        |i: int| rule_problems(f, rules, i),
    )
}

/// Position `i` holds the last occurrence of `name`.
pub open spec fn is_last(names: Seq<Seq<char>>, name: Seq<char>, i: int) -> bool {
    &&& 0 <= i < names.len()
    &&& names[i] == name
    &&& forall|j: int| i < j < names.len() ==> names[j] != name
}

/// The position of the last occurrence of `name`: a later rule with the same
/// id takes the place of an earlier one.
pub open spec fn last_index(names: Seq<Seq<char>>, name: Seq<char>) -> Option<int> {
    if names.contains(name) {
        Some(choose|i: int| is_last(names, name, i))
    } else {
        None
    }
}

/// The rule that `id` names, the last with that id, is a file rule.
pub open spec fn names_file_rule(r: Rules, id: Seq<char>) -> bool {
    match last_index(rule_ids(r.rules@), id) {
        Some(k) => r.rules@[k].scope@ == "file"@,
        None => false,
    }
}

pub open spec fn bit_problems(fs: FlagSet, j: int) -> Seq<Problem<Seq<char>>> {
    let bits = fs.bits@;
    only_if(
        bits[j].bit >= 32 || exists|k: int| 0 <= k < j && bits[k].bit == bits[j].bit,
        Problem::FlagBitInvalid { set: fs.name@, bit: bits[j].name@ },
    )
}

pub open spec fn flag_set_problems(r: Rules, fs: FlagSet) -> Seq<Problem<Seq<char>>> {
    if fs.width@ != "u32"@ {
        seq![Problem::FlagSetWidth { name: fs.name@, width: fs.width@ }]
    } else {
        concat_upto(fs.bits@.len(), |j: int| bit_problems(fs, j)) + only_if(
            !names_file_rule(r, fs.unknown_odd_rule@),
            Problem::FlagSetOddRule { set: fs.name@, rule: fs.unknown_odd_rule@ },
        )
    }
}

/// Each flag set's problems in order.
pub open spec fn flag_section(f: Format, r: Rules) -> Seq<Problem<Seq<char>>> {
    let sets = f.flag_sets@;
    concat_upto(sets.len(), |i: int| flag_set_problems(r, sets[i]))
}

/// Whether `s` is dotted lower_snake segments.
pub fn is_rule_id_text(s: &str) -> (r: bool)
    ensures
        r == is_rule_id(s@),
{
    let n = s.unicode_len();
    let mut dot = false;
    let mut i: usize = 0;
    while i < n
        invariant
            n == s@.len(),
            i <= n,
            dot == exists|k: int| 0 <= k < i && s@[k] == '.',
            forall|k: int|
                0 <= k < i ==> {
                    &&& #[trigger] s@[k] == '.' ==> 0 < k && k + 1 < n && s@[k - 1] != '.'
                    &&& s@[k] == '.' || is_ascii_lower(s@[k]) || is_ascii_digit(s@[k]) || s@[k]
                        == '_'
                },
        decreases n - i,
    {
        let c = s.get_char(i);
        if c == '.' {
            if i == 0 || i + 1 >= n || s.get_char(i - 1) == '.' {
                return false;
            }
            dot = true;
        } else if !(('a' <= c && c <= 'z') || ('0' <= c && c <= '9') || c == '_') {
            return false;
        }
        i = i + 1;
    }
    dot
}

fn collect_phase_names(f: &Format) -> (names: Vec<String>)
    ensures
        string_views(names@) == phase_names(*f),
{
    let mut names: Vec<String> = Vec::new();
    let n = f.phases.len();
    let mut i: usize = 0;
    while i < n
        invariant
            n == f.phases@.len(),
            i <= n,
            string_views(names@) == f.phases@.take(i as int).map_values(|p: Phase| p.name@),
        decreases n - i,
    {
        let ghost old_names = names@;
        let x = copy(&f.phases[i].name);
        names.push(x);
        proof {
            lemma_views_push(old_names, x);
            assert(f.phases@.take(i + 1) =~= f.phases@.take(i as int).push(f.phases@[i as int]));
            f.phases@.take(i as int).lemma_push_map_commute(|p: Phase| p.name@, f.phases@[i as int]);
        }
        i = i + 1;
    }
    assert(f.phases@.take(n as int) =~= f.phases@);
    names
}

fn collect_rule_ids(rules: &Vec<Rule>) -> (ids: Vec<String>)
    ensures
        string_views(ids@) == rule_ids(rules@),
        ids@.len() == rules@.len(),
{
    let mut ids: Vec<String> = Vec::new();
    let n = rules.len();
    let mut i: usize = 0;
    while i < n
        invariant
            n == rules@.len(),
            i <= n,
            ids@.len() == i,
            string_views(ids@) == rule_ids(rules@.take(i as int)),
        decreases n - i,
    {
        let ghost old_ids = ids@;
        let x = copy(&rules[i].id);
        ids.push(x);
        proof {
            lemma_views_push(old_ids, x);
            assert(rules@.take(i + 1) =~= rules@.take(i as int).push(rules@[i as int]));
            rules@.take(i as int).lemma_push_map_commute(|x: Rule| x.id@, rules@[i as int]);
        }
        i = i + 1;
    }
    assert(rules@.take(n as int) =~= rules@);
    ids
}

fn check_scope(phases: &Vec<String>, f: &Format, rule: &Rule, out: &mut Vec<Problem<String>>)
    requires
        string_views(phases@) == phase_names(*f),
    ensures
        problem_views(final(out)@) == problem_views(old(out)@) + scope_problems(*f, *rule),
{
    let ghost base = problem_views(out@);
    let scope = rule.scope.as_str();
    if text_eq(scope, "file") || text_eq(scope, "chain") {
        let has_phase = match &rule.phase {
            Some(p) => {
                let r = occurs_in(phases, phases.len(), p.as_str());
                proof {
                    let v = string_views(phases@);
                    if r {
                        let j = choose|j: int| 0 <= j < phases@.len() && phases@[j]@ == p@;
                        assert(v[j] == p@);
                    }
                    if v.contains(p@) {
                        let j = choose|j: int| 0 <= j < v.len() && v[j] == p@;
                        assert(phases@[j]@ == p@);
                    }
                }
                r
            },
            None => false,
        };
        if !has_phase {
            report(out, Problem::RuleNeedsPhase { id: copy(&rule.id) });
        }
        if rule.fixtures.len() == 0 {
            report(out, Problem::RuleNeedsFixture { id: copy(&rule.id), scope: copy(&rule.scope) });
        }
        if rule.no_fixture_because.is_some() {
            report(out, Problem::RuleReasonMisplaced { id: copy(&rule.id) });
        }
        if !text_eq(rule.level.as_str(), "MUST") {
            report(out, Problem::RuleShouldCannotReject { id: copy(&rule.id) });
        }
    } else if text_eq(scope, "writer") || text_eq(scope, "behaviour") {
        if rule.fixtures.len() > 0 || rule.phase.is_some() {
            report(
                out,
                Problem::RuleTakesNoFixtures { id: copy(&rule.id), scope: copy(&rule.scope) },
            );
        }
        let missing = match &rule.no_fixture_because {
            None => true,
            Some(t) => t.as_str().unicode_len() == 0,
        };
        if missing {
            report(out, Problem::RuleReasonRequired { id: copy(&rule.id) });
        }
    } else {
        report(out, Problem::RuleScopeUnknown { id: copy(&rule.id), scope: copy(&rule.scope) });
    }
    proof {
        assert(problem_views(out@) =~= base + scope_problems(*f, *rule));
    }
}

fn check_fixtures(
    rules: &Vec<Rule>,
    i: usize,
    seen: &mut Vec<String>,
    out: &mut Vec<Problem<String>>,
)
    requires
        i < rules@.len(),
        string_views(old(seen)@) == fixtures_before(rules@, i as nat),
    ensures
        string_views(final(seen)@) == fixtures_before(rules@, (i + 1) as nat),
        problem_views(final(out)@) == problem_views(old(out)@) + concat_upto(
            rules@[i as int].fixtures@.len(),
            |j: int| fixture_problems(rules@, i as int, j),
        ),
{
    let ghost base = problem_views(out@);
    let ghost prior = fixtures_before(rules@, i as nat);
    let ghost item = |j: int| fixture_problems(rules@, i as int, j);
    let fixtures = &rules[i].fixtures;
    let ghost fv = string_views(fixtures@);
    let n = fixtures.len();
    let mut j: usize = 0;
    while j < n
        invariant
            i < rules@.len(),
            fixtures == &rules@[i as int].fixtures,
            fv == string_views(fixtures@),
            prior == fixtures_before(rules@, i as nat),
            n == fixtures@.len(),
            j <= n,
            string_views(seen@) == prior + fv.take(j as int),
            item == (|j: int| fixture_problems(rules@, i as int, j)),
            problem_views(out@) == base + concat_upto(j as nat, item),
        decreases n - j,
    {
        let ghost before = problem_views(out@);
        let fx = &fixtures[j];
        let cited = occurs_in(seen, seen.len(), fx.as_str());
        proof {
            let v = string_views(seen@);
            if cited {
                let k = choose|k: int| 0 <= k < seen@.len() && seen@[k]@ == fx@;
                assert(v[k] == fx@);
            }
            if v.contains(fx@) {
                let k = choose|k: int| 0 <= k < v.len() && v[k] == fx@;
                assert(seen@[k]@ == fx@);
            }
        }
        if cited {
            report(out, Problem::FixtureCitedTwice { fixture: copy(fx) });
        }
        proof {
            assert(problem_views(out@) =~= before + item(j as int));
        }
        let ghost old_seen = seen@;
        let x = copy(fx);
        seen.push(x);
        proof {
            lemma_views_push(old_seen, x);
            assert(fv.take(j + 1) =~= fv.take(j as int).push(fv[j as int]));
            assert(string_views(seen@) =~= prior + fv.take(j + 1));
        }
        j = j + 1;
    }
    proof {
        assert(fv.take(n as int) =~= fv);
    }
}

#[verifier::rlimit(40)]
fn check_rule(
    f: &Format,
    rules: &Vec<Rule>,
    i: usize,
    phases: &Vec<String>,
    ids: &Vec<String>,
    variants: &mut Vec<String>,
    seen: &mut Vec<String>,
    out: &mut Vec<Problem<String>>,
)
    requires
        i < rules@.len(),
        string_views(phases@) == phase_names(*f),
        string_views(ids@) == rule_ids(rules@),
        ids@.len() == rules@.len(),
        old(variants)@.len() == i,
        forall|k: int| 0 <= k < i ==> #[trigger] old(variants)@[k]@ == rule_variant_spec(rules@[k].id@),
        string_views(old(seen)@) == fixtures_before(rules@, i as nat),
    ensures
        final(variants)@.len() == i + 1,
        forall|k: int| 0 <= k <= i ==> #[trigger] final(variants)@[k]@ == rule_variant_spec(rules@[k].id@),
        string_views(final(seen)@) == fixtures_before(rules@, (i + 1) as nat),
        problem_views(final(out)@) == problem_views(old(out)@) + rule_problems(*f, rules@, i as int),
{
    let ghost base = problem_views(out@);
    let rule = &rules[i];
    if !is_rule_id_text(rule.id.as_str()) {
        report(out, Problem::RuleIdShape { id: copy(&rule.id) });
    }
    if seen_before(ids, i) {
        report(out, Problem::RuleDefinedTwice { id: copy(&rule.id) });
    }
    let v = rule_variant(rule.id.as_str());
    let taken = occurs_in(variants, i, v.as_str());
    proof {
        if taken {
            let k = choose|k: int| 0 <= k < i && variants@[k]@ == v@;
            assert(rule_variant_spec(rules@[k].id@) == rule_variant_spec(rules@[i as int].id@));
        }
        if variant_taken_before(rules@, i as int) {
            let k = choose|k: int|
                0 <= k < i && rule_variant_spec(rules@[k].id@) == rule_variant_spec(
                    rules@[i as int].id@,
                );
            assert(variants@[k]@ == v@);
        }
    }
    if taken {
        report(out, Problem::RuleVariantCollision { id: copy(&rule.id) });
    }
    variants.push(v);
    let level = rule.level.as_str();
    if !text_eq(level, "MUST") && !text_eq(level, "SHOULD") {
        report(out, Problem::RuleLevel { id: copy(&rule.id) });
    }
    check_scope(phases, f, rule, out);
    check_fixtures(rules, i, seen, out);
    proof {
        assert(problem_views(out@) =~= base + rule_problems(*f, rules@, i as int));
    }
}

pub fn check_rules(f: &Format, r: &Rules, out: &mut Vec<Problem<String>>)
    ensures
        problem_views(final(out)@) == problem_views(old(out)@) + rule_section(*f, *r),
{
    let ghost base = problem_views(out@);
    let phases = collect_phase_names(f);
    if any_repeat(&phases) {
        report(out, Problem::PhaseNamesRepeat);
    }
    let ghost mid = problem_views(out@);
    let rules = &r.rules;
    let ids = collect_rule_ids(rules);
    let mut variants: Vec<String> = Vec::new();
    let mut seen: Vec<String> = Vec::new();
    let ghost item = |i: int| rule_problems(*f, rules@, i);
    let n = rules.len();
    let mut i: usize = 0;
    while i < n
        invariant
            n == rules@.len(),
            rules == &r.rules,
            i <= n,
            string_views(phases@) == phase_names(*f),
            string_views(ids@) == rule_ids(rules@),
            ids@.len() == rules@.len(),
            variants@.len() == i,
            forall|k: int| 0 <= k < i ==> #[trigger] variants@[k]@ == rule_variant_spec(rules@[k].id@),
            string_views(seen@) == fixtures_before(rules@, i as nat),
            item == (|i: int| rule_problems(*f, rules@, i)),
            problem_views(out@) == mid + concat_upto(i as nat, item),
        decreases n - i,
    {
        let ghost before = problem_views(out@);
        check_rule(f, rules, i, &phases, &ids, &mut variants, &mut seen, out);
        proof {
            assert(problem_views(out@) =~= before + item(i as int));
        }
        i = i + 1;
    }
    proof {
        assert(problem_views(out@) =~= base + rule_section(*f, *r));
    }
}

/// Whether the last rule with id `id` is a file rule.
fn odd_rule_ok(r: &Rules, id: &str) -> (ok: bool)
    ensures
        ok == names_file_rule(*r, id@),
{
    let rules = &r.rules;
    let ghost ids = rule_ids(rules@);
    let mut i: usize = rules.len();
    while i > 0
        invariant
            i <= rules@.len(),
            rules == &r.rules,
            ids == rule_ids(rules@),
            forall|j: int| i <= j < rules@.len() ==> ids[j] != id@,
        decreases i,
    {
        if text_eq(rules[i - 1].id.as_str(), id) {
            proof {
                assert(is_last(ids, id@, i - 1));
                assert(ids.contains(id@));
                let k = choose|k: int| is_last(ids, id@, k);
                if k < i - 1 {
                    assert(ids[i - 1] == id@);
                }
                if k > i - 1 {
                    assert(ids[k] == id@);
                }
                assert(k == i - 1);
                assert(last_index(ids, id@) == Some((i - 1) as int));
                assert(last_index(rule_ids(r.rules@), id@) == Some((i - 1) as int));
            }
            let ok = text_eq(rules[i - 1].scope.as_str(), "file");
            return ok;
        }
        i = i - 1;
    }
    proof {
        if ids.contains(id@) {
            let k = choose|k: int| 0 <= k < ids.len() && ids[k] == id@;
        }
    }
    false
}

fn bit_taken(bits: &Vec<FlagBit>, j: usize) -> (r: bool)
    requires
        j < bits@.len(),
    ensures
        r == exists|k: int| 0 <= k < j && bits@[k].bit == bits@[j as int].bit,
{
    let mut k: usize = 0;
    while k < j
        invariant
            j < bits@.len(),
            k <= j,
            forall|m: int| 0 <= m < k ==> bits@[m].bit != bits@[j as int].bit,
        decreases j - k,
    {
        if bits[k].bit == bits[j].bit {
            return true;
        }
        k = k + 1;
    }
    false
}

fn check_flag_set(r: &Rules, fs: &FlagSet, out: &mut Vec<Problem<String>>)
    ensures
        problem_views(final(out)@) == problem_views(old(out)@) + flag_set_problems(*r, *fs),
{
    let ghost base = problem_views(out@);
    if !text_eq(fs.width.as_str(), "u32") {
        report(out, Problem::FlagSetWidth { name: copy(&fs.name), width: copy(&fs.width) });
    } else {
        let ghost item = |j: int| bit_problems(*fs, j);
        let bits = &fs.bits;
        let n = bits.len();
        let mut j: usize = 0;
        while j < n
            invariant
                n == bits@.len(),
                bits == &fs.bits,
                j <= n,
                item == (|j: int| bit_problems(*fs, j)),
                problem_views(out@) == base + concat_upto(j as nat, item),
            decreases n - j,
        {
            let ghost before = problem_views(out@);
            if bits[j].bit >= 32 || bit_taken(bits, j) {
                report(out, Problem::FlagBitInvalid { set: copy(&fs.name), bit: copy(&bits[j].name) });
            }
            proof {
                assert(problem_views(out@) =~= before + item(j as int));
            }
            j = j + 1;
        }
        if !odd_rule_ok(r, fs.unknown_odd_rule.as_str()) {
            report(
                out,
                Problem::FlagSetOddRule { set: copy(&fs.name), rule: copy(&fs.unknown_odd_rule) },
            );
        }
    }
    proof {
        assert(problem_views(out@) =~= base + flag_set_problems(*r, *fs));
    }
}

pub fn check_flag_sets(f: &Format, r: &Rules, out: &mut Vec<Problem<String>>)
    ensures
        problem_views(final(out)@) == problem_views(old(out)@) + flag_section(*f, *r),
{
    let ghost base = problem_views(out@);
    let sets = &f.flag_sets;
    let ghost item = |i: int| flag_set_problems(*r, sets@[i]);
    let n = sets.len();
    let mut i: usize = 0;
    while i < n
        invariant
            n == sets@.len(),
            sets == &f.flag_sets,
            i <= n,
            item == (|i: int| flag_set_problems(*r, sets@[i])),
            problem_views(out@) == base + concat_upto(i as nat, item),
        decreases n - i,
    {
        let ghost before = problem_views(out@);
        check_flag_set(r, &sets[i], out);
        proof {
            assert(problem_views(out@) =~= before + item(i as int));
        }
        i = i + 1;
    }
}

} // verus!
