//! The [`Scanner`]: runs compiled rules on byte buffers.
use std::ops::Range;
use vstd::prelude::*;

use crate::evaluator::{
    evaluate_expr, matches_view, spec_eval, spec_truthy, truthy, EvalContext, ScanContext,
};
use crate::module::{spec_keys_unique, Module, ModuleValue};
use crate::rule::Rule;
use crate::variable::{range_pair, spec_find_next_match_at, spec_validate, MatcherKind, Variable};
use crate::variable_set::{ac_results_view, literal_occurs, results_in_bounds, AcResult, AcResultView};

verus! {

/// The next match of a variable searched on its own, at or after `offset`.
pub open spec fn spec_find_next_for(var: Variable, mem: Seq<u8>, offset: int) -> Option<(int, int)> {
    match var.matcher_view() {
        MatcherKind::Raw(re) => spec_find_next_match_at(
            var.flags,
            var.non_wide_regex_view(),
            re,
            mem,
            offset,
        ),
        _ => None,
    }
}

/// All the matches of a variable searched on its own from `offset`: each
/// match is followed by the matches from one byte after its start.
pub open spec fn spec_raw_matches(var: Variable, mem: Seq<u8>, offset: int) -> Seq<(int, int)>
    decreases mem.len() + 1 - offset,
{
    if offset < 0 || offset > mem.len() {
        Seq::empty()
    } else {
        match spec_find_next_for(var, mem, offset) {
            Some((s, e)) => if offset <= s <= mem.len() {
                seq![(s, e)] + spec_raw_matches(var, mem, s + 1)
            } else {
                Seq::empty()
            },
            None => Seq::empty(),
        }
    }
}

/// The matches of a variable given the result of the literal pass.
pub open spec fn spec_result_matches(r: AcResultView, var: Variable, mem: Seq<u8>) -> Seq<(int, int)> {
    match r {
        AcResultView::NotFound => Seq::empty(),
        AcResultView::Matches(v) => v,
        AcResultView::Unknown => spec_raw_matches(var, mem, 0),
    }
}

/// The matches of each variable of a rule on `mem`.
pub open spec fn spec_variables_matches(rule: Rule, mem: Seq<u8>) -> Seq<Seq<(int, int)>> {
    let results = rule.variable_set.spec_matches(rule.variables@, mem);
    Seq::new(
        rule.variables@.len(),
        |i: int| spec_result_matches(results[i], rule.variables@[i], mem),
    )
}

/// Whether a rule matches `mem`, given the results of the rules before it.
pub open spec fn spec_rule_result(
    rule: Rule,
    mem: Seq<u8>,
    previous_results: Seq<bool>,
    modules: Seq<ModuleValue>,
) -> bool {
    spec_truthy(
        spec_eval(
            rule.condition,
            EvalContext {
                mem,
                matches: spec_variables_matches(rule, mem),
                previous_results,
                modules,
            },
        ),
    )
}

/// The matches of a variable searched on its own.
pub fn raw_matches(var: &Variable, mem: &[u8]) -> (r: Vec<Range<usize>>)
    requires
        mem@.len() < usize::MAX,
    ensures
        matches_view(r@) == spec_raw_matches(*var, mem@, 0),
        forall|k: int| #![trigger r@[k]] 0 <= k < r@.len() ==> r@[k].start <= r@[k].end <= mem@.len(),
{
    let mut result: Vec<Range<usize>> = Vec::new();
    let mut offset: usize = 0;
    let mut done = false;
    while !done
        invariant
            mem@.len() < usize::MAX,
            offset <= mem@.len(),
            forall|k: int|
                #![trigger result@[k]]
                0 <= k < result@.len() ==> result@[k].start <= result@[k].end <= mem@.len(),
            spec_raw_matches(*var, mem@, 0) == matches_view(result@) + if done {
                Seq::<(int, int)>::empty()
            } else {
                spec_raw_matches(*var, mem@, offset as int)
            },
        decreases mem@.len() + 1 - offset, if done { 0int } else { 1int },
    {
        let ghost before = matches_view(result@);
        match var.find_next_match_at(mem, offset) {
            Some(m) => {
                let ghost pair = range_pair(m);
                let start = m.start;
                result.push(m);
                assert(matches_view(result@) =~= before.push(pair));
                if start < mem.len() {
                    assert(before + (seq![pair] + spec_raw_matches(*var, mem@, start + 1))
                        =~= before.push(pair) + spec_raw_matches(*var, mem@, start + 1));
                    offset = start + 1;
                } else {
                    assert(spec_raw_matches(*var, mem@, start + 1) =~= Seq::empty());
                    assert(before + (seq![pair] + Seq::<(int, int)>::empty()) =~= before.push(pair)
                        + Seq::<(int, int)>::empty());
                    done = true;
                }
            },
            None => {
                assert(before + Seq::<(int, int)>::empty() =~= before);
                done = true;
            },
        }
    }
    assert(matches_view(result@) + Seq::<(int, int)>::empty() =~= matches_view(result@));
    result
}

/// The matches of each variable of a rule on `mem`.
pub fn variables_matches(rule: &Rule, mem: &[u8]) -> (r: Vec<Vec<Range<usize>>>)
    requires
        rule.wf(),
        mem@.len() < usize::MAX,
    ensures
        r@.len() == rule.variables@.len(),
        forall|i: int|
            #![trigger r@[i]]
            0 <= i < r@.len() ==> matches_view(r@[i]@) == spec_variables_matches(*rule, mem@)[i],
        forall|i: int, k: int|
            #![trigger r@[i]@[k]]
            0 <= i < r@.len() && 0 <= k < r@[i]@.len() ==> r@[i]@[k].start <= r@[i]@[k].end
                <= mem@.len(),
        forall|vi: int, li: int, s: int|
            #![trigger literal_occurs(rule.variables@[vi], mem@, li, s)]
            0 <= vi < rule.variables@.len() && rule.variables@[vi].matcher_view() is Literals
                && rule.variables@[vi].literals@[li]@.len() > 0 && literal_occurs(
                rule.variables@[vi],
                mem@,
                li,
                s,
            ) && spec_validate(
                rule.variables@[vi].flags,
                rule.variables@[vi].non_wide_regex_view(),
                mem@,
                s,
                s + rule.variables@[vi].literals@[li]@.len(),
            ) is Some ==> matches_view(r@[vi]@).contains(
                spec_validate(
                    rule.variables@[vi].flags,
                    rule.variables@[vi].non_wide_regex_view(),
                    mem@,
                    s,
                    s + rule.variables@[vi].literals@[li]@.len(),
                )->Some_0,
            ),
        forall|vi: int|
            #![trigger r@[vi]]
            0 <= vi < rule.variables@.len() && rule.variables@[vi].literals@.len() > 0 && (forall|
                li: int,
                s: int,
            | !#[trigger] literal_occurs(rule.variables@[vi], mem@, li, s)) ==> r@[vi]@.len() == 0,
{
    let mut results = rule.variable_set.matches(mem, rule.variables.as_slice());
    let ghost res0 = results@;
    let ghost ac = rule.variable_set.spec_matches(rule.variables@, mem@);
    let ghost expected = spec_variables_matches(*rule, mem@);
    let mut out: Vec<Vec<Range<usize>>> = Vec::new();
    let mut i: usize = 0;
    while i < rule.variables.len()
        invariant
            i <= rule.variables@.len(),
            mem@.len() < usize::MAX,
            results@.len() == rule.variables@.len(),
            results_in_bounds(results@, mem@.len() as int),
            forall|j: int| #![trigger results@[j]] i <= j < results@.len() ==> results@[j]@ == ac[j],
            ac == rule.variable_set.spec_matches(rule.variables@, mem@),
            expected == spec_variables_matches(*rule, mem@),
            out@.len() == i,
            forall|j: int| #![trigger out@[j]] 0 <= j < i ==> matches_view(out@[j]@) == expected[j],
            forall|j: int, k: int|
                #![trigger out@[j]@[k]]
                0 <= j < i && 0 <= k < out@[j]@.len() ==> out@[j]@[k].start <= out@[j]@[k].end
                    <= mem@.len(),
        decreases rule.variables@.len() - i,
    {
        let mut current = AcResult::NotFound;
        std::mem::swap(&mut results[i], &mut current);
        assert(current@ == ac[i as int]);
        let ms = match current {
            AcResult::NotFound => Vec::new(),
            AcResult::Matches(v) => v,
            AcResult::Unknown => raw_matches(&rule.variables[i], mem),
        };
        assert(matches_view(ms@) =~= expected[i as int]);
        out.push(ms);
        i = i + 1;
    }
    proof {
        assert forall|vi: int| 0 <= vi < res0.len() implies #[trigger] ac[vi] == res0[vi]@ by {
            assert(ac_results_view(res0)[vi] == res0[vi]@);
        }
    }
    out
}

/// Evaluate a rule on `mem`: its result, and the matches of its variables.
pub fn evaluate_rule(
    rule: &Rule,
    mem: &[u8],
    previous_results: &[bool],
    modules: &[Module],
) -> (r: (bool, Vec<Vec<Range<usize>>>))
    requires
        rule.wf(),
        mem@.len() < usize::MAX,
    ensures
        r.0 == spec_rule_result(
            *rule,
            mem@,
            previous_results@,
            Seq::new(modules@.len(), |i: int| modules@[i].value),
        ),
        r.1@.len() == rule.variables@.len(),
        forall|i: int|
            #![trigger r.1@[i]]
            0 <= i < r.1@.len() ==> matches_view(r.1@[i]@) == spec_variables_matches(*rule, mem@)[i],
        forall|i: int, k: int|
            #![trigger r.1@[i]@[k]]
            0 <= i < r.1@.len() && 0 <= k < r.1@[i]@.len() ==> r.1@[i]@[k].start <= r.1@[i]@[k].end
                <= mem@.len(),
{
    let matches = variables_matches(rule, mem);
    let ctx = ScanContext { mem, matches: matches.as_slice(), previous_results, modules };
    assert(ctx.view().matches =~= spec_variables_matches(*rule, mem@));
    let value = evaluate_expr(&rule.condition, &ctx);
    let res = truthy(&value);
    (res, matches)
}

/// Holds a list of rules, and provides methods to run them on bytes.
#[derive(Debug)]
pub struct Scanner {
    rules: Vec<Rule>,
    global_rules: Vec<Rule>,
    modules: Vec<Module>,
}

/// Result of a scan.
#[derive(Debug)]
pub struct ScanResult<'scanner> {
    /// List of rules that matched.
    pub matched_rules: Vec<MatchedRule<'scanner>>,
    /// Values of all modules used in the scanner: the module name, and its
    /// value.
    pub module_values: Vec<(&'scanner str, &'scanner ModuleValue)>,
}

/// Description of a rule that matched during a scan.
#[derive(Debug)]
pub struct MatchedRule<'scanner> {
    /// Namespace containing the rule. None if in the default namespace.
    pub namespace: Option<&'scanner str>,
    /// Name of the rule.
    pub name: &'scanner str,
    /// List of matched strings, with details on their matches.
    pub matches: Vec<StringMatches<'scanner>>,
}

/// Details on matches for a string.
#[derive(Debug)]
pub struct StringMatches<'scanner> {
    /// Name of the string
    pub name: &'scanner str,
    /// List of matches found for this string.
    pub matches: Vec<StringMatch>,
}

/// Details on a match on a string during a scan.
#[derive(Debug)]
pub struct StringMatch {
    /// Offset of the match
    pub offset: usize,
    /// The matched data.
    pub value: Vec<u8>,
}

/// The abstract form of a [`StringMatches`]: the name of the variable and
/// its matches as offsets and matched bytes.
pub type StringMatchesView = (Seq<char>, Seq<(int, Seq<u8>)>);

/// The abstract form of a [`MatchedRule`].
pub type MatchedRuleView = (Option<Seq<char>>, Seq<char>, Seq<StringMatchesView>);

impl StringMatch {
    /// The offset and the matched bytes.
    pub open spec fn view(&self) -> (int, Seq<u8>) {
        (self.offset as int, self.value@)
    }
}

impl<'scanner> StringMatches<'scanner> {
    /// The abstract form of the matches of a string.
    pub open spec fn view(&self) -> StringMatchesView {
        (self.name@, Seq::new(self.matches@.len(), |i: int| self.matches@[i].view()))
    }
}

impl<'scanner> MatchedRule<'scanner> {
    /// The abstract form of the matched rule.
    pub open spec fn view(&self) -> MatchedRuleView {
        (
            match self.namespace {
                Some(ns) => Some(ns@),
                None => None,
            },
            self.name@,
            Seq::new(self.matches@.len(), |i: int| self.matches@[i].view()),
        )
    }
}

/// Whether a reported match lies in `mem` and holds the bytes of `mem` at
/// its offset.
pub open spec fn string_match_within(x: StringMatch, mem: Seq<u8>) -> bool {
    &&& x.offset + x.value@.len() <= mem.len()
    &&& x.value@ == mem.subrange(x.offset as int, x.offset + x.value@.len())
}

/// Whether every reported match of a string lies in `mem`, see
/// [`string_match_within`].
pub open spec fn string_matches_within<'a>(s: StringMatches<'a>, mem: Seq<u8>) -> bool {
    forall|k: int| #![trigger s.matches@[k]] 0 <= k < s.matches@.len() ==> string_match_within(s.matches@[k], mem)
}

/// Whether every reported match of a rule lies in `mem`, see
/// [`string_match_within`].
pub open spec fn matched_rule_within<'a>(m: MatchedRule<'a>, mem: Seq<u8>) -> bool {
    forall|j: int| #![trigger m.matches@[j]] 0 <= j < m.matches@.len() ==> string_matches_within(m.matches@[j], mem)
}

/// The abstract form of a list of matched rules.
pub open spec fn matched_rules_view(rules: Seq<MatchedRule>) -> Seq<MatchedRuleView> {
    Seq::new(rules.len(), |i: int| rules[i].view())
}

/// The values of the modules.
pub open spec fn spec_module_values(modules: Seq<Module>) -> Seq<ModuleValue> {
    Seq::new(modules.len(), |i: int| modules[i].value)
}

/// The reported matches of a variable: offsets and matched bytes.
pub open spec fn spec_reported_matches(ms: Seq<(int, int)>, mem: Seq<u8>) -> Seq<(int, Seq<u8>)> {
    Seq::new(ms.len(), |k: int| (ms[k].0, mem.subrange(ms[k].0, ms[k].1)))
}

/// The reported strings of a rule: its non private variables with their
/// matches, in order.
pub open spec fn spec_string_matches(
    variables: Seq<Variable>,
    matches: Seq<Seq<(int, int)>>,
    mem: Seq<u8>,
) -> Seq<StringMatchesView>
    decreases variables.len(),
{
    if variables.len() == 0 {
        Seq::empty()
    } else {
        let rest = spec_string_matches(
            variables.drop_last(),
            matches.subrange(0, variables.len() - 1),
            mem,
        );
        if variables.last().is_private {
            rest
        } else {
            rest.push(
                (
                    variables.last().name@,
                    spec_reported_matches(matches[variables.len() - 1], mem),
                ),
            )
        }
    }
}

/// The report of a matching rule.
pub open spec fn spec_report(rule: Rule, mem: Seq<u8>) -> MatchedRuleView {
    (
        match rule.namespace {
            Some(ns) => Some(ns@),
            None => None,
        },
        rule.name@,
        spec_string_matches(rule.variables@, spec_variables_matches(rule, mem), mem),
    )
}

/// The reports of the rules that matched and are not private, in order.
pub open spec fn spec_reports(rules: Seq<Rule>, results: Seq<bool>, mem: Seq<u8>) -> Seq<
    MatchedRuleView,
>
    decreases rules.len(),
{
    if rules.len() == 0 {
        Seq::empty()
    } else {
        let rest = spec_reports(rules.drop_last(), results.subrange(0, rules.len() - 1), mem);
        if results[rules.len() - 1] && !rules.last().is_private {
            rest.push(spec_report(rules.last(), mem))
        } else {
            rest
        }
    }
}

/// Results of the global rules: each is evaluated on its own.
pub open spec fn spec_global_results(globals: Seq<Rule>, mem: Seq<u8>, modules: Seq<Module>) -> Seq<
    bool,
> {
    Seq::new(
        globals.len(),
        |i: int| spec_rule_result(globals[i], mem, Seq::empty(), spec_module_values(modules)),
    )
}

/// Results of the rules, each one evaluated with the results of the rules
/// before it.
pub open spec fn spec_rule_results(rules: Seq<Rule>, mem: Seq<u8>, modules: Seq<Module>) -> Seq<
    bool,
>
    decreases rules.len(),
{
    if rules.len() == 0 {
        Seq::empty()
    } else {
        let previous = spec_rule_results(rules.drop_last(), mem, modules);
        previous.push(spec_rule_result(rules.last(), mem, previous, spec_module_values(modules)))
    }
}

/// There is one result per rule.
pub proof fn lemma_rule_results_len(rules: Seq<Rule>, mem: Seq<u8>, modules: Seq<Module>)
    ensures
        spec_rule_results(rules, mem, modules).len() == rules.len(),
    decreases rules.len(),
{
    if rules.len() > 0 {
        lemma_rule_results_len(rules.drop_last(), mem, modules);
    }
}

/// The rules reported by a scan: none if a global rule does not match;
/// otherwise the matching non private global rules, then the matching non
/// private rules.
pub open spec fn spec_scan(
    globals: Seq<Rule>,
    rules: Seq<Rule>,
    modules: Seq<Module>,
    mem: Seq<u8>,
) -> Seq<MatchedRuleView> {
    let g = spec_global_results(globals, mem, modules);
    if exists|i: int| 0 <= i < g.len() && !#[trigger] g[i] {
        Seq::empty()
    } else {
        spec_reports(globals, g, mem) + spec_reports(
            rules,
            spec_rule_results(rules, mem, modules),
            mem,
        )
    }
}

/// Build the report of the strings of a rule.
fn build_string_matches<'s>(
    variables: &'s Vec<Variable>,
    matches: &Vec<Vec<Range<usize>>>,
    mem: &[u8],
) -> (r: Vec<StringMatches<'s>>)
    requires
        matches@.len() == variables@.len(),
        forall|i: int, k: int|
            #![trigger matches@[i]@[k]]
            0 <= i < matches@.len() && 0 <= k < matches@[i]@.len() ==> matches@[i]@[k].start
                <= matches@[i]@[k].end <= mem@.len(),
    ensures
        Seq::new(r@.len(), |i: int| r@[i].view()) == spec_string_matches(
            variables@,
            Seq::new(matches@.len(), |i: int| matches_view(matches@[i]@)),
            mem@,
        ),
        forall|j: int| #![trigger r@[j]] 0 <= j < r@.len() ==> string_matches_within(r@[j], mem@),
{
    let ghost all = Seq::new(matches@.len(), |i: int| matches_view(matches@[i]@));
    let mut out: Vec<StringMatches<'s>> = Vec::new();
    let mut i: usize = 0;
    while i < variables.len()
        invariant
            i <= variables@.len(),
            matches@.len() == variables@.len(),
            all == Seq::new(matches@.len(), |i: int| matches_view(matches@[i]@)),
            forall|i: int, k: int|
                #![trigger matches@[i]@[k]]
                0 <= i < matches@.len() && 0 <= k < matches@[i]@.len() ==> matches@[i]@[k].start
                    <= matches@[i]@[k].end <= mem@.len(),
            Seq::new(out@.len(), |j: int| out@[j].view()) == spec_string_matches(
                variables@.subrange(0, i as int),
                all.subrange(0, i as int),
                mem@,
            ),
            forall|j: int| #![trigger out@[j]] 0 <= j < out@.len() ==> string_matches_within(out@[j], mem@),
        decreases variables@.len() - i,
    {
        let ghost before = Seq::new(out@.len(), |j: int| out@[j].view());
        let var = &variables[i];
        assert(variables@.subrange(0, i + 1).drop_last() =~= variables@.subrange(0, i as int));
        assert(all.subrange(0, i + 1).subrange(0, i as int) =~= all.subrange(0, i as int));
        if !var.is_private {
            let ms = &matches[i];
            let mut reported: Vec<StringMatch> = Vec::new();
            let mut k: usize = 0;
            while k < ms.len()
                invariant
                    i < matches@.len(),
                    ms == matches@[i as int],
                    k <= ms@.len(),
                    forall|k: int|
                        #![trigger ms@[k]]
                        0 <= k < ms@.len() ==> ms@[k].start <= ms@[k].end <= mem@.len(),
                    Seq::new(reported@.len(), |j: int| reported@[j].view())
                        =~= spec_reported_matches(matches_view(ms@), mem@).subrange(0, k as int),
                    forall|j: int| #![trigger reported@[j]] 0 <= j < reported@.len() ==> string_match_within(reported@[j], mem@),
                decreases ms@.len() - k,
            {
                let m = &ms[k];
                assert(matches@[i as int]@[k as int] == ms@[k as int]);
                let value = vstd::slice::slice_to_vec(&mem[m.start..m.end]);
                let ghost before_k = Seq::new(reported@.len(), |j: int| reported@[j].view());
                let ghost expected = spec_reported_matches(matches_view(ms@), mem@);
                assert(matches_view(ms@)[k as int] == range_pair(*m));
                assert(expected[k as int] == (m.start as int, value@));
                assert(value@ =~= mem@.subrange(m.start as int, m.end as int));
                reported.push(StringMatch { offset: m.start, value });
                assert(Seq::new(reported@.len(), |j: int| reported@[j].view()) =~= before_k.push(
                    expected[k as int],
                ));
                assert(expected.subrange(0, k + 1) =~= expected.subrange(0, k as int).push(
                    expected[k as int],
                ));
                k = k + 1;
            }
            assert(spec_reported_matches(matches_view(ms@), mem@).subrange(0, ms@.len() as int)
                =~= spec_reported_matches(matches_view(ms@), mem@));
            out.push(StringMatches { name: var.name.as_str(), matches: reported });
            assert(Seq::new(out@.len(), |j: int| out@[j].view()) =~= before.push(
                (var.name@, spec_reported_matches(all[i as int], mem@)),
            ));
        }
        i = i + 1;
    }
    assert(variables@.subrange(0, variables@.len() as int) =~= variables@);
    assert(all.subrange(0, variables@.len() as int) =~= all);
    out
}

/// Build the report of a matching rule.
fn build_report<'s>(rule: &'s Rule, matches: &Vec<Vec<Range<usize>>>, mem: &[u8]) -> (r:
    MatchedRule<'s>)
    requires
        matches@.len() == rule.variables@.len(),
        forall|i: int|
            #![trigger matches@[i]]
            0 <= i < matches@.len() ==> matches_view(matches@[i]@) == spec_variables_matches(
                *rule,
                mem@,
            )[i],
        forall|i: int, k: int|
            #![trigger matches@[i]@[k]]
            0 <= i < matches@.len() && 0 <= k < matches@[i]@.len() ==> matches@[i]@[k].start
                <= matches@[i]@[k].end <= mem@.len(),
    ensures
        r.view() == spec_report(*rule, mem@),
        matched_rule_within(r, mem@),
{
    let string_matches = build_string_matches(&rule.variables, matches, mem);
    assert(Seq::new(matches@.len(), |i: int| matches_view(matches@[i]@)) =~= spec_variables_matches(
        *rule,
        mem@,
    ));
    let namespace = match &rule.namespace {
        Some(ns) => Some(ns.as_str()),
        None => None,
    };
    let r = MatchedRule { namespace, name: rule.name.as_str(), matches: string_matches };
    r
}

impl Scanner {
    /// The rules of the scanner must have their literal passes built from their
    /// variables.
    #[verifier::type_invariant]
    spec fn inv(&self) -> bool {
        &&& forall|i: int| #![trigger self.rules@[i]] 0 <= i < self.rules@.len() ==> self.rules@[i].wf()
        &&& forall|i: int|
            #![trigger self.global_rules@[i]]
            0 <= i < self.global_rules@.len() ==> self.global_rules@[i].wf()
        &&& forall|i: int|
            #![trigger self.modules@[i]]
            0 <= i < self.modules@.len() ==> spec_keys_unique(self.modules@[i].value)
    }

    /// The rules of the scanner, global rules aside.
    pub closed spec fn rules_view(&self) -> Seq<Rule> {
        self.rules@
    }

    /// The global rules of the scanner.
    pub closed spec fn global_rules_view(&self) -> Seq<Rule> {
        self.global_rules@
    }

    /// The modules of the scanner.
    pub closed spec fn modules_view(&self) -> Seq<Module> {
        self.modules@
    }

    /// Build a scanner from compiled rules.
    pub(crate) fn new(rules: Vec<Rule>, global_rules: Vec<Rule>, modules: Vec<Module>) -> (r: Self)
        requires
            forall|i: int| #![trigger rules@[i]] 0 <= i < rules@.len() ==> rules@[i].wf(),
            forall|i: int|
                #![trigger global_rules@[i]]
                0 <= i < global_rules@.len() ==> global_rules@[i].wf(),
            forall|i: int| #![trigger modules@[i]] 0 <= i < modules@.len() ==> spec_keys_unique(modules@[i].value),
        ensures
            r.rules_view() == rules@,
            r.global_rules_view() == global_rules@,
            r.modules_view() == modules@,
    {
        Self { rules, global_rules, modules }
    }

    /// Scan a byte slice.
    ///
    /// Returns the list of rules that matched on the given byte slice,
    /// see [`spec_scan`], and the values of the modules.
    pub fn scan_mem<'scanner>(&'scanner self, mem: &'scanner [u8]) -> (r: ScanResult<'scanner>)
        requires
            mem@.len() < usize::MAX,
        ensures
            matched_rules_view(r.matched_rules@) == spec_scan(
                self.global_rules_view(),
                self.rules_view(),
                self.modules_view(),
                mem@,
            ),
            forall|i: int|
                #![trigger r.matched_rules@[i]]
                0 <= i < r.matched_rules@.len() ==> matched_rule_within(r.matched_rules@[i], mem@),
            r.module_values@.len() == self.modules_view().len(),
            forall|i: int|
                #![trigger r.module_values@[i]]
                0 <= i < r.module_values@.len() ==> r.module_values@[i].0@
                    == self.modules_view()[i].name@ && *r.module_values@[i].1
                    == self.modules_view()[i].value,
    {
        proof {
            use_type_invariant(self);
        }
        let mut module_values: Vec<(&'scanner str, &'scanner ModuleValue)> = Vec::new();
        let mut j: usize = 0;
        while j < self.modules.len()
            invariant
                j <= self.modules@.len(),
                module_values@.len() == j,
                forall|i: int|
                    #![trigger module_values@[i]]
                    0 <= i < j ==> module_values@[i].0@ == self.modules@[i].name@
                        && *module_values@[i].1 == self.modules@[i].value,
            decreases self.modules@.len() - j,
        {
            let m = &self.modules[j];
            module_values.push((m.name.as_str(), &m.value));
            j = j + 1;
        }
        let ghost mv = spec_module_values(self.modules@);
        assert(Seq::new(self.modules@.len(), |i: int| self.modules@[i].value) =~= mv);
        let ghost g = spec_global_results(self.global_rules@, mem@, self.modules@);
        let mut matched_rules: Vec<MatchedRule<'scanner>> = Vec::new();
        let empty: Vec<bool> = Vec::new();
        let mut i: usize = 0;
        while i < self.global_rules.len()
            invariant
                i <= self.global_rules@.len(),
                mem@.len() < usize::MAX,
                empty@ == Seq::<bool>::empty(),
                module_values@.len() == self.modules@.len(),
                forall|x: int|
                    #![trigger module_values@[x]]
                    0 <= x < module_values@.len() ==> module_values@[x].0@ == self.modules@[x].name@
                        && *module_values@[x].1 == self.modules@[x].value,
                mv == spec_module_values(self.modules@),
                g == spec_global_results(self.global_rules@, mem@, self.modules@),
                forall|k: int|
                    #![trigger self.global_rules@[k]]
                    0 <= k < self.global_rules@.len() ==> self.global_rules@[k].wf(),
                forall|k: int| 0 <= k < i ==> #[trigger] g[k],
                forall|x: int|
                    #![trigger matched_rules@[x]]
                    0 <= x < matched_rules@.len() ==> matched_rule_within(matched_rules@[x], mem@),
                matched_rules_view(matched_rules@) == spec_reports(
                    self.global_rules@.subrange(0, i as int),
                    g.subrange(0, i as int),
                    mem@,
                ),
            decreases self.global_rules@.len() - i,
        {
            let rule = &self.global_rules[i];
            let (res, matches) = evaluate_rule(rule, mem, empty.as_slice(), self.modules.as_slice());
            assert(Seq::new(self.modules@.len(), |i: int| self.modules@[i].value) =~= mv);
            assert(res == g[i as int]);
            if !res {
                let r = ScanResult { matched_rules: Vec::new(), module_values };
                assert(matched_rules_view(r.matched_rules@) =~= Seq::empty());
                return r;
            }
            let ghost before = matched_rules_view(matched_rules@);
            assert(self.global_rules@.subrange(0, i + 1).drop_last() =~= self.global_rules@.subrange(0, i as int));
            assert(g.subrange(0, i + 1).subrange(0, i as int) =~= g.subrange(0, i as int));
            if !rule.is_private {
                let report = build_report(rule, &matches, mem);
                matched_rules.push(report);
                assert(matched_rules_view(matched_rules@) =~= before.push(spec_report(*rule, mem@)));
            }
            i = i + 1;
        }
        assert(self.global_rules@.subrange(0, self.global_rules@.len() as int) =~= self.global_rules@);
        assert(g.subrange(0, g.len() as int) =~= g);
        let ghost global_part = matched_rules_view(matched_rules@);
        let ghost all_results = spec_rule_results(self.rules@, mem@, self.modules@);
        let mut previous_results: Vec<bool> = Vec::new();
        let mut k: usize = 0;
        while k < self.rules.len()
            invariant
                k <= self.rules@.len(),
                mem@.len() < usize::MAX,
                module_values@.len() == self.modules@.len(),
                forall|x: int|
                    #![trigger module_values@[x]]
                    0 <= x < module_values@.len() ==> module_values@[x].0@ == self.modules@[x].name@
                        && *module_values@[x].1 == self.modules@[x].value,
                mv == spec_module_values(self.modules@),
                forall|x: int|
                    #![trigger self.rules@[x]]
                    0 <= x < self.rules@.len() ==> self.rules@[x].wf(),
                forall|x: int|
                    #![trigger matched_rules@[x]]
                    0 <= x < matched_rules@.len() ==> matched_rule_within(matched_rules@[x], mem@),
                previous_results@ == spec_rule_results(
                    self.rules@.subrange(0, k as int),
                    mem@,
                    self.modules@,
                ),
                matched_rules_view(matched_rules@) == global_part + spec_reports(
                    self.rules@.subrange(0, k as int),
                    previous_results@,
                    mem@,
                ),
            decreases self.rules@.len() - k,
        {
            let rule = &self.rules[k];
            let ghost prefix = self.rules@.subrange(0, k as int);
            let ghost next = self.rules@.subrange(0, k + 1);
            assert(next.drop_last() =~= prefix);
            let (res, matches) = evaluate_rule(
                rule,
                mem,
                previous_results.as_slice(),
                self.modules.as_slice(),
            );
            assert(Seq::new(self.modules@.len(), |i: int| self.modules@[i].value) =~= mv);
            let ghost old_results = previous_results@;
            proof {
                lemma_rule_results_len(prefix, mem@, self.modules@);
            }
            let ghost before = matched_rules_view(matched_rules@);
            previous_results.push(res);
            assert(previous_results@.subrange(0, k as int) =~= old_results);
            if res && !rule.is_private {
                let report = build_report(rule, &matches, mem);
                matched_rules.push(report);
                assert(matched_rules_view(matched_rules@) =~= before.push(spec_report(*rule, mem@)));
            }
            k = k + 1;
        }
        assert(self.rules@.subrange(0, self.rules@.len() as int) =~= self.rules@);
        ScanResult { matched_rules, module_values }
    }
}

} // verus!

verus! {

// ---------------------------------------------------------------------------
// Laws
// ---------------------------------------------------------------------------

/// A rule is reported only if it matched and is not private: every report
/// is the report of such a rule.
pub proof fn lemma_reported_rules_matched(rules: Seq<Rule>, results: Seq<bool>, mem: Seq<u8>, k: int)
    requires
        results.len() == rules.len(),
        0 <= k < spec_reports(rules, results, mem).len(),
    ensures
        exists|i: int|
            0 <= i < rules.len() && results[i] && !rules[i].is_private
                && #[trigger] spec_report(rules[i], mem) == spec_reports(rules, results, mem)[k],
    decreases rules.len(),
{
    let n = rules.len() - 1;
    let rest = spec_reports(rules.drop_last(), results.subrange(0, n), mem);
    if k < rest.len() {
        lemma_reported_rules_matched(rules.drop_last(), results.subrange(0, n), mem, k);
        let i = choose|i: int|
            0 <= i < rules.drop_last().len() && results.subrange(0, n)[i]
                && !rules.drop_last()[i].is_private && #[trigger] spec_report(
                rules.drop_last()[i],
                mem,
            ) == rest[k];
        assert(rules[i] == rules.drop_last()[i]);
        assert(spec_report(rules[i], mem) == spec_reports(rules, results, mem)[k]);
    } else {
        assert(spec_report(rules[n], mem) == spec_reports(rules, results, mem)[k]);
    }
}

/// Every rule that matched and is not private is reported.
pub proof fn lemma_matching_rules_reported(rules: Seq<Rule>, results: Seq<bool>, mem: Seq<u8>, i: int)
    requires
        results.len() == rules.len(),
        0 <= i < rules.len(),
        results[i],
        !rules[i].is_private,
    ensures
        exists|k: int|
            0 <= k < spec_reports(rules, results, mem).len() && #[trigger] spec_reports(
                rules,
                results,
                mem,
            )[k] == spec_report(rules[i], mem),
    decreases rules.len(),
{
    let n = rules.len() - 1;
    let rest = spec_reports(rules.drop_last(), results.subrange(0, n), mem);
    if i < n {
        lemma_matching_rules_reported(rules.drop_last(), results.subrange(0, n), mem, i);
        let k = choose|k: int|
            0 <= k < rest.len() && #[trigger] rest[k] == spec_report(rules.drop_last()[i], mem);
        assert(spec_reports(rules, results, mem)[k] == rest[k]);
    } else {
        let all = spec_reports(rules, results, mem);
        assert(all[all.len() - 1] == spec_report(rules[i], mem));
    }
}

/// When a global rule does not match, a scan reports no rule at all.
pub proof fn lemma_failing_global_rule_reports_nothing(
    globals: Seq<Rule>,
    rules: Seq<Rule>,
    modules: Seq<Module>,
    mem: Seq<u8>,
    i: int,
)
    requires
        0 <= i < globals.len(),
        !spec_rule_result(globals[i], mem, Seq::empty(), spec_module_values(modules)),
    ensures
        spec_scan(globals, rules, modules, mem).len() == 0,
{
    let g = spec_global_results(globals, mem, modules);
    assert(!g[i]);
}

/// When every global rule matches, a scan reports exactly the rules that
/// matched and are not private: the global ones, then the others, each in
/// the order it was added. A private rule is never reported.
pub proof fn lemma_scan_reports_matching_public_rules(
    globals: Seq<Rule>,
    rules: Seq<Rule>,
    modules: Seq<Module>,
    mem: Seq<u8>,
)
    requires
        forall|i: int|
            #![trigger globals[i]]
            0 <= i < globals.len() ==> spec_rule_result(
                globals[i],
                mem,
                Seq::empty(),
                spec_module_values(modules),
            ),
    ensures
        spec_scan(globals, rules, modules, mem) == spec_reports(
            globals,
            spec_global_results(globals, mem, modules),
            mem,
        ) + spec_reports(rules, spec_rule_results(rules, mem, modules), mem),
{
    let g = spec_global_results(globals, mem, modules);
    assert forall|i: int| 0 <= i < g.len() implies #[trigger] g[i] by {
        assert(spec_rule_result(globals[i], mem, Seq::empty(), spec_module_values(modules)));
    }
}

} // verus!

verus! {

/// Lemma: the results of the first `n` rules do not depend on the rules
/// after them.
pub proof fn lemma_rule_results_prefix(rules: Seq<Rule>, n: int, mem: Seq<u8>, modules: Seq<Module>)
    requires
        0 <= n <= rules.len(),
    ensures
        spec_rule_results(rules.subrange(0, n), mem, modules) == spec_rule_results(
            rules,
            mem,
            modules,
        ).subrange(0, n),
    decreases rules.len(),
{
    lemma_rule_results_len(rules, mem, modules);
    if n == rules.len() {
        assert(rules.subrange(0, n) =~= rules);
        assert(spec_rule_results(rules, mem, modules).subrange(0, n) =~= spec_rule_results(
            rules,
            mem,
            modules,
        ));
    } else {
        lemma_rule_results_prefix(rules.drop_last(), n, mem, modules);
        assert(rules.drop_last().subrange(0, n) =~= rules.subrange(0, n));
        lemma_rule_results_len(rules.drop_last(), mem, modules);
        let all = spec_rule_results(rules, mem, modules);
        assert(all.subrange(0, n) =~= spec_rule_results(rules.drop_last(), mem, modules).subrange(
            0,
            n,
        ));
    }
}

/// Lemma: the reports of the first `n` rules come first in the reports of
/// all the rules.
pub proof fn lemma_reports_prefix(rules: Seq<Rule>, results: Seq<bool>, n: int, mem: Seq<u8>)
    requires
        0 <= n <= rules.len(),
        results.len() == rules.len(),
    ensures
        spec_reports(rules.subrange(0, n), results.subrange(0, n), mem).len() <= spec_reports(
            rules,
            results,
            mem,
        ).len(),
        spec_reports(rules, results, mem).subrange(
            0,
            spec_reports(rules.subrange(0, n), results.subrange(0, n), mem).len() as int,
        ) == spec_reports(rules.subrange(0, n), results.subrange(0, n), mem),
    decreases rules.len(),
{
    let all = spec_reports(rules, results, mem);
    if n == rules.len() {
        assert(rules.subrange(0, n) =~= rules);
        assert(results.subrange(0, n) =~= results);
        assert(all.subrange(0, all.len() as int) =~= all);
    } else {
        let m = rules.len() - 1;
        lemma_reports_prefix(rules.drop_last(), results.subrange(0, m), n, mem);
        assert(rules.drop_last().subrange(0, n) =~= rules.subrange(0, n));
        assert(results.subrange(0, m).subrange(0, n) =~= results.subrange(0, n));
        let before = spec_reports(rules.drop_last(), results.subrange(0, m), mem);
        let p = spec_reports(rules.subrange(0, n), results.subrange(0, n), mem);
        if results[m] && !rules.last().is_private {
            assert(all == before.push(spec_report(rules.last(), mem)));
            assert(all.subrange(0, p.len() as int) =~= before.subrange(0, p.len() as int));
        } else {
            assert(all == before);
        }
    }
}

/// Rules added after others do not change what the others report: when
/// every global rule matches, the scan with the first `n` rules gives the
/// first reports of the scan with all of them, in the same order. A
/// scanner made after more rules were added to a compiler thus reports
/// the rules added earlier first, as before.
pub proof fn lemma_scan_extends(
    globals: Seq<Rule>,
    rules: Seq<Rule>,
    n: int,
    modules: Seq<Module>,
    mem: Seq<u8>,
)
    requires
        0 <= n <= rules.len(),
        forall|i: int|
            #![trigger globals[i]]
            0 <= i < globals.len() ==> spec_rule_result(
                globals[i],
                mem,
                Seq::empty(),
                spec_module_values(modules),
            ),
    ensures
        spec_scan(globals, rules.subrange(0, n), modules, mem).len() <= spec_scan(
            globals,
            rules,
            modules,
            mem,
        ).len(),
        spec_scan(globals, rules, modules, mem).subrange(
            0,
            spec_scan(globals, rules.subrange(0, n), modules, mem).len() as int,
        ) == spec_scan(globals, rules.subrange(0, n), modules, mem),
{
    lemma_scan_reports_matching_public_rules(globals, rules, modules, mem);
    lemma_scan_reports_matching_public_rules(globals, rules.subrange(0, n), modules, mem);
    let results = spec_rule_results(rules, mem, modules);
    lemma_rule_results_len(rules, mem, modules);
    lemma_rule_results_prefix(rules, n, mem, modules);
    lemma_reports_prefix(rules, results, n, mem);
    let g = spec_reports(globals, spec_global_results(globals, mem, modules), mem);
    let small = spec_reports(rules.subrange(0, n), results.subrange(0, n), mem);
    let big = spec_reports(rules, results, mem);
    assert((g + big).subrange(0, (g + small).len() as int) =~= g + small);
}

} // verus!
