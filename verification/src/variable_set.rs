//! The literal pass: one search of all the literals of a rule's variables,
//! whose matches are then confirmed on each variable.
use std::ops::Range;
use vstd::prelude::*;

use crate::aho::{ac_overlapping_matches, ac_patterns, build_automaton, occurs_at, AcAutomaton};
use crate::atom::{pick_best_atom_in_literal, spec_is_best_atom};
use crate::variable::{
    range_pair, spec_ascii_lower, spec_eq_ignore_ascii_case, spec_process_ac_match,
    spec_validate, AcMatchStatus, AcMatchStatusView, Variable,
};

verus! {

/// Details on a literal of a variable.
#[derive(Debug)]
pub struct LiteralInfo {
    /// Index of the variable in the variable array.
    pub variable_index: usize,
    /// Index of the literal for the variable.
    pub literal_index: usize,
    /// Number of bytes of the literal left out of the searched atom, on its
    /// left.
    pub left_offset: usize,
    /// Number of bytes of the literal left out of the searched atom, on its
    /// right.
    pub right_offset: usize,
}

/// Factorizes the literals of all the variables of a rule into a single
/// search.
#[derive(Debug)]
pub struct VariableSet {
    /// Automaton of the atoms of the literals.
    pub aho: AcAutomaton,
    /// Details on the literal of each pattern of the automaton.
    pub aho_index_to_literal_info: Vec<LiteralInfo>,
    /// Indexes of the variables that have no literals.
    pub non_handled_var_indexes: Vec<usize>,
}

/// Result of the literal pass for a variable.
#[derive(Debug)]
pub enum AcResult {
    /// Variable was not found by the literal pass.
    NotFound,
    /// Unknown, must scan for the variable on its own.
    Unknown,
    /// List of matches for the variable.
    Matches(Vec<Range<usize>>),
}

/// The abstract form of an [`AcResult`].
pub enum AcResultView {
    NotFound,
    Unknown,
    Matches(Seq<(int, int)>),
}

impl View for AcResult {
    type V = AcResultView;

    open spec fn view(&self) -> AcResultView {
        match self {
            AcResult::NotFound => AcResultView::NotFound,
            AcResult::Unknown => AcResultView::Unknown,
            AcResult::Matches(v) => AcResultView::Matches(
                v@.map_values(|r: Range<usize>| range_pair(r)),
            ),
        }
    }
}

/// The `(variable index, literal index)` pairs of all the literals of the
/// variables, variable by variable.
pub open spec fn spec_literal_positions(variables: Seq<Variable>) -> Seq<(int, int)>
    decreases variables.len(),
{
    if variables.len() == 0 {
        Seq::empty()
    } else {
        let last = variables.len() - 1;
        spec_literal_positions(variables.drop_last()) + Seq::new(
            variables.last().literals@.len(),
            |li: int| (last, li),
        )
    }
}

/// The indexes of the variables without literals, in order.
pub open spec fn spec_empty_variables(variables: Seq<Variable>) -> Seq<usize>
    decreases variables.len(),
{
    if variables.len() == 0 {
        Seq::empty()
    } else if variables.last().literals@.len() == 0 {
        spec_empty_variables(variables.drop_last()).push((variables.len() - 1) as usize)
    } else {
        spec_empty_variables(variables.drop_last())
    }
}

/// The `(variable index, literal index)` pairs of literal infos.
pub open spec fn info_positions(infos: Seq<LiteralInfo>) -> Seq<(int, int)>
    decreases infos.len(),
{
    if infos.len() == 0 {
        Seq::empty()
    } else {
        info_positions(infos.drop_last()).push(
            (infos.last().variable_index as int, infos.last().literal_index as int),
        )
    }
}

/// The literal of a variable described by a literal info.
pub open spec fn info_literal(variables: Seq<Variable>, info: LiteralInfo) -> Seq<u8> {
    variables[info.variable_index as int].literals@[info.literal_index as int]@
}

/// Whether a literal info, and the pattern searched for it, are consistent
/// with the variables.
pub open spec fn info_valid(variables: Seq<Variable>, info: LiteralInfo, pattern: Seq<u8>) -> bool {
    let lit = info_literal(variables, info);
    &&& info.variable_index < variables.len()
    &&& info.literal_index < variables[info.variable_index as int].literals@.len()
    &&& info.left_offset + info.right_offset <= lit.len()
    &&& pattern == lit.subrange(
        info.left_offset as int,
        lit.len() - info.right_offset,
    )
}

/// Whether the atom of a literal is its best one.
pub open spec fn info_best_atom(variables: Seq<Variable>, info: LiteralInfo) -> bool {
    let lit = info_literal(variables, info);
    if lit.len() <= 4 {
        info.left_offset == 0 && info.right_offset == 0
    } else {
        spec_is_best_atom(lit, info.left_offset as int) && info.right_offset == lit.len()
            - info.left_offset - 4
    }
}

/// The views of literal pass results.
pub open spec fn ac_results_view(results: Seq<AcResult>) -> Seq<AcResultView> {
    Seq::new(results.len(), |i: int| results[i]@)
}

/// Whether a literal match `s..e` is a match of the literal `li` of `var`:
/// ignoring ascii case for a `nocase` variable.
pub open spec fn spec_confirm_literal(var: Variable, mem: Seq<u8>, s: int, e: int, li: int) -> bool {
    if var.flags.nocase {
        spec_eq_ignore_ascii_case(var.literals@[li]@, mem.subrange(s, e))
    } else {
        var.literals@[li]@ == mem.subrange(s, e)
    }
}

/// Where a left validator starts looking for new matches: one byte after the
/// start of the last match already found.
pub open spec fn spec_next_start_position(r: AcResultView) -> int {
    match r {
        AcResultView::Matches(v) => if v.len() > 0 {
            v.last().0 + 1
        } else {
            0
        },
        _ => 0,
    }
}

/// The result of a variable once a literal match of status `status` is
/// added to it.
pub open spec fn spec_merge_status(r: AcResultView, status: AcMatchStatusView) -> AcResultView {
    match status {
        AcMatchStatusView::Multiple(found) => match r {
            AcResultView::Matches(v) => AcResultView::Matches(v + found),
            _ => AcResultView::Matches(found),
        },
        AcMatchStatusView::Single(m) => match r {
            AcResultView::Matches(v) => AcResultView::Matches(v.push(m)),
            _ => AcResultView::Matches(seq![m]),
        },
        AcMatchStatusView::Unknown => AcResultView::Unknown,
        AcMatchStatusView::NoMatch => r,
    }
}

/// The results once the automaton match `m` (pattern, start, end) is
/// handled: the match is extended to the whole literal, confirmed on it,
/// then processed by its variable.
pub open spec fn spec_handle_match(
    infos: Seq<LiteralInfo>,
    variables: Seq<Variable>,
    mem: Seq<u8>,
    state: Seq<AcResultView>,
    m: (usize, usize, usize),
) -> Seq<AcResultView> {
    let info = infos[m.0 as int];
    let vi = info.variable_index as int;
    let var = variables[vi];
    if m.1 < info.left_offset || m.2 + info.right_offset > mem.len() {
        state
    } else {
        let s = m.1 - info.left_offset;
        let e = m.2 + info.right_offset;
        if !spec_confirm_literal(var, mem, s, e, info.literal_index as int) {
            state
        } else {
            state.update(
                vi,
                spec_merge_status(
                    state[vi],
                    spec_process_ac_match(
                        var.flags,
                        var.non_wide_regex_view(),
                        var.matcher_view(),
                        mem,
                        s,
                        e,
                        spec_next_start_position(state[vi]),
                    ),
                ),
            )
        }
    }
}

/// The results once the automaton matches `ms` are handled in order.
pub open spec fn spec_fold_matches(
    infos: Seq<LiteralInfo>,
    variables: Seq<Variable>,
    mem: Seq<u8>,
    state: Seq<AcResultView>,
    ms: Seq<(usize, usize, usize)>,
) -> Seq<AcResultView>
    decreases ms.len(),
{
    if ms.len() == 0 {
        state
    } else {
        spec_handle_match(
            infos,
            variables,
            mem,
            spec_fold_matches(infos, variables, mem, state, ms.drop_last()),
            ms.last(),
        )
    }
}

/// The results with the variables of `indexes` marked as unknown.
pub open spec fn spec_mark_unknown(state: Seq<AcResultView>, indexes: Seq<usize>) -> Seq<
    AcResultView,
>
    decreases indexes.len(),
{
    if indexes.len() == 0 {
        state
    } else {
        spec_mark_unknown(state, indexes.drop_last()).update(
            indexes.last() as int,
            AcResultView::Unknown,
        )
    }
}

/// Whether every match in the results lies in a memory of `len` bytes.
pub open spec fn results_in_bounds(results: Seq<AcResult>, len: int) -> bool {
    forall|i: int|
        #![trigger results[i]]
        0 <= i < results.len() ==> (results[i] matches AcResult::Matches(v) ==> forall|k: int|
            #![trigger v@[k]]
            0 <= k < v@.len() ==> v@[k].start <= v@[k].end <= len)
}

impl VariableSet {
    /// The results of the literal pass on `mem`: each variable starts as not
    /// found, the automaton matches are handled in order, then the variables
    /// without literals are marked as unknown.
    pub open spec fn spec_matches(&self, variables: Seq<Variable>, mem: Seq<u8>) -> Seq<AcResultView> {
        spec_mark_unknown(
            spec_fold_matches(
                self.aho_index_to_literal_info@,
                variables,
                mem,
                Seq::new(variables.len(), |i: int| AcResultView::NotFound),
                ac_overlapping_matches(ac_patterns(self.aho), mem),
            ),
            self.non_handled_var_indexes@,
        )
    }

    /// Whether the set was built from `variables`.
    pub open spec fn built_from(&self, variables: Seq<Variable>) -> bool {
        let patterns = ac_patterns(self.aho);
        &&& patterns.len() == self.aho_index_to_literal_info@.len()
        &&& forall|k: int|
            #![trigger self.aho_index_to_literal_info@[k]]
            0 <= k < patterns.len() ==> info_valid(
                variables,
                self.aho_index_to_literal_info@[k],
                patterns[k],
            )
        &&& forall|k: int|
            #![trigger self.non_handled_var_indexes@[k]]
            0 <= k < self.non_handled_var_indexes@.len() ==> self.non_handled_var_indexes@[k]
                < variables.len()
    }

    /// Whether the set is the literal pass of `variables`: built from them,
    /// with one pattern per literal, in order, each the best 4 bytes atom of
    /// its literal, and the variables without literals left to be searched
    /// on their own.
    pub open spec fn is_literal_pass_of(&self, variables: Seq<Variable>) -> bool {
        &&& self.built_from(variables)
        &&& info_positions(self.aho_index_to_literal_info@) == spec_literal_positions(variables)
        &&& forall|k: int|
            #![trigger self.aho_index_to_literal_info@[k]]
            0 <= k < self.aho_index_to_literal_info@.len() ==> info_best_atom(
                variables,
                self.aho_index_to_literal_info@[k],
            )
        &&& self.non_handled_var_indexes@ == spec_empty_variables(variables)
    }

    /// Build the literal pass of `variables`: each literal is searched by its
    /// best 4 bytes atom.
    pub fn new(variables: &[Variable]) -> (r: VariableSet)
        ensures
            r.is_literal_pass_of(variables@),
    {
        let mut lits: Vec<Vec<u8>> = Vec::new();
        let mut infos: Vec<LiteralInfo> = Vec::new();
        let mut non_handled: Vec<usize> = Vec::new();
        let mut variable_index: usize = 0;
        while variable_index < variables.len()
            invariant
                variable_index <= variables@.len(),
                lits@.len() == infos@.len(),
                forall|k: int|
                    #![trigger infos@[k]]
                    0 <= k < infos@.len() ==> info_valid(variables@, infos@[k], lits@[k]@)
                        && info_best_atom(variables@, infos@[k]),
                info_positions(infos@) == spec_literal_positions(
                    variables@.subrange(0, variable_index as int),
                ),
                non_handled@ == spec_empty_variables(variables@.subrange(0, variable_index as int)),
                forall|k: int|
                    #![trigger non_handled@[k]]
                    0 <= k < non_handled@.len() ==> non_handled@[k] < variable_index,
            decreases variables@.len() - variable_index,
        {
            let var = &variables[variable_index];
            let ghost prefix = variables@.subrange(0, variable_index as int);
            let ghost next = variables@.subrange(0, variable_index + 1);
            assert(next.drop_last() =~= prefix);
            let ghost before = info_positions(infos@);
            if var.literals.len() == 0 {
                non_handled.push(variable_index);
            } else {
                let mut literal_index: usize = 0;
                while literal_index < var.literals.len()
                    invariant
                        variable_index < variables@.len(),
                        var == variables@[variable_index as int],
                        literal_index <= var.literals@.len(),
                        lits@.len() == infos@.len(),
                        forall|k: int|
                            #![trigger infos@[k]]
                            0 <= k < infos@.len() ==> info_valid(variables@, infos@[k], lits@[k]@)
                                && info_best_atom(variables@, infos@[k]),
                        info_positions(infos@) =~= before + Seq::new(
                            literal_index as nat,
                            |li: int| (variable_index as int, li),
                        ),
                    decreases var.literals@.len() - literal_index,
                {
                    let lit = &var.literals[literal_index];
                    let (start, end) = pick_best_atom_in_literal(lit.as_slice());
                    let atom = vstd::slice::slice_to_vec(&lit.as_slice()[start..lit.len() - end]);
                    let ghost old_infos = infos@;
                    infos.push(
                        LiteralInfo { variable_index, literal_index, left_offset: start, right_offset: end },
                    );
                    lits.push(atom);
                    assert(infos@.drop_last() =~= old_infos);
                    assert forall|k: int|
                        #![trigger infos@[k]]
                        0 <= k < infos@.len() implies info_valid(
                            variables@,
                            infos@[k],
                            lits@[k]@,
                        ) && info_best_atom(variables@, infos@[k]) by {
                        if k < old_infos.len() {
                            assert(infos@[k] == old_infos[k]);
                        }
                    }
                    literal_index = literal_index + 1;
                }
            }
            assert(info_positions(infos@) =~= spec_literal_positions(next));
            variable_index = variable_index + 1;
        }
        assert(variables@.subrange(0, variables@.len() as int) =~= variables@);
        let ghost lits_view = lits@.map_values(|p: Vec<u8>| p@);
        let aho = build_automaton(lits);
        assert forall|k: int|
            #![trigger infos@[k]]
            0 <= k < ac_patterns(aho).len() implies info_valid(
                variables@,
                infos@[k],
                ac_patterns(aho)[k],
            ) by {
            assert(ac_patterns(aho)[k] == lits_view[k]);
        }
        VariableSet { aho, aho_index_to_literal_info: infos, non_handled_var_indexes: non_handled }
    }

    /// Handle an automaton match `m` (pattern, start, end): extend it to the
    /// whole literal, confirm it, and process it on its variable.
    fn handle_possible_match(
        &self,
        mem: &[u8],
        variables: &[Variable],
        m: (usize, usize, usize),
        matches: &mut Vec<AcResult>,
    )
        requires
            self.built_from(variables@),
            m.0 < self.aho_index_to_literal_info@.len(),
            m.1 <= m.2 <= mem@.len(),
            mem@.len() < usize::MAX,
            old(matches)@.len() == variables@.len(),
            results_in_bounds(old(matches)@, mem@.len() as int),
        ensures
            final(matches)@.len() == variables@.len(),
            results_in_bounds(final(matches)@, mem@.len() as int),
            ac_results_view(final(matches)@) == spec_handle_match(
                self.aho_index_to_literal_info@,
                variables@,
                mem@,
                ac_results_view(old(matches)@),
                m,
            ),
    {
        let (pattern, mstart, mend) = m;
        let info = &self.aho_index_to_literal_info[pattern];
        assert(info_valid(variables@, *info, ac_patterns(self.aho)[pattern as int]));
        let variable_index = info.variable_index;
        let var = &variables[variable_index];
        if mstart < info.left_offset {
            return;
        }
        if info.right_offset > mem.len() - mend {
            return;
        }
        let start = mstart - info.left_offset;
        let end = mend + info.right_offset;
        let mat = start..end;
        if !var.confirm_ac_literal(mem, &mat, info.literal_index) {
            return;
        }
        let ghost old_state = ac_results_view(matches@);
        let start_position: usize = match &matches[variable_index] {
            AcResult::Matches(v) => if v.len() > 0 {
                assert(v@[v@.len() - 1] == v@.last());
                v[v.len() - 1].start + 1
            } else {
                0
            },
            _ => 0,
        };
        assert(start_position == spec_next_start_position(old_state[variable_index as int]));
        let status = var.process_ac_match(mem, mat, start_position);
        let mut current = AcResult::NotFound;
        std::mem::swap(&mut matches[variable_index], &mut current);
        let ghost cur_view = current@;
        assert(cur_view == old_state[variable_index as int]);
        let updated = match status {
            AcMatchStatus::Multiple(mut found) => match current {
                AcResult::Matches(mut v) => {
                    let ghost v0 = v@;
                    v.append(&mut found);
                    assert(v@.map_values(|r: Range<usize>| range_pair(r)) =~= v0.map_values(
                        |r: Range<usize>| range_pair(r),
                    ) + status@->Multiple_0);
                    AcResult::Matches(v)
                },
                _ => AcResult::Matches(found),
            },
            AcMatchStatus::Single(r) => match current {
                AcResult::Matches(mut v) => {
                    let ghost v0 = v@;
                    v.push(r);
                    assert(v@.map_values(|r: Range<usize>| range_pair(r)) =~= v0.map_values(
                        |r: Range<usize>| range_pair(r),
                    ).push(range_pair(r)));
                    AcResult::Matches(v)
                },
                _ => {
                    let mut v = Vec::new();
                    v.push(r);
                    assert(v@.map_values(|r: Range<usize>| range_pair(r)) =~= seq![range_pair(r)]);
                    AcResult::Matches(v)
                },
            },
            AcMatchStatus::Unknown => AcResult::Unknown,
            AcMatchStatus::NoMatch => current,
        };
        matches.set(variable_index, updated);
        assert(ac_results_view(matches@) =~= old_state.update(
            variable_index as int,
            updated@,
        ));
    }

    /// Run the literal pass on `mem`, see [`VariableSet::spec_matches`].
    ///
    /// For a variable matched by its literals, the matches are exactly what
    /// the validations of the occurrences of its literals give (for a text
    /// string without `fullword`, the occurrences themselves): every match
    /// comes from one, and every occurrence is in the matches. A variable
    /// with literals, none of which occurs, is not found.
    pub fn matches(&self, mem: &[u8], variables: &[Variable]) -> (r: Vec<AcResult>)
        requires
            self.is_literal_pass_of(variables@),
            mem@.len() < usize::MAX,
        ensures
            r@.len() == variables@.len(),
            results_in_bounds(r@, mem@.len() as int),
            ac_results_view(r@) == self.spec_matches(variables@, mem@),
            results_sound(ac_results_view(r@), variables@, mem@),
            forall|vi: int, li: int, s: int|
                #![trigger literal_occurs(variables@[vi], mem@, li, s)]
                0 <= vi < variables@.len() && variables@[vi].matcher_view() is Literals
                    && variables@[vi].literals@[li]@.len() > 0 && literal_occurs(
                    variables@[vi],
                    mem@,
                    li,
                    s,
                ) && spec_validate(
                    variables@[vi].flags,
                    variables@[vi].non_wide_regex_view(),
                    mem@,
                    s,
                    s + variables@[vi].literals@[li]@.len(),
                ) is Some ==> result_contains(
                    r@[vi]@,
                    spec_validate(
                        variables@[vi].flags,
                        variables@[vi].non_wide_regex_view(),
                        mem@,
                        s,
                        s + variables@[vi].literals@[li]@.len(),
                    )->Some_0,
                ),
            forall|vi: int|
                #![trigger r@[vi]]
                0 <= vi < variables@.len() && variables@[vi].literals@.len() > 0 && (forall|
                    li: int,
                    s: int,
                | !#[trigger] literal_occurs(variables@[vi], mem@, li, s)) ==> r@[vi] is NotFound,
    {
        let nb_variables = variables.len();
        let nb_infos = self.aho_index_to_literal_info.len();
        let mut matches: Vec<AcResult> = Vec::new();
        let mut i: usize = 0;
        while i < variables.len()
            invariant
                i <= variables@.len(),
                matches@.len() == i,
                forall|k: int| #![trigger matches@[k]] 0 <= k < i ==> matches@[k] is NotFound,
            decreases variables@.len() - i,
        {
            matches.push(AcResult::NotFound);
            i = i + 1;
        }
        assert(ac_results_view(matches@) =~= Seq::new(
            variables@.len(),
            |i: int| AcResultView::NotFound,
        ));
        let ghost initial = ac_results_view(matches@);
        let found = self.aho.find_overlapping(mem);
        let mut k: usize = 0;
        while k < found.len()
            invariant
                self.built_from(variables@),
                mem@.len() < usize::MAX,
                k <= found@.len(),
                found@ == ac_overlapping_matches(ac_patterns(self.aho), mem@),
                forall|j: int|
                    #![trigger found@[j]]
                    0 <= j < found@.len() ==> {
                        let (p, s, e) = found@[j];
                        &&& p < ac_patterns(self.aho).len()
                        &&& s <= e <= mem@.len()
                    },
                matches@.len() == variables@.len(),
                results_in_bounds(matches@, mem@.len() as int),
                ac_results_view(matches@) == spec_fold_matches(
                    self.aho_index_to_literal_info@,
                    variables@,
                    mem@,
                    initial,
                    found@.subrange(0, k as int),
                ),
            decreases found@.len() - k,
        {
            let m = found[k];
            assert(found@.subrange(0, k + 1).drop_last() =~= found@.subrange(0, k as int));
            self.handle_possible_match(mem, variables, m, &mut matches);
            k = k + 1;
        }
        assert(found@.subrange(0, found@.len() as int) =~= found@);
        let ghost folded = ac_results_view(matches@);
        let mut j: usize = 0;
        while j < self.non_handled_var_indexes.len()
            invariant
                self.built_from(variables@),
                j <= self.non_handled_var_indexes@.len(),
                matches@.len() == variables@.len(),
                results_in_bounds(matches@, mem@.len() as int),
                ac_results_view(matches@) == spec_mark_unknown(
                    folded,
                    self.non_handled_var_indexes@.subrange(0, j as int),
                ),
            decreases self.non_handled_var_indexes@.len() - j,
        {
            let index = self.non_handled_var_indexes[j];
            assert(self.non_handled_var_indexes@.subrange(0, j + 1).drop_last()
                =~= self.non_handled_var_indexes@.subrange(0, j as int));
            let ghost before = ac_results_view(matches@);
            matches.set(index, AcResult::Unknown);
            assert(ac_results_view(matches@) =~= before.update(index as int, AcResultView::Unknown));
            j = j + 1;
        }
        assert(self.non_handled_var_indexes@.subrange(0, self.non_handled_var_indexes@.len() as int)
            =~= self.non_handled_var_indexes@);
        proof {
            lemma_literal_pass_complete(*self, variables@, mem@, found@);
            assert(ac_results_view(matches@) == spec_pass_results(*self, variables@, mem@, found@));
            assert forall|vi: int| 0 <= vi < matches@.len() implies #[trigger] matches@[vi]@
                == spec_pass_results(*self, variables@, mem@, found@)[vi] by {
                assert(ac_results_view(matches@)[vi] == matches@[vi]@);
            }
            assert forall|vi: int|
                #![trigger matches@[vi]]
                0 <= vi < variables@.len() && variables@[vi].literals@.len() > 0 && (forall|
                    li: int,
                    s: int,
                | !#[trigger] literal_occurs(variables@[vi], mem@, li, s)) implies matches@[vi] is NotFound by {
                assert(spec_pass_results(*self, variables@, mem@, found@)[vi] is NotFound);
                assert(ac_results_view(matches@)[vi] == matches@[vi]@);
            }
        }
        matches
    }
}

} // verus!

verus! {

// ---------------------------------------------------------------------------
// Occurrences of literals
// ---------------------------------------------------------------------------

/// Whether the literal `li` of `var` occurs in `mem` at `s`: ignoring ascii
/// case for a `nocase` variable.
pub open spec fn literal_occurs(var: Variable, mem: Seq<u8>, li: int, s: int) -> bool {
    &&& 0 <= li < var.literals@.len()
    &&& 0 <= s
    &&& s + var.literals@[li]@.len() <= mem.len()
    &&& spec_confirm_literal(var, mem, s, s + var.literals@[li]@.len(), li)
}

/// Whether a result of the literal pass holds the match `m`.
pub open spec fn result_contains(r: AcResultView, m: (int, int)) -> bool {
    r matches AcResultView::Matches(v) && v.contains(m)
}

/// Whether the automaton matches `ms` name patterns of `infos` whose
/// variables exist.
pub open spec fn matches_valid(
    infos: Seq<LiteralInfo>,
    variables: Seq<Variable>,
    ms: Seq<(usize, usize, usize)>,
) -> bool {
    forall|j: int|
        #![trigger ms[j]]
        0 <= j < ms.len() ==> ms[j].1 <= ms[j].2 && ms[j].0 < infos.len() && infos[ms[j].0 as int].variable_index
            < variables.len() && infos[ms[j].0 as int].literal_index
            < variables[infos[ms[j].0 as int].variable_index as int].literals@.len()
}

/// Lemma: handling a match keeps the number of results.
proof fn lemma_fold_len(
    infos: Seq<LiteralInfo>,
    variables: Seq<Variable>,
    mem: Seq<u8>,
    state: Seq<AcResultView>,
    ms: Seq<(usize, usize, usize)>,
)
    requires
        matches_valid(infos, variables, ms),
        state.len() == variables.len(),
    ensures
        spec_fold_matches(infos, variables, mem, state, ms).len() == state.len(),
    decreases ms.len(),
{
    if ms.len() > 0 {
        let rest = ms.drop_last();
        assert forall|j: int| #![trigger rest[j]] 0 <= j < rest.len() implies rest[j].1 <= rest[j].2
            && rest[j].0 < infos.len() && infos[rest[j].0 as int].variable_index < variables.len()
            && infos[rest[j].0 as int].literal_index < variables[infos[rest[j].0 as int].variable_index as int].literals@.len() by {
            assert(rest[j] == ms[j]);
        }
        lemma_fold_len(infos, variables, mem, state, rest);
        assert(ms.last() == ms[ms.len() - 1]);
    }
}

/// Lemma: a match of a variable matched by its literals stays in its result
/// when another automaton match is handled.
proof fn lemma_handle_keeps(
    infos: Seq<LiteralInfo>,
    variables: Seq<Variable>,
    mem: Seq<u8>,
    state: Seq<AcResultView>,
    m: (usize, usize, usize),
    vi: int,
    found: (int, int),
)
    requires
        0 <= vi < state.len() == variables.len(),
        m.0 < infos.len(),
        infos[m.0 as int].variable_index < variables.len(),
        variables[vi].matcher_view() is Literals,
        result_contains(state[vi], found),
    ensures
        result_contains(spec_handle_match(infos, variables, mem, state, m)[vi], found),
{
    let r = spec_handle_match(infos, variables, mem, state, m);
    let info = infos[m.0 as int];
    let wi = info.variable_index as int;
    if m.1 < info.left_offset || m.2 + info.right_offset > mem.len() {
    } else {
        let s = m.1 - info.left_offset;
        let e = m.2 + info.right_offset;
        let var = variables[wi];
        if spec_confirm_literal(var, mem, s, e, info.literal_index as int) {
            if wi == vi {
                let v = state[vi]->Matches_0;
                let i = choose|i: int| 0 <= i < v.len() && v[i] == found;
                match spec_validate(var.flags, var.non_wide_regex_view(), mem, s, e) {
                    Some(x) => {
                        assert(r[vi] == AcResultView::Matches(v.push(x)));
                        assert(v.push(x)[i] == found);
                    },
                    None => {
                        assert(r[vi] == state[vi]);
                    },
                }
            } else {
                assert(r[vi] == state[vi]);
            }
        }
    }
}

/// Lemma: a match of a variable matched by its literals, once in its
/// result, stays there while the next automaton matches are handled.
proof fn lemma_fold_keeps(
    infos: Seq<LiteralInfo>,
    variables: Seq<Variable>,
    mem: Seq<u8>,
    state: Seq<AcResultView>,
    ms: Seq<(usize, usize, usize)>,
    j: int,
    n: int,
    vi: int,
    found: (int, int),
)
    requires
        0 <= j < n <= ms.len(),
        0 <= vi < state.len() == variables.len(),
        matches_valid(infos, variables, ms),
        variables[vi].matcher_view() is Literals,
        result_contains(
            spec_fold_matches(infos, variables, mem, state, ms.subrange(0, j + 1))[vi],
            found,
        ),
    ensures
        result_contains(spec_fold_matches(infos, variables, mem, state, ms.subrange(0, n))[vi], found),
    decreases n,
{
    if n > j + 1 {
        lemma_fold_keeps(infos, variables, mem, state, ms, j, n - 1, vi, found);
        let prefix = ms.subrange(0, n);
        assert(prefix.drop_last() =~= ms.subrange(0, n - 1));
        let sub = ms.subrange(0, n - 1);
        assert forall|k: int| #![trigger sub[k]] 0 <= k < sub.len() implies sub[k].1 <= sub[k].2
            && sub[k].0 < infos.len() && infos[sub[k].0 as int].variable_index < variables.len()
            && infos[sub[k].0 as int].literal_index < variables[infos[sub[k].0 as int].variable_index as int].literals@.len() by {
            assert(sub[k] == ms[k]);
        }
        lemma_fold_len(infos, variables, mem, state, sub);
        assert(prefix.last() == ms[n - 1]);
        lemma_handle_keeps(
            infos,
            variables,
            mem,
            spec_fold_matches(infos, variables, mem, state, ms.subrange(0, n - 1)),
            prefix.last(),
            vi,
            found,
        );
    }
}

/// Lemma: the result of a variable none of whose literals occurs is left as
/// it is by the automaton matches.
proof fn lemma_fold_untouched(
    infos: Seq<LiteralInfo>,
    variables: Seq<Variable>,
    mem: Seq<u8>,
    state: Seq<AcResultView>,
    ms: Seq<(usize, usize, usize)>,
    vi: int,
)
    requires
        0 <= vi < state.len() == variables.len(),
        matches_valid(infos, variables, ms),
        forall|li: int, s: int| !#[trigger] literal_occurs(variables[vi], mem, li, s),
    ensures
        spec_fold_matches(infos, variables, mem, state, ms)[vi] == state[vi],
    decreases ms.len(),
{
    if ms.len() > 0 {
        let rest = ms.drop_last();
        assert forall|j: int| #![trigger rest[j]] 0 <= j < rest.len() implies rest[j].1 <= rest[j].2
            && rest[j].0 < infos.len()
            && infos[rest[j].0 as int].variable_index < variables.len()
            && infos[rest[j].0 as int].literal_index < variables[infos[rest[j].0 as int].variable_index as int].literals@.len() by {
            assert(rest[j] == ms[j]);
        }
        lemma_fold_untouched(infos, variables, mem, state, rest, vi);
        lemma_fold_len(infos, variables, mem, state, rest);
        let before = spec_fold_matches(infos, variables, mem, state, rest);
        let m = ms.last();
        assert(m == ms[ms.len() - 1]);
        let info = infos[m.0 as int];
        if info.variable_index as int == vi && !(m.1 < info.left_offset || m.2 + info.right_offset
            > mem.len()) {
            let s = m.1 - info.left_offset;
            let e = m.2 + info.right_offset;
            let li = info.literal_index as int;
            let var = variables[vi];
            if spec_confirm_literal(var, mem, s, e, li) {
                assert(mem.subrange(s, e).len() == e - s);
                assert(literal_occurs(var, mem, li, s));
            }
        }
    }
}

/// Lemma: marking variables as unknown leaves the others.
proof fn lemma_mark_unknown_other(state: Seq<AcResultView>, indexes: Seq<usize>, vi: int)
    requires
        0 <= vi < state.len(),
        forall|k: int| 0 <= k < indexes.len() ==> #[trigger] indexes[k] != vi && indexes[k] < state.len(),
    ensures
        spec_mark_unknown(state, indexes).len() == state.len(),
        spec_mark_unknown(state, indexes)[vi] == state[vi],
    decreases indexes.len(),
{
    if indexes.len() > 0 {
        let rest = indexes.drop_last();
        assert forall|k: int| 0 <= k < rest.len() implies #[trigger] rest[k] != vi && rest[k] < state.len() by {
            assert(rest[k] == indexes[k]);
        }
        lemma_mark_unknown_other(state, rest, vi);
        assert(indexes.last() == indexes[indexes.len() - 1]);
    }
}

/// Lemma: the variables left to be searched on their own have no literals.
proof fn lemma_empty_variables(variables: Seq<Variable>, k: int)
    requires
        variables.len() <= usize::MAX,
        0 <= k < spec_empty_variables(variables).len(),
    ensures
        spec_empty_variables(variables)[k] < variables.len(),
        variables[spec_empty_variables(variables)[k] as int].literals@.len() == 0,
    decreases variables.len(),
{
    let rest = spec_empty_variables(variables.drop_last());
    if variables.len() > 0 {
        if k < rest.len() {
            lemma_empty_variables(variables.drop_last(), k);
            assert(variables.drop_last()[rest[k] as int] == variables[rest[k] as int]);
        }
    }
}

/// Lemma: the positions of the literals hold every literal of every
/// variable.
proof fn lemma_literal_position(variables: Seq<Variable>, vi: int, li: int)
    requires
        0 <= vi < variables.len(),
        0 <= li < variables[vi].literals@.len(),
    ensures
        exists|a: int|
            0 <= a < spec_literal_positions(variables).len() && #[trigger] spec_literal_positions(
                variables,
            )[a] == (vi, li),
    decreases variables.len(),
{
    let last = variables.len() - 1;
    let front = spec_literal_positions(variables.drop_last());
    let tail = Seq::new(variables.last().literals@.len(), |x: int| (last, x));
    assert(spec_literal_positions(variables) == front + tail);
    if vi < last {
        lemma_literal_position(variables.drop_last(), vi, li);
        let a = choose|a: int| 0 <= a < front.len() && #[trigger] front[a] == (vi, li);
        assert((front + tail)[a] == (vi, li));
    } else {
        assert((front + tail)[front.len() + li] == (vi, li));
    }
}

/// Lemma: there is one position per literal info.
proof fn lemma_info_positions_len(infos: Seq<LiteralInfo>)
    ensures
        info_positions(infos).len() == infos.len(),
    decreases infos.len(),
{
    if infos.len() > 0 {
        lemma_info_positions_len(infos.drop_last());
    }
}

/// Lemma: the positions of literal infos are those of each info, in order.
proof fn lemma_info_positions(infos: Seq<LiteralInfo>, a: int)
    requires
        0 <= a < infos.len(),
    ensures
        info_positions(infos).len() == infos.len(),
        info_positions(infos)[a] == (infos[a].variable_index as int, infos[a].literal_index as int),
    decreases infos.len(),
{
    lemma_info_positions_len(infos);
    lemma_info_positions_len(infos.drop_last());
    if a < infos.len() - 1 {
        lemma_info_positions(infos.drop_last(), a);
    }
}

/// Lemma: where a literal occurs, its atom occurs, at the offset of the atom.
proof fn lemma_atom_occurs(var: Variable, mem: Seq<u8>, li: int, s: int, lo: int, ro: int, pattern: Seq<u8>)
    requires
        literal_occurs(var, mem, li, s),
        var.literals@[li]@.len() > 0,
        0 <= lo,
        0 <= ro,
        lo + ro < var.literals@[li]@.len(),
        pattern == var.literals@[li]@.subrange(lo, var.literals@[li]@.len() - ro),
    ensures
        occurs_at(pattern, mem, s + lo),
        s + lo + pattern.len() == s + var.literals@[li]@.len() - ro,
{
    let lit = var.literals@[li]@;
    let len = lit.len();
    let w = mem.subrange(s, s + len);
    let sub = mem.subrange(s + lo, s + lo + pattern.len());
    assert forall|i: int| 0 <= i < pattern.len() implies spec_ascii_lower(pattern[i]) == spec_ascii_lower(sub[i]) by {
        assert(pattern[i] == lit[lo + i]);
        assert(sub[i] == w[lo + i]);
        if var.flags.nocase {
            assert(spec_ascii_lower(lit[lo + i]) == spec_ascii_lower(w[lo + i]));
        } else {
            assert(lit[lo + i] == w[lo + i]);
        }
    }
}

/// Lemma: handling the automaton match of the atom of an occurring literal
/// of a variable matched by its literals puts its validated match in the
/// variable's result.
proof fn lemma_handle_puts(
    infos: Seq<LiteralInfo>,
    variables: Seq<Variable>,
    mem: Seq<u8>,
    state: Seq<AcResultView>,
    a: int,
    s: int,
)
    requires
        mem.len() < usize::MAX,
        infos.len() <= usize::MAX,
        0 <= a < infos.len(),
        infos[a].variable_index < variables.len() == state.len(),
        variables[infos[a].variable_index as int].matcher_view() is Literals,
        literal_occurs(
            variables[infos[a].variable_index as int],
            mem,
            infos[a].literal_index as int,
            s,
        ),
        infos[a].left_offset + infos[a].right_offset <= info_literal(variables, infos[a]).len(),
        info_literal(variables, infos[a]) == variables[infos[a].variable_index as int].literals@[infos[a].literal_index as int]@,
        spec_validate(
            variables[infos[a].variable_index as int].flags,
            variables[infos[a].variable_index as int].non_wide_regex_view(),
            mem,
            s,
            s + info_literal(variables, infos[a]).len(),
        ) is Some,
    ensures
        ({
            let info = infos[a];
            let len = info_literal(variables, info).len();
            let var = variables[info.variable_index as int];
            let m = (
                a as usize,
                (s + info.left_offset) as usize,
                (s + len - info.right_offset) as usize,
            );
            result_contains(
                spec_handle_match(infos, variables, mem, state, m)[info.variable_index as int],
                spec_validate(var.flags, var.non_wide_regex_view(), mem, s, s + len)->Some_0,
            )
        }),
{
    let info = infos[a];
    let vi = info.variable_index as int;
    let len = info_literal(variables, info).len();
    let var = variables[vi];
    let x = spec_validate(var.flags, var.non_wide_regex_view(), mem, s, s + len)->Some_0;
    let m = (a as usize, (s + info.left_offset) as usize, (s + len - info.right_offset) as usize);
    let r = spec_handle_match(infos, variables, mem, state, m);
    assert(m.1 as int == s + info.left_offset);
    assert(m.2 as int == s + len - info.right_offset);
    assert(!(m.1 < info.left_offset || m.2 + info.right_offset > mem.len()));
    assert(spec_confirm_literal(var, mem, s, s + len, info.literal_index as int));
    let status = spec_process_ac_match(
        var.flags,
        var.non_wide_regex_view(),
        var.matcher_view(),
        mem,
        s,
        s + len,
        spec_next_start_position(state[vi]),
    );
    assert(status == AcMatchStatusView::Single(x));
    assert(r == state.update(vi, spec_merge_status(state[vi], status)));
    match state[vi] {
        AcResultView::Matches(v) => {
            assert(r[vi] == AcResultView::Matches(v.push(x)));
            assert(v.push(x)[v.len() as int] == x);
        },
        _ => {
            assert(r[vi] == AcResultView::Matches(seq![x]));
            assert(seq![x][0] == x);
        },
    }
}

} // verus!

verus! {

/// The results of the literal pass from the automaton matches `found`.
pub open spec fn spec_pass_results(
    vs: VariableSet,
    variables: Seq<Variable>,
    mem: Seq<u8>,
    found: Seq<(usize, usize, usize)>,
) -> Seq<AcResultView> {
    spec_mark_unknown(
        spec_fold_matches(
            vs.aho_index_to_literal_info@,
            variables,
            mem,
            Seq::new(variables.len(), |i: int| AcResultView::NotFound),
            found,
        ),
        vs.non_handled_var_indexes@,
    )
}

/// Lemma: with an automaton that reports every occurrence of its atoms,
/// every occurrence of a literal of a variable matched by its literals ends
/// in the variable's result, as its validation gives it; and a variable
/// none of whose literals occurs is not found.
proof fn lemma_literal_pass_complete(
    vs: VariableSet,
    variables: Seq<Variable>,
    mem: Seq<u8>,
    found: Seq<(usize, usize, usize)>,
)
    requires
        vs.is_literal_pass_of(variables),
        mem.len() < usize::MAX,
        variables.len() <= usize::MAX,
        vs.aho_index_to_literal_info@.len() <= usize::MAX,
        forall|j: int|
            #![trigger found[j]]
            0 <= j < found.len() ==> {
                let (p, s, e) = found[j];
                &&& p < ac_patterns(vs.aho).len()
                &&& s <= e <= mem.len()
            },
        forall|p: int, s: int|
            #![trigger occurs_at(ac_patterns(vs.aho)[p], mem, s)]
            0 <= p < ac_patterns(vs.aho).len() && occurs_at(ac_patterns(vs.aho)[p], mem, s)
                ==> exists|j: int|
                0 <= j < found.len() && #[trigger] found[j] == (
                    p as usize,
                    s as usize,
                    (s + ac_patterns(vs.aho)[p].len()) as usize,
                ),
    ensures
        spec_pass_results(vs, variables, mem, found).len() == variables.len(),
        results_sound(spec_pass_results(vs, variables, mem, found), variables, mem),
        forall|vi: int, li: int, s: int|
            #![trigger literal_occurs(variables[vi], mem, li, s)]
            0 <= vi < variables.len() && variables[vi].matcher_view() is Literals
                && variables[vi].literals@[li]@.len() > 0 && literal_occurs(
                variables[vi],
                mem,
                li,
                s,
            ) && spec_validate(
                variables[vi].flags,
                variables[vi].non_wide_regex_view(),
                mem,
                s,
                s + variables[vi].literals@[li]@.len(),
            ) is Some ==> result_contains(
                spec_pass_results(vs, variables, mem, found)[vi],
                spec_validate(
                    variables[vi].flags,
                    variables[vi].non_wide_regex_view(),
                    mem,
                    s,
                    s + variables[vi].literals@[li]@.len(),
                )->Some_0,
            ),
        forall|vi: int|
            #![trigger spec_pass_results(vs, variables, mem, found)[vi]]
            0 <= vi < variables.len() && variables[vi].literals@.len() > 0 && (forall|li: int, s: int|
                !#[trigger] literal_occurs(variables[vi], mem, li, s))
                ==> spec_pass_results(vs, variables, mem, found)[vi] is NotFound,
{
    let infos = vs.aho_index_to_literal_info@;
    let patterns = ac_patterns(vs.aho);
    let init = Seq::new(variables.len(), |i: int| AcResultView::NotFound);
    let folded = spec_fold_matches(infos, variables, mem, init, found);
    let idx = vs.non_handled_var_indexes@;
    assert forall|j: int| #![trigger found[j]] 0 <= j < found.len() implies found[j].1 <= found[j].2
        && found[j].0 < infos.len() && infos[found[j].0 as int].variable_index < variables.len()
        && infos[found[j].0 as int].literal_index < variables[infos[found[j].0 as int].variable_index as int].literals@.len() by {
        assert(info_valid(variables, infos[found[j].0 as int], patterns[found[j].0 as int]));
    }
    lemma_fold_len(infos, variables, mem, init, found);
    assert forall|k: int| 0 <= k < idx.len() implies #[trigger] idx[k] < folded.len() by {
        lemma_empty_variables(variables, k);
    }
    assert forall|vi: int| 0 <= vi < variables.len() && variables[vi].literals@.len() > 0 implies
        spec_mark_unknown(folded, idx)[vi] == folded[vi] by {
        assert forall|k: int| 0 <= k < idx.len() implies #[trigger] idx[k] != vi && idx[k] < folded.len() by {
            lemma_empty_variables(variables, k);
        }
        lemma_mark_unknown_other(folded, idx, vi);
    }
    if idx.len() > 0 {
        assert forall|k: int| 0 <= k < idx.len() implies #[trigger] idx[k] != variables.len() && idx[k] < folded.len() by {
            lemma_empty_variables(variables, k);
        }
    }
    lemma_mark_unknown_len(folded, idx);
    lemma_fold_sound(infos, variables, mem, init, found);
    lemma_mark_unknown_sound(folded, idx, variables, mem);
    assert forall|vi: int|
        #![trigger spec_pass_results(vs, variables, mem, found)[vi]]
        0 <= vi < variables.len() && variables[vi].literals@.len() > 0 && (forall|li: int, s: int|
            !#[trigger] literal_occurs(variables[vi], mem, li, s)) implies spec_pass_results(
        vs,
        variables,
        mem,
        found,
    )[vi] is NotFound by {
        lemma_fold_untouched(infos, variables, mem, init, found, vi);
    }
    assert forall|vi: int, li: int, s: int|
        #![trigger literal_occurs(variables[vi], mem, li, s)]
        0 <= vi < variables.len() && variables[vi].matcher_view() is Literals
            && variables[vi].literals@[li]@.len() > 0 && literal_occurs(variables[vi], mem, li, s)
            && spec_validate(
            variables[vi].flags,
            variables[vi].non_wide_regex_view(),
            mem,
            s,
            s + variables[vi].literals@[li]@.len(),
        ) is Some implies result_contains(
        spec_pass_results(vs, variables, mem, found)[vi],
        spec_validate(
            variables[vi].flags,
            variables[vi].non_wide_regex_view(),
            mem,
            s,
            s + variables[vi].literals@[li]@.len(),
        )->Some_0,
    ) by {
        let var = variables[vi];
        let lit = var.literals@[li]@;
        let x = spec_validate(var.flags, var.non_wide_regex_view(), mem, s, s + lit.len())->Some_0;
        lemma_literal_position(variables, vi, li);
        let q = choose|q: int|
            0 <= q < spec_literal_positions(variables).len() && #[trigger] spec_literal_positions(
                variables,
            )[q] == (vi, li);
        lemma_info_positions_len(infos);
        lemma_info_positions(infos, q);
        let a = q;
        let info = infos[a];
        assert(info.variable_index as int == vi && info.literal_index as int == li);
        assert(info_valid(variables, info, patterns[a]));
        assert(info_best_atom(variables, info));
        let lo = info.left_offset as int;
        let ro = info.right_offset as int;
        lemma_atom_occurs(var, mem, li, s, lo, ro, patterns[a]);
        let j = choose|j: int|
            0 <= j < found.len() && #[trigger] found[j] == (
                a as usize,
                (s + lo) as usize,
                (s + lo + patterns[a].len()) as usize,
            );
        let before = spec_fold_matches(infos, variables, mem, init, found.subrange(0, j));
        let sub = found.subrange(0, j);
        assert forall|k: int| #![trigger sub[k]] 0 <= k < sub.len() implies sub[k].1 <= sub[k].2
            && sub[k].0 < infos.len() && infos[sub[k].0 as int].variable_index < variables.len()
            && infos[sub[k].0 as int].literal_index < variables[infos[sub[k].0 as int].variable_index as int].literals@.len() by {
            assert(sub[k] == found[k]);
        }
        lemma_fold_len(infos, variables, mem, init, sub);
        lemma_handle_puts(infos, variables, mem, before, a, s);
        assert(found.subrange(0, j + 1).drop_last() =~= sub);
        assert(found.subrange(0, j + 1).last() == found[j]);
        lemma_fold_keeps(infos, variables, mem, init, found, j, found.len() as int, vi, x);
        assert(found.subrange(0, found.len() as int) =~= found);
    }
}

/// Lemma: marking variables as unknown keeps the number of results.
proof fn lemma_mark_unknown_len(state: Seq<AcResultView>, indexes: Seq<usize>)
    requires
        forall|k: int| 0 <= k < indexes.len() ==> #[trigger] indexes[k] < state.len(),
    ensures
        spec_mark_unknown(state, indexes).len() == state.len(),
    decreases indexes.len(),
{
    if indexes.len() > 0 {
        let rest = indexes.drop_last();
        assert forall|k: int| 0 <= k < rest.len() implies #[trigger] rest[k] < state.len() by {
            assert(rest[k] == indexes[k]);
        }
        lemma_mark_unknown_len(state, rest);
        assert(indexes.last() == indexes[indexes.len() - 1]);
    }
}

} // verus!

verus! {

/// A match of a variable without `fullword` and without a regex for wide
/// word boundaries, as a compiled text string is, validates as itself: the
/// literal pass then reports every occurrence of its literals as it is.
pub proof fn lemma_plain_match_validates(var: Variable, mem: Seq<u8>, s: int, e: int)
    requires
        !var.flags.fullword,
        var.non_wide_regex is None,
    ensures
        spec_validate(var.flags, var.non_wide_regex_view(), mem, s, e) == Some((s, e)),
{
}

} // verus!

verus! {

/// Whether `m` is what the validation of an occurrence of a literal of
/// `var` gives.
pub open spec fn from_occurrence(var: Variable, mem: Seq<u8>, m: (int, int)) -> bool {
    exists|li: int, s: int|
        #![trigger literal_occurs(var, mem, li, s)]
        literal_occurs(var, mem, li, s) && spec_validate(
            var.flags,
            var.non_wide_regex_view(),
            mem,
            s,
            s + var.literals@[li]@.len(),
        ) == Some(m)
}

/// Whether every match in the results of the variables matched by their
/// literals comes from an occurrence of one of their literals.
pub open spec fn results_sound(state: Seq<AcResultView>, variables: Seq<Variable>, mem: Seq<u8>) -> bool {
    forall|vi: int, k: int|
        #![trigger state[vi]->Matches_0[k]]
        0 <= vi < state.len() && variables[vi].matcher_view() is Literals && state[vi] is Matches
            && 0 <= k < state[vi]->Matches_0.len() ==> from_occurrence(
            variables[vi],
            mem,
            state[vi]->Matches_0[k],
        )
}

/// Lemma: handling an automaton match keeps the results sound.
proof fn lemma_handle_sound(
    infos: Seq<LiteralInfo>,
    variables: Seq<Variable>,
    mem: Seq<u8>,
    state: Seq<AcResultView>,
    m: (usize, usize, usize),
)
    requires
        state.len() == variables.len(),
        m.1 <= m.2,
        m.0 < infos.len(),
        infos[m.0 as int].variable_index < variables.len(),
        infos[m.0 as int].literal_index < variables[infos[m.0 as int].variable_index as int].literals@.len(),
        results_sound(state, variables, mem),
    ensures
        results_sound(spec_handle_match(infos, variables, mem, state, m), variables, mem),
{
    let r = spec_handle_match(infos, variables, mem, state, m);
    let info = infos[m.0 as int];
    let wi = info.variable_index as int;
    if !(m.1 < info.left_offset || m.2 + info.right_offset > mem.len()) {
        let s = m.1 - info.left_offset;
        let e = m.2 + info.right_offset;
        let var = variables[wi];
        let li = info.literal_index as int;
        if spec_confirm_literal(var, mem, s, e, li) && var.matcher_view() is Literals {
            assert(mem.subrange(s, e).len() == e - s);
            assert(literal_occurs(var, mem, li, s));
            assert forall|vi: int, k: int|
                #![trigger r[vi]->Matches_0[k]]
                0 <= vi < r.len() && variables[vi].matcher_view() is Literals && r[vi] is Matches
                    && 0 <= k < r[vi]->Matches_0.len() implies from_occurrence(
                variables[vi],
                mem,
                r[vi]->Matches_0[k],
            ) by {
                if vi == wi {
                    match spec_validate(var.flags, var.non_wide_regex_view(), mem, s, e) {
                        Some(x) => {
                            match state[vi] {
                                AcResultView::Matches(v) => {
                                    assert(r[vi]->Matches_0 == v.push(x));
                                    if k < v.len() {
                                        assert(v.push(x)[k] == v[k]);
                                    } else {
                                        assert(v.push(x)[k] == x);
                                    }
                                },
                                _ => {
                                    assert(r[vi]->Matches_0 == seq![x]);
                                },
                            }
                        },
                        None => {},
                    }
                }
            }
        }
    }
}

/// Lemma: handling automaton matches keeps the results sound.
proof fn lemma_fold_sound(
    infos: Seq<LiteralInfo>,
    variables: Seq<Variable>,
    mem: Seq<u8>,
    state: Seq<AcResultView>,
    ms: Seq<(usize, usize, usize)>,
)
    requires
        state.len() == variables.len(),
        matches_valid(infos, variables, ms),
        results_sound(state, variables, mem),
    ensures
        results_sound(spec_fold_matches(infos, variables, mem, state, ms), variables, mem),
    decreases ms.len(),
{
    if ms.len() > 0 {
        let rest = ms.drop_last();
        assert forall|j: int| #![trigger rest[j]] 0 <= j < rest.len() implies rest[j].1 <= rest[j].2
            && rest[j].0 < infos.len() && infos[rest[j].0 as int].variable_index < variables.len()
            && infos[rest[j].0 as int].literal_index < variables[infos[rest[j].0 as int].variable_index as int].literals@.len() by {
            assert(rest[j] == ms[j]);
        }
        lemma_fold_sound(infos, variables, mem, state, rest);
        lemma_fold_len(infos, variables, mem, state, rest);
        assert(ms.last() == ms[ms.len() - 1]);
        lemma_handle_sound(
            infos,
            variables,
            mem,
            spec_fold_matches(infos, variables, mem, state, rest),
            ms.last(),
        );
    }
}

/// Lemma: marking variables as unknown keeps the results sound.
proof fn lemma_mark_unknown_sound(
    state: Seq<AcResultView>,
    indexes: Seq<usize>,
    variables: Seq<Variable>,
    mem: Seq<u8>,
)
    requires
        results_sound(state, variables, mem),
        forall|k: int| 0 <= k < indexes.len() ==> #[trigger] indexes[k] < state.len(),
    ensures
        results_sound(spec_mark_unknown(state, indexes), variables, mem),
    decreases indexes.len(),
{
    if indexes.len() > 0 {
        let rest = indexes.drop_last();
        assert forall|k: int| 0 <= k < rest.len() implies #[trigger] rest[k] < state.len() by {
            assert(rest[k] == indexes[k]);
        }
        lemma_mark_unknown_sound(state, rest, variables, mem);
        lemma_mark_unknown_len(state, rest);
        assert(indexes.last() == indexes[indexes.len() - 1]);
        let before = spec_mark_unknown(state, indexes.drop_last());
        let r = spec_mark_unknown(state, indexes);
        assert forall|vi: int, k: int|
            #![trigger r[vi]->Matches_0[k]]
            0 <= vi < r.len() && variables[vi].matcher_view() is Literals && r[vi] is Matches
                && 0 <= k < r[vi]->Matches_0.len() implies from_occurrence(
            variables[vi],
            mem,
            r[vi]->Matches_0[k],
        ) by {
            if vi != indexes.last() as int {
                assert(r[vi] == before[vi]);
            }
        }
    }
}

} // verus!

verus! {

/// Handling an automaton match changes at most the result of the variable
/// of its literal, as follows. Nothing changes when the literal around the
/// atom would leave the memory, or when it does not match there. Otherwise
/// the variable processes the match: no match leaves the result as it is;
/// an unknown status makes it unknown; found matches are added after the
/// matches already in the result, or make up a new result.
pub proof fn lemma_handle_match_cases(
    infos: Seq<LiteralInfo>,
    variables: Seq<Variable>,
    mem: Seq<u8>,
    state: Seq<AcResultView>,
    m: (usize, usize, usize),
)
    requires
        m.0 < infos.len(),
        infos[m.0 as int].variable_index < state.len(),
    ensures
        ({
            let info = infos[m.0 as int];
            let vi = info.variable_index as int;
            let r = spec_handle_match(infos, variables, mem, state, m);
            let s = m.1 - info.left_offset;
            let e = m.2 + info.right_offset;
            let var = variables[vi];
            &&& r.len() == state.len()
            &&& forall|j: int| #![trigger r[j]] 0 <= j < r.len() && j != vi ==> r[j] == state[j]
            &&& (m.1 < info.left_offset || e > mem.len() || !spec_confirm_literal(
                var,
                mem,
                s,
                e,
                info.literal_index as int,
            )) ==> r[vi] == state[vi]
            &&& !(m.1 < info.left_offset || e > mem.len() || !spec_confirm_literal(
                var,
                mem,
                s,
                e,
                info.literal_index as int,
            )) ==> {
                let status = spec_process_ac_match(
                    var.flags,
                    var.non_wide_regex_view(),
                    var.matcher_view(),
                    mem,
                    s,
                    e,
                    spec_next_start_position(state[vi]),
                );
                &&& status is NoMatch ==> r[vi] == state[vi]
                &&& status is Unknown ==> r[vi] == AcResultView::Unknown
                &&& status matches AcMatchStatusView::Single(x) ==> r[vi] == match state[vi] {
                    AcResultView::Matches(v) => AcResultView::Matches(v.push(x)),
                    _ => AcResultView::Matches(seq![x]),
                }
                &&& status matches AcMatchStatusView::Multiple(w) ==> r[vi] == match state[vi] {
                    AcResultView::Matches(v) => AcResultView::Matches(v + w),
                    _ => AcResultView::Matches(w),
                }
            }
        }),
{
}

} // verus!
