//! Multi-literal search, done by the `aho_corasick` crate.
use vstd::prelude::*;

use crate::variable::spec_eq_ignore_ascii_case;

verus! {

/// The overlapping matches, as `(pattern index, start, end)` triples in the
/// order the iterator yields them, of an ascii case insensitive automaton
/// built from `patterns`, on `haystack`
/// (`aho_corasick::AhoCorasick::find_overlapping_iter`).
pub uninterp spec fn ac_overlapping_matches(patterns: Seq<Seq<u8>>, haystack: Seq<u8>) -> Seq<
    (usize, usize, usize),
>;

/// Whether `pattern`, which is not empty, occurs in `haystack` at `s`,
/// ascii case aside.
pub open spec fn occurs_at(pattern: Seq<u8>, haystack: Seq<u8>, s: int) -> bool {
    &&& pattern.len() > 0
    &&& 0 <= s
    &&& s + pattern.len() <= haystack.len()
    &&& spec_eq_ignore_ascii_case(pattern, haystack.subrange(s, s + pattern.len()))
}

/// An ascii case insensitive Aho-Corasick automaton: the one of `u32`
/// states when it could be built, the default one otherwise.
///
/// The automaton type is generic over a state trait of its crate that Verus
/// cannot take as a bound, so the struct is opaque as a whole; what it
/// holds is named by [`ac_patterns`].
#[verifier::external_body]
#[derive(Debug)]
pub struct AcAutomaton {
    small: Option<::aho_corasick::AhoCorasick<u32>>,
    default: Option<::aho_corasick::AhoCorasick<usize>>,
}

/// The patterns an automaton was built from.
pub uninterp spec fn ac_patterns(automaton: AcAutomaton) -> Seq<Seq<u8>>;

/// Build an ascii case insensitive DFA automaton over `patterns`
/// (`aho_corasick::AhoCorasickBuilder::build_with_size` with `u32` states,
/// and `build` when that fails). `build` fails only when the states of the
/// automaton outnumber `usize`, which the memory they take rules out.
///
/// Trusted: the automaton returned is the one of these patterns.
#[verifier::external_body]
pub(crate) fn build_automaton(patterns: Vec<Vec<u8>>) -> (r: AcAutomaton)
    ensures
        ac_patterns(r) == patterns@.map_values(|p: Vec<u8>| p@),
{
    let mut builder = ::aho_corasick::AhoCorasickBuilder::new();
    let builder = builder.ascii_case_insensitive(true).dfa(true);
    match builder.build_with_size::<u32, _, _>(&patterns) {
        Ok(v) => AcAutomaton { small: Some(v), default: None },
        Err(_) => AcAutomaton { small: None, default: Some(builder.build(&patterns)) },
    }
}

impl AcAutomaton {
    /// All the overlapping matches of the patterns in `haystack`
    /// (`aho_corasick::AhoCorasick::find_overlapping_iter`).
    ///
    /// Trusted: the matches are the ones named by [`ac_overlapping_matches`];
    /// each one is an occurrence, ascii case aside, of its pattern in the
    /// haystack; and, the search being overlapping with the standard match
    /// semantics, every occurrence of a non empty pattern is among them.
    #[verifier::external_body]
    pub(crate) fn find_overlapping(&self, haystack: &[u8]) -> (r: Vec<(usize, usize, usize)>)
        ensures
            r@ == ac_overlapping_matches(ac_patterns(*self), haystack@),
            forall|i: int|
                0 <= i < r@.len() ==> {
                    let (p, s, e) = #[trigger] r@[i];
                    &&& p < ac_patterns(*self).len()
                    &&& s <= e <= haystack@.len()
                    &&& spec_eq_ignore_ascii_case(ac_patterns(*self)[p as int], haystack@.subrange(s as int, e as int))
                },
            forall|p: int, s: int|
                #![trigger occurs_at(ac_patterns(*self)[p], haystack@, s)]
                0 <= p < ac_patterns(*self).len() && occurs_at(ac_patterns(*self)[p], haystack@, s)
                    ==> exists|j: int|
                    0 <= j < r@.len() && #[trigger] r@[j] == (
                        p as usize,
                        s as usize,
                        (s + ac_patterns(*self)[p].len()) as usize,
                    ),
    {
        match (&self.small, &self.default) {
            (Some(v), _) => v.find_overlapping_iter(haystack).map(
                |m| (m.pattern(), m.start(), m.end()),
            ).collect(),
            (None, Some(v)) => v.find_overlapping_iter(haystack).map(
                |m| (m.pattern(), m.start(), m.end()),
            ).collect(),
            (None, None) => Vec::new(),
        }
    }
}

} // verus!
