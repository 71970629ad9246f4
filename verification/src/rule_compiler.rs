//! Compilation of rule declarations: resolution of the names used in
//! conditions, and compilation of variables.
use std::ops::Range;
use vstd::prelude::*;
use vstd::string::StringSliceAdditionalSpecFns;
use vstd::utf8::encode_utf8;

use crate::declaration::{RuleDeclaration, VariableDeclaration};
use crate::error::CompilationError;
use crate::expression::{Expression, ParsedExpr, Type};
use crate::rule::{rule_refs, Expr, Rule, RuleRefs};
use crate::variable::{
    compile_variable, declaration_fits, spec_variable_compiled, spec_variable_compiles,
    spec_variable_error, Variable,
};
use crate::variable_set::VariableSet;

verus! {

/// Rules and modules that belong to the same namespace.
///
/// In a namespace, all rules have unique names, new rules can reference
/// already existing rules, and can use the modules imported in it.
#[derive(Debug)]
pub struct Namespace {
    /// Name of the namespace, `None` if default.
    pub name: Option<String>,
    /// Names of the rules of the namespace, with their index in the rules of
    /// the compiler; `None` for a global rule.
    pub rules_indexes: Vec<(String, Option<usize>)>,
    /// Modules imported in the namespace, with their index in the imported
    /// modules of the compiler.
    ///
    /// Modules have precedence over rules: if a module `foo` is imported and
    /// a rule named `foo` is added, `foo` refers to the module.
    pub imported_modules: Vec<(String, usize)>,
    /// Prefixes of the rule sets used in the namespace, `a` for `a*`: a rule
    /// whose name starts with one of them cannot be added anymore.
    pub forbidden_rule_prefixes: Vec<String>,
}

impl Namespace {
    /// An empty namespace.
    pub fn new(name: Option<String>) -> (r: Namespace)
        ensures
            r.name == name,
            r.rules_indexes@.len() == 0,
            r.imported_modules@.len() == 0,
            r.forbidden_rule_prefixes@.len() == 0,
    {
        Namespace {
            name,
            rules_indexes: Vec::new(),
            imported_modules: Vec::new(),
            forbidden_rule_prefixes: Vec::new(),
        }
    }
}

/// Index of the first entry named `name`.
pub open spec fn spec_find_name<T>(entries: Seq<(String, T)>, name: Seq<char>) -> Option<int>
    decreases entries.len(),
{
    if entries.len() == 0 {
        None
    } else if entries[0].0@ == name {
        Some(0)
    } else {
        match spec_find_name(entries.subrange(1, entries.len() as int), name) {
            Some(i) => Some(i + 1),
            None => None,
        }
    }
}

/// Index of the first entry named `name`, see [`spec_find_name`].
pub fn find_name<T>(entries: &Vec<(String, T)>, name: &String) -> (r: Option<usize>)
    ensures
        match r {
            Some(i) => i < entries@.len() && spec_find_name(entries@, name@) == Some(i as int),
            None => spec_find_name(entries@, name@) is None,
        },
{
    let mut i: usize = 0;
    assert(entries@.subrange(0, entries@.len() as int) =~= entries@);
    while i < entries.len()
        invariant
            i <= entries@.len(),
            spec_find_name(entries@, name@) == match spec_find_name(
                entries@.subrange(i as int, entries@.len() as int),
                name@,
            ) {
                Some(k) => Some(k + i),
                None => None,
            },
        decreases entries@.len() - i,
    {
        let ghost rest = entries@.subrange(i as int, entries@.len() as int);
        assert(rest[0] == entries@[i as int]);
        if entries[i].0 == *name {
            return Some(i);
        }
        assert(rest.subrange(1, rest.len() as int) =~= entries@.subrange(
            i + 1,
            entries@.len() as int,
        ));
        i = i + 1;
    }
    None
}

/// Index of the first of `names` equal to `name`.
pub open spec fn spec_name_index(names: Seq<String>, name: Seq<char>) -> Option<int>
    decreases names.len(),
{
    if names.len() == 0 {
        None
    } else if names[0]@ == name {
        Some(0)
    } else {
        match spec_name_index(names.subrange(1, names.len() as int), name) {
            Some(i) => Some(i + 1),
            None => None,
        }
    }
}

/// Index of the first of `names` equal to `name`, see [`spec_name_index`].
pub fn name_index(names: &Vec<String>, name: &String) -> (r: Option<usize>)
    ensures
        match r {
            Some(i) => i < names@.len() && spec_name_index(names@, name@) == Some(i as int),
            None => spec_name_index(names@, name@) is None,
        },
{
    let mut i: usize = 0;
    assert(names@.subrange(0, names@.len() as int) =~= names@);
    while i < names.len()
        invariant
            i <= names@.len(),
            spec_name_index(names@, name@) == match spec_name_index(
                names@.subrange(i as int, names@.len() as int),
                name@,
            ) {
                Some(k) => Some(k + i),
                None => None,
            },
        decreases names@.len() - i,
    {
        let ghost rest = names@.subrange(i as int, names@.len() as int);
        assert(rest[0] == names@[i as int]);
        if names[i] == *name {
            return Some(i);
        }
        assert(rest.subrange(1, rest.len() as int) =~= names@.subrange(i + 1, names@.len() as int));
        i = i + 1;
    }
    None
}

/// The compiled form of a reference to the variable `name`, built by `f`
/// from its index; an unknown variable is an error at `span`.
pub open spec fn spec_variable_ref(
    names: Seq<String>,
    name: String,
    span: Range<usize>,
) -> Result<usize, CompilationError> {
    match spec_name_index(names, name@) {
        Some(i) => Ok(i as usize),
        None => Err(CompilationError::UnknownVariable { variable_name: name, span }),
    }
}

/// Whether the bytes `s` start with the bytes `prefix`.
pub open spec fn bytes_start_with(s: Seq<u8>, prefix: Seq<u8>) -> bool {
    prefix.len() <= s.len() && s.subrange(0, prefix.len() as int) == prefix
}

/// Whether the text `s` starts with the text `prefix`: its UTF-8 bytes
/// start with those of `prefix`.
pub open spec fn spec_starts_with(s: Seq<char>, prefix: Seq<char>) -> bool {
    bytes_start_with(encode_utf8(s), encode_utf8(prefix))
}

/// Whether `s` starts with `prefix`, see [`spec_starts_with`].
pub fn str_starts_with(s: &str, prefix: &str) -> (r: bool)
    ensures
        r == spec_starts_with(s@, prefix@),
{
    let a = s.as_bytes();
    let b = prefix.as_bytes();
    if b.len() > a.len() {
        return false;
    }
    let mut i: usize = 0;
    while i < b.len()
        invariant
            i <= b@.len() <= a@.len(),
            a@ == s.spec_bytes(),
            b@ == prefix.spec_bytes(),
            forall|k: int| 0 <= k < i ==> #[trigger] a@[k] == b@[k],
        decreases b@.len() - i,
    {
        if a[i] != b[i] {
            assert(a@.subrange(0, b@.len() as int)[i as int] != b@[i as int]);
            return false;
        }
        i = i + 1;
    }
    assert(a@.subrange(0, b@.len() as int) =~= b@);
    true
}

/// The rules of the namespace entries `entries` whose names start with
/// `prefix`, in order.
pub open spec fn spec_prefix_rules(entries: Seq<(String, Option<usize>)>, prefix: Seq<char>) -> Seq<
    Option<usize>,
>
    decreases entries.len(),
{
    if entries.len() == 0 {
        Seq::empty()
    } else {
        let rest = spec_prefix_rules(entries.drop_last(), prefix);
        if spec_starts_with(entries.last().0@, prefix) {
            rest.push(entries.last().1)
        } else {
            rest
        }
    }
}

/// The rules an element of a rule set stands for: the rule of that name, or
/// for a prefix, every rule whose name starts with it (at least one); an
/// unknown name is an error at `span`.
pub open spec fn spec_resolve_rule(
    entries: Seq<(String, Option<usize>)>,
    item: (String, bool),
    span: Range<usize>,
) -> Result<Seq<Option<usize>>, CompilationError> {
    if item.1 {
        let m = spec_prefix_rules(entries, item.0@);
        if m.len() == 0 {
            Err(CompilationError::UnknownIdentifier { name: item.0, span })
        } else {
            Ok(m)
        }
    } else {
        match spec_find_name(entries, item.0@) {
            Some(k) => Ok(seq![entries[k].1]),
            None => Err(CompilationError::UnknownIdentifier { name: item.0, span }),
        }
    }
}

/// The rules of a rule set, element by element; the first element that
/// cannot be resolved gives its error.
pub open spec fn spec_resolve_rule_set(
    entries: Seq<(String, Option<usize>)>,
    items: Seq<(String, bool)>,
    span: Range<usize>,
) -> Result<Seq<Option<usize>>, CompilationError>
    decreases items.len(),
{
    if items.len() == 0 {
        Ok(Seq::empty())
    } else {
        match spec_resolve_rule_set(entries, items.drop_last(), span) {
            Err(e) => Err(e),
            Ok(a) => match spec_resolve_rule(entries, items.last(), span) {
                Err(e) => Err(e),
                Ok(b) => Ok(a + b),
            },
        }
    }
}

/// The rules of the entries whose names start with `prefix`, see
/// [`spec_prefix_rules`].
fn prefix_rules(entries: &Vec<(String, Option<usize>)>, prefix: &String) -> (r: Vec<Option<usize>>)
    ensures
        r@ == spec_prefix_rules(entries@, prefix@),
{
    let mut out: Vec<Option<usize>> = Vec::new();
    let mut i: usize = 0;
    while i < entries.len()
        invariant
            i <= entries@.len(),
            out@ == spec_prefix_rules(entries@.subrange(0, i as int), prefix@),
        decreases entries@.len() - i,
    {
        assert(entries@.subrange(0, i + 1).drop_last() =~= entries@.subrange(0, i as int));
        if str_starts_with(entries[i].0.as_str(), prefix.as_str()) {
            out.push(entries[i].1);
        }
        i = i + 1;
    }
    assert(entries@.subrange(0, entries@.len() as int) =~= entries@);
    out
}

/// The rules of a rule set, see [`spec_resolve_rule_set`].
fn resolve_rule_set(
    entries: &Vec<(String, Option<usize>)>,
    items: &Vec<(String, bool)>,
    span: &Range<usize>,
) -> (r: Result<Vec<Option<usize>>, CompilationError>)
    ensures
        match spec_resolve_rule_set(entries@, items@, *span) {
            Ok(v) => r matches Ok(w) && w@ == v,
            Err(e) => r == Err::<Vec<Option<usize>>, CompilationError>(e),
        },
{
    let mut out: Vec<Option<usize>> = Vec::new();
    let mut i: usize = 0;
    while i < items.len()
        invariant
            i <= items@.len(),
            spec_resolve_rule_set(entries@, items@.subrange(0, i as int), *span) == Ok::<
                Seq<Option<usize>>,
                CompilationError,
            >(out@),
        decreases items@.len() - i,
    {
        let ghost before = out@;
        assert(items@.subrange(0, i + 1).drop_last() =~= items@.subrange(0, i as int));
        assert(items@.subrange(0, i + 1).last() == items@[i as int]);
        let (name, wildcard) = (&items[i].0, items[i].1);
        if wildcard {
            let m = prefix_rules(entries, name);
            if m.len() == 0 {
                proof {
                    lemma_resolve_error_stays(entries@, items@, *span, i as int + 1);
                }
                return Err(
                    CompilationError::UnknownIdentifier {
                        name: name.clone(),
                        span: Range { start: span.start, end: span.end },
                    },
                );
            }
            let mut k: usize = 0;
            while k < m.len()
                invariant
                    k <= m@.len(),
                    out@ == before + m@.subrange(0, k as int),
                decreases m@.len() - k,
            {
                out.push(m[k]);
                k = k + 1;
                assert(out@ =~= before + m@.subrange(0, k as int));
            }
            assert(m@.subrange(0, m@.len() as int) =~= m@);
        } else {
            match find_name(entries, name) {
                Some(k) => {
                    out.push(entries[k].1);
                    assert(out@ =~= before + seq![entries@[k as int].1]);
                },
                None => {
                    proof {
                        lemma_resolve_error_stays(entries@, items@, *span, i as int + 1);
                    }
                    return Err(
                        CompilationError::UnknownIdentifier {
                            name: name.clone(),
                            span: Range { start: span.start, end: span.end },
                        },
                    );
                },
            }
        }
        i = i + 1;
    }
    assert(items@.subrange(0, items@.len() as int) =~= items@);
    Ok(out)
}

/// Lemma: once a prefix of a rule set fails to resolve, the whole set fails
/// with the same error.
proof fn lemma_resolve_error_stays(
    entries: Seq<(String, Option<usize>)>,
    items: Seq<(String, bool)>,
    span: Range<usize>,
    n: int,
)
    requires
        0 <= n <= items.len(),
        spec_resolve_rule_set(entries, items.subrange(0, n), span) is Err,
    ensures
        spec_resolve_rule_set(entries, items, span) == spec_resolve_rule_set(
            entries,
            items.subrange(0, n),
            span,
        ),
    decreases items.len() - n,
{
    if n < items.len() {
        let next = items.subrange(0, n + 1);
        assert(next.drop_last() =~= items.subrange(0, n));
        lemma_resolve_error_stays(entries, items, span, n + 1);
    } else {
        assert(items.subrange(0, n) =~= items);
    }
}

/// The rule set of the references `v`, see [`rule_refs`].
fn make_rule_refs(v: Vec<Option<usize>>) -> (r: RuleRefs)
    ensures
        r == rule_refs(v@),
{
    let mut list = RuleRefs::End;
    let mut i: usize = v.len();
    assert(v@.subrange(i as int, v@.len() as int) =~= Seq::<Option<usize>>::empty());
    while i > 0
        invariant
            i <= v@.len(),
            list == rule_refs(v@.subrange(i as int, v@.len() as int)),
        decreases i,
    {
        i = i - 1;
        let ghost rest = v@.subrange(i as int, v@.len() as int);
        assert(rest.subrange(1, rest.len() as int) =~= v@.subrange(i + 1, v@.len() as int));
        list = RuleRefs::Ref(v[i], Box::new(list));
    }
    assert(v@.subrange(0, v@.len() as int) =~= v@);
    list
}

/// The prefixes of the wildcard elements of a rule set, in order.
pub open spec fn spec_set_wildcards(items: Seq<(String, bool)>) -> Seq<String>
    decreases items.len(),
{
    if items.len() == 0 {
        Seq::empty()
    } else if items.last().1 {
        spec_set_wildcards(items.drop_last()).push(items.last().0)
    } else {
        spec_set_wildcards(items.drop_last())
    }
}

/// The prefixes of the wildcard rule sets used in an expression, in order.
pub open spec fn spec_wildcards(e: ParsedExpr) -> Seq<String>
    decreases e,
{
    match e.expr {
        Expression::OfRules { rules, .. } => spec_set_wildcards(rules@),
        Expression::CountInRange { from, to, .. } => spec_wildcards(*from) + spec_wildcards(*to),
        Expression::Offset { occurence_number, .. } => spec_wildcards(*occurence_number),
        Expression::Length { occurence_number, .. } => spec_wildcards(*occurence_number),
        Expression::Subfield { base, .. } => spec_wildcards(*base),
        Expression::Subscript { base, index } => spec_wildcards(*base) + spec_wildcards(*index),
        Expression::Cmp { left, right, .. } => spec_wildcards(*left) + spec_wildcards(*right),
        Expression::Eq(a, b) => spec_wildcards(*a) + spec_wildcards(*b),
        Expression::NotEq(a, b) => spec_wildcards(*a) + spec_wildcards(*b),
        Expression::And(a, b) => spec_wildcards(*a) + spec_wildcards(*b),
        Expression::Or(a, b) => spec_wildcards(*a) + spec_wildcards(*b),
        Expression::Not(a) => spec_wildcards(*a),
        _ => Seq::empty(),
    }
}

/// Append the prefixes of the wildcard rule sets of `e`, see
/// [`spec_wildcards`].
pub fn collect_wildcards(e: &ParsedExpr, out: &mut Vec<String>)
    ensures
        final(out)@ == old(out)@ + spec_wildcards(*e),
    decreases e,
{
    let ghost start = out@;
    match &e.expr {
        Expression::OfRules { rules, .. } => {
            let mut i: usize = 0;
            assert(rules@.subrange(0, 0) =~= Seq::<(String, bool)>::empty());
            while i < rules.len()
                invariant
                    i <= rules@.len(),
                    out@ == start + spec_set_wildcards(rules@.subrange(0, i as int)),
                decreases rules@.len() - i,
            {
                assert(rules@.subrange(0, i + 1).drop_last() =~= rules@.subrange(0, i as int));
                if rules[i].1 {
                    out.push(rules[i].0.clone());
                }
                i = i + 1;
                assert(out@ =~= start + spec_set_wildcards(rules@.subrange(0, i as int)));
            }
            assert(rules@.subrange(0, rules@.len() as int) =~= rules@);
        },
        Expression::CountInRange { from, to, .. } => {
            collect_wildcards(from, out);
            collect_wildcards(to, out);
        },
        Expression::Offset { occurence_number, .. } => collect_wildcards(occurence_number, out),
        Expression::Length { occurence_number, .. } => collect_wildcards(occurence_number, out),
        Expression::Subfield { base, .. } => collect_wildcards(base, out),
        Expression::Subscript { base, index } => {
            collect_wildcards(base, out);
            collect_wildcards(index, out);
        },
        Expression::Cmp { left, right, .. } => {
            collect_wildcards(left, out);
            collect_wildcards(right, out);
        },
        Expression::Eq(a, b) | Expression::NotEq(a, b) | Expression::And(a, b) | Expression::Or(
            a,
            b,
        ) => {
            collect_wildcards(a, out);
            collect_wildcards(b, out);
        },
        Expression::Not(a) => collect_wildcards(a, out),
        _ => {},
    }
    assert(out@ =~= start + spec_wildcards(*e));
}

/// The first of the forbidden prefixes that `name` starts with.
pub open spec fn spec_forbidden(prefixes: Seq<String>, name: Seq<char>) -> Option<int>
    decreases prefixes.len(),
{
    if prefixes.len() == 0 {
        None
    } else {
        match spec_forbidden(prefixes.drop_last(), name) {
            Some(k) => Some(k),
            None => if spec_starts_with(name, prefixes.last()@) {
                Some(prefixes.len() - 1)
            } else {
                None
            },
        }
    }
}

/// The first of the forbidden prefixes that `name` starts with, see
/// [`spec_forbidden`].
pub fn forbidden_prefix(prefixes: &Vec<String>, name: &String) -> (r: Option<usize>)
    ensures
        match r {
            Some(k) => k < prefixes@.len() && spec_forbidden(prefixes@, name@) == Some(k as int),
            None => spec_forbidden(prefixes@, name@) is None,
        },
{
    let mut i: usize = 0;
    while i < prefixes.len()
        invariant
            i <= prefixes@.len(),
            spec_forbidden(prefixes@.subrange(0, i as int), name@) is None,
        decreases prefixes@.len() - i,
    {
        assert(prefixes@.subrange(0, i + 1).drop_last() =~= prefixes@.subrange(0, i as int));
        if str_starts_with(name.as_str(), prefixes[i].as_str()) {
            proof {
                lemma_forbidden_prefix(prefixes@, name@, i as int + 1);
            }
            return Some(i);
        }
        i = i + 1;
    }
    assert(prefixes@.subrange(0, prefixes@.len() as int) =~= prefixes@);
    None
}

/// Lemma: the first forbidden prefix among the first `n` ones is the first
/// of all.
proof fn lemma_forbidden_prefix(prefixes: Seq<String>, name: Seq<char>, n: int)
    requires
        0 <= n <= prefixes.len(),
        spec_forbidden(prefixes.subrange(0, n), name) is Some,
    ensures
        spec_forbidden(prefixes, name) == spec_forbidden(prefixes.subrange(0, n), name),
    decreases prefixes.len() - n,
{
    if n < prefixes.len() {
        assert(prefixes.subrange(0, n + 1).drop_last() =~= prefixes.subrange(0, n));
        lemma_forbidden_prefix(prefixes, name, n + 1);
    } else {
        assert(prefixes.subrange(0, n) =~= prefixes);
    }
}

/// The compiled form of a parsed expression: variable names are resolved to
/// their index in `names`, and identifiers to an imported module of the
/// namespace, or else to a rule of the namespace (a global rule being always
/// true when other rules are evaluated).
pub open spec fn spec_compile_expr(e: ParsedExpr, names: Seq<String>, ns: Namespace) -> Result<
    Expr,
    CompilationError,
>
    decreases e,
{
    match e.expr {
        Expression::Filesize => Ok(Expr::Filesize),
        Expression::Number(n) => Ok(Expr::Number(n)),
        Expression::Boolean(b) => Ok(Expr::Boolean(b)),
        Expression::Bytes(v) => Ok(Expr::Bytes(v)),
        Expression::Count(name) => match spec_variable_ref(names, name, e.span) {
            Ok(i) => Ok(Expr::Count(i)),
            Err(err) => Err(err),
        },
        Expression::CountInRange { variable_name, from, to } => match spec_variable_ref(
            names,
            variable_name,
            e.span,
        ) {
            Ok(i) => match spec_compile_expr(*from, names, ns) {
                Ok(f) => match spec_compile_expr(*to, names, ns) {
                    Ok(t) => Ok(
                        Expr::CountInRange { variable_index: i, from: Box::new(f), to: Box::new(t) },
                    ),
                    Err(err) => Err(err),
                },
                Err(err) => Err(err),
            },
            Err(err) => Err(err),
        },
        Expression::Offset { variable_name, occurence_number } => match spec_variable_ref(
            names,
            variable_name,
            e.span,
        ) {
            Ok(i) => match spec_compile_expr(*occurence_number, names, ns) {
                Ok(n) => Ok(Expr::Offset { variable_index: i, occurence_number: Box::new(n) }),
                Err(err) => Err(err),
            },
            Err(err) => Err(err),
        },
        Expression::Length { variable_name, occurence_number } => match spec_variable_ref(
            names,
            variable_name,
            e.span,
        ) {
            Ok(i) => match spec_compile_expr(*occurence_number, names, ns) {
                Ok(n) => Ok(Expr::Length { variable_index: i, occurence_number: Box::new(n) }),
                Err(err) => Err(err),
            },
            Err(err) => Err(err),
        },
        Expression::Variable(name) => match spec_variable_ref(names, name, e.span) {
            Ok(i) => Ok(Expr::Variable(i)),
            Err(err) => Err(err),
        },
        Expression::OfThem { all } => Ok(Expr::OfThem { all }),
        Expression::OfRules { all, rules } => match spec_resolve_rule_set(
            ns.rules_indexes@,
            rules@,
            e.span,
        ) {
            Ok(refs) => Ok(Expr::OfRules { all, rules: rule_refs(refs) }),
            Err(err) => Err(err),
        },
        Expression::Identifier(name) => match spec_find_name(ns.imported_modules@, name@) {
            Some(k) => Ok(Expr::Module(ns.imported_modules@[k].1)),
            None => match spec_find_name(ns.rules_indexes@, name@) {
                Some(k) => match ns.rules_indexes@[k].1 {
                    Some(i) => Ok(Expr::Rule(i)),
                    None => Ok(Expr::Boolean(true)),
                },
                None => Err(CompilationError::UnknownIdentifier { name, span: e.span }),
            },
        },
        Expression::Subfield { base, name } => match spec_compile_expr(*base, names, ns) {
            Ok(b) => Ok(Expr::Subfield { base: Box::new(b), name }),
            Err(err) => Err(err),
        },
        Expression::Subscript { base, index } => match spec_compile_expr(*base, names, ns) {
            Ok(b) => match spec_compile_expr(*index, names, ns) {
                Ok(i) => Ok(Expr::Subscript { base: Box::new(b), index: Box::new(i) }),
                Err(err) => Err(err),
            },
            Err(err) => Err(err),
        },
        Expression::Cmp { left, right, less_than, can_be_equal } => match spec_compile_expr(
            *left,
            names,
            ns,
        ) {
            Ok(l) => match spec_compile_expr(*right, names, ns) {
                Ok(r) => Ok(
                    Expr::Cmp { left: Box::new(l), right: Box::new(r), less_than, can_be_equal },
                ),
                Err(err) => Err(err),
            },
            Err(err) => Err(err),
        },
        Expression::Eq(a, b) => match spec_compile_expr(*a, names, ns) {
            Ok(x) => match spec_compile_expr(*b, names, ns) {
                Ok(y) => Ok(Expr::Eq(Box::new(x), Box::new(y))),
                Err(err) => Err(err),
            },
            Err(err) => Err(err),
        },
        Expression::NotEq(a, b) => match spec_compile_expr(*a, names, ns) {
            Ok(x) => match spec_compile_expr(*b, names, ns) {
                Ok(y) => Ok(Expr::NotEq(Box::new(x), Box::new(y))),
                Err(err) => Err(err),
            },
            Err(err) => Err(err),
        },
        Expression::And(a, b) => match spec_compile_expr(*a, names, ns) {
            Ok(x) => match spec_compile_expr(*b, names, ns) {
                Ok(y) => Ok(Expr::And(Box::new(x), Box::new(y))),
                Err(err) => Err(err),
            },
            Err(err) => Err(err),
        },
        Expression::Or(a, b) => match spec_compile_expr(*a, names, ns) {
            Ok(x) => match spec_compile_expr(*b, names, ns) {
                Ok(y) => Ok(Expr::Or(Box::new(x), Box::new(y))),
                Err(err) => Err(err),
            },
            Err(err) => Err(err),
        },
        Expression::Not(a) => match spec_compile_expr(*a, names, ns) {
            Ok(x) => Ok(Expr::Not(Box::new(x))),
            Err(err) => Err(err),
        },
    }
}

/// Mark the variable `name` as used.
pub open spec fn spec_mark_name(used: Seq<bool>, names: Seq<String>, name: Seq<char>) -> Seq<bool> {
    match spec_name_index(names, name) {
        Some(i) => used.update(i, true),
        None => used,
    }
}

/// The variables marked as used once `e` is compiled: every variable named
/// in it, and all of them for `of them`.
pub open spec fn spec_mark_used(used: Seq<bool>, e: ParsedExpr, names: Seq<String>) -> Seq<bool>
    decreases e,
{
    match e.expr {
        Expression::Count(name) => spec_mark_name(used, names, name@),
        Expression::CountInRange { variable_name, from, to } => spec_mark_used(
            spec_mark_used(spec_mark_name(used, names, variable_name@), *from, names),
            *to,
            names,
        ),
        Expression::Offset { variable_name, occurence_number } => spec_mark_used(
            spec_mark_name(used, names, variable_name@),
            *occurence_number,
            names,
        ),
        Expression::Length { variable_name, occurence_number } => spec_mark_used(
            spec_mark_name(used, names, variable_name@),
            *occurence_number,
            names,
        ),
        Expression::Variable(name) => spec_mark_name(used, names, name@),
        Expression::OfThem { .. } => Seq::new(used.len(), |i: int| true),
        Expression::Subfield { base, .. } => spec_mark_used(used, *base, names),
        Expression::Subscript { base, index } => spec_mark_used(
            spec_mark_used(used, *base, names),
            *index,
            names,
        ),
        Expression::Cmp { left, right, .. } => spec_mark_used(
            spec_mark_used(used, *left, names),
            *right,
            names,
        ),
        Expression::Eq(a, b) => spec_mark_used(spec_mark_used(used, *a, names), *b, names),
        Expression::NotEq(a, b) => spec_mark_used(spec_mark_used(used, *a, names), *b, names),
        Expression::And(a, b) => spec_mark_used(spec_mark_used(used, *a, names), *b, names),
        Expression::Or(a, b) => spec_mark_used(spec_mark_used(used, *a, names), *b, names),
        Expression::Not(a) => spec_mark_used(used, *a, names),
        _ => used,
    }
}

/// Resolve a reference to a variable, and mark it as used.
fn variable_ref(names: &Vec<String>, name: String, span: Range<usize>, used: &mut Vec<bool>) -> (r:
    Result<usize, CompilationError>)
    requires
        old(used)@.len() == names@.len(),
    ensures
        r == spec_variable_ref(names@, name, span),
        final(used)@ == spec_mark_name(old(used)@, names@, name@),
        final(used)@.len() == old(used)@.len(),
{
    match name_index(names, &name) {
        Some(i) => {
            used.set(i, true);
            Ok(i)
        },
        None => Err(CompilationError::UnknownVariable { variable_name: name, span }),
    }
}

/// Compile a parsed expression, see [`spec_compile_expr`], marking the
/// variables it uses, see [`spec_mark_used`].
pub fn compile_expr(e: ParsedExpr, names: &Vec<String>, ns: &Namespace, used: &mut Vec<bool>) -> (r:
    Result<Expr, CompilationError>)
    requires
        old(used)@.len() == names@.len(),
    ensures
        r == spec_compile_expr(e, names@, *ns),
        final(used)@.len() == names@.len(),
        r is Ok ==> final(used)@ == spec_mark_used(old(used)@, e, names@),
    decreases e,
{
    let ParsedExpr { expr, ty: _, span } = e;
    match expr {
        Expression::Filesize => Ok(Expr::Filesize),
        Expression::Number(n) => Ok(Expr::Number(n)),
        Expression::Boolean(b) => Ok(Expr::Boolean(b)),
        Expression::Bytes(v) => Ok(Expr::Bytes(v)),
        Expression::Count(name) => {
            let i = variable_ref(names, name, span, used)?;
            Ok(Expr::Count(i))
        },
        Expression::CountInRange { variable_name, from, to } => {
            let i = variable_ref(names, variable_name, span, used)?;
            let f = compile_expr(*from, names, ns, used)?;
            let t = compile_expr(*to, names, ns, used)?;
            Ok(Expr::CountInRange { variable_index: i, from: Box::new(f), to: Box::new(t) })
        },
        Expression::Offset { variable_name, occurence_number } => {
            let i = variable_ref(names, variable_name, span, used)?;
            let n = compile_expr(*occurence_number, names, ns, used)?;
            Ok(Expr::Offset { variable_index: i, occurence_number: Box::new(n) })
        },
        Expression::Length { variable_name, occurence_number } => {
            let i = variable_ref(names, variable_name, span, used)?;
            let n = compile_expr(*occurence_number, names, ns, used)?;
            Ok(Expr::Length { variable_index: i, occurence_number: Box::new(n) })
        },
        Expression::Variable(name) => {
            let i = variable_ref(names, name, span, used)?;
            Ok(Expr::Variable(i))
        },
        Expression::OfThem { all } => {
            let mut k: usize = 0;
            while k < used.len()
                invariant
                    k <= used@.len(),
                    used@.len() == names@.len(),
                    forall|j: int| 0 <= j < k ==> used@[j],
                decreases used@.len() - k,
            {
                used.set(k, true);
                k = k + 1;
            }
            assert(used@ =~= Seq::new(used@.len(), |i: int| true));
            Ok(Expr::OfThem { all })
        },
        Expression::OfRules { all, rules } => {
            match resolve_rule_set(&ns.rules_indexes, &rules, &span) {
                Ok(refs) => Ok(Expr::OfRules { all, rules: make_rule_refs(refs) }),
                Err(err) => Err(err),
            }
        },
        Expression::Identifier(name) => {
            match find_name(&ns.imported_modules, &name) {
                Some(k) => Ok(Expr::Module(ns.imported_modules[k].1)),
                None => match find_name(&ns.rules_indexes, &name) {
                    Some(k) => match ns.rules_indexes[k].1 {
                        Some(i) => Ok(Expr::Rule(i)),
                        None => Ok(Expr::Boolean(true)),
                    },
                    None => Err(CompilationError::UnknownIdentifier { name, span }),
                },
            }
        },
        Expression::Subfield { base, name } => {
            let b = compile_expr(*base, names, ns, used)?;
            Ok(Expr::Subfield { base: Box::new(b), name })
        },
        Expression::Subscript { base, index } => {
            let b = compile_expr(*base, names, ns, used)?;
            let i = compile_expr(*index, names, ns, used)?;
            Ok(Expr::Subscript { base: Box::new(b), index: Box::new(i) })
        },
        Expression::Cmp { left, right, less_than, can_be_equal } => {
            let l = compile_expr(*left, names, ns, used)?;
            let r = compile_expr(*right, names, ns, used)?;
            Ok(Expr::Cmp { left: Box::new(l), right: Box::new(r), less_than, can_be_equal })
        },
        Expression::Eq(a, b) => {
            let x = compile_expr(*a, names, ns, used)?;
            let y = compile_expr(*b, names, ns, used)?;
            Ok(Expr::Eq(Box::new(x), Box::new(y)))
        },
        Expression::NotEq(a, b) => {
            let x = compile_expr(*a, names, ns, used)?;
            let y = compile_expr(*b, names, ns, used)?;
            Ok(Expr::NotEq(Box::new(x), Box::new(y)))
        },
        Expression::And(a, b) => {
            let x = compile_expr(*a, names, ns, used)?;
            let y = compile_expr(*b, names, ns, used)?;
            Ok(Expr::And(Box::new(x), Box::new(y)))
        },
        Expression::Or(a, b) => {
            let x = compile_expr(*a, names, ns, used)?;
            let y = compile_expr(*b, names, ns, used)?;
            Ok(Expr::Or(Box::new(x), Box::new(y)))
        },
        Expression::Not(a) => {
            let x = compile_expr(*a, names, ns, used)?;
            Ok(Expr::Not(Box::new(x)))
        },
    }
}

/// Whether the variable `i` is named, and named as a variable before it.
pub open spec fn spec_is_duplicate(decls: Seq<VariableDeclaration>, i: int) -> bool {
    &&& decls[i].name@.len() > 0
    &&& exists|j: int| 0 <= j < i && #[trigger] decls[j].name@ == decls[i].name@
}

/// The first variable named as a variable before it.
pub open spec fn spec_first_duplicate(decls: Seq<VariableDeclaration>) -> Option<int>
    decreases decls.len(),
{
    if decls.len() == 0 {
        None
    } else {
        match spec_first_duplicate(decls.drop_last()) {
            Some(i) => Some(i),
            None => if spec_is_duplicate(decls, decls.len() - 1) {
                Some(decls.len() - 1)
            } else {
                None
            },
        }
    }
}

/// The first index of a `false`.
pub open spec fn spec_first_false(used: Seq<bool>) -> Option<int>
    decreases used.len(),
{
    if used.len() == 0 {
        None
    } else {
        match spec_first_false(used.drop_last()) {
            Some(i) => Some(i),
            None => if !used.last() {
                Some(used.len() - 1)
            } else {
                None
            },
        }
    }
}

/// The first variable declaration that does not compile.
pub open spec fn spec_first_failing(decls: Seq<VariableDeclaration>) -> Option<int>
    decreases decls.len(),
{
    if decls.len() == 0 {
        None
    } else {
        match spec_first_failing(decls.drop_last()) {
            Some(i) => Some(i),
            None => if !spec_variable_compiles(decls.last()) {
                Some(decls.len() - 1)
            } else {
                None
            },
        }
    }
}

/// The names of the declared variables.
pub open spec fn spec_declared_names(decls: Seq<VariableDeclaration>) -> Seq<String> {
    Seq::new(decls.len(), |i: int| decls[i].name)
}

/// No variable used yet.
pub open spec fn spec_none_used(n: nat) -> Seq<bool> {
    Seq::new(n, |i: int| false)
}

/// Whether the rule is the compiled form of `decl` in the namespace `ns`,
/// its condition being `condition`.
pub open spec fn spec_rule_compiled(
    decl: RuleDeclaration,
    ns: Namespace,
    condition: Expr,
    rule: Rule,
) -> bool {
    &&& rule.name == decl.name
    &&& rule.namespace == ns.name
    &&& rule.is_private == decl.is_private
    &&& rule.condition == condition
    &&& rule.variable_set.is_literal_pass_of(rule.variables@)
    &&& rule.variables@.len() == decl.variables@.len()
    &&& forall|i: int|
        #![trigger rule.variables@[i]]
        0 <= i < rule.variables@.len() ==> spec_variable_compiled(
            decl.variables@[i],
            rule.variables@[i],
        )
}

/// The outcome of the compilation of a rule declaration in a namespace:
/// duplicated variable names are refused first, then the condition is
/// compiled, then every variable must be used, and finally the variables
/// are compiled in order.
pub open spec fn spec_compile_rule_outcome(
    decl: RuleDeclaration,
    ns: Namespace,
    r: Result<Rule, CompilationError>,
) -> bool {
    let decls = decl.variables@;
    let names = spec_declared_names(decls);
    match spec_first_duplicate(decls) {
        Some(i) => r == Err::<Rule, CompilationError>(
            CompilationError::DuplicatedVariable { name: decls[i].name, span: decls[i].span },
        ),
        None => match spec_compile_expr(decl.condition, names, ns) {
            Err(e) => r == Err::<Rule, CompilationError>(e),
            Ok(condition) => match spec_first_false(
                spec_mark_used(spec_none_used(decls.len()), decl.condition, names),
            ) {
                Some(i) => r == Err::<Rule, CompilationError>(
                    CompilationError::UnusedVariable { name: decls[i].name, span: decls[i].span },
                ),
                None => match spec_first_failing(decls) {
                    Some(i) => r matches Err(e) && spec_variable_error(decls[i], e),
                    None => r matches Ok(rule) && spec_rule_compiled(decl, ns, condition, rule),
                },
            },
        },
    }
}

/// Whether a rule declaration compiles in a namespace: no duplicated
/// variable, a condition that compiles, no unused variable, and variables
/// that compile.
pub open spec fn spec_rule_compiles(decl: RuleDeclaration, ns: Namespace) -> bool {
    let decls = decl.variables@;
    let names = spec_declared_names(decls);
    &&& spec_first_duplicate(decls) is None
    &&& spec_compile_expr(decl.condition, names, ns) matches Ok(_)
    &&& spec_first_false(spec_mark_used(spec_none_used(decls.len()), decl.condition, names)) is None
    &&& spec_first_failing(decls) is None
}

/// Whether all variable declarations of a rule can be compiled within the
/// machine limits.
pub open spec fn rule_declaration_fits(decl: RuleDeclaration) -> bool {
    forall|i: int|
        #![trigger decl.variables@[i]]
        0 <= i < decl.variables@.len() ==> declaration_fits(decl.variables@[i])
}

/// Lemma: the first duplicate of a prefix does not depend on what follows.
proof fn lemma_is_duplicate_prefix(decls: Seq<VariableDeclaration>, n: int, i: int)
    requires
        0 <= i < n <= decls.len(),
    ensures
        spec_is_duplicate(decls.subrange(0, n), i) == spec_is_duplicate(decls, i),
{
    let p = decls.subrange(0, n);
    if spec_is_duplicate(decls, i) {
        let j = choose|j: int| 0 <= j < i && #[trigger] decls[j].name@ == decls[i].name@;
        assert(p[j].name@ == p[i].name@);
    }
    if spec_is_duplicate(p, i) {
        let j = choose|j: int| 0 <= j < i && #[trigger] p[j].name@ == p[i].name@;
        assert(decls[j].name@ == decls[i].name@);
    }
}

/// Check that no two variables share a name, see [`spec_first_duplicate`].
fn check_duplicates(decls: &Vec<VariableDeclaration>) -> (r: Result<(), CompilationError>)
    ensures
        match spec_first_duplicate(decls@) {
            Some(i) => r == Err::<(), CompilationError>(
                CompilationError::DuplicatedVariable {
                    name: decls@[i].name,
                    span: decls@[i].span,
                },
            ),
            None => r is Ok,
        },
{
    let mut i: usize = 0;
    while i < decls.len()
        invariant
            i <= decls@.len(),
            spec_first_duplicate(decls@.subrange(0, i as int)) is None,
        decreases decls@.len() - i,
    {
        let ghost prefix = decls@.subrange(0, i as int);
        let ghost next = decls@.subrange(0, i + 1);
        assert(next.drop_last() =~= prefix);
        proof {
            lemma_is_duplicate_prefix(decls@, i + 1, i as int);
        }
        let name = &decls[i].name;
        let mut dup = false;
        if !name.as_str().is_empty() {
            let mut j: usize = 0;
            while j < i
                invariant
                    j <= i < decls@.len(),
                    name == decls@[i as int].name,
                    name@.len() > 0,
                    !dup ==> forall|k: int| 0 <= k < j ==> #[trigger] decls@[k].name@ != name@,
                    dup ==> spec_is_duplicate(decls@, i as int),
                decreases i - j,
            {
                if decls[j].name == *name {
                    assert(decls@[j as int].name@ == decls@[i as int].name@);
                    dup = true;
                }
                j = j + 1;
            }
        }
        if dup {
            let span = Range { start: decls[i].span.start, end: decls[i].span.end };
            assert(spec_first_duplicate(next) == Some(i as int));
            proof {
                lemma_first_duplicate_extend(decls@, i as int);
            }
            return Err(CompilationError::DuplicatedVariable { name: name.clone(), span });
        }
        assert(!spec_is_duplicate(decls@, i as int));
        i = i + 1;
    }
    assert(decls@.subrange(0, decls@.len() as int) =~= decls@);
    Ok(())
}

/// Lemma: the first duplicate found in a prefix is the first one.
proof fn lemma_first_duplicate_extend(decls: Seq<VariableDeclaration>, i: int)
    requires
        0 <= i < decls.len(),
        spec_first_duplicate(decls.subrange(0, i + 1)) == Some(i),
    ensures
        spec_first_duplicate(decls) == Some(i),
    decreases decls.len(),
{
    if decls.len() > i + 1 {
        let p = decls.drop_last();
        assert(p.subrange(0, i + 1) =~= decls.subrange(0, i + 1));
        lemma_first_duplicate_extend(p, i);
    } else {
        assert(decls.subrange(0, i + 1) =~= decls);
    }
}

/// Lemma: the first failing declaration found in a prefix is the first one.
proof fn lemma_first_failing_extend(decls: Seq<VariableDeclaration>, n: int)
    requires
        0 <= n <= decls.len(),
        spec_first_failing(decls.subrange(0, n)) is Some,
    ensures
        spec_first_failing(decls) == spec_first_failing(decls.subrange(0, n)),
    decreases decls.len(),
{
    if decls.len() > n {
        let p = decls.drop_last();
        assert(p.subrange(0, n) =~= decls.subrange(0, n));
        lemma_first_failing_extend(p, n);
    } else {
        assert(decls.subrange(0, n) =~= decls);
    }
}

/// Lemma: the first false found in a prefix is the first one.
proof fn lemma_first_false_extend(used: Seq<bool>, n: int)
    requires
        0 <= n <= used.len(),
        spec_first_false(used.subrange(0, n)) is Some,
    ensures
        spec_first_false(used) == spec_first_false(used.subrange(0, n)),
    decreases used.len(),
{
    if used.len() > n {
        let p = used.drop_last();
        assert(p.subrange(0, n) =~= used.subrange(0, n));
        lemma_first_false_extend(p, n);
    } else {
        assert(used.subrange(0, n) =~= used);
    }
}

/// Compile a rule declaration in a namespace, see
/// [`spec_compile_rule_outcome`].
#[verifier::loop_isolation(false)]
pub fn compile_rule(decl: RuleDeclaration, ns: &Namespace) -> (r: Result<Rule, CompilationError>)
    requires
        rule_declaration_fits(decl),
    ensures
        spec_compile_rule_outcome(decl, *ns, r),
{
    let ghost d = decl;
    let ghost decls = decl.variables@;
    check_duplicates(&decl.variables)?;
    let RuleDeclaration { name, name_span: _, variables, condition, is_private, is_global: _ } = decl;
    let mut names: Vec<String> = Vec::new();
    let mut used: Vec<bool> = Vec::new();
    let mut i: usize = 0;
    while i < variables.len()
        invariant
            i <= variables@.len(),
            variables@ == decls,
            names@ =~= spec_declared_names(decls.subrange(0, i as int)),
            used@ =~= spec_none_used(i as nat),
        decreases variables@.len() - i,
    {
        names.push(variables[i].name.clone());
        used.push(false);
        i = i + 1;
    }
    assert(decls.subrange(0, decls.len() as int) =~= decls);
    let compiled_condition = compile_expr(condition, &names, ns, &mut used)?;
    let ghost marked = used@;
    let mut k: usize = 0;
    while k < used.len()
        invariant
            k <= used@.len(),
            used@ == marked,
            used@.len() == variables@.len(),
            variables@ == decls,
            decls == d.variables@,
            spec_first_false(used@.subrange(0, k as int)) is None,
        decreases used@.len() - k,
    {
        assert(used@.subrange(0, k + 1).drop_last() =~= used@.subrange(0, k as int));
        if !used[k] {
            let span = Range { start: variables[k].span.start, end: variables[k].span.end };
            proof {
                lemma_first_false_extend(used@, k + 1);
            }
            return Err(CompilationError::UnusedVariable { name: variables[k].name.clone(), span });
        }
        k = k + 1;
    }
    assert(used@.subrange(0, used@.len() as int) =~= used@);
    let mut remaining = variables;
    let mut compiled: Vec<Variable> = Vec::new();
    let n = remaining.len();
    let mut j: usize = 0;
    while j < n
        invariant
            j <= n == decls.len(),
            rule_declaration_fits(d),
            d.variables@ == decls,
            remaining@ =~= decls.subrange(j as int, n as int),
            spec_first_false(marked) is None,
            compiled@.len() == j,
            spec_first_failing(decls.subrange(0, j as int)) is None,
            forall|x: int|
                #![trigger compiled@[x]]
                0 <= x < j ==> spec_variable_compiled(decls[x], compiled@[x]),
        decreases n - j,
    {
        let var_decl = remaining.remove(0);
        assert(var_decl == decls[j as int]);
        assert(declaration_fits(d.variables@[j as int]));
        assert(decls.subrange(0, j + 1).drop_last() =~= decls.subrange(0, j as int));
        match compile_variable(var_decl) {
            Ok(v) => {
                compiled.push(v);
            },
            Err(e) => {
                proof {
                    lemma_first_failing_extend(decls, j + 1);
                }
                return Err(e);
            },
        }
        j = j + 1;
    }
    assert(decls.subrange(0, n as int) =~= decls);
    let variable_set = VariableSet::new(compiled.as_slice());
    let namespace = match &ns.name {
        Some(n) => Some(n.clone()),
        None => None,
    };
    Ok(Rule { name, namespace, is_private, variables: compiled, variable_set, condition: compiled_condition })
}

/// Compiling keeps the operators of a condition: a comparison keeps its
/// direction and whether it holds on equal operands, `==` stays an
/// equality, `!=` an inequality, and `and`, `or`, `not` stay what they are,
/// over the compiled operands.
pub proof fn lemma_compile_keeps_operators(
    l: ParsedExpr,
    r: ParsedExpr,
    ty: Type,
    span: Range<usize>,
    names: Seq<String>,
    ns: Namespace,
    x: Expr,
    y: Expr,
    less_than: bool,
    can_be_equal: bool,
)
    requires
        spec_compile_expr(l, names, ns) == Ok::<Expr, CompilationError>(x),
        spec_compile_expr(r, names, ns) == Ok::<Expr, CompilationError>(y),
    ensures
        spec_compile_expr(
            (ParsedExpr {
                expr: Expression::Cmp {
                    left: Box::new(l),
                    right: Box::new(r),
                    less_than,
                    can_be_equal,
                },
                ty,
                span,
            }),
            names,
            ns,
        ) == Ok::<Expr, CompilationError>(
            (Expr::Cmp { left: Box::new(x), right: Box::new(y), less_than, can_be_equal }),
        ),
        spec_compile_expr(
            (ParsedExpr { expr: Expression::Eq(Box::new(l), Box::new(r)), ty, span }),
            names,
            ns,
        ) == Ok::<Expr, CompilationError>(Expr::Eq(Box::new(x), Box::new(y))),
        spec_compile_expr(
            (ParsedExpr { expr: Expression::NotEq(Box::new(l), Box::new(r)), ty, span }),
            names,
            ns,
        ) == Ok::<Expr, CompilationError>(Expr::NotEq(Box::new(x), Box::new(y))),
        spec_compile_expr(
            (ParsedExpr { expr: Expression::And(Box::new(l), Box::new(r)), ty, span }),
            names,
            ns,
        ) == Ok::<Expr, CompilationError>(Expr::And(Box::new(x), Box::new(y))),
        spec_compile_expr(
            (ParsedExpr { expr: Expression::Or(Box::new(l), Box::new(r)), ty, span }),
            names,
            ns,
        ) == Ok::<Expr, CompilationError>(Expr::Or(Box::new(x), Box::new(y))),
        spec_compile_expr(
            (ParsedExpr { expr: Expression::Not(Box::new(l)), ty, span }),
            names,
            ns,
        ) == Ok::<Expr, CompilationError>(Expr::Not(Box::new(x))),
{
}

} // verus!
