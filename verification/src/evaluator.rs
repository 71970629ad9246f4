//! Evaluation of rule conditions on a scanned memory.
use std::ops::Range;
use vstd::prelude::*;

use crate::module::{
    lemma_field_index_unique, lemma_key_index_unique, spec_keys_unique,
    field_index, key_index, spec_field_index, spec_key_index, Module, ModuleValue,
};
use crate::rule::{Expr, RuleRefs};
use crate::variable::range_pair;

verus! {

/// A value of an expression.
#[derive(Debug)]
pub enum Value {
    /// A signed integer.
    Integer(i64),
    /// A boolean.
    Boolean(bool),
    /// A byte string.
    Bytes(Vec<u8>),
}

/// The abstract form of a [`Value`].
pub enum ValueView {
    Integer(i64),
    Boolean(bool),
    Bytes(Seq<u8>),
}

impl View for Value {
    type V = ValueView;

    open spec fn view(&self) -> ValueView {
        match self {
            Value::Integer(i) => ValueView::Integer(*i),
            Value::Boolean(b) => ValueView::Boolean(*b),
            Value::Bytes(v) => ValueView::Bytes(v@),
        }
    }
}

/// What a condition is evaluated against.
pub struct ScanContext<'a> {
    /// The scanned memory.
    pub mem: &'a [u8],
    /// Matches of each variable of the rule.
    pub matches: &'a [Vec<Range<usize>>],
    /// Results of the rules evaluated before.
    pub previous_results: &'a [bool],
    /// Modules of the scanner.
    pub modules: &'a [Module],
}

/// The abstract form of a [`ScanContext`].
pub struct EvalContext {
    pub mem: Seq<u8>,
    pub matches: Seq<Seq<(int, int)>>,
    pub previous_results: Seq<bool>,
    pub modules: Seq<ModuleValue>,
}

/// The matches of a variable as pairs of offsets.
pub open spec fn matches_view(v: Seq<Range<usize>>) -> Seq<(int, int)> {
    v.map_values(|r: Range<usize>| range_pair(r))
}

impl<'a> ScanContext<'a> {
    /// The abstract form of the context.
    pub open spec fn view(&self) -> EvalContext {
        EvalContext {
            mem: self.mem@,
            matches: Seq::new(self.matches@.len(), |i: int| matches_view(self.matches@[i]@)),
            previous_results: self.previous_results@,
            modules: Seq::new(self.modules@.len(), |i: int| self.modules@[i].value),
        }
    }

    /// Whether every match lies in the memory.
    pub open spec fn wf(&self) -> bool {
        forall|i: int, k: int|
            #![trigger self.matches@[i]@[k]]
            0 <= i < self.matches@.len() && 0 <= k < self.matches@[i]@.len()
                ==> self.matches@[i]@[k].start <= self.matches@[i]@[k].end <= self.mem@.len()
    }
}

/// Truth of an evaluated value: undefined is false, an integer is true when
/// non zero, a byte string when non empty.
pub open spec fn spec_truthy(v: Option<ValueView>) -> bool {
    match v {
        None => false,
        Some(ValueView::Boolean(b)) => b,
        Some(ValueView::Integer(i)) => i != 0,
        Some(ValueView::Bytes(b)) => b.len() > 0,
    }
}

/// An integer value, undefined when it does not fit in an `i64`.
pub open spec fn spec_integer(n: int) -> Option<ValueView> {
    if n <= i64::MAX {
        Some(ValueView::Integer(n as i64))
    } else {
        None
    }
}

/// Number of matches starting between `from` and `to`, both included.
pub open spec fn spec_count_in_range(ms: Seq<(int, int)>, from: int, to: int) -> int
    decreases ms.len(),
{
    if ms.len() == 0 {
        0
    } else {
        spec_count_in_range(ms.drop_last(), from, to) + if from <= ms.last().0 <= to {
            1int
        } else {
            0int
        }
    }
}

/// Whether every variable has a match, or some variable has one.
pub open spec fn spec_of_them(matches: Seq<Seq<(int, int)>>, all: bool) -> bool {
    if all {
        forall|i: int| 0 <= i < matches.len() ==> #[trigger] matches[i].len() > 0
    } else {
        exists|i: int| 0 <= i < matches.len() && #[trigger] matches[i].len() > 0
    }
}

/// The expression value of a module value: integers, byte strings and
/// booleans; the other values are undefined.
pub open spec fn spec_module_value_to_expr_value(v: ModuleValue) -> Option<ValueView> {
    match v {
        ModuleValue::Integer(i) => Some(ValueView::Integer(i)),
        ModuleValue::Bytes(b) => Some(ValueView::Bytes(b@)),
        ModuleValue::Boolean(b) => Some(ValueView::Boolean(b)),
        _ => None,
    }
}

/// Result of the comparison of two integers.
pub open spec fn spec_compare(a: i64, b: i64, less_than: bool, can_be_equal: bool) -> bool {
    if less_than {
        if can_be_equal {
            a <= b
        } else {
            a < b
        }
    } else {
        if can_be_equal {
            a >= b
        } else {
            a > b
        }
    }
}

/// Equality of two values of the same kind; undefined otherwise.
pub open spec fn spec_values_eq(a: ValueView, b: ValueView) -> Option<bool> {
    match (a, b) {
        (ValueView::Integer(x), ValueView::Integer(y)) => Some(x == y),
        (ValueView::Boolean(x), ValueView::Boolean(y)) => Some(x == y),
        (ValueView::Bytes(x), ValueView::Bytes(y)) => Some(x == y),
        _ => None,
    }
}

/// Whether a rule of a rule set matched: a global rule always does; a rule
/// whose result is not known yet does not.
pub open spec fn spec_rule_ref_matched(r: Option<usize>, previous: Seq<bool>) -> bool {
    match r {
        Some(i) => i < previous.len() && previous[i as int],
        None => true,
    }
}

/// Whether all (for `all`) or any (otherwise) of the rules of a rule set
/// matched.
pub open spec fn spec_of_rules(rules: RuleRefs, previous: Seq<bool>, all: bool) -> bool
    decreases rules,
{
    match rules {
        RuleRefs::End => all,
        RuleRefs::Ref(r, rest) => if all {
            spec_rule_ref_matched(r, previous) && spec_of_rules(*rest, previous, all)
        } else {
            spec_rule_ref_matched(r, previous) || spec_of_rules(*rest, previous, all)
        },
    }
}

/// The value of an expression, `None` when undefined.
pub open spec fn spec_eval(e: Expr, c: EvalContext) -> Option<ValueView>
    decreases e, 1int,
{
    match e {
        Expr::Filesize => spec_integer(c.mem.len() as int),
        Expr::Number(n) => Some(ValueView::Integer(n)),
        Expr::Boolean(b) => Some(ValueView::Boolean(b)),
        Expr::Bytes(v) => Some(ValueView::Bytes(v@)),
        Expr::Count(vi) => if vi < c.matches.len() {
            spec_integer(c.matches[vi as int].len() as int)
        } else {
            None
        },
        Expr::CountInRange { variable_index, from, to } => {
            match (spec_eval(*from, c), spec_eval(*to, c)) {
                (Some(ValueView::Integer(a)), Some(ValueView::Integer(b))) => if variable_index
                    < c.matches.len() {
                    spec_integer(
                        spec_count_in_range(c.matches[variable_index as int], a as int, b as int),
                    )
                } else {
                    None
                },
                _ => None,
            }
        },
        Expr::Offset { variable_index, occurence_number } => match spec_eval(
            *occurence_number,
            c,
        ) {
            Some(ValueView::Integer(n)) => if variable_index < c.matches.len() && 1 <= n
                <= c.matches[variable_index as int].len() {
                spec_integer(c.matches[variable_index as int][n - 1].0)
            } else {
                None
            },
            _ => None,
        },
        Expr::Length { variable_index, occurence_number } => match spec_eval(
            *occurence_number,
            c,
        ) {
            Some(ValueView::Integer(n)) => if variable_index < c.matches.len() && 1 <= n
                <= c.matches[variable_index as int].len() {
                let m = c.matches[variable_index as int][n - 1];
                spec_integer(m.1 - m.0)
            } else {
                None
            },
            _ => None,
        },
        Expr::Variable(vi) => if vi < c.matches.len() {
            Some(ValueView::Boolean(c.matches[vi as int].len() > 0))
        } else {
            None
        },
        Expr::OfThem { all } => Some(ValueView::Boolean(spec_of_them(c.matches, all))),
        Expr::OfRules { all, rules } => Some(
            ValueView::Boolean(spec_of_rules(rules, c.previous_results, all)),
        ),
        Expr::Rule(i) => if i < c.previous_results.len() {
            Some(ValueView::Boolean(c.previous_results[i as int]))
        } else {
            None
        },
        Expr::Module(_) => match spec_eval_module(e, c) {
            Some(v) => spec_module_value_to_expr_value(v),
            None => None,
        },
        Expr::Subfield { .. } => match spec_eval_module(e, c) {
            Some(v) => spec_module_value_to_expr_value(v),
            None => None,
        },
        Expr::Subscript { .. } => match spec_eval_module(e, c) {
            Some(v) => spec_module_value_to_expr_value(v),
            None => None,
        },
        Expr::Cmp { left, right, less_than, can_be_equal } => match (
            spec_eval(*left, c),
            spec_eval(*right, c),
        ) {
            (Some(ValueView::Integer(a)), Some(ValueView::Integer(b))) => Some(
                ValueView::Boolean(spec_compare(a, b, less_than, can_be_equal)),
            ),
            _ => None,
        },
        Expr::Eq(a, b) => match (spec_eval(*a, c), spec_eval(*b, c)) {
            (Some(x), Some(y)) => match spec_values_eq(x, y) {
                Some(r) => Some(ValueView::Boolean(r)),
                None => None,
            },
            _ => None,
        },
        Expr::NotEq(a, b) => match (spec_eval(*a, c), spec_eval(*b, c)) {
            (Some(x), Some(y)) => match spec_values_eq(x, y) {
                Some(r) => Some(ValueView::Boolean(!r)),
                None => None,
            },
            _ => None,
        },
        Expr::And(a, b) => Some(
            ValueView::Boolean(spec_truthy(spec_eval(*a, c)) && spec_truthy(spec_eval(*b, c))),
        ),
        Expr::Or(a, b) => Some(
            ValueView::Boolean(spec_truthy(spec_eval(*a, c)) || spec_truthy(spec_eval(*b, c))),
        ),
        Expr::Not(a) => match spec_eval(*a, c) {
            Some(v) => Some(ValueView::Boolean(!spec_truthy(Some(v)))),
            None => None,
        },
    }
}

/// The module value an expression designates, `None` when undefined or when
/// the expression is not a module value.
pub open spec fn spec_eval_module(e: Expr, c: EvalContext) -> Option<ModuleValue>
    decreases e, 0int,
{
    match e {
        Expr::Module(i) => if i < c.modules.len() {
            Some(c.modules[i as int])
        } else {
            None
        },
        Expr::Subfield { base, name } => match spec_eval_module(*base, c) {
            Some(ModuleValue::Object(fields)) => match spec_field_index(fields@, name@) {
                Some(k) => Some(fields@[k].1),
                None => None,
            },
            _ => None,
        },
        Expr::Subscript { base, index } => match spec_eval_module(*base, c) {
            Some(ModuleValue::Array(values)) => match spec_eval(*index, c) {
                Some(ValueView::Integer(i)) => if 0 <= i < values@.len() {
                    Some(values@[i as int])
                } else {
                    None
                },
                _ => None,
            },
            Some(ModuleValue::Dictionary(entries)) => match spec_eval(*index, c) {
                Some(ValueView::Bytes(key)) => match spec_key_index(entries@, key) {
                    Some(k) => Some(entries@[k].1),
                    None => None,
                },
                _ => None,
            },
            _ => None,
        },
        _ => None,
    }
}

/// The abstract form of an optional value.
pub open spec fn opt_value_view(v: Option<Value>) -> Option<ValueView> {
    match v {
        Some(x) => Some(x@),
        None => None,
    }
}

/// Truth of an evaluated value, see [`spec_truthy`].
pub fn truthy(v: &Option<Value>) -> (r: bool)
    ensures
        r == spec_truthy(opt_value_view(*v)),
{
    match v {
        None => false,
        Some(Value::Boolean(b)) => *b,
        Some(Value::Integer(i)) => *i != 0,
        Some(Value::Bytes(b)) => b.len() > 0,
    }
}

/// An integer value from a count or an offset, undefined when it does not fit
/// in an `i64`.
fn integer_value(n: usize) -> (r: Option<Value>)
    ensures
        opt_value_view(r) == spec_integer(n as int),
{
    if (n as u64) <= 0x7fff_ffff_ffff_ffffu64 {
        Some(Value::Integer(n as i64))
    } else {
        None
    }
}

/// The expression value of a module value, see
/// [`spec_module_value_to_expr_value`].
pub fn module_value_to_expr_value(v: &ModuleValue) -> (r: Option<Value>)
    ensures
        opt_value_view(r) == spec_module_value_to_expr_value(*v),
{
    match v {
        ModuleValue::Integer(i) => Some(Value::Integer(*i)),
        ModuleValue::Bytes(b) => Some(Value::Bytes(vstd::slice::slice_to_vec(b.as_slice()))),
        ModuleValue::Boolean(b) => Some(Value::Boolean(*b)),
        _ => None,
    }
}

/// The module value of an expression value: the same integer, boolean or
/// byte string. Converting it back gives the value again.
pub fn expr_value_to_module_value(v: Value) -> (r: ModuleValue)
    ensures
        spec_module_value_to_expr_value(r) == Some(v@),
{
    match v {
        Value::Integer(i) => ModuleValue::Integer(i),
        Value::Boolean(b) => ModuleValue::Boolean(b),
        Value::Bytes(b) => ModuleValue::Bytes(b),
    }
}

/// Number of matches starting between `from` and `to`, both included.
pub fn count_in_range(ms: &Vec<Range<usize>>, from: i64, to: i64) -> (r: usize)
    ensures
        r == spec_count_in_range(matches_view(ms@), from as int, to as int),
        r <= ms@.len(),
{
    let mut count: usize = 0;
    let mut i: usize = 0;
    while i < ms.len()
        invariant
            i <= ms@.len(),
            count <= i,
            count == spec_count_in_range(
                matches_view(ms@.subrange(0, i as int)),
                from as int,
                to as int,
            ),
        decreases ms@.len() - i,
    {
        let start = ms[i].start;
        let ghost prefix = ms@.subrange(0, i as int);
        assert(matches_view(ms@.subrange(0, i + 1)).drop_last() =~= matches_view(prefix));
        assert(matches_view(ms@.subrange(0, i + 1)).last() == range_pair(ms@[i as int]));
        if (start as u64) <= 0x7fff_ffff_ffff_ffffu64 {
            let s = start as i64;
            if from <= s && s <= to {
                count = count + 1;
            }
        }
        i = i + 1;
    }
    assert(ms@.subrange(0, ms@.len() as int) =~= ms@);
    count
}

/// The element of a module array at an integer index.
pub fn eval_array_op<'a>(array: &'a Vec<ModuleValue>, index: i64) -> (r: Option<&'a ModuleValue>)
    ensures
        match r {
            Some(v) => 0 <= index < array@.len() && *v == array@[index as int],
            None => !(0 <= index < array@.len()),
        },
{
    if index >= 0 && (index as u64) < (array.len() as u64) {
        Some(&array[index as usize])
    } else {
        None
    }
}

/// The value of a module dictionary at a key.
pub fn eval_dict_op<'a>(entries: &'a Vec<(Vec<u8>, ModuleValue)>, key: &[u8]) -> (r: Option<
    &'a ModuleValue,
>)
    ensures
        match r {
            Some(v) => spec_key_index(entries@, key@) matches Some(k) && 0 <= k < entries@.len()
                && *v == entries@[k].1,
            None => spec_key_index(entries@, key@) is None,
        },
{
    match key_index(entries, key) {
        Some(k) => Some(&entries[k].1),
        None => None,
    }
}

/// The module value designated by an expression, see [`spec_eval_module`].
pub fn eval_module_expr<'a>(e: &Expr, ctx: &ScanContext<'a>) -> (r: Option<&'a ModuleValue>)
    requires
        ctx.wf(),
    ensures
        match r {
            Some(v) => spec_eval_module(*e, ctx.view()) == Some(*v),
            None => spec_eval_module(*e, ctx.view()) is None,
        },
    decreases e, 0int,
{
    match e {
        Expr::Module(i) => {
            if *i < ctx.modules.len() {
                Some(&ctx.modules[*i].value)
            } else {
                None
            }
        },
        Expr::Subfield { base, name } => match eval_module_expr(base, ctx) {
            Some(ModuleValue::Object(fields)) => match field_index(fields, name) {
                Some(k) => Some(&fields[k].1),
                None => None,
            },
            _ => None,
        },
        Expr::Subscript { base, index } => match eval_module_expr(base, ctx) {
            Some(ModuleValue::Array(values)) => match evaluate_expr(index, ctx) {
                Some(Value::Integer(i)) => eval_array_op(values, i),
                _ => None,
            },
            Some(ModuleValue::Dictionary(entries)) => match evaluate_expr(index, ctx) {
                Some(Value::Bytes(key)) => eval_dict_op(entries, key.as_slice()),
                _ => None,
            },
            _ => None,
        },
        _ => None,
    }
}

/// Whether all, or any, of the rules of a rule set matched, see
/// [`spec_of_rules`].
fn of_rules(rules: &RuleRefs, previous: &[bool], all: bool) -> (r: bool)
    ensures
        r == spec_of_rules(*rules, previous@, all),
    decreases rules,
{
    match rules {
        RuleRefs::End => all,
        RuleRefs::Ref(x, rest) => {
            let matched = match x {
                Some(i) => *i < previous.len() && previous[*i],
                None => true,
            };
            if all {
                matched && of_rules(rest, previous, all)
            } else {
                matched || of_rules(rest, previous, all)
            }
        },
    }
}

/// Whether all, or any, of the variables have a match.
fn of_them(matches: &[Vec<Range<usize>>], all: bool) -> (r: bool)
    ensures
        r == spec_of_them(Seq::new(matches@.len(), |i: int| matches_view(matches@[i]@)), all),
{
    let ghost ms = Seq::new(matches@.len(), |i: int| matches_view(matches@[i]@));
    let mut i: usize = 0;
    while i < matches.len()
        invariant
            i <= matches@.len(),
            ms == Seq::new(matches@.len(), |i: int| matches_view(matches@[i]@)),
            forall|j: int| 0 <= j < i ==> (#[trigger] ms[j].len() > 0) == all,
        decreases matches@.len() - i,
    {
        let found = matches[i].len() > 0;
        assert(ms[i as int].len() == matches@[i as int]@.len());
        if found != all {
            assert(ms[i as int].len() > 0 != all);
            return !all;
        }
        i = i + 1;
    }
    all
}

/// Equality of two values of the same kind, see [`spec_values_eq`].
fn values_eq(a: &Value, b: &Value) -> (r: Option<bool>)
    ensures
        r == spec_values_eq(a@, b@),
{
    match (a, b) {
        (Value::Integer(x), Value::Integer(y)) => Some(*x == *y),
        (Value::Boolean(x), Value::Boolean(y)) => Some(*x == *y),
        (Value::Bytes(x), Value::Bytes(y)) => Some(
            crate::variable::bytes_eq(x.as_slice(), y.as_slice()),
        ),
        _ => None,
    }
}

/// The value of an expression, see [`spec_eval`].
pub fn evaluate_expr(e: &Expr, ctx: &ScanContext) -> (r: Option<Value>)
    requires
        ctx.wf(),
    ensures
        opt_value_view(r) == spec_eval(*e, ctx.view()),
    decreases e, 1int,
{
    let ghost c = ctx.view();
    match e {
        Expr::Filesize => integer_value(ctx.mem.len()),
        Expr::Number(n) => Some(Value::Integer(*n)),
        Expr::Boolean(b) => Some(Value::Boolean(*b)),
        Expr::Bytes(v) => Some(Value::Bytes(vstd::slice::slice_to_vec(v.as_slice()))),
        Expr::Count(vi) => {
            if *vi < ctx.matches.len() {
                integer_value(ctx.matches[*vi].len())
            } else {
                None
            }
        },
        Expr::CountInRange { variable_index, from, to } => {
            let a = evaluate_expr(from, ctx);
            let b = evaluate_expr(to, ctx);
            match (a, b) {
                (Some(Value::Integer(x)), Some(Value::Integer(y))) => {
                    if *variable_index < ctx.matches.len() {
                        integer_value(count_in_range(&ctx.matches[*variable_index], x, y))
                    } else {
                        None
                    }
                },
                _ => None,
            }
        },
        Expr::Offset { variable_index, occurence_number } => {
            match evaluate_expr(occurence_number, ctx) {
                Some(Value::Integer(n)) => {
                    if *variable_index < ctx.matches.len() && n >= 1 && (n as u64) <= (
                    ctx.matches[*variable_index].len() as u64) {
                        let m = &ctx.matches[*variable_index][(n - 1) as usize];
                        assert(matches_view(ctx.matches@[*variable_index as int]@)[n - 1]
                            == range_pair(*m));
                        integer_value(m.start)
                    } else {
                        None
                    }
                },
                _ => None,
            }
        },
        Expr::Length { variable_index, occurence_number } => {
            match evaluate_expr(occurence_number, ctx) {
                Some(Value::Integer(n)) => {
                    if *variable_index < ctx.matches.len() && n >= 1 && (n as u64) <= (
                    ctx.matches[*variable_index].len() as u64) {
                        let m = &ctx.matches[*variable_index][(n - 1) as usize];
                        assert(matches_view(ctx.matches@[*variable_index as int]@)[n - 1]
                            == range_pair(*m));
                        assert(m.start <= m.end);
                        integer_value(m.end - m.start)
                    } else {
                        None
                    }
                },
                _ => None,
            }
        },
        Expr::Variable(vi) => {
            if *vi < ctx.matches.len() {
                Some(Value::Boolean(ctx.matches[*vi].len() > 0))
            } else {
                None
            }
        },
        Expr::OfThem { all } => Some(Value::Boolean(of_them(ctx.matches, *all))),
        Expr::OfRules { all, rules } => Some(Value::Boolean(of_rules(rules, ctx.previous_results, *all))),
        Expr::Rule(i) => {
            if *i < ctx.previous_results.len() {
                Some(Value::Boolean(ctx.previous_results[*i]))
            } else {
                None
            }
        },
        Expr::Module(_) | Expr::Subfield { .. } | Expr::Subscript { .. } => {
            match eval_module_expr(e, ctx) {
                Some(v) => module_value_to_expr_value(v),
                None => None,
            }
        },
        Expr::Cmp { left, right, less_than, can_be_equal } => {
            let a = evaluate_expr(left, ctx);
            let b = evaluate_expr(right, ctx);
            match (a, b) {
                (Some(Value::Integer(x)), Some(Value::Integer(y))) => {
                    let r = if *less_than {
                        if *can_be_equal {
                            x <= y
                        } else {
                            x < y
                        }
                    } else {
                        if *can_be_equal {
                            x >= y
                        } else {
                            x > y
                        }
                    };
                    Some(Value::Boolean(r))
                },
                _ => None,
            }
        },
        Expr::Eq(a, b) => {
            let x = evaluate_expr(a, ctx);
            let y = evaluate_expr(b, ctx);
            match (x, y) {
                (Some(x), Some(y)) => match values_eq(&x, &y) {
                    Some(r) => Some(Value::Boolean(r)),
                    None => None,
                },
                _ => None,
            }
        },
        Expr::NotEq(a, b) => {
            let x = evaluate_expr(a, ctx);
            let y = evaluate_expr(b, ctx);
            match (x, y) {
                (Some(x), Some(y)) => match values_eq(&x, &y) {
                    Some(r) => Some(Value::Boolean(!r)),
                    None => None,
                },
                _ => None,
            }
        },
        Expr::And(a, b) => {
            let x = evaluate_expr(a, ctx);
            let y = evaluate_expr(b, ctx);
            Some(Value::Boolean(truthy(&x) && truthy(&y)))
        },
        Expr::Or(a, b) => {
            let x = evaluate_expr(a, ctx);
            let y = evaluate_expr(b, ctx);
            Some(Value::Boolean(truthy(&x) || truthy(&y)))
        },
        Expr::Not(a) => {
            let x = evaluate_expr(a, ctx);
            match x {
                Some(v) => {
                    let t = truthy(&Some(v));
                    Some(Value::Boolean(!t))
                },
                None => None,
            }
        },
    }
}

} // verus!

verus! {

/// Module values read from modules whose keys are unique have unique keys
/// too, whatever fields and subscripts are applied in turn.
pub proof fn lemma_eval_module_keys_unique(e: Expr, c: EvalContext)
    requires
        forall|i: int| #![trigger c.modules[i]] 0 <= i < c.modules.len() ==> spec_keys_unique(c.modules[i]),
    ensures
        spec_eval_module(e, c) matches Some(v) ==> spec_keys_unique(v),
    decreases e,
{
    match e {
        Expr::Subfield { base, name } => {
            lemma_eval_module_keys_unique(*base, c);
            if let Some(ModuleValue::Object(fields)) = spec_eval_module(*base, c) {
                if let Some(k) = spec_field_index(fields@, name@) {
                    lemma_field_index_bounds(fields@, name@);
                    assert(spec_keys_unique(fields@[k].1));
                }
            }
        },
        Expr::Subscript { base, index } => {
            lemma_eval_module_keys_unique(*base, c);
            match spec_eval_module(*base, c) {
                Some(ModuleValue::Array(values)) => {
                    if let Some(ValueView::Integer(i)) = spec_eval(*index, c) {
                        if 0 <= i < values@.len() {
                            assert(spec_keys_unique(values@[i as int]));
                        }
                    }
                },
                Some(ModuleValue::Dictionary(entries)) => {
                    if let Some(ValueView::Bytes(key)) = spec_eval(*index, c) {
                        if let Some(k) = spec_key_index(entries@, key) {
                            lemma_key_index_bounds(entries@, key);
                            assert(spec_keys_unique(entries@[k].1));
                        }
                    }
                },
                _ => {},
            }
        },
        _ => {},
    }
}

/// Lemma: a field found is within the fields.
proof fn lemma_field_index_bounds(fields: Seq<(String, ModuleValue)>, name: Seq<char>)
    ensures
        spec_field_index(fields, name) matches Some(k) ==> 0 <= k < fields.len(),
    decreases fields.len(),
{
    if fields.len() > 0 {
        lemma_field_index_bounds(fields.subrange(1, fields.len() as int), name);
    }
}

/// Lemma: an entry found is within the entries.
proof fn lemma_key_index_bounds(entries: Seq<(Vec<u8>, ModuleValue)>, key: Seq<u8>)
    ensures
        spec_key_index(entries, key) matches Some(k) ==> 0 <= k < entries.len(),
    decreases entries.len(),
{
    if entries.len() > 0 {
        lemma_key_index_bounds(entries.subrange(1, entries.len() as int), key);
    }
}

/// Reading a field of an object with unique fields gives the value of the
/// field of that name.
pub proof fn lemma_subfield_reads_field(base: Expr, name: String, c: EvalContext, k: int)
    requires
        spec_eval_module(base, c) matches Some(ModuleValue::Object(fields)) && spec_keys_unique(
            ModuleValue::Object(fields),
        ) && 0 <= k < fields@.len() && fields@[k].0@ == name@,
    ensures
        spec_eval_module(Expr::Subfield { base: Box::new(base), name }, c) == Some(
            spec_eval_module(base, c)->Some_0->Object_0@[k].1,
        ),
{
    let fields = spec_eval_module(base, c)->Some_0->Object_0;
    lemma_field_index_unique(fields@, name@, k);
}

/// Reading the entry of a key in a dictionary with unique keys gives the
/// value of that key.
pub proof fn lemma_subscript_reads_entry(base: Expr, index: Expr, c: EvalContext, k: int)
    requires
        spec_eval_module(base, c) matches Some(ModuleValue::Dictionary(entries)) && spec_keys_unique(
            ModuleValue::Dictionary(entries),
        ) && 0 <= k < entries@.len() && spec_eval(index, c) == Some(
            ValueView::Bytes(entries@[k].0@),
        ),
    ensures
        spec_eval_module(Expr::Subscript { base: Box::new(base), index: Box::new(index) }, c)
            == Some(spec_eval_module(base, c)->Some_0->Dictionary_0@[k].1),
{
    let entries = spec_eval_module(base, c)->Some_0->Dictionary_0;
    lemma_key_index_unique(entries@, entries@[k].0@, k);
}

/// Comparing two integer operands: `==` is true exactly when they are equal,
/// `!=` exactly when they differ, and `<`, `<=`, `>`, `>=` are the integer
/// orders.
pub proof fn lemma_eval_integer_relations(a: Expr, b: Expr, c: EvalContext, x: i64, y: i64)
    requires
        spec_eval(a, c) == Some(ValueView::Integer(x)),
        spec_eval(b, c) == Some(ValueView::Integer(y)),
    ensures
        spec_eval(Expr::Eq(Box::new(a), Box::new(b)), c) == Some(ValueView::Boolean(x == y)),
        spec_eval(Expr::NotEq(Box::new(a), Box::new(b)), c) == Some(ValueView::Boolean(x != y)),
        spec_eval(
            Expr::Cmp { left: Box::new(a), right: Box::new(b), less_than: true, can_be_equal: true },
            c,
        ) == Some(ValueView::Boolean(x <= y)),
        spec_eval(
            Expr::Cmp { left: Box::new(a), right: Box::new(b), less_than: true, can_be_equal: false },
            c,
        ) == Some(ValueView::Boolean(x < y)),
        spec_eval(
            Expr::Cmp { left: Box::new(a), right: Box::new(b), less_than: false, can_be_equal: true },
            c,
        ) == Some(ValueView::Boolean(x >= y)),
        spec_eval(
            Expr::Cmp { left: Box::new(a), right: Box::new(b), less_than: false, can_be_equal: false },
            c,
        ) == Some(ValueView::Boolean(x > y)),
{
}

/// `a != b` is the negation of `a == b`: both are defined on the same
/// operands, and where they are, their results are opposite.
pub proof fn lemma_eval_not_eq_negates_eq(a: Expr, b: Expr, c: EvalContext)
    ensures
        spec_eval(Expr::Eq(Box::new(a), Box::new(b)), c) is None <==> spec_eval(
            Expr::NotEq(Box::new(a), Box::new(b)),
            c,
        ) is None,
        spec_eval(Expr::Eq(Box::new(a), Box::new(b)), c) matches Some(ValueView::Boolean(r))
            ==> spec_eval(Expr::NotEq(Box::new(a), Box::new(b)), c) == Some(ValueView::Boolean(!r)),
        spec_eval(Expr::Eq(Box::new(a), Box::new(b)), c) is None || spec_eval(
            Expr::Eq(Box::new(a), Box::new(b)),
            c,
        ) is Some && spec_eval(Expr::Eq(Box::new(a), Box::new(b)), c)->Some_0 is Boolean,
{
}

/// The matches that start between `from` and `to`, both included.
pub open spec fn starts_between(from: int, to: int) -> spec_fn((int, int)) -> bool {
    |m: (int, int)| from <= m.0 <= to
}

/// Counting the matches that start in a range counts those kept by the
/// filter of their starts.
proof fn lemma_count_in_range_is_filter(ms: Seq<(int, int)>, from: int, to: int)
    ensures
        spec_count_in_range(ms, from, to) == ms.filter(starts_between(from, to)).len(),
    decreases ms.len(),
{
    reveal(Seq::filter);
    if ms.len() > 0 {
        lemma_count_in_range_is_filter(ms.drop_last(), from, to);
    }
}

/// What a scan tells of a variable: `#a` is its number of matches,
/// `#a in (from..to)` the number of those that start between `from` and
/// `to` (both included), and `$a` whether it has any match.
pub proof fn lemma_eval_match_counts(
    vi: usize,
    from: Expr,
    to: Expr,
    c: EvalContext,
    a: i64,
    b: i64,
)
    requires
        vi < c.matches.len(),
        c.matches[vi as int].len() <= i64::MAX,
        spec_eval(from, c) == Some(ValueView::Integer(a)),
        spec_eval(to, c) == Some(ValueView::Integer(b)),
    ensures
        spec_eval(Expr::Count(vi), c) == Some(
            ValueView::Integer(c.matches[vi as int].len() as i64),
        ),
        spec_eval(
            Expr::CountInRange { variable_index: vi, from: Box::new(from), to: Box::new(to) },
            c,
        ) == Some(
            ValueView::Integer(
                c.matches[vi as int].filter(starts_between(a as int, b as int)).len() as i64,
            ),
        ),
        spec_eval(Expr::Variable(vi), c) == Some(
            ValueView::Boolean(c.matches[vi as int].len() > 0),
        ),
{
    let ms = c.matches[vi as int];
    lemma_count_in_range_is_filter(ms, a as int, b as int);
    ms.lemma_filter_len(starts_between(a as int, b as int));
}

/// `@a[n]` and `!a[n]` read the `n`-th match of the variable, counted from
/// 1: its start and its length. They are undefined for an `n` that is not
/// the number of a match.
pub proof fn lemma_eval_nth_match(vi: usize, occurrence: Expr, c: EvalContext, n: i64)
    requires
        vi < c.matches.len(),
        spec_eval(occurrence, c) == Some(ValueView::Integer(n)),
        forall|k: int|
            #![trigger c.matches[vi as int][k]]
            0 <= k < c.matches[vi as int].len() ==> 0 <= c.matches[vi as int][k].0
                <= c.matches[vi as int][k].1 <= c.mem.len(),
        c.mem.len() <= i64::MAX,
    ensures
        1 <= n <= c.matches[vi as int].len() ==> {
            &&& spec_eval(
                Expr::Offset { variable_index: vi, occurence_number: Box::new(occurrence) },
                c,
            ) == Some(ValueView::Integer(c.matches[vi as int][n - 1].0 as i64))
            &&& spec_eval(
                Expr::Length { variable_index: vi, occurence_number: Box::new(occurrence) },
                c,
            ) == Some(
                ValueView::Integer(
                    (c.matches[vi as int][n - 1].1 - c.matches[vi as int][n - 1].0) as i64,
                ),
            )
        },
        !(1 <= n <= c.matches[vi as int].len()) ==> {
            &&& spec_eval(
                Expr::Offset { variable_index: vi, occurence_number: Box::new(occurrence) },
                c,
            ) is None
            &&& spec_eval(
                Expr::Length { variable_index: vi, occurence_number: Box::new(occurrence) },
                c,
            ) is None
        },
{
    if 1 <= n <= c.matches[vi as int].len() {
        let m = c.matches[vi as int][n - 1];
        assert(0 <= m.0 <= m.1 <= c.mem.len());
    }
}

/// The boolean operators on conditions: `not a` is the negation of the
/// truth of `a` when `a` is defined, `a and b` and `a or b` the conjunction
/// and the disjunction of their truths, an undefined operand counting as
/// false; an integer is true when it is not zero, a byte string when it is
/// not empty.
pub proof fn lemma_eval_boolean_operators(a: Expr, b: Expr, c: EvalContext)
    ensures
        spec_eval(Expr::And(Box::new(a), Box::new(b)), c) == Some(
            ValueView::Boolean(spec_truthy(spec_eval(a, c)) && spec_truthy(spec_eval(b, c))),
        ),
        spec_eval(Expr::Or(Box::new(a), Box::new(b)), c) == Some(
            ValueView::Boolean(spec_truthy(spec_eval(a, c)) || spec_truthy(spec_eval(b, c))),
        ),
        spec_eval(a, c) is None ==> spec_eval(Expr::Not(Box::new(a)), c) is None,
        spec_eval(a, c) matches Some(ValueView::Boolean(x)) ==> spec_eval(
            Expr::Not(Box::new(a)),
            c,
        ) == Some(ValueView::Boolean(!x)),
        spec_eval(a, c) matches Some(ValueView::Integer(x)) ==> spec_eval(
            Expr::Not(Box::new(a)),
            c,
        ) == Some(ValueView::Boolean(x == 0)),
        spec_eval(a, c) matches Some(ValueView::Bytes(x)) ==> spec_eval(
            Expr::Not(Box::new(a)),
            c,
        ) == Some(ValueView::Boolean(x.len() == 0)),
        spec_eval(a, c) matches Some(ValueView::Boolean(x)) ==> spec_truthy(spec_eval(a, c)) == x,
        spec_eval(a, c) matches Some(ValueView::Integer(x)) ==> spec_truthy(spec_eval(a, c)) == (x
            != 0),
        spec_eval(a, c) matches Some(ValueView::Bytes(x)) ==> spec_truthy(spec_eval(a, c)) == (x.len()
            > 0),
{
}

/// `all of them` holds when every variable has a match, `any of them` when
/// one has; `filesize` is the size of the scanned memory.
pub proof fn lemma_eval_of_them_and_filesize(c: EvalContext)
    requires
        c.mem.len() <= i64::MAX,
    ensures
        spec_eval(Expr::OfThem { all: true }, c) == Some(
            ValueView::Boolean(forall|i: int| 0 <= i < c.matches.len() ==> #[trigger] c.matches[i].len() > 0),
        ),
        spec_eval(Expr::OfThem { all: false }, c) == Some(
            ValueView::Boolean(exists|i: int| 0 <= i < c.matches.len() && #[trigger] c.matches[i].len() > 0),
        ),
        spec_eval(Expr::Filesize, c) == Some(ValueView::Integer(c.mem.len() as i64)),
{
}

} // verus!
