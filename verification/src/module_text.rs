//! The text of a module value, as the command line scanner prints it: a
//! scalar after ` = `, and the members of an object, an array or a
//! dictionary each on its own line, indented, objects and dictionaries in
//! the order of their keys.
use vstd::prelude::*;
use vstd::string::StringExecFns;
use vstd::string::StringSliceAdditionalSpecFns;
use vstd::utf8::{decode_utf8, encode_utf8, valid_utf8};

use crate::diagnostic::{num, push_number};
use crate::lexer::{ascii_string, string_from_utf8};
use crate::module::ModuleValue;

verus! {

/// The text that `{:?}` gives of a text: between double quotes, with its
/// special characters escaped.
pub uninterp spec fn debug_text(s: Seq<char>) -> Seq<char>;

/// `{:?}` of a `str`.
///
/// Trusted: the text is the one named by [`debug_text`].
#[verifier::external_body]
fn debug_str(s: &str) -> (r: String)
    ensures
        r@ == debug_text(s@),
{
    format!("{:?}", s)
}

/// The lower case hexadecimal digit of a value below 16.
pub open spec fn hex_digit(n: int) -> u8 {
    if n < 10 {
        (48 + n) as u8
    } else {
        (87 + n) as u8
    }
}

/// The hexadecimal digits of `n`, without leading zeros.
pub open spec fn spec_hex_nat(n: nat) -> Seq<u8>
    decreases n,
{
    if n < 16 {
        seq![hex_digit(n as int)]
    } else {
        spec_hex_nat(n / 16).push(hex_digit((n % 16) as int))
    }
}

/// Two hexadecimal digits per byte.
pub open spec fn spec_hex_bytes(b: Seq<u8>) -> Seq<u8>
    decreases b.len(),
{
    if b.len() == 0 {
        Seq::empty()
    } else {
        spec_hex_bytes(b.drop_last()) + seq![hex_digit(b.last() as int / 16), hex_digit(b.last() as int % 16)]
    }
}

/// The 64-bit two's complement of an integer.
pub open spec fn twos(i: i64) -> nat {
    if i >= 0 {
        i as nat
    } else {
        (i + 0x1_0000_0000_0000_0000) as nat
    }
}

/// The text of a byte string: its `{:?}` text when it is valid UTF-8,
/// otherwise its bytes in hexadecimal between braces.
pub open spec fn spec_byte_string_text(b: Seq<u8>) -> Seq<char> {
    if valid_utf8(b) {
        debug_text(decode_utf8(b))
    } else {
        "{ "@ + decode_utf8(spec_hex_bytes(b)) + " }"@
    }
}

/// `n` spaces.
pub open spec fn spaces(n: nat) -> Seq<char> {
    Seq::new(n, |i: int| ' ')
}

/// Whether `a` comes before `b` in the lexicographic order of bytes.
pub open spec fn lex_lt(a: Seq<u8>, b: Seq<u8>) -> bool
    decreases a.len(),
{
    if a.len() == 0 {
        b.len() > 0
    } else if b.len() == 0 {
        false
    } else if a[0] != b[0] {
        a[0] < b[0]
    } else {
        lex_lt(a.subrange(1, a.len() as int), b.subrange(1, b.len() as int))
    }
}

/// The number of members of a value; 0 for a scalar.
pub open spec fn spec_size(v: ModuleValue) -> nat {
    match v {
        ModuleValue::Object(f) => f@.len(),
        ModuleValue::Array(a) => a@.len(),
        ModuleValue::Dictionary(d) => d@.len(),
        _ => 0,
    }
}

/// The key of the member `k` of an object (its name, as bytes) or of a
/// dictionary.
pub open spec fn entry_key(v: ModuleValue, k: int) -> Seq<u8> {
    match v {
        ModuleValue::Object(f) => encode_utf8(f@[k].0@),
        ModuleValue::Dictionary(d) => d@[k].0@,
        _ => Seq::empty(),
    }
}

/// The position in `rem` of the first member of smallest key.
pub open spec fn spec_min_pos(v: ModuleValue, rem: Seq<int>) -> int
    decreases rem.len(),
{
    if rem.len() <= 1 {
        0
    } else {
        let p = spec_min_pos(v, rem.drop_last());
        if lex_lt(entry_key(v, rem.last()), entry_key(v, rem[p])) {
            rem.len() - 1
        } else {
            p
        }
    }
}

/// Lemma: the position of the smallest key is within `rem`.
pub proof fn lemma_min_pos(v: ModuleValue, rem: Seq<int>)
    requires
        rem.len() > 0,
    ensures
        0 <= spec_min_pos(v, rem) < rem.len(),
    decreases rem.len(),
{
    if rem.len() > 1 {
        lemma_min_pos(v, rem.drop_last());
    }
}

/// The indentation of the members of a value indented by `indent`.
pub open spec fn child_indent(indent: nat) -> nat {
    if indent + 4 <= usize::MAX {
        indent + 4
    } else {
        usize::MAX as nat
    }
}

/// The line head of the member `k` of an object (its name) or of a
/// dictionary (its key, between brackets).
pub open spec fn entry_head(v: ModuleValue, k: int, indent: nat) -> Seq<char> {
    match v {
        ModuleValue::Object(f) => spaces(indent) + f@[k].0@,
        ModuleValue::Dictionary(d) => spaces(indent) + "["@ + spec_byte_string_text(d@[k].0@) + "]"@,
        _ => Seq::empty(),
    }
}

/// The text of a module value indented by `indent`: after a scalar,
/// ` = ` and its value; after a container, its members on their own lines.
pub open spec fn spec_value_text(v: ModuleValue, indent: nat) -> Seq<char>
    decreases v, spec_size(v) + 1,
{
    match v {
        ModuleValue::Integer(i) => " = "@ + num(i as int) + " (0x"@ + decode_utf8(
            spec_hex_nat(twos(i)),
        ) + ")\n"@,
        ModuleValue::Bytes(b) => " = "@ + spec_byte_string_text(b@) + "\n"@,
        ModuleValue::Boolean(b) => if b {
            " = true\n"@
        } else {
            " = false\n"@
        },
        ModuleValue::Object(f) => if f@.len() == 0 {
            " = {}\n"@
        } else {
            "\n"@ + spec_entries_text(v, Seq::new(f@.len(), |k: int| k), indent)
        },
        ModuleValue::Array(a) => if a@.len() == 0 {
            " = []\n"@
        } else {
            "\n"@ + spec_items_text(v, 0, indent)
        },
        ModuleValue::Dictionary(d) => if d@.len() == 0 {
            " = {}\n"@
        } else {
            "\n"@ + spec_entries_text(v, Seq::new(d@.len(), |k: int| k), indent)
        },
        ModuleValue::Undefined => "[undef]\n"@,
    }
}

/// The lines of the members `rem` of an object or a dictionary, in the
/// order of their keys.
pub open spec fn spec_entries_text(v: ModuleValue, rem: Seq<int>, indent: nat) -> Seq<char>
    decreases v, rem.len(),
{
    if rem.len() == 0 {
        Seq::empty()
    } else {
        let p = spec_min_pos(v, rem);
        proof {
            lemma_min_pos(v, rem);
        }
        let k = rem[p];
        let rest = spec_entries_text(v, rem.remove(p), indent);
        match v {
            ModuleValue::Object(f) => if 0 <= k < f@.len() {
                proof {
                    vstd::std_specs::vec::axiom_vec_index_decreases(f, k);
                }
                entry_head(v, k, indent) + spec_value_text(f@[k].1, child_indent(indent)) + rest
            } else {
                rest
            },
            ModuleValue::Dictionary(d) => if 0 <= k < d@.len() {
                proof {
                    vstd::std_specs::vec::axiom_vec_index_decreases(d, k);
                }
                entry_head(v, k, indent) + spec_value_text(d@[k].1, child_indent(indent)) + rest
            } else {
                rest
            },
            _ => Seq::empty(),
        }
    }
}

/// The lines of the elements of an array from `i` on, each after its index
/// between brackets.
pub open spec fn spec_items_text(v: ModuleValue, i: int, indent: nat) -> Seq<char>
    decreases v, spec_size(v) - i,
{
    match v {
        ModuleValue::Array(a) => if 0 <= i < a@.len() {
            proof {
                vstd::std_specs::vec::axiom_vec_index_decreases(a, i);
            }
            spaces(indent) + "["@ + num(i) + "]"@ + spec_value_text(a@[i], child_indent(indent))
                + spec_items_text(v, i + 1, indent)
        } else {
            Seq::empty()
        },
        _ => Seq::empty(),
    }
}

// ---------------------------------------------------------------------------
// Executable text
// ---------------------------------------------------------------------------

/// Lemma: hexadecimal digits are ASCII.
proof fn lemma_hex_nat_ascii(n: nat)
    ensures
        forall|i: int| 0 <= i < spec_hex_nat(n).len() ==> #[trigger] spec_hex_nat(n)[i] < 128,
    decreases n,
{
    if n >= 16 {
        lemma_hex_nat_ascii(n / 16);
        let rest = spec_hex_nat(n / 16);
        let all = spec_hex_nat(n);
        assert forall|i: int| 0 <= i < all.len() implies #[trigger] all[i] < 128 by {
            if i < rest.len() {
                assert(all[i] == rest[i]);
            }
        }
    }
}

/// Lemma: the hexadecimal digits of bytes are ASCII.
proof fn lemma_hex_bytes_ascii(b: Seq<u8>)
    ensures
        forall|i: int| 0 <= i < spec_hex_bytes(b).len() ==> #[trigger] spec_hex_bytes(b)[i] < 128,
    decreases b.len(),
{
    if b.len() > 0 {
        lemma_hex_bytes_ascii(b.drop_last());
        let a = spec_hex_bytes(b.drop_last());
        let c = seq![hex_digit(b.last() as int / 16), hex_digit(b.last() as int % 16)];
        assert forall|i: int| 0 <= i < (a + c).len() implies #[trigger] (a + c)[i] < 128 by {
            if i >= a.len() {
                assert((a + c)[i] == c[i - a.len()]);
            }
        }
    }
}

/// Append the hexadecimal digits of `n`, see [`spec_hex_nat`].
fn push_hex_nat(out: &mut Vec<u8>, n: u64)
    ensures
        final(out)@ == old(out)@ + spec_hex_nat(n as nat),
    decreases n,
{
    if n >= 16 {
        push_hex_nat(out, n / 16);
    }
    let d: u8 = (n % 16) as u8;
    if d < 10 {
        out.push(48 + d);
    } else {
        out.push(87 + d);
    }
    assert(final(out)@ =~= old(out)@ + spec_hex_nat(n as nat));
}

/// Append the text of ASCII bytes.
fn push_ascii(s: &mut String, bytes: Vec<u8>)
    requires
        forall|i: int| 0 <= i < bytes@.len() ==> #[trigger] bytes@[i] < 128,
    ensures
        final(s)@ == old(s)@ + decode_utf8(bytes@),
{
    let t = ascii_string(bytes);
    s.append(t.as_str());
}

/// Append the text of a byte string, see [`spec_byte_string_text`].
fn push_byte_string_text(s: &mut String, b: &[u8])
    ensures
        final(s)@ == old(s)@ + spec_byte_string_text(b@),
{
    match string_from_utf8(vstd::slice::slice_to_vec(b)) {
        Some(t) => {
            let d = debug_str(t.as_str());
            s.append(d.as_str());
        },
        None => {
            let ghost start = s@;
            s.append("{ ");
            let mut digits: Vec<u8> = Vec::new();
            let mut i: usize = 0;
            while i < b.len()
                invariant
                    i <= b@.len(),
                    digits@ == spec_hex_bytes(b@.subrange(0, i as int)),
                decreases b@.len() - i,
            {
                let c = b[i];
                digits.push(if c / 16 < 10 { 48 + c / 16 } else { 87 + c / 16 });
                digits.push(if c % 16 < 10 { 48 + c % 16 } else { 87 + c % 16 });
                assert(b@.subrange(0, i + 1).drop_last() =~= b@.subrange(0, i as int));
                i = i + 1;
                assert(digits@ =~= spec_hex_bytes(b@.subrange(0, i as int)));
            }
            assert(b@.subrange(0, b@.len() as int) =~= b@);
            proof {
                lemma_hex_bytes_ascii(b@);
            }
            push_ascii(s, digits);
            s.append(" }");
            assert(s@ =~= start + spec_byte_string_text(b@));
        },
    }
}

/// Whether `a` comes before `b`, see [`lex_lt`].
fn lex_less(a: &[u8], b: &[u8]) -> (r: bool)
    ensures
        r == lex_lt(a@, b@),
{
    let mut i: usize = 0;
    assert(a@.subrange(0, a@.len() as int) =~= a@);
    assert(b@.subrange(0, b@.len() as int) =~= b@);
    loop
        invariant
            i <= a@.len(),
            i <= b@.len(),
            lex_lt(a@, b@) == lex_lt(
                a@.subrange(i as int, a@.len() as int),
                b@.subrange(i as int, b@.len() as int),
            ),
        decreases a@.len() - i,
    {
        let ghost x = a@.subrange(i as int, a@.len() as int);
        let ghost y = b@.subrange(i as int, b@.len() as int);
        if i >= a.len() {
            return i < b.len();
        }
        if i >= b.len() {
            return false;
        }
        assert(x[0] == a@[i as int] && y[0] == b@[i as int]);
        if a[i] != b[i] {
            return a[i] < b[i];
        }
        assert(x.subrange(1, x.len() as int) =~= a@.subrange(i + 1, a@.len() as int));
        assert(y.subrange(1, y.len() as int) =~= b@.subrange(i + 1, b@.len() as int));
        i = i + 1;
    }
}

/// Append `n` spaces.
fn push_spaces(s: &mut String, n: usize)
    ensures
        final(s)@ == old(s)@ + spaces(n as nat),
{
    let ghost start = s@;
    let mut i: usize = 0;
    while i < n
        invariant
            i <= n,
            s@ == start + spaces(i as nat),
        decreases n - i,
    {
        s.append(" ");
        proof {
            reveal_strlit(" ");
        }
        i = i + 1;
        assert(s@ =~= start + spaces(i as nat));
    }
}

/// The indexes as integers.
pub open spec fn ints(v: Seq<usize>) -> Seq<int> {
    Seq::new(v.len(), |i: int| v[i] as int)
}

/// The key of the member `k`, see [`entry_key`].
fn key_of(v: &ModuleValue, k: usize) -> (r: &[u8])
    requires
        v is Object ==> k < v->Object_0@.len(),
        v is Dictionary ==> k < v->Dictionary_0@.len(),
    ensures
        r@ == entry_key(*v, k as int),
{
    match v {
        ModuleValue::Object(f) => f[k].0.as_str().as_bytes(),
        ModuleValue::Dictionary(d) => d[k].0.as_slice(),
        _ => &[],
    }
}

/// Append the text of a module value indented by `indent`, see
/// [`spec_value_text`].
fn push_value_text(s: &mut String, v: &ModuleValue, indent: usize)
    ensures
        final(s)@ == old(s)@ + spec_value_text(*v, indent as nat),
    decreases v,
{
    let ghost start = s@;
    let child: usize = if indent <= usize::MAX - 4 {
        indent + 4
    } else {
        usize::MAX
    };
    assert(child as nat == child_indent(indent as nat));
    match v {
        ModuleValue::Integer(i) => {
            s.append(" = ");
            push_number(s, *i as i128);
            s.append(" (0x");
            let u: u64 = if *i >= 0 {
                *i as u64
            } else {
                ((*i + 9223372036854775807 + 1) as u64) + 9223372036854775808
            };
            let mut digits: Vec<u8> = Vec::new();
            push_hex_nat(&mut digits, u);
            assert(digits@ =~= spec_hex_nat(twos(*i)));
            proof {
                lemma_hex_nat_ascii(twos(*i));
            }
            push_ascii(s, digits);
            s.append(")\n");
        },
        ModuleValue::Bytes(b) => {
            s.append(" = ");
            push_byte_string_text(s, b.as_slice());
            s.append("\n");
        },
        ModuleValue::Boolean(b) => {
            if *b {
                s.append(" = true\n");
            } else {
                s.append(" = false\n");
            }
        },
        ModuleValue::Object(f) => {
            if f.len() == 0 {
                s.append(" = {}\n");
            } else {
                s.append("\n");
                push_entries_text(s, v, indent, child);
            }
        },
        ModuleValue::Array(a) => {
            if a.len() == 0 {
                s.append(" = []\n");
            } else {
                s.append("\n");
                let ghost head = s@;
                let mut i: usize = 0;
                while i < a.len()
                    invariant
                        i <= a@.len(),
                        child as nat == child_indent(indent as nat),
                        *v == ModuleValue::Array(*a),
                        head + spec_items_text(*v, 0, indent as nat) == s@ + spec_items_text(
                            *v,
                            i as int,
                            indent as nat,
                        ),
                    decreases a@.len() - i,
                {
                    let ghost before = s@;
                    proof {
                        vstd::std_specs::vec::axiom_vec_index_decreases(*a, i as int);
                    }
                    push_spaces(s, indent);
                    s.append("[");
                    push_number(s, i as i128);
                    s.append("]");
                    push_value_text(s, &a[i], child);
                    assert(s@ =~= before + (spaces(indent as nat) + "["@ + num(i as int) + "]"@
                        + spec_value_text(a@[i as int], child_indent(indent as nat))));
                    i = i + 1;
                }
                assert(spec_items_text(*v, a@.len() as int, indent as nat) =~= Seq::<char>::empty());
            }
        },
        ModuleValue::Dictionary(d) => {
            if d.len() == 0 {
                s.append(" = {}\n");
            } else {
                s.append("\n");
                push_entries_text(s, v, indent, child);
            }
        },
        ModuleValue::Undefined => {
            s.append("[undef]\n");
        },
    }
    assert(s@ =~= start + spec_value_text(*v, indent as nat));
}

/// Append the lines of the members of an object or a dictionary, in the
/// order of their keys, see [`spec_entries_text`].
fn push_entries_text(s: &mut String, v: &ModuleValue, indent: usize, child: usize)
    requires
        v is Object || v is Dictionary,
        child as nat == child_indent(indent as nat),
    ensures
        final(s)@ == old(s)@ + spec_entries_text(
            *v,
            Seq::new(spec_size(*v), |k: int| k),
            indent as nat,
        ),
    decreases v, spec_size(*v) + 1,
{
    let n: usize = match v {
        ModuleValue::Object(f) => f.len(),
        ModuleValue::Dictionary(d) => d.len(),
        _ => 0,
    };
    let mut rem: Vec<usize> = Vec::new();
    let mut i: usize = 0;
    while i < n
        invariant
            i <= n,
            rem@.len() == i,
            forall|j: int| 0 <= j < i ==> #[trigger] rem@[j] == j,
        decreases n - i,
    {
        rem.push(i);
        i = i + 1;
    }
    assert(ints(rem@) =~= Seq::new(spec_size(*v), |k: int| k));
    let ghost start = s@;
    while rem.len() > 0
        invariant
            v is Object || v is Dictionary,
            n == spec_size(*v),
            child as nat == child_indent(indent as nat),
            forall|j: int| 0 <= j < rem@.len() ==> #[trigger] rem@[j] < n,
            start + spec_entries_text(*v, Seq::new(spec_size(*v), |k: int| k), indent as nat)
                == s@ + spec_entries_text(*v, ints(rem@), indent as nat),
        decreases rem@.len(),
    {
        let ghost r = ints(rem@);
        let mut best: usize = 0;
        let mut j: usize = 1;
        while j < rem.len()
            invariant
                1 <= j <= rem@.len(),
                best < j,
                r == ints(rem@),
                forall|x: int| 0 <= x < rem@.len() ==> #[trigger] rem@[x] < n,
                n == spec_size(*v),
                v is Object || v is Dictionary,
                best as int == spec_min_pos(*v, r.subrange(0, j as int)),
            decreases rem@.len() - j,
        {
            assert(r.subrange(0, j + 1).drop_last() =~= r.subrange(0, j as int));
            proof {
                lemma_min_pos(*v, r.subrange(0, j as int));
            }
            if lex_less(key_of(v, rem[j]), key_of(v, rem[best])) {
                best = j;
            }
            j = j + 1;
        }
        assert(r.subrange(0, rem@.len() as int) =~= r);
        proof {
            lemma_min_pos(*v, r);
        }
        let k = rem[best];
        let ghost before = s@;
        push_spaces(s, indent);
        match v {
            ModuleValue::Object(f) => {
                s.append(f[k].0.as_str());
                proof {
                    vstd::std_specs::vec::axiom_vec_index_decreases(*f, k as int);
                }
                push_value_text(s, &f[k].1, child);
            },
            ModuleValue::Dictionary(d) => {
                s.append("[");
                push_byte_string_text(s, d[k].0.as_slice());
                s.append("]");
                proof {
                    vstd::std_specs::vec::axiom_vec_index_decreases(*d, k as int);
                }
                push_value_text(s, &d[k].1, child);
            },
            _ => {},
        }
        rem.remove(best);
        assert(ints(rem@) =~= r.remove(best as int));
        assert(s@ =~= before + (entry_head(*v, k as int, indent as nat) + match *v {
            ModuleValue::Object(f) => spec_value_text(f@[k as int].1, child_indent(indent as nat)),
            ModuleValue::Dictionary(d) => spec_value_text(d@[k as int].1, child_indent(indent as nat)),
            _ => Seq::empty(),
        }));
    }
    assert(ints(rem@) =~= Seq::<int>::empty());
}

/// The text of a module value indented by `indent`, see
/// [`spec_value_text`]: the command line scanner prints it after the name
/// of the module.
pub fn module_value_text(value: &ModuleValue, indent: usize) -> (r: String)
    ensures
        r@ == spec_value_text(*value, indent as nat),
{
    let mut s = String::new();
    push_value_text(&mut s, value, indent);
    assert(s@ =~= spec_value_text(*value, indent as nat));
    s
}

} // verus!
