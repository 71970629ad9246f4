use boreal::declaration::{VariableDeclarationValue, YaraFileComponent};
use boreal::parser::parse_str;
use boreal::compiler::{AddRuleError, Compiler};
use boreal::error::CompilationError;
use boreal::lexer::ErrorKind;
use boreal::module::{Module, ModuleValue};
use boreal::scanner::Scanner;

fn build(rules: &str) -> Scanner {
    let mut compiler = Compiler::new();
    compiler.add_rules_str(rules).unwrap();
    compiler.into_scanner()
}

fn matched(scanner: &Scanner, mem: &[u8]) -> Vec<String> {
    scanner
        .scan_mem(mem)
        .matched_rules
        .iter()
        .map(|r| r.name.to_owned())
        .collect()
}

fn compilation_failure(rules: &str) -> CompilationError {
    let mut compiler = Compiler::new();
    match compiler.add_rules_str(rules) {
        Err(AddRuleError::CompilationError(e)) => e,
        other => panic!("expected a compilation error, got {:?}", other),
    }
}

fn parse_error_kind(rules: &str) -> ErrorKind {
    let mut compiler = Compiler::new();
    match compiler.add_rules_str(rules) {
        Err(AddRuleError::ParseError(e)) => e.kind,
        other => panic!("expected a parse error, got {:?}", other),
    }
}

#[test]
fn text_string_matches_with_offsets_and_values() {
    let scanner = build("rule a { strings: $s = \"abc\" condition: $s }");
    let res = scanner.scan_mem(b"xxabcxxabc");
    assert_eq!(res.matched_rules.len(), 1);
    let rule = &res.matched_rules[0];
    assert_eq!(rule.name, "a");
    assert_eq!(rule.namespace, None);
    assert_eq!(rule.matches.len(), 1);
    assert_eq!(rule.matches[0].name, "s");
    let offsets: Vec<usize> = rule.matches[0].matches.iter().map(|m| m.offset).collect();
    assert_eq!(offsets, vec![2, 7]);
    assert_eq!(rule.matches[0].matches[0].value, b"abc".to_vec());
    assert!(matched(&scanner, b"xxabxx").is_empty());
}

#[test]
fn boolean_conditions() {
    let scanner = build(
        "rule t { condition: true } rule f { condition: false } \
         rule n { condition: not false and (true or false) }",
    );
    assert_eq!(matched(&scanner, b""), vec!["t", "n"]);
}

#[test]
fn filesize_and_comparisons() {
    let scanner = build(
        "rule small { condition: filesize < 4 } rule four { condition: filesize == 4 } \
         rule big { condition: filesize >= 0x5 }",
    );
    assert_eq!(matched(&scanner, b"abc"), vec!["small"]);
    assert_eq!(matched(&scanner, b"abcd"), vec!["four"]);
    assert_eq!(matched(&scanner, b"abcde"), vec!["big"]);
}

#[test]
fn size_suffixes() {
    let scanner = build("rule k { condition: 1KB == 1024 and 2MB == 2097152 }");
    assert_eq!(matched(&scanner, b""), vec!["k"]);
}

#[test]
fn count_offset_and_length() {
    let scanner = build(
        "rule c { strings: $a = \"ab\" condition: #a == 3 and @a[2] == 4 and !a[1] == 2 \
         and #a in (1..5) == 1 and @a == 0 }",
    );
    assert_eq!(matched(&scanner, b"abxxabxxab"), vec!["c"]);
    assert!(matched(&scanner, b"abxxab").is_empty());
}

#[test]
fn any_and_all_of_them() {
    let scanner = build(
        "rule any_ { strings: $a = \"foo\" $b = \"bar\" condition: any of them } \
         rule all_ { strings: $a = \"foo\" $b = \"bar\" condition: all of them }",
    );
    assert_eq!(matched(&scanner, b"foo"), vec!["any_"]);
    assert_eq!(matched(&scanner, b"foobar"), vec!["any_", "all_"]);
    assert!(matched(&scanner, b"baz").is_empty());
}

#[test]
fn nocase_wide_and_fullword() {
    let scanner = build(
        "rule n { strings: $a = \"abc\" nocase condition: $a } \
         rule w { strings: $a = \"ab\" wide condition: $a } \
         rule f { strings: $a = \"ab\" fullword condition: $a }",
    );
    assert_eq!(matched(&scanner, b"xABCx"), vec!["n"]);
    assert_eq!(matched(&scanner, b"a\0b\0"), vec!["w"]);
    assert_eq!(matched(&scanner, b"x ab x"), vec!["f"]);
    assert!(matched(&scanner, b"xabx").is_empty());
}

#[test]
fn xor_modifier() {
    let scanner = build("rule x { strings: $a = \"ab\" xor(1-2) condition: $a }");
    // "ab" xored with 2.
    assert_eq!(matched(&scanner, &[b'a' ^ 2, b'b' ^ 2]), vec!["x"]);
    assert!(matched(&scanner, b"ab").is_empty());
    assert!(matched(&scanner, &[b'a' ^ 3, b'b' ^ 3]).is_empty());
}

#[test]
fn base64_modifier() {
    let scanner = build("rule b { strings: $a = \"This program cannot\" base64 condition: $a }");
    // Base64 of "This program cannot" is "VGhpcyBwcm9ncmFtIGNhbm5vdA==".
    assert_eq!(matched(&scanner, b"xxVGhpcyBwcm9ncmFtIGNhbm5vdAxx"), vec!["b"]);
    assert!(matched(&scanner, b"This program cannot").is_empty());
}

#[test]
fn regex_variable() {
    let scanner = build("rule r { strings: $a = /a[0-9]+b/ condition: $a }");
    let res = scanner.scan_mem(b"xxa123bxx");
    assert_eq!(res.matched_rules.len(), 1);
    let m = &res.matched_rules[0].matches[0].matches[0];
    assert_eq!(m.offset, 2);
    assert_eq!(m.value, b"a123b".to_vec());
    assert!(matched(&scanner, b"xxabxx").is_empty());
}

#[test]
fn regex_flags() {
    let scanner = build("rule r { strings: $a = /a.b/is condition: $a }");
    assert_eq!(matched(&scanner, b"A\nB"), vec!["r"]);
}

#[test]
fn private_rules_are_not_reported() {
    let scanner = build("private rule p { condition: true } rule q { condition: p }");
    assert_eq!(matched(&scanner, b""), vec!["q"]);
}

#[test]
fn global_rules_gate_all_rules() {
    let scanner = build(
        "global rule g { strings: $a = \"key\" condition: $a } rule r { condition: true }",
    );
    assert_eq!(matched(&scanner, b"a key"), vec!["g", "r"]);
    assert!(matched(&scanner, b"nothing").is_empty());
}

#[test]
fn rules_refer_to_earlier_rules() {
    let scanner = build(
        "rule a { strings: $s = \"x\" condition: $s } rule b { condition: a and filesize > 1 }",
    );
    assert_eq!(matched(&scanner, b"xx"), vec!["a", "b"]);
    assert_eq!(matched(&scanner, b"x"), vec!["a"]);
}

#[test]
fn namespaces_are_separate() {
    let mut compiler = Compiler::new();
    compiler.add_rules_str("rule a { condition: true }").unwrap();
    compiler
        .add_rules_str_in_namespace("rule a { condition: true }", "ns".to_owned())
        .unwrap();
    let err = compiler.add_rules_str_in_namespace("rule a { condition: false }", "ns".to_owned());
    assert!(matches!(
        err,
        Err(AddRuleError::CompilationError(CompilationError::DuplicatedRuleName { .. }))
    ));
    let scanner = compiler.into_scanner();
    let res = scanner.scan_mem(b"");
    assert_eq!(res.matched_rules.len(), 2);
    assert_eq!(res.matched_rules[0].namespace, None);
    assert_eq!(res.matched_rules[1].namespace, Some("ns"));
}

#[test]
fn rules_added_before_an_error_stay() {
    let mut compiler = Compiler::new();
    let err = compiler.add_rules_str("rule a { condition: true } rule a { condition: true }");
    assert!(err.is_err());
    let scanner = compiler.into_scanner();
    assert_eq!(matched(&scanner, b""), vec!["a"]);
}

#[test]
fn parse_error_changes_nothing() {
    let mut compiler = Compiler::new();
    compiler.add_rules_str("rule a { condition: true }").unwrap();
    assert!(matches!(
        compiler.add_rules_str("rule b { condition: true } garbage"),
        Err(AddRuleError::ParseError(_))
    ));
    let scanner = compiler.into_scanner();
    assert_eq!(matched(&scanner, b""), vec!["a"]);
}

fn test_module() -> Module {
    Module {
        name: "tests".to_owned(),
        value: ModuleValue::Object(vec![
            ("number".to_owned(), ModuleValue::Integer(5)),
            ("text".to_owned(), ModuleValue::Bytes(b"abc".to_vec())),
            (
                "list".to_owned(),
                ModuleValue::Array(vec![ModuleValue::Integer(1), ModuleValue::Integer(2)]),
            ),
            (
                "dict".to_owned(),
                ModuleValue::Dictionary(vec![(b"k".to_vec(), ModuleValue::Boolean(true))]),
            ),
        ]),
    }
}

#[test]
fn modules_are_imported_and_read() {
    let mut compiler = Compiler::new();
    assert!(compiler.add_module(test_module()));
    assert!(!compiler.add_module(test_module()));
    assert_eq!(compiler.available_modules(), vec!["time", "math", "tests"]);
    compiler
        .add_rules_str(
            "import \"tests\" rule m { condition: tests.number == 5 and tests.text == \"abc\" \
             and tests.list[1] == 2 and tests.dict[\"k\"] }",
        )
        .unwrap();
    let scanner = compiler.into_scanner();
    let res = scanner.scan_mem(b"");
    assert_eq!(res.matched_rules.len(), 1);
    assert_eq!(res.module_values.len(), 1);
    assert_eq!(res.module_values[0].0, "tests");
}

#[test]
fn compilation_errors() {
    assert!(matches!(
        compilation_failure("rule a { strings: $a = \"x\" $a = \"y\" condition: $a }"),
        CompilationError::DuplicatedVariable { .. }
    ));
    assert!(matches!(
        compilation_failure("rule a { condition: b }"),
        CompilationError::UnknownIdentifier { .. }
    ));
    assert!(matches!(
        compilation_failure("import \"nope\" rule a { condition: true }"),
        CompilationError::UnknownImport { .. }
    ));
    assert!(matches!(
        compilation_failure("rule a { strings: $a = \"x\" condition: $b }"),
        CompilationError::UnknownVariable { .. }
    ));
    assert!(matches!(
        compilation_failure("rule a { strings: $a = \"x\" $b = \"y\" condition: $a }"),
        CompilationError::UnusedVariable { .. }
    ));
    assert!(matches!(
        compilation_failure("rule a { strings: $a = /a(/ condition: $a }"),
        CompilationError::VariableCompilation { .. }
    ));
    assert!(matches!(
        compilation_failure("rule a { condition: true } rule a { condition: true }"),
        CompilationError::DuplicatedRuleName { .. }
    ));
}

#[test]
fn parse_errors() {
    assert_eq!(parse_error_kind("rule a { condition: true } x"), ErrorKind::HasTrailingData);
    assert_eq!(parse_error_kind("rule a { strings: $a = // condition: $a }"), ErrorKind::SyntaxError);
    assert_eq!(
        parse_error_kind("rule a { strings: $a = \"x\" wide wide condition: $a }"),
        ErrorKind::ModifiersDuplicated { modifier: boreal::lexer::Modifier::Wide }
    );
    assert_eq!(
        parse_error_kind("rule a { strings: $a = \"x\" xor nocase condition: $a }"),
        ErrorKind::ModifiersIncompatible {
            first_modifier: boreal::lexer::Modifier::Xor,
            second_modifier: boreal::lexer::Modifier::Nocase,
        }
    );
    assert_eq!(
        parse_error_kind("rule a { strings: $a = \"x\" xor(3-2) condition: $a }"),
        ErrorKind::XorRangeInvalid { from: 3, to: 2 }
    );
    assert_eq!(
        parse_error_kind("rule a { strings: $a = \"x\" xor(256) condition: $a }"),
        ErrorKind::XorRangeInvalidValue { value: 256 }
    );
    assert_eq!(
        parse_error_kind("rule a { strings: $a = \"x\" base64(\"abc\") condition: $a }"),
        ErrorKind::Base64AlphabetInvalidLength { length: 3 }
    );
    assert_eq!(
        parse_error_kind("rule a { condition: #a in (\"x\"..2) }"),
        ErrorKind::ExpressionInvalidType {
            ty: boreal::expression::Type::Bytes,
            expected_type: boreal::expression::Type::Integer,
        }
    );
    assert!(matches!(
        parse_error_kind("rule a { condition: 1 < true }"),
        ErrorKind::ExpressionIncompatibleTypes { .. }
    ));
    assert_eq!(
        parse_error_kind("rule a { condition: 9007199254740992MB > 0 }"),
        ErrorKind::MulOverflow { left: 9007199254740992, right: 1048576 }
    );
    assert_eq!(
        parse_error_kind("rule a { condition: 99999999999999999999 > 0 }"),
        ErrorKind::StrToIntError
    );
    assert_eq!(
        parse_error_kind("rule a { condition: 0x > 0 }"),
        ErrorKind::StrToHexIntError
    );
    assert_eq!(parse_error_kind("rule a { strings: $a = /\n/ condition: $a }"), ErrorKind::SyntaxError);
    assert_eq!(parse_error_kind("rule { condition: true }"), ErrorKind::SyntaxError);
}

#[test]
fn empty_regex_is_refused() {
    let err = boreal::lexer::regex_literal(b"//", 0).unwrap_err();
    assert_eq!(err.kind, ErrorKind::EmptyRegex);
    assert_eq!(err.span, 0..2);
    let (end, (expr, ci, dot_all)) = boreal::lexer::regex_literal(b"/a\\/b/s x", 0).unwrap();
    assert_eq!(end, 7);
    assert_eq!(expr, "a\\/b");
    assert!(!ci);
    assert!(dot_all);
}

#[test]
fn comments_are_whitespace() {
    let scanner = build("// a comment\nrule a /* inline */ { condition: /* x */ true } // end");
    assert_eq!(matched(&scanner, b""), vec!["a"]);
}

#[test]
fn escapes_in_text_strings() {
    let scanner = build("rule e { strings: $a = \"a\\x41\\n\\\"\" condition: $a }");
    assert_eq!(matched(&scanner, b"aA\n\""), vec!["e"]);
}

#[test]
fn modules_take_precedence_over_rules() {
    let mut compiler = Compiler::new();
    assert!(compiler.add_module(test_module()));
    compiler
        .add_rules_str(
            "import \"tests\" rule tests { condition: false } \
             rule uses { condition: tests.number == 5 }",
        )
        .unwrap();
    let scanner = compiler.into_scanner();
    assert_eq!(matched(&scanner, b""), vec!["uses"]);
}

#[test]
fn parse_str_gives_components_in_order() {
    let file = parse_str(
        "import \"pe\"\nprivate global rule r { strings: $a = \"x\" wide ascii $b = /y/i condition: $a and $b }",
    )
    .unwrap();
    assert_eq!(file.components.len(), 2);
    match &file.components[0] {
        YaraFileComponent::Import(i) => {
            assert_eq!(i.name, "pe");
            assert_eq!(i.span, 0..11);
        }
        _ => panic!("expected an import"),
    }
    match &file.components[1] {
        YaraFileComponent::Rule(r) => {
            assert_eq!(r.name, "r");
            assert!(r.is_private);
            assert!(r.is_global);
            assert_eq!(r.variables.len(), 2);
            assert_eq!(r.variables[0].name, "a");
            assert!(r.variables[0].modifiers.flags.wide);
            assert!(r.variables[0].modifiers.flags.ascii);
            assert!(matches!(
                &r.variables[1].value,
                VariableDeclarationValue::Regex { case_insensitive: true, dot_all: false, .. }
            ));
        }
        _ => panic!("expected a rule"),
    }
}

#[test]
fn hex_strings() {
    let scanner = build(
        "rule bytes_only { strings: $a = { 61 62 63 } condition: $a } \
         rule any_byte { strings: $a = { 61 ?? 63 } condition: $a } \
         rule jump { strings: $a = { 78 [1-2] 79 } condition: $a } \
         rule alternatives { strings: $a = { 70 ( 71 | 72 73 ) 74 } condition: $a } \
         rule masks { strings: $a = { 5? ?1 } condition: $a }",
    );
    assert_eq!(matched(&scanner, b"--abc--"), vec!["bytes_only", "any_byte"]);
    assert_eq!(matched(&scanner, b"a\nc"), vec!["any_byte"]);
    assert_eq!(matched(&scanner, b"x12y"), vec!["jump"]);
    assert!(matched(&scanner, b"x123y").is_empty());
    assert_eq!(matched(&scanner, b"pqt prst"), vec!["alternatives"]);
    assert_eq!(matched(&scanner, b"Za"), vec!["masks"]);
    assert!(matched(&scanner, b"Zb").is_empty());
    let res = scanner.scan_mem(b"..abc");
    assert_eq!(res.matched_rules[0].matches[0].matches[0].offset, 2);
}

#[test]
fn hex_string_errors() {
    assert_eq!(
        parse_error_kind("rule a { strings: $a = { 61 [0] 62 } condition: $a }"),
        ErrorKind::JumpEmpty
    );
    assert_eq!(
        parse_error_kind("rule a { strings: $a = { 61 [3-2] 62 } condition: $a }"),
        ErrorKind::JumpRangeInvalid { from: 3, to: 2 }
    );
    assert_eq!(
        parse_error_kind("rule a { strings: $a = { 61 ( 62 [-] 63 | 64 ) } condition: $a }"),
        ErrorKind::JumpUnboundedInAlternation
    );
    assert_eq!(
        parse_error_kind("rule a { strings: $a = { 61 ( 62 [1-201] 63 | 64 ) } condition: $a }"),
        ErrorKind::JumpTooBigInAlternation { limit: 200 }
    );
    assert_eq!(
        parse_error_kind("rule a { strings: $a = { } condition: $a }"),
        ErrorKind::SyntaxError
    );
    assert_eq!(
        parse_error_kind("rule a { strings: $a = { 61 } wide condition: $a }"),
        ErrorKind::SyntaxError
    );
    assert_eq!(
        parse_error_kind("rule a { strings: $a = { 61 ( 62 } condition: $a }"),
        ErrorKind::SyntaxError
    );
}

#[test]
fn imports_stay_in_their_namespace() {
    let mut compiler = Compiler::new();
    assert!(compiler.add_module(test_module()));
    compiler
        .add_rules_str_in_namespace("import \"tests\" rule a { condition: true }", "ns".to_owned())
        .unwrap();
    compiler
        .add_rules_str_in_namespace("rule b { condition: tests.number == 5 }", "ns".to_owned())
        .unwrap();
    assert!(matches!(
        compiler.add_rules_str("rule c { condition: tests.number == 5 }"),
        Err(AddRuleError::CompilationError(CompilationError::UnknownIdentifier { .. }))
    ));
    let scanner = compiler.into_scanner();
    assert_eq!(matched(&scanner, b""), vec!["a", "b"]);
}

#[test]
fn diagnostics_of_errors() {
    let mut compiler = Compiler::new();
    let input = "rule a { condition: true }\nrule a { condition: true }";
    let err = compiler.add_rules_str(input).unwrap_err();
    let d = err.to_diagnostic();
    assert!(!d.is_warning);
    assert_eq!(d.message, "rule `a` is already declared in this namespace");
    assert_eq!(d.labels.len(), 1);
    assert_eq!(d.labels[0].1, 32..33);
    let short = err.to_short_description("rules.yar", input);
    assert!(short.starts_with("rules.yar:2:6: error"));
    assert!(short.contains("rule `a` is already declared in this namespace"));

    let err = Compiler::new()
        .add_rules_str("rule a { strings: $a = \"x\" xor(3-2) condition: $a }")
        .unwrap_err();
    assert_eq!(err.to_diagnostic().message, "xor range is invalid: 3 > 2");
}

#[test]
fn every_occurrence_of_a_literal_is_found() {
    let scanner = build("rule a { strings: $s = \"aa\" condition: $s } rule b { strings: $s = \"Ab\" nocase condition: $s }");
    let res = scanner.scan_mem(b"aaaab");
    assert_eq!(res.matched_rules.len(), 2);
    let offsets: Vec<usize> = res.matched_rules[0].matches[0].matches.iter().map(|m| m.offset).collect();
    assert_eq!(offsets, vec![0, 1, 2]);
    let offsets: Vec<usize> = res.matched_rules[1].matches[0].matches.iter().map(|m| m.offset).collect();
    assert_eq!(offsets, vec![3]);
    assert_eq!(res.matched_rules[1].matches[0].matches[0].value, b"ab".to_vec());
}

#[test]
fn rule_sets() {
    let scanner = build(
        "rule a0 { condition: true } rule a1 { condition: filesize > 2 } \
         private rule b { condition: false } \
         rule x_any { condition: any of (a*) } rule x_all { condition: all of (a*) } \
         rule some { condition: any of (b, a1) }",
    );
    assert_eq!(matched(&scanner, b""), vec!["a0", "x_any"]);
    assert_eq!(matched(&scanner, b"abc"), vec!["a0", "a1", "x_any", "x_all", "some"]);
}

#[test]
fn rules_matching_an_earlier_rule_set_are_refused() {
    let mut compiler = Compiler::new();
    let s = "rule a0 { condition: true }\nrule b { condition: all of (a*) }\nrule a1 { condition: true }";
    match compiler.add_rules_str(s) {
        Err(AddRuleError::CompilationError(CompilationError::MatchOnWildcardRuleSet {
            rule_name,
            name_span,
            rule_set,
        })) => {
            assert_eq!(rule_name, "a1");
            assert_eq!(name_span, 67..69);
            assert_eq!(rule_set, "a*");
        }
        other => panic!("unexpected result {:?}", other),
    }
    assert!(matches!(
        compilation_failure("rule a { condition: any of (z*) }"),
        CompilationError::UnknownIdentifier { .. }
    ));
}

#[test]
fn wide_regexes() {
    let scanner = build(
        "rule w { strings: $a = /ab+c/ wide condition: $a } \
         rule both { strings: $a = /xy/ wide ascii condition: $a } \
         rule dot { strings: $a = /a.c/ wide condition: $a } \
         rule word { strings: $a = /\\bkey\\b/ wide condition: $a }",
    );
    assert_eq!(matched(&scanner, b"a\0b\0b\0c\0"), vec!["w"]);
    assert_eq!(matched(&scanner, b"a\0X\0c\0"), vec!["dot"]);
    assert!(matched(&scanner, b"abbc").is_empty());
    assert_eq!(matched(&scanner, b"xy"), vec!["both"]);
    assert_eq!(matched(&scanner, b"x\0y\0"), vec!["both"]);
    assert_eq!(matched(&scanner, b" \0k\0e\0y\0 \0"), vec!["word"]);
    assert!(matched(&scanner, b"a\0k\0e\0y\0").is_empty());
    let res = scanner.scan_mem(b"--a\0b\0c\0");
    let m = &res.matched_rules[0].matches[0].matches[0];
    assert_eq!(m.offset, 2);
    assert_eq!(m.value, b"a\0b\0c\0".to_vec());
}

#[test]
fn time_and_math_are_available_by_default() {
    let mut compiler = Compiler::new();
    assert!(!compiler.add_module(Module {
        name: "time".to_owned(),
        value: ModuleValue::Object(Vec::new()),
    }));
    assert!(!compiler.add_module(Module {
        name: "math".to_owned(),
        value: ModuleValue::Object(Vec::new()),
    }));
    compiler
        .add_rules_str("import \"time\" import \"math\" rule a { condition: true }")
        .unwrap();
    let scanner = compiler.into_scanner();
    let res = scanner.scan_mem(b"");
    assert_eq!(res.module_values.len(), 2);
    assert_eq!(res.module_values[0].0, "time");
    assert_eq!(res.module_values[1].0, "math");
}
