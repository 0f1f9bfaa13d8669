use cargo_disassemble::demangle::{demangle, display_name};
use cargo_disassemble::filter::{ownership_prefix, parse_opt_vec, FilterCriteria, FilterError, NamePattern};
use cargo_disassemble::line::{classify, is_branch_label, is_instruction, rewrite_call, LineKind};
use cargo_disassemble::machine::{extract, Extractor};

fn lines(ls: &[&str]) -> Vec<String> {
    ls.iter().map(|s| s.to_string()).collect()
}

fn sample_listing() -> Vec<String> {
    lines(&[
        "_ZN5crate3foo17hABCDEF0123456789E:",
        "\tpushq\t%rbp",
        "\tcallq\t_ZN4core6option6Option6unwrap17hFEDCBA9876543210E",
        "\tretq",
    ])
}

fn own(prefix: &str) -> FilterCriteria {
    FilterCriteria::new(None, prefix, false).unwrap()
}

#[test]
fn own_function_is_extracted() {
    let out = extract(own("crate"), &sample_listing());
    assert_eq!(
        out,
        lines(&["crate::foo", "\tpushq\t%rbp", "\tcallq\tcore::option::Option::unwrap", "\tretq"])
    );
}

#[test]
fn prefix_mismatch_gives_nothing() {
    let out = extract(own("other"), &sample_listing());
    assert!(out.is_empty());
}

#[test]
fn directive_between_functions_is_dropped() {
    let input = lines(&[
        "_ZN5crate3foo17hABCDEF0123456789E:",
        "\tpushq\t%rbp",
        ".text",
        "\tretq",
        ".text",
        "_ZN5crate3bar17h0123456789abcdefE:",
        "\t.cfi_startproc",
        "\tretq",
    ]);
    let all = FilterCriteria::new(None, "", true).unwrap();
    let out = extract(all, &input);
    assert_eq!(out, lines(&["crate::foo", "\tpushq\t%rbp", "\tretq", "crate::bar", "\tretq"]));
}

#[test]
fn undemangled_call_target_kept() {
    let input = lines(&[
        "_ZN5crate3foo17hABCDEF0123456789E:",
        "\tcallq\tmemcpy@PLT",
        "\tretq",
    ]);
    let out = extract(own("crate"), &input);
    assert_eq!(out, lines(&["crate::foo", "\tcallq\tmemcpy@PLT", "\tretq"]));
}

#[test]
fn hash_is_stripped_from_display_name() {
    assert_eq!(display_name("a::b::h0123456789abcdef"), "a::b");
    assert_eq!(display_name("crate::foo::hABCDEF0123456789"), "crate::foo");
}

#[test]
fn display_name_without_separator_is_whole() {
    assert_eq!(display_name("main"), "main");
    assert_eq!(display_name(":x"), ":x");
    assert_eq!(display_name(""), "");
}

#[test]
fn demangle_gives_full_path_with_hash() {
    assert_eq!(
        demangle("_ZN5crate3foo17hABCDEF0123456789E"),
        Some("crate::foo::hABCDEF0123456789".to_string())
    );
    assert_eq!(demangle("\tpushq\t%rbp"), None);
    assert_eq!(demangle("main"), None);
}

#[test]
fn only_accepted_functions_are_written() {
    let input = lines(&[
        "_ZN5crate3foo17hABCDEF0123456789E:",
        "\tpushq\t%rbp",
        "\tretq",
        "_ZN4core3ptr4read17h0123456789abcdefE:",
        "\tmovq\t(%rdi), %rax",
        "\tretq",
        "_ZN5crate3baz17h0123456789abcdefE:",
        ".LBB2_1:",
        "\tretq",
    ]);
    let out = extract(own("crate"), &input);
    assert_eq!(
        out,
        lines(&["crate::foo", "\tpushq\t%rbp", "\tretq", "crate::baz", ".LBB2_1:", "\tretq"])
    );
}

#[test]
fn nothing_after_ret_until_next_symbol() {
    let input = lines(&[
        "_ZN5crate3foo17hABCDEF0123456789E:",
        "\tretq",
        "\tnop",
        ".LBB0_3:",
        "_ZN5crate3bar17h0123456789abcdefE:",
        "\tnop",
    ]);
    let out = extract(own("crate"), &input);
    assert_eq!(out, lines(&["crate::foo", "\tretq", "crate::bar", "\tnop"]));
}

#[test]
fn unfinished_body_is_abandoned_on_rejected_symbol() {
    let input = lines(&[
        "_ZN5crate3foo17hABCDEF0123456789E:",
        "\tpushq\t%rbp",
        "_ZN4core3ptr4read17h0123456789abcdefE:",
        "\tmovq\t(%rdi), %rax",
        "\tretq",
    ]);
    let out = extract(own("crate"), &input);
    assert_eq!(out, lines(&["crate::foo", "\tpushq\t%rbp"]));
}

#[test]
fn rewriting_a_call_does_not_change_what_is_written() {
    let plain = lines(&["_ZN5crate3foo17hABCDEF0123456789E:", "\tcallq\tfoo", "\tnop", "\tretq"]);
    let mangled = lines(&[
        "_ZN5crate3foo17hABCDEF0123456789E:",
        "\tcallq\t_ZN5crate3bar17h0123456789abcdefE",
        "\tnop",
        "\tretq",
    ]);
    let a = extract(own("crate"), &plain);
    let b = extract(own("crate"), &mangled);
    assert_eq!(a.len(), b.len());
    assert_eq!(b[1], "\tcallq\tcrate::bar");
    assert_eq!(a[2], b[2]);
}

#[test]
fn include_foreign_shows_every_function() {
    let input = lines(&["_ZN4core3ptr4read17h0123456789abcdefE:", "\tretq"]);
    let all = FilterCriteria::new(None, "crate", true).unwrap();
    assert_eq!(extract(all, &input), lines(&["core::ptr::read", "\tretq"]));
}

#[test]
fn name_pattern_selects_functions() {
    let input = lines(&[
        "_ZN5crate3foo17hABCDEF0123456789E:",
        "\tretq",
        "_ZN5crate3bar17h0123456789abcdefE:",
        "\tretq",
    ]);
    let c = FilterCriteria::new(Some("ba+r$|bar::"), "crate", false).unwrap();
    assert_eq!(extract(c, &input), lines(&["crate::bar", "\tretq"]));
}

#[test]
fn invalid_pattern_is_refused() {
    match FilterCriteria::new(Some("(foo"), "crate", false) {
        Err(FilterError::InvalidPattern { message }) => assert!(!message.is_empty()),
        Ok(_) => panic!("an unbalanced group must be refused"),
    }
    assert!(NamePattern::new("(").is_err());
}

#[test]
fn name_pattern_matches_text() {
    let p = NamePattern::new("o{2}").unwrap();
    assert_eq!(p.as_str(), "o{2}");
    let c = FilterCriteria::new(Some("o{2}"), "crate", false).unwrap();
    assert!(c.accepts("crate::foo::h0123456789abcdef"));
    assert!(!c.accepts("crate::bar::h0123456789abcdef"));
    assert!(!c.accepts("other::foo::h0123456789abcdef"));
    let everything = FilterCriteria::new(None, "crate", true).unwrap();
    assert!(everything.accepts("other::foo::h0123456789abcdef"));
}

#[test]
fn feature_list_splits_on_white_space() {
    assert_eq!(parse_opt_vec("serde  std\tdebug ").unwrap(), lines(&["serde", "std", "debug"]));
    assert_eq!(parse_opt_vec("").unwrap(), Vec::<String>::new());
    assert_eq!(parse_opt_vec("   ").unwrap(), Vec::<String>::new());
    assert_eq!(parse_opt_vec("one").unwrap(), lines(&["one"]));
}

#[test]
fn package_name_hyphens_become_underscores() {
    assert_eq!(ownership_prefix("cargo-disassemble"), "cargo_disassemble");
    assert_eq!(ownership_prefix("plain"), "plain");
    assert_eq!(ownership_prefix(""), "");
}

#[test]
fn lines_are_classified() {
    assert!(is_branch_label(".LBB0_1:"));
    assert!(!is_branch_label("\t.LBB0_1"));
    assert!(is_instruction("\tmovq\t%rsp, %rbp"));
    assert!(is_instruction("    ret"));
    assert!(!is_instruction("\t.cfi_startproc"));
    assert!(!is_instruction("movq"));
    assert!(!is_instruction(""));
    assert_eq!(classify(".LBB0_1:"), LineKind::BlockLabel);
    assert_eq!(classify("\tnop"), LineKind::Instruction);
    assert_eq!(classify(".text"), LineKind::Other);
    assert_eq!(
        classify("_ZN5crate3foo17hABCDEF0123456789E:"),
        LineKind::Symbol { name: "crate::foo::hABCDEF0123456789".to_string() }
    );
}

#[test]
fn call_target_is_rewritten() {
    assert_eq!(
        rewrite_call("\tcall\t_ZN4core6option6Option6unwrap17hFEDCBA9876543210E"),
        "\tcall\tcore::option::Option::unwrap"
    );
    assert_eq!(rewrite_call("\tcallq\t*%rax"), "\tcallq\t*%rax");
}

#[test]
fn extractor_streams_line_by_line() {
    let mut ex = Extractor::new(own("crate"));
    assert_eq!(ex.feed("_ZN5crate3foo17hABCDEF0123456789E:"), Some("crate::foo".to_string()));
    assert_eq!(ex.feed("\t.cfi_startproc"), None);
    assert_eq!(ex.feed("\tretq"), Some("\tretq".to_string()));
    assert_eq!(ex.feed("\tnop"), None);
}

#[test]
fn removing_a_directive_changes_nothing() {
    let with = lines(&["_ZN5crate3foo17hABCDEF0123456789E:", "\tnop", "\t.p2align\t4", "\tretq"]);
    let without = lines(&["_ZN5crate3foo17hABCDEF0123456789E:", "\tnop", "\tretq"]);
    assert_eq!(extract(own("crate"), &with), extract(own("crate"), &without));
}

#[test]
fn symbol_line_restarts_the_pass() {
    let tail = ["_ZN5crate3bar17h0123456789abcdefE:", "\tnop", "\tretq"];
    let mut long = vec!["_ZN5crate3foo17hABCDEF0123456789E:", "\tpushq\t%rbp"];
    long.extend_from_slice(&tail);
    let full = extract(own("crate"), &lines(&long));
    let alone = extract(own("crate"), &lines(&tail));
    assert_eq!(&full[2..], &alone[..]);
}

#[test]
fn valid_pattern_compiles() {
    assert!(NamePattern::new("^crate::(foo|bar)$").is_ok());
    assert!(FilterCriteria::new(Some(".*"), "crate", false).is_ok());
}
