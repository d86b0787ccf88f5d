//! The mark in the nftables set.

use cfc_daemon::ebpf::nft_set::{
    argv, arm, arm_next, disarmed, locate_nft, mark_literal, redact, stderr_names_no_such_object,
    Absent, ArmError, ArmStep, Failed, Op,
};

const NO_TABLE_LIST: &str = "Error: No such file or directory\nlist set inet colony_firewall fast_allow\n              ^^^^^^^^^^^^^^^\n";
const NO_SET_FLUSH: &str = "Error: No such file or directory\nflush set inet colony_firewall fast_allow\n                               ^^^^^^^^^^\n";
const NO_SET_ADD: &str = "Error: No such file or directory\nadd element inet colony_firewall fast_allow { 0x1234abcd }\n                                 ^^^^^^^^^^\n";
const SYNTAX_ERROR: &str = "Error: syntax error, unexpected newline\nexpected any of: <string>, last\nlist set inet colony_firewall\n                             ^\n";
const NOT_PERMITTED: &str = "Error: Operation not permitted\nlist set inet colony_firewall fast_allow\n^^^^^^^^^^^^^^^^^^^^^^^^^^^^^^^^^^^^^^^^\n";

fn nft(stderr: &str) -> Failed {
    Failed::Nft { status: "exit status: 1".to_string(), stderr: stderr.to_string() }
}

#[test]
fn add_element_spells_the_mark_as_eight_hex_digits() {
    assert_eq!(
        argv(Op::AddElement(0x1234_abcd)),
        [
            "add",
            "element",
            "inet",
            "colony_firewall",
            "fast_allow",
            "{ 0x1234abcd }"
        ]
    );
    assert_eq!(argv(Op::AddElement(7)).last().unwrap(), "{ 0x00000007 }");
    assert_eq!(mark_literal(u32::MAX), "0xffffffff");
}

#[test]
fn every_set_command_names_the_snippets_table_and_set() {
    for op in [Op::ListSet, Op::AddElement(1), Op::FlushSet] {
        let argv = argv(op);
        assert_eq!(
            &argv[2..5],
            ["inet", "colony_firewall", "fast_allow"],
            "{op:?} does not address the snippet's set"
        );
    }
    assert_eq!(
        argv(Op::ListTable),
        ["list", "table", "inet", "colony_firewall"]
    );
}

#[test]
fn list_and_flush_use_the_verbs_nft_understands() {
    assert_eq!(
        argv(Op::ListSet),
        ["list", "set", "inet", "colony_firewall", "fast_allow"]
    );
    assert_eq!(
        argv(Op::FlushSet),
        ["flush", "set", "inet", "colony_firewall", "fast_allow"]
    );
}

#[test]
fn a_missing_table_and_a_missing_set_both_read_as_absent() {
    for stderr in [NO_TABLE_LIST, NO_SET_FLUSH, NO_SET_ADD] {
        assert!(
            stderr_names_no_such_object(stderr),
            "not classified as absent:\n{stderr}"
        );
        assert!(nft(stderr).is_no_such_object());
    }
}

#[test]
fn other_failures_do_not_read_as_absent() {
    for stderr in [SYNTAX_ERROR, NOT_PERMITTED, ""] {
        assert!(
            !stderr_names_no_such_object(stderr),
            "wrongly classified as absent:\n{stderr}"
        );
    }
    let failed = Failed::Run("No such file or directory".to_string());
    assert!(!failed.is_no_such_object());
}

#[test]
fn the_unarmed_value_is_refused_before_nft_runs() {
    match arm(0) {
        ArmStep::Failed(ArmError::Other(e)) => assert!(e.contains("0x00000000"), "{e}"),
        other => panic!("mark 0 must be refused: {other:?}"),
    }
}

#[test]
fn an_add_element_failure_never_names_the_mark() {
    let mark = 0x1234_abcd;
    let text = nft(NO_SET_ADD).into_error(Op::AddElement(mark));
    assert!(!text.contains("1234abcd"), "leaked: {text}");
    assert!(text.contains("<mark>"), "{text}");
    assert!(text.contains("exit status: 1"), "{text}");

    let failed = Failed::Run("spawning /usr/sbin/nft: permission denied".to_string());
    let text = failed.into_error(Op::AddElement(mark));
    assert!(!text.contains("1234abcd"), "leaked: {text}");
    assert!(text.contains("<mark>"), "{text}");
}

#[test]
fn a_mark_that_overlaps_itself_is_taken_out() {
    let op = Op::AddElement(0);
    let clean = redact(op, "0x00000000x00000000 0x000000000");
    assert_eq!(clean, "<mark>x00000000 <mark>0");
    assert_eq!(redact(Op::FlushSet, "0x00000000"), "0x00000000");
}

#[test]
fn absent_names_its_fix_and_survives_the_error_chain() {
    let set = Absent::MarkSet.message();
    assert!(set.contains("nftables-snippet.conf"), "{set}");
    assert!(set.contains("colony-firewall-nft.service"), "{set}");
    let table = Absent::Table.message();
    assert!(table.contains("not loaded"), "{table}");
    assert!(table.contains("colony-firewall-nft.service"), "{table}");

    match arm_next(Op::ListTable, 7, &Err(nft(NO_TABLE_LIST))) {
        ArmStep::Failed(ArmError::Absent(a)) => assert_eq!(a, Absent::Table),
        other => panic!("what is missing is told apart: {other:?}"),
    }
}

#[test]
fn arming_looks_before_it_adds() {
    assert!(matches!(arm(7), ArmStep::Run(Op::ListSet)));
    assert!(matches!(arm_next(Op::ListSet, 7, &Ok(())), ArmStep::Run(Op::AddElement(7))));
    assert!(matches!(arm_next(Op::AddElement(7), 7, &Ok(())), ArmStep::Armed));
    assert!(matches!(
        arm_next(Op::ListSet, 7, &Err(nft(NO_TABLE_LIST))),
        ArmStep::Run(Op::ListTable)
    ));
    assert!(matches!(
        arm_next(Op::ListTable, 7, &Ok(())),
        ArmStep::Failed(ArmError::Absent(Absent::MarkSet))
    ));
    match arm_next(Op::ListSet, 7, &Err(nft(NOT_PERMITTED))) {
        ArmStep::Failed(ArmError::Other(e)) => assert!(
            e.starts_with(
                "nft list set inet colony_firewall fast_allow failed (exit status: 1): Error: Operation not permitted"
            ),
            "{e}"
        ),
        other => panic!("a refusal is an error: {other:?}"),
    }
}

#[test]
fn a_missing_set_is_as_good_as_an_empty_one() {
    assert!(disarmed(&Ok(())).is_ok());
    assert!(disarmed(&Err(nft(NO_SET_FLUSH))).is_ok());
    let e = disarmed(&Err(Failed::Run("nft is stuck".to_string()))).unwrap_err();
    assert_eq!(
        e,
        "running nft flush set inet colony_firewall fast_allow: nft is stuck"
    );
}

#[test]
fn nft_is_taken_from_a_fixed_place() {
    assert_eq!(locate_nft(true, true).unwrap(), "/usr/sbin/nft");
    assert_eq!(locate_nft(false, true).unwrap(), "/usr/bin/nft");
    assert!(locate_nft(false, false).unwrap_err().contains("requires nftables"));
}
