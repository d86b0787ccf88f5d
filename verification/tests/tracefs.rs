//! Where the tracepoint records keep what the daemon reads.

use cfc_daemon::ebpf::tracefs::{
    exec_filename_offset, exit_group_dead_offset, find_tracefs, parse_exec_filename_offset,
    parse_exit_group_dead_offset, Resolution, TracefsError,
};

const REAL: &str = "\
name: sched_process_exec
ID: 314
format:
\tfield:unsigned short common_type;\toffset:0;\tsize:2;\tsigned:0;
\tfield:unsigned char common_flags;\toffset:2;\tsize:1;\tsigned:0;
\tfield:unsigned char common_preempt_count;\toffset:3;\tsize:1;\tsigned:0;
\tfield:int common_pid;\toffset:4;\tsize:4;\tsigned:1;

\tfield:__data_loc char[] filename;\toffset:8;\tsize:4;\tsigned:0;
\tfield:pid_t pid;\toffset:12;\tsize:4;\tsigned:1;
\tfield:pid_t old_pid;\toffset:16;\tsize:4;\tsigned:1;

print fmt: \"filename=%s pid=%d old_pid=%d\", __get_str(filename), REC->pid, REC->old_pid
";

#[test]
fn parses_a_real_format_file() {
    assert_eq!(
        parse_exec_filename_offset(REAL).unwrap(),
        Resolution::Parsed(8)
    );
}

#[test]
fn follows_the_offset_when_the_header_grows() {
    let grown = REAL
        .replace(
            "\tfield:int common_pid;\toffset:4;\tsize:4;\tsigned:1;",
            "\tfield:int common_pid;\toffset:4;\tsize:4;\tsigned:1;\n\
             \tfield:int common_future;\toffset:8;\tsize:4;\tsigned:1;",
        )
        .replace(
            "char[] filename;\toffset:8;",
            "char[] filename;\toffset:12;",
        );
    assert_eq!(
        parse_exec_filename_offset(&grown).unwrap(),
        Resolution::Parsed(12)
    );
}

#[test]
fn keys_on_the_field_name_not_on_the_first_data_loc() {
    let with_earlier = REAL.replace(
        "\tfield:__data_loc char[] filename;\toffset:8;\tsize:4;\tsigned:0;",
        "\tfield:__data_loc char[] cgroup;\toffset:8;\tsize:4;\tsigned:0;\n\
         \tfield:__data_loc char[] filename;\toffset:12;\tsize:4;\tsigned:0;",
    );
    assert_eq!(
        parse_exec_filename_offset(&with_earlier).unwrap(),
        Resolution::Parsed(12)
    );
}

#[test]
fn rel_loc_is_unsupported_not_parsed() {
    let rel = REAL.replace("__data_loc char[] filename", "__rel_loc char[] filename");
    assert_eq!(
        parse_exec_filename_offset(&rel).unwrap(),
        Resolution::Unsupported
    );
}

#[test]
fn an_unexpected_width_is_unsupported() {
    let wide = REAL.replace(
        "char[] filename;\toffset:8;\tsize:4;",
        "char[] filename;\toffset:8;\tsize:8;",
    );
    assert_eq!(
        parse_exec_filename_offset(&wide).unwrap(),
        Resolution::Unsupported
    );
}

#[test]
fn a_missing_field_is_an_error_not_a_guess() {
    let without = REAL.replace(
        "\tfield:__data_loc char[] filename;\toffset:8;\tsize:4;\tsigned:0;\n",
        "",
    );
    assert!(matches!(
        parse_exec_filename_offset(&without),
        Err(TracefsError::NoSuchField)
    ));
}

#[test]
fn garbage_never_panics() {
    for text in [
        "",
        "field:",
        "field:;;;;",
        "field:__data_loc char[] filename;",
        "field:__data_loc char[] filename;\toffset:;\tsize:;",
        "field:__data_loc char[] filename;\toffset:notanumber;\tsize:4;",
        "\0\0\0\0",
        &"field:x;".repeat(10_000),
    ] {
        let _ = parse_exec_filename_offset(text);
    }
}

#[test]
fn does_not_match_a_field_whose_type_mentions_filename() {
    let decoy = REAL.replace(
        "\tfield:__data_loc char[] filename;\toffset:8;\tsize:4;\tsigned:0;",
        "\tfield:struct filename * something;\toffset:8;\tsize:8;\tsigned:0;\n\
         \tfield:__data_loc char[] filename;\toffset:16;\tsize:4;\tsigned:0;",
    );
    assert_eq!(
        parse_exec_filename_offset(&decoy).unwrap(),
        Resolution::Parsed(16)
    );
}

const REAL_EXIT: &str = "\
name: sched_process_exit
ID: 307
format:
\tfield:unsigned short common_type;\toffset:0;\tsize:2;\tsigned:0;
\tfield:int common_pid;\toffset:4;\tsize:4;\tsigned:1;

\tfield:char comm[16];\toffset:8;\tsize:16;\tsigned:0;
\tfield:pid_t pid;\toffset:24;\tsize:4;\tsigned:1;
\tfield:int prio;\toffset:28;\tsize:4;\tsigned:1;
\tfield:bool group_dead;\toffset:32;\tsize:1;\tsigned:0;
";

#[test]
fn finds_group_dead_in_a_real_record() {
    assert_eq!(parse_exit_group_dead_offset(REAL_EXIT), Some(32));
}

#[test]
fn absent_field_resolves_to_none() {
    let older = REAL_EXIT
        .lines()
        .filter(|l| !l.contains("group_dead"))
        .collect::<Vec<_>>()
        .join("\n");
    assert_eq!(parse_exit_group_dead_offset(&older), None);
}

#[test]
fn a_field_of_the_wrong_width_is_refused() {
    let odd = REAL_EXIT.replace("size:1;\tsigned:0;\n", "size:4;\tsigned:0;\n");
    assert_eq!(parse_exit_group_dead_offset(&odd), None);
}

#[test]
fn a_reordered_record_still_resolves_by_name() {
    let moved = REAL_EXIT.replace(
        "\tfield:bool group_dead;\toffset:32;\tsize:1;\tsigned:0;",
        "\tfield:int extra;\toffset:32;\tsize:4;\tsigned:1;\n\tfield:bool group_dead;\toffset:36;\tsize:1;\tsigned:0;",
    );
    assert_eq!(parse_exit_group_dead_offset(&moved), Some(36));
}

#[test]
fn an_exit_format_is_read_like_the_exec_one() {
    assert_eq!(
        exit_group_dead_offset(&Some(Ok(REAL_EXIT.to_string()))).unwrap(),
        Some(32)
    );
    assert!(matches!(
        exit_group_dead_offset(&None),
        Err(TracefsError::NotMounted)
    ));
    assert_eq!(
        exec_filename_offset(&Some(Ok(REAL.to_string()))).unwrap(),
        Resolution::Parsed(8)
    );
}

#[test]
fn the_errors_say_what_is_missing() {
    let e = exec_filename_offset(&None).unwrap_err();
    assert_eq!(
        e.message(),
        "no tracefs mount at /sys/kernel/tracing or /sys/kernel/debug/tracing"
    );
    let e = exec_filename_offset(&Some(Err("denied".to_string()))).unwrap_err();
    assert_eq!(e.message(), "reading the tracepoint format file: denied");
    let e = parse_exec_filename_offset("").unwrap_err();
    assert_eq!(e.message(), "the format file declares no `filename` field");
}

#[test]
fn the_first_populated_mount_is_taken() {
    assert_eq!(find_tracefs(true, true), Some("/sys/kernel/tracing"));
    assert_eq!(find_tracefs(false, true), Some("/sys/kernel/debug/tracing"));
    assert_eq!(find_tracefs(false, false), None);
}
