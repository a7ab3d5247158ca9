use git_bridge::error::GitError;
use git_bridge::response::finish_response;
use git_bridge::summary::{advance, next_request, parse_counts, summary_start, SummaryState};
use git_bridge::text::{parse_u64, strip_origin_prefix, trim_trailing};
use git_bridge::timestamp::{civil_time_of, format_utc_timestamp, CivilTime};

fn bytes(s: &str) -> Vec<u8> {
    s.as_bytes().to_vec()
}

#[test]
fn exit_code_passthrough() {
    for code in [0i32, 1, 2, 128] {
        let r = finish_response(bytes("out"), bytes("err"), Some(code));
        let resp = r.expect("a numeric exit code yields a response");
        assert_eq!(resp.status, code);
        assert_eq!(resp.stdout, "out");
        assert_eq!(resp.stderr, "err");
    }
}

#[test]
fn abnormal_termination_is_distinct() {
    let r = finish_response(bytes("partial"), bytes(""), None);
    let e = r.expect_err("no exit code is never a zero status");
    assert!(matches!(e, GitError::AbnormalTermination { .. }));
    assert_eq!(e.kind(), "abnormal termination");
}

#[test]
fn output_decoding_is_lossy() {
    let mut out = bytes("tr");
    out.push(0xff);
    out.push(0xfe);
    let r = finish_response(out, Vec::new(), Some(0)).unwrap();
    assert_eq!(r.stdout, "tr\u{fffd}\u{fffd}");
    assert_eq!(r.stderr, "");
}

#[test]
fn rev_parse_style_output_survives() {
    let r = finish_response(bytes("true\n"), bytes(""), Some(0)).unwrap();
    assert_eq!(r.stdout, "true\n");
    assert_eq!(r.stderr, "");
    assert_eq!(r.status, 0);
}

#[test]
fn error_kinds_and_messages() {
    let e = GitError::SpawnFailure { message: String::from("no such directory") };
    assert_eq!(e.kind(), "spawn failure");
    assert_eq!(e.message().as_str(), "no such directory");
    let e = GitError::IoFailure { message: String::from("broken pipe") };
    assert_eq!(e.kind(), "io failure");
    let e = GitError::ParseFailure { message: String::from("bad count") };
    assert_eq!(e.kind(), "parse failure");
    let e = GitError::ConfigurationError { message: String::from("no origin") };
    assert_eq!(e.kind(), "configuration error");
}

#[test]
fn trim_trailing_strips_line_endings() {
    assert_eq!(trim_trailing(&bytes("main\n")), bytes("main"));
    assert_eq!(trim_trailing(&bytes("main\r\n")), bytes("main"));
    assert_eq!(trim_trailing(&bytes("main \t\n")), bytes("main"));
    assert_eq!(trim_trailing(&bytes("  main")), bytes("  main"));
    assert_eq!(trim_trailing(&bytes("\n\n")), bytes(""));
    assert_eq!(trim_trailing(&bytes("")), bytes(""));
}

#[test]
fn parse_u64_reads_decimal() {
    assert_eq!(parse_u64(&bytes("0")), Some(0));
    assert_eq!(parse_u64(&bytes("42")), Some(42));
    assert_eq!(parse_u64(&bytes("18446744073709551615")), Some(u64::MAX));
    assert_eq!(parse_u64(&bytes("18446744073709551616")), None);
    assert_eq!(parse_u64(&bytes("")), None);
    assert_eq!(parse_u64(&bytes("12a")), None);
    assert_eq!(parse_u64(&bytes("-1")), None);
}

#[test]
fn strip_origin_prefix_cases() {
    assert_eq!(strip_origin_prefix(&bytes("origin/main")), Some(bytes("main")));
    assert_eq!(strip_origin_prefix(&bytes("origin/feature/x")), Some(bytes("feature/x")));
    assert_eq!(strip_origin_prefix(&bytes("main")), None);
    assert_eq!(strip_origin_prefix(&bytes("origin/")), None);
    assert_eq!(strip_origin_prefix(&bytes("")), None);
}

#[test]
fn counts_parse_exact() {
    assert_eq!(parse_counts(&bytes("5\t2\n")).unwrap(), (5, 2));
    assert_eq!(parse_counts(&bytes("0\t0")).unwrap(), (0, 0));
    assert_eq!(parse_counts(&bytes("10000\t1\r\n")).unwrap(), (10000, 1));
}

#[test]
fn counts_parse_failures() {
    for bad in ["", "\n", "52", "5 2", "5\t", "\t2", "a\t2", "5\tb", "5\t2\t3"] {
        let e = parse_counts(&bytes(bad)).expect_err(bad);
        assert!(matches!(e, GitError::ParseFailure { .. }));
        assert_eq!(e.kind(), "parse failure");
    }
}

#[test]
fn summary_happy_path() {
    let now: u64 = 1234567890;
    let state = summary_start();
    let args = next_request(&state).expect("head request");
    assert_eq!(args, ["symbolic-ref", "--short", "refs/remotes/origin/HEAD"]);

    let state = advance(state, bytes("origin/main\n"), now);
    let args = next_request(&state).expect("url request");
    assert_eq!(args, ["remote", "get-url", "origin"]);

    let state = advance(state, bytes("git@host:org/proj.git\n"), now);
    let args = next_request(&state).expect("counts request");
    assert_eq!(args, ["rev-list", "--left-right", "--count", "origin/main...main"]);

    let state = advance(state, bytes("5\t2\n"), now);
    assert!(next_request(&state).is_none());
    match state {
        SummaryState::Finished { summary } => {
            assert_eq!(summary.branch_name, "origin/main");
            assert_eq!(summary.remote_url, "git@host:org/proj.git");
            assert_eq!(summary.behind, 5);
            assert_eq!(summary.ahead, 2);
            assert_eq!(summary.last_fetched, "2009-02-13 23:31:30 UTC");
        },
        other => panic!("expected a finished summary, got {:?}", other),
    }
}

#[test]
fn summary_empty_head_is_configuration_error() {
    let state = advance(summary_start(), bytes(""), 0);
    match state {
        SummaryState::Failed { error } => {
            assert!(matches!(error, GitError::ConfigurationError { .. }));
            assert_eq!(error.kind(), "configuration error");
        },
        other => panic!("expected a failure, got {:?}", other),
    }
}

#[test]
fn summary_head_without_origin_prefix_is_configuration_error() {
    let state = advance(summary_start(), bytes("main\n"), 0);
    assert!(matches!(
        state,
        SummaryState::Failed { error: GitError::ConfigurationError { .. } }
    ));
}

#[test]
fn summary_bad_counts_is_parse_failure() {
    let state = advance(summary_start(), bytes("origin/main\n"), 0);
    let state = advance(state, bytes("url\n"), 0);
    let state = advance(state, bytes("fatal: bad revision\n"), 0);
    assert!(matches!(state, SummaryState::Failed { error: GitError::ParseFailure { .. } }));
}

#[test]
fn summary_terminal_states_absorb() {
    let failed = advance(summary_start(), bytes(""), 0);
    let again = advance(failed.clone(), bytes("origin/main\n"), 0);
    assert_eq!(failed, again);
    assert!(next_request(&again).is_none());
}

#[test]
fn timestamp_epoch() {
    assert_eq!(format_utc_timestamp(0), "1970-01-01 00:00:00 UTC");
    assert_eq!(format_utc_timestamp(86399), "1970-01-01 23:59:59 UTC");
}

#[test]
fn timestamp_known_moments() {
    assert_eq!(format_utc_timestamp(1234567890), "2009-02-13 23:31:30 UTC");
    assert_eq!(format_utc_timestamp(1582938123), "2020-02-29 01:02:03 UTC");
    assert_eq!(format_utc_timestamp(951782400), "2000-02-29 00:00:00 UTC");
    assert_eq!(format_utc_timestamp(4107542400), "2100-03-01 00:00:00 UTC");
    assert_eq!(format_utc_timestamp(68169537600), "4130-03-17 06:40:00 UTC");
}

#[test]
fn civil_time_fields() {
    let t = civil_time_of(1582938123);
    assert_eq!(
        t,
        CivilTime { year: 2020, month: 2, day: 29, hour: 1, minute: 2, second: 3 }
    );
}
