use runcove_desktop::archive::service::{
    archive_state, can_wait, has_reason_to_initialize, no_reader, setting_change, sweep_summary, unavailable_reason,
    CounterThrottle, PumpState, Refreshed, ReportDedupe, SettingChange, COUNTER_REFRESH_BYTES,
    COUNTER_REFRESH_INTERVAL_MS, NOTHING_ARCHIVED, UNCONFIGURED,
};
use runcove_desktop::discovery::{
    detect_package_manager, executable_name, ignored_directory, is_default_launch_script, launch_profiles,
    merged_workspace_patterns, script_priority, MAX_DISCOVERED_PROJECTS, MAX_SCANNED_DIRECTORIES, MAX_SCAN_DEPTH,
};
use runcove_desktop::pnpm_workspace::{
    parse_inline_yaml_list, parse_pnpm_workspace_patterns, parse_yaml_string, pattern_verdict, strip_yaml_comment,
    validate_workspace_pattern, workspace_pattern_items,
};

const SESSION_ONE: &str = "11111111-1111-4111-8111-111111111111";

#[test]
fn the_counter_refresh_is_thinned_by_time_and_by_bytes() {
    assert_eq!(COUNTER_REFRESH_INTERVAL_MS, 4_000);
    assert_eq!(COUNTER_REFRESH_BYTES, 1024 * 1024);
    let last = Refreshed { at: 10_000, byte_size: 100 };
    assert!(can_wait(last, 10_000, 100));
    assert!(can_wait(last, 13_999, 100 + COUNTER_REFRESH_BYTES - 1));
    assert!(!can_wait(last, 14_000, 100), "the interval has passed");
    assert!(!can_wait(last, 10_001, 100 + COUNTER_REFRESH_BYTES), "enough bytes arrived");
    assert!(!can_wait(last, 9_999, 100), "a clock that went backwards is not thinned");
    assert!(!can_wait(Refreshed { at: i64::MIN, byte_size: 0 }, i64::MAX, 0));
}

#[test]
fn a_sessions_first_refresh_goes_through_and_a_forgotten_one_starts_over() {
    let mut throttle = CounterThrottle::new();
    assert!(throttle.admits(SESSION_ONE, 1_000, 10), "the first refresh is never thinned");
    assert!(!throttle.admits(SESSION_ONE, 2_000, 20));
    assert!(throttle.admits(SESSION_ONE, 5_000, 30), "the interval passed");
    assert!(!throttle.admits(SESSION_ONE, 5_001, 40));
    assert!(throttle.admits("another", 5_001, 40), "each session has its own clock");
    throttle.forget(SESSION_ONE);
    assert!(throttle.admits(SESSION_ONE, 5_002, 50), "a forgotten session starts over");
    assert_eq!(throttle.refreshed.entries.len(), 2);
}

#[test]
fn a_repeated_failure_is_reported_once_and_news_gets_through() {
    let mut dedupe = ReportDedupe::new();
    assert_eq!(dedupe.pass_on("disk full".to_string()), Some("disk full".to_string()));
    assert_eq!(dedupe.pass_on("disk full".to_string()), None);
    assert_eq!(dedupe.pass_on("recovered".to_string()), Some("recovered".to_string()));
    assert_eq!(dedupe.pass_on("disk full".to_string()), Some("disk full".to_string()));
}

#[test]
fn the_pump_sleeps_only_when_nothing_was_signalled() {
    let idle = PumpState::idle();
    assert!(idle.should_wait());
    let (nudged, notify) = idle.nudged();
    assert!(notify);
    assert!(!nudged.should_wait());
    let (again, notify_again) = nudged.nudged();
    assert!(!notify_again, "an outstanding nudge is not repeated");
    assert_eq!(again, nudged);
    let (woken, last_round) = nudged.woken();
    assert!(!last_round);
    assert!(woken.should_wait());
    let stopping = woken.stopped();
    assert!(!stopping.should_wait());
    assert!(stopping.woken().1, "a stop makes the next round the last");
}

#[test]
fn availability_and_the_setting_are_reported_separately() {
    assert_eq!(unavailable_reason(true, false, &Some("x".into())), None);
    assert_eq!(unavailable_reason(false, false, &None), Some(UNCONFIGURED.to_string()));
    assert_eq!(unavailable_reason(false, true, &None), None);
    assert_eq!(unavailable_reason(false, true, &Some("locked".into())), Some("locked".to_string()));
    let state = archive_state(true, Some("locked".into()));
    assert!(state.enabled);
    assert!(!state.available);
    assert_eq!(state.unavailable_reason.as_deref(), Some("locked"));
    let fine = archive_state(false, None);
    assert!(!fine.enabled && fine.available && fine.unavailable_reason.is_none());
    assert!(has_reason_to_initialize(true, false));
    assert!(has_reason_to_initialize(false, true));
    assert!(!has_reason_to_initialize(false, false));
    assert_eq!(setting_change(true, false), SettingChange::Initialize);
    assert_eq!(setting_change(false, true), SettingChange::CloseOpenArchives);
    assert_eq!(setting_change(false, false), SettingChange::Nothing);
    assert_eq!(no_reader(None).message(), NOTHING_ARCHIVED);
    assert_eq!(no_reader(Some("locked".into())).message(), "locked");
}

#[test]
fn the_sweep_anomalies_reach_the_user_as_one_line() {
    assert_eq!(sweep_summary(&vec![]), None);
    assert_eq!(
        sweep_summary(&vec!["first.".into(), "second.".into()]),
        Some("Run log archive: first. second.".to_string())
    );
}

#[test]
fn a_scan_skips_dependency_and_build_directories_in_any_case() {
    assert_eq!((MAX_SCAN_DEPTH, MAX_SCANNED_DIRECTORIES, MAX_DISCOVERED_PROJECTS), (8, 10_000, 200));
    for name in ["node_modules", "NODE_MODULES", ".git", "Target", "dist", ".venv", "venv", ".pnpm-store"] {
        assert!(ignored_directory(name), "{name}");
    }
    for name in ["src", "packages", "node_module", "build2"] {
        assert!(!ignored_directory(name), "{name}");
    }
}

#[test]
fn the_package_manager_and_its_program_follow_the_lock_file_and_platform() {
    assert_eq!(detect_package_manager(true), "pnpm");
    assert_eq!(detect_package_manager(false), "npm");
    assert_eq!(executable_name("pnpm", true), "pnpm.cmd");
    assert_eq!(executable_name("npm", false), "npm");
}

#[test]
fn launch_scripts_come_in_the_documented_order() {
    assert_eq!(script_priority("dev"), (0, "dev".to_string()));
    assert_eq!(script_priority("preview"), (3, "preview".to_string()));
    assert_eq!(script_priority("lint"), (4, "lint".to_string()));
    assert!(is_default_launch_script("serve"));
    assert!(!is_default_launch_script("build"));

    let names = vec!["preview".to_string(), "build".into(), "start".into(), "dev".into()];
    let root = launch_profiles(&names, true, "suite", "pnpm", "/work/suite");
    let shown: Vec<&str> = root.iter().map(|p| p.name.as_str()).collect();
    assert_eq!(shown, vec!["dev", "start", "preview"]);
    assert_eq!(root[0].args, vec!["run".to_string(), "dev".to_string()]);
    assert_eq!(root[0].program, "pnpm");
    assert_eq!(root[0].cwd, "/work/suite");
    assert!(root[0].expected_ports.is_empty());
    assert!(!root[0].observed_runtime);

    let member = launch_profiles(&vec!["start".to_string()], false, "web", "npm", "/work/suite/web");
    assert_eq!(member[0].name, "web: start");
}

#[test]
fn workspace_patterns_are_merged_sorted_and_once_each() {
    let merged = merged_workspace_patterns(
        &vec!["packages/*".to_string(), "apps/*".into()],
        &vec!["packages/*".to_string(), "!packages/ignored".into()],
    );
    assert_eq!(merged, vec!["!packages/ignored", "apps/*", "packages/*"]);
}

#[test]
fn a_pnpm_workspace_block_list_reads_quotes_comments_and_exclusions() {
    let contents = "packages:\n  - 'packages/*' # single-quoted include\n  - 'packages/**/fixtures/*'\n  - \"services/*\" # double-quoted include\n  - '!packages/ignored' # excluded package\n  - '!**/fixtures/**'\n\ncatalog:\n  react: 19.0.0\n";
    let patterns = parse_pnpm_workspace_patterns(contents).expect("a valid workspace file");
    assert_eq!(
        patterns,
        vec!["!**/fixtures/**", "!packages/ignored", "packages/*", "packages/**/fixtures/*", "services/*"]
    );
    let (items, error) = workspace_pattern_items(contents);
    assert!(error.is_none());
    assert_eq!(items[0], ("packages/*".to_string(), 2));
    assert_eq!(items[2], ("services/*".to_string(), 4));
}

#[test]
fn a_pnpm_workspace_inline_list_reads_in_one_line() {
    let patterns = parse_pnpm_workspace_patterns("name: x\npackages: ['a/*', \"b/*\", c/*] # inline\n  - ignored\n")
        .expect("an inline list");
    assert_eq!(patterns, vec!["a/*", "b/*", "c/*"]);
    assert_eq!(parse_inline_yaml_list("[]", 1).unwrap(), Vec::<String>::new());
    assert_eq!(parse_inline_yaml_list("[ 'it''s', \"q\\\"x\" ]", 3).unwrap(), vec!["it's", "q\"x"]);
    assert_eq!(
        parse_inline_yaml_list("a, b", 4).unwrap_err().message(),
        "line 4 must use a block or inline list under 'packages:'"
    );
    assert_eq!(
        parse_inline_yaml_list("['a, b]", 5).unwrap_err().message(),
        "line 5 contains an unterminated quoted workspace pattern"
    );
    assert_eq!(
        parse_inline_yaml_list("[a, , b]", 6).unwrap_err().message(),
        "line 6 contains an empty workspace pattern"
    );
}

#[test]
fn a_pnpm_workspace_file_is_refused_with_the_line_that_is_wrong() {
    assert_eq!(
        parse_pnpm_workspace_patterns("packages:\n  - a/*\n  b/*\n").unwrap_err().message(),
        "line 3 must be a list item under 'packages:'"
    );
    assert_eq!(
        parse_pnpm_workspace_patterns("packages:\n  - ''\n").unwrap_err().message(),
        "line 2 contains an empty workspace pattern"
    );
    assert_eq!(
        parse_pnpm_workspace_patterns("packages:\n  - 'open\n").unwrap_err().message(),
        "line 2 contains an unterminated single-quoted pattern"
    );
    assert!(parse_pnpm_workspace_patterns("packages:\n  - \"bad\\q\"\n")
        .unwrap_err()
        .message()
        .starts_with("line 2 contains an invalid double-quoted pattern: "));
    assert_eq!(parse_pnpm_workspace_patterns("catalog:\n  a: b\n").unwrap(), Vec::<String>::new());
    assert_eq!(parse_pnpm_workspace_patterns("").unwrap(), Vec::<String>::new());
}

#[test]
fn a_comment_starts_only_outside_quotes_and_after_space() {
    assert_eq!(strip_yaml_comment("- a # note"), "- a ");
    assert_eq!(strip_yaml_comment("- a#b"), "- a#b");
    assert_eq!(strip_yaml_comment("- 'a # b' # c"), "- 'a # b' ");
    assert_eq!(strip_yaml_comment("- \"a \\\" # b\" # c"), "- \"a \\\" # b\" ");
    assert_eq!(strip_yaml_comment("# all"), "");
}

#[test]
fn a_scalar_reads_as_yaml_quotes_it() {
    assert_eq!(parse_yaml_string("plain/*", 1).unwrap(), "plain/*");
    assert_eq!(parse_yaml_string("'it''s'", 1).unwrap(), "it's");
    assert_eq!(parse_yaml_string("\"tab\\t\"", 1).unwrap(), "tab\t");
    assert_eq!(parse_yaml_string("", 7).unwrap_err().message(), "line 7 contains an empty workspace pattern");
    assert_eq!(
        parse_yaml_string("'", 8).unwrap_err().message(),
        "line 8 contains an unterminated single-quoted pattern"
    );
}

#[test]
fn a_workspace_pattern_must_name_something_inside_the_project() {
    assert!(validate_workspace_pattern("packages/*", 1).is_ok());
    assert!(validate_workspace_pattern("!packages/ignored", 1).is_ok());
    assert_eq!(
        validate_workspace_pattern("!", 2).unwrap_err().message(),
        "line 2 contains an empty workspace pattern"
    );
    assert_eq!(
        validate_workspace_pattern("../outside/*", 3).unwrap_err().message(),
        "line 3 workspace pattern must stay inside the project directory"
    );
    assert_eq!(
        validate_workspace_pattern("/abs/*", 4).unwrap_err().message(),
        "line 4 workspace pattern must stay inside the project directory"
    );
    assert!(validate_workspace_pattern("a/***", 5)
        .unwrap_err()
        .message()
        .starts_with("line 5 contains an invalid workspace pattern: "));
    assert!(pattern_verdict("x", 1, false, &None).is_ok());
    assert_eq!(
        pattern_verdict("x", 9, false, &Some("bad".into())).unwrap_err().message(),
        "line 9 contains an invalid workspace pattern: bad"
    );
}

#[test]
fn the_counter_refresh_is_thinned_by_time_and_by_bytes_per_session() {
    let session_two = "22222222-2222-4222-8222-222222222222";
    let mut throttle = CounterThrottle::new();
    let mut updates = 0;
    let mut update = |throttle: &mut CounterThrottle, session: &str, now: i64, byte_size: i64| {
        if throttle.admits(session, now, byte_size) {
            updates += 1;
        }
        updates
    };

    // A session's first refresh is never thinned.
    assert_eq!(update(&mut throttle, SESSION_ONE, 1_000, 10), 1);
    // Too soon and too few bytes: the row waits for the next batch.
    assert_eq!(update(&mut throttle, SESSION_ONE, 2_000, 20), 1);
    // A megabyte in the same instant goes through, and so does the next interval.
    assert_eq!(update(&mut throttle, SESSION_ONE, 2_000, 10 + COUNTER_REFRESH_BYTES), 2);
    assert_eq!(update(&mut throttle, SESSION_ONE, 2_000 + COUNTER_REFRESH_INTERVAL_MS, 10 + COUNTER_REFRESH_BYTES), 3);

    // A close is not a counter refresh, and it forgets the session.
    throttle.forget(SESSION_ONE);

    // Another session's first refresh is its own, however recently this one wrote.
    assert_eq!(update(&mut throttle, session_two, 3_000, 5), 4);

    // The closed session left nothing behind.
    assert_eq!(throttle.refreshed.len(), 1);
    assert!(throttle.refreshed.contains(session_two));
}
