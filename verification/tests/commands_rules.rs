use runcove_desktop::commands::saved_development_root;
use runcove_desktop::commands::{check_association, check_requested_listener};
use runcove_desktop::commands::{listener_matches_request, runnable_group};
use runcove_desktop::models::{ConnectionState, ExternalProcessRequest, LaunchGroup, PortEntry};
use runcove_desktop::error::{AppError, RelatedPort};
use runcove_desktop::commands::{check_project_change, removed_profile_ids, ProjectChange};
use runcove_desktop::commands::{
    finish_shutdown, normalized_path, parse_close_behavior, parse_language_preference, project_has_active_profile,
    restore_profiles, stop_group_profiles, validate_confirm_association_request,
};
use runcove_desktop::error::invalid;
use runcove_desktop::models::{
    AssociationSource, CloseBehavior, ConfirmAssociationRequest, LanguagePreference, LaunchGroupStopFailure,
    LaunchProfile, PortSnapshot, Project, RunStatus,
};

#[test]
fn language_preference_parser_rejects_unsupported_values_explicitly() {
    assert_eq!(parse_language_preference("system").unwrap(), LanguagePreference::System);
    assert_eq!(parse_language_preference("en").unwrap(), LanguagePreference::English);
    assert_eq!(parse_language_preference("zh-CN").unwrap(), LanguagePreference::SimplifiedChinese);
    let error = parse_language_preference("fr").unwrap_err();
    assert_eq!(
        error.message(),
        "Unsupported language preference 'fr'; expected system, en, or zh-CN"
    );
}

#[test]
fn close_behavior_parser_rejects_unsupported_values_explicitly() {
    assert_eq!(parse_close_behavior("ask").unwrap(), CloseBehavior::Ask);
    assert_eq!(parse_close_behavior("hideToTray").unwrap(), CloseBehavior::HideToTray);
    assert_eq!(parse_close_behavior("quit").unwrap(), CloseBehavior::Quit);
    let error = parse_close_behavior("close").unwrap_err();
    assert_eq!(
        error.message(),
        "Unsupported close behavior 'close'; expected ask, hideToTray, or quit"
    );
}

#[test]
fn active_project_cannot_be_mutated() {
    let project = Project {
        id: "project".into(),
        name: "Project".into(),
        path: ".".into(),
        profiles: vec![LaunchProfile {
            id: "running".into(),
            project_id: "project".into(),
            name: "dev".into(),
            program: "npm".into(),
            args: vec!["run".into(), "dev".into()],
            cwd: ".".into(),
            expected_ports: Vec::new(),
            status: RunStatus::Running,
            pid: Some(42),
        }],
        created_at: 0,
        updated_at: 0,
    };

    assert!(project_has_active_profile(&project, &vec!["running".into()]));
    assert!(!project_has_active_profile(&project, &vec!["other".into()]));
}

#[test]
fn path_identity_is_case_and_separator_insensitive_on_windows() {
    assert_eq!(normalized_path("C:/Code/App/"), normalized_path("c:\\code\\app"));
}

fn suggested_port_snapshot() -> PortSnapshot {
    PortSnapshot {
        port: 5_173,
        protocol: "tcp".into(),
        state: "LISTEN".into(),
        bind_address: Some("127.0.0.1".into()),
        is_public: false,
        active: true,
        pid: Some(42),
        process_name: Some("node.exe".into()),
        executable_path: Some(r"C:\Program Files\nodejs\node.exe".into()),
        command_line: Some("node server.js".into()),
        process_started_at: Some(1_000),
        last_seen_at: Some(2_000),
        project_id: Some("project".into()),
        profile_id: Some("profile".into()),
        association_source: Some(AssociationSource::Suggested),
    }
}

fn confirm_request() -> ConfirmAssociationRequest {
    ConfirmAssociationRequest {
        port: 5_173,
        protocol: "tcp".into(),
        project_id: "project".into(),
        profile_id: Some("profile".into()),
        pid: 42,
        started_at: 1_000,
        executable_path: r"C:\Program Files\nodejs\node.exe".into(),
    }
}

#[test]
fn association_confirmation_requires_the_current_suggested_identity() {
    let request = confirm_request();
    let port = suggested_port_snapshot();
    assert!(validate_confirm_association_request(&request, &vec![port.clone()]).is_ok());

    let mut stale_pid = port.clone();
    stale_pid.pid = Some(43);
    assert_eq!(
        validate_confirm_association_request(&request, &vec![stale_pid])
            .unwrap_err()
            .message(),
        "Observed port identity changed; refresh before confirming association"
    );

    let mut stale_process = port.clone();
    stale_process.process_started_at = Some(1_001);
    assert_eq!(
        validate_confirm_association_request(&request, &vec![stale_process])
            .unwrap_err()
            .message(),
        "Observed process identity changed; refresh before confirming association"
    );

    let mut changed_suggestion = port.clone();
    changed_suggestion.project_id = Some("other-project".into());
    assert_eq!(
        validate_confirm_association_request(&request, &vec![changed_suggestion])
            .unwrap_err()
            .message(),
        "Suggested project association changed; refresh before confirming it"
    );

    let mut no_longer_suggested = port;
    no_longer_suggested.association_source = Some(AssociationSource::Confirmed);
    assert_eq!(
        validate_confirm_association_request(&request, &vec![no_longer_suggested])
            .unwrap_err()
            .message(),
        "Suggested project association changed; refresh before confirming it"
    );
}

#[test]
fn shutdown_cleanup_runs_even_when_persistence_fails() {
    let stopped = std::cell::Cell::new(false);
    let result = finish_shutdown(Err(invalid("database failed".to_string())), || {
        stopped.set(true);
        Ok(())
    });
    assert!(result.is_err());
    assert!(stopped.get());
}

#[test]
fn restore_stops_failed_profile_and_keeps_only_ready_items() {
    let events = std::cell::RefCell::new(Vec::new());
    let result = restore_profiles(
        vec!["first".into(), "second".into(), "third".into()],
        |profile| {
            events.borrow_mut().push(format!("start:{profile}"));
            events.borrow_mut().push(format!("ready:{profile}"));
            if profile == "second" {
                events.borrow_mut().push(format!("stop:{profile}"));
                Err(invalid("port timeout".to_string()))
            } else {
                Ok(())
            }
        },
    );

    assert_eq!(result.started_profile_ids, vec!["first"]);
    assert_eq!(result.failed_profile_id.as_deref(), Some("second"));
    assert_eq!(result.related_port, None);
    assert_eq!(
        events.into_inner(),
        vec![
            "start:first",
            "ready:first",
            "start:second",
            "ready:second",
            "stop:second",
        ]
    );
}

#[test]
fn stopping_a_group_walks_it_backwards_and_reports_every_member_that_refused() {
    let visited = std::cell::RefCell::new(Vec::new());
    let (stopped, failures) = stop_group_profiles(
        &vec![
            "db".into(),
            "api".into(),
            "worker".into(),
            "web".into(),
            "proxy".into(),
        ],
        |profile| {
            visited.borrow_mut().push(profile.to_owned());
            match profile {
                "proxy" | "worker" => Err(invalid(format!("{profile} would not stop"))),
                "api" => Ok(false),
                _ => Ok(true),
            }
        },
    );

    assert_eq!(visited.into_inner(), ["proxy", "web", "worker", "api", "db"]);
    assert_eq!(stopped, ["web", "db"]);
    assert_eq!(
        failures,
        vec![
            LaunchGroupStopFailure {
                profile_id: "proxy".into(),
                error: "proxy would not stop".into(),
            },
            LaunchGroupStopFailure {
                profile_id: "worker".into(),
                error: "worker would not stop".into(),
            },
        ]
    );
}

#[test]
fn port_conflict_keeps_the_legacy_display_message_and_exposes_context() {
    let error = runcove_desktop::error::AppError::port_conflict(
        "Expected port 5173 is already occupied by node.exe".into(),
        5173,
        "tcp".into(),
    );
    assert_eq!(error.message(), "Expected port 5173 is already occupied by node.exe");
    assert_eq!(
        error.related_port(),
        Some(&runcove_desktop::error::RelatedPort { port: 5173, protocol: "tcp".into() })
    );
    assert_eq!(
        serde_json::to_string(&error.message()).unwrap(),
        "\"Expected port 5173 is already occupied by node.exe\""
    );
}

fn project_with(ids: &[&str]) -> Project {
    Project {
        id: "project".into(),
        name: "Project".into(),
        path: ".".into(),
        profiles: ids
            .iter()
            .map(|id| LaunchProfile {
                id: (*id).into(),
                project_id: "project".into(),
                name: (*id).into(),
                program: "npm".into(),
                args: vec!["run".into(), "dev".into()],
                cwd: ".".into(),
                expected_ports: Vec::new(),
                status: RunStatus::Idle,
                pid: None,
            })
            .collect(),
        created_at: 0,
        updated_at: 0,
    }
}

#[test]
fn a_project_changed_under_its_reservation_is_refused() {
    let current = project_with(&["web", "api"]);
    let reserved: Vec<String> = vec!["web".into()];
    assert_eq!(
        check_project_change(ProjectChange::Edit, &reserved, &current, &Vec::new()).unwrap_err().message(),
        "Project profiles changed; reload before editing"
    );
    let reordered: Vec<String> = vec!["api".into(), "web".into()];
    assert_eq!(
        check_project_change(ProjectChange::Delete, &reordered, &current, &Vec::new()).unwrap_err().message(),
        "Project profiles changed; reload before deleting"
    );
}

#[test]
fn a_project_with_a_running_profile_is_neither_edited_nor_deleted() {
    let current = project_with(&["web", "api"]);
    let reserved: Vec<String> = vec!["web".into(), "api".into()];
    let active: Vec<String> = vec!["api".into()];
    assert_eq!(
        check_project_change(ProjectChange::Edit, &reserved, &current, &active).unwrap_err().message(),
        "Stop every running profile in this project before editing it"
    );
    assert_eq!(
        check_project_change(ProjectChange::Delete, &reserved, &current, &active).unwrap_err().message(),
        "Stop every running profile in this project before deleting it"
    );
    assert!(check_project_change(ProjectChange::Edit, &reserved, &current, &vec!["other".into()]).is_ok());
}

#[test]
fn an_edit_clears_only_the_profiles_it_removed_in_their_order() {
    let before: Vec<String> = vec!["web".into(), "api".into(), "worker".into()];
    let after: Vec<String> = vec!["api".into(), "new".into()];
    assert_eq!(removed_profile_ids(&before, &after), vec!["web".to_string(), "worker".to_string()]);
    assert!(removed_profile_ids(&before, &before).is_empty());
}

#[test]
fn external_termination_listener_match_includes_port_protocol_and_pid() {
    let request = ExternalProcessRequest {
        port: 5_173,
        protocol: "tcp".into(),
        pid: 42,
        started_at: Some(1_000),
        executable_path: Some(r"C:\Program Files\nodejs\node.exe".into()),
    };
    let entry = PortEntry {
        port: 5_173,
        protocol: "TCP".into(),
        state: ConnectionState::Listen,
        pid: Some(42),
        process_name: Some("node.exe".into()),
    };

    assert!(listener_matches_request(&request, &vec![entry.clone()]));
    let mut stale_pid = request.clone();
    stale_pid.pid = 43;
    assert!(!listener_matches_request(&stale_pid, &vec![entry.clone()]));
    let mut stale_protocol = request;
    stale_protocol.protocol = "udp".into();
    assert!(!listener_matches_request(&stale_protocol, &vec![entry]));
}

#[test]
fn restore_result_preserves_structured_port_conflict_context() {
    let result = restore_profiles(vec!["first".into(), "second".into()], |profile: &str| {
        if profile == "second" {
            Err(AppError::port_conflict("Expected port 5173 is already occupied".into(), 5173, "tcp".into()))
        } else {
            Ok(())
        }
    });

    assert_eq!(result.started_profile_ids, vec!["first"]);
    assert_eq!(result.failed_profile_id.as_deref(), Some("second"));
    assert_eq!(result.related_port, Some(RelatedPort { port: 5173, protocol: "tcp".into() }));
    assert_eq!(result.error.as_deref(), Some("Expected port 5173 is already occupied"));
}

#[test]
fn a_group_the_profile_cascade_emptied_can_neither_be_started_nor_stopped() {
    let emptied = LaunchGroup { id: "group".into(), name: "Full stack".into(), profile_ids: Vec::new() };
    assert_eq!(
        runnable_group(Some(emptied)).unwrap_err().message(),
        "This launch group has no launch profiles"
    );
    assert_eq!(runnable_group(None).unwrap_err().message(), "Launch group not found");
}

#[test]
fn editing_project_clears_runtime_state_for_removed_profiles() {
    let before = project_with(&["retained", "removed"]);
    let after = project_with(&["retained"]);
    let before_ids: Vec<String> = before.profiles.iter().map(|profile| profile.id.clone()).collect();
    let after_ids: Vec<String> = after.profiles.iter().map(|profile| profile.id.clone()).collect();
    assert!(check_project_change(ProjectChange::Edit, &before_ids, &before, &Vec::new()).is_ok());
    assert_eq!(after.profiles.len(), 1);
    assert_eq!(removed_profile_ids(&before_ids, &after_ids), vec!["removed".to_string()]);
}

#[test]
fn rejected_association_confirmation_is_not_persisted() {
    let mut request = confirm_request();
    request.pid = 0;
    assert!(validate_confirm_association_request(&request, &vec![suggested_port_snapshot()]).is_err());
}

#[test]
fn a_termination_whose_listener_moved_is_refused_as_stale() {
    let request = ExternalProcessRequest {
        port: 5_173,
        protocol: "tcp".into(),
        pid: 42,
        started_at: Some(1_000),
        executable_path: None,
    };
    let held = PortEntry {
        port: 5_173,
        protocol: "TCP".into(),
        state: ConnectionState::Listen,
        pid: Some(42),
        process_name: None,
    };
    assert!(check_requested_listener(&request, &vec![held.clone()]).is_ok());
    let mut moved = held;
    moved.pid = Some(7);
    assert_eq!(
        check_requested_listener(&request, &vec![moved]).unwrap_err().message(),
        "Port ownership changed; refresh before terminating it"
    );
}

#[test]
fn an_association_is_never_confirmed_against_a_failed_scan() {
    let request = confirm_request();
    let ports = vec![suggested_port_snapshot()];
    assert_eq!(
        check_association(&request, &Some("access denied".into()), &ports).unwrap_err().message(),
        "Could not verify port association: access denied"
    );
    assert!(check_association(&request, &None, &ports).is_ok());
}

#[test]
fn saved_development_root_requires_and_returns_the_durable_setting() {
    assert_eq!(saved_development_root(None).unwrap_err().message(), "No development root has been saved yet");
    assert_eq!(saved_development_root(Some(r"C:\Code".into())).unwrap(), r"C:\Code");
}
