use zshrcman::error::ErrorKind;
use zshrcman::models::{Config, InstallScope, Timestamp};
use zshrcman::modules::config::ConfigManager;
use zshrcman::modules::environment::{EnvironmentManager, ProcessEnvironment, ShellType};
use zshrcman::modules::profile_switcher::{
    ProfileSwitcher, Stage, StepOutcome, TransitionAction, TransitionKind,
};
use zshrcman::modules::state_manager::InstallationStateManager;

const WORK_BIN: &str = "/home/u/.local/share/zshrcman/profiles/work/bin";
const PERSONAL_BIN: &str = "/home/u/.local/share/zshrcman/profiles/personal/bin";

fn now() -> Timestamp {
    Timestamp { secs: 1_700_000_000, nanos: 0 }
}

fn switcher() -> ProfileSwitcher {
    let mut m = InstallationStateManager::new(ConfigManager::new(Config::default()));
    m.create_profile("work", None).unwrap();
    m.create_profile("personal", None).unwrap();
    {
        let work = m.profiles.get_mut("work").unwrap();
        work.environment.paths_prepend.push("~/w/bin".to_string());
        work.environment.variables.insert("W".to_string(), "1".to_string());
    }
    m.switch_profile("work").unwrap();
    m.smart_install("jq", InstallScope::Profile, now()).unwrap();
    m.smart_install("fd", InstallScope::Profile, now()).unwrap();
    m.smart_install("rg", InstallScope::Profile, now()).unwrap();
    m.installations.get_mut("jq").unwrap().location = Some("/opt/jq/bin/jq".to_string());
    m.installations.get_mut("rg").unwrap().location = Some("/opt/rg".to_string());
    m.handle_removal("rg", zshrcman::models::RemovalStrategy::Deactivate).unwrap();
    m.active_profile = None;
    m.config_mgr.mark_saved();
    ProfileSwitcher::new(m, EnvironmentManager::with_shell(ShellType::Zsh))
}

fn host() -> ProcessEnvironment {
    let mut p = ProcessEnvironment::new();
    p.set("HOME", "/home/u");
    p.set("PATH", "/usr/bin");
    p
}

fn var(p: &ProcessEnvironment, name: &str) -> Option<String> {
    p.get(name).cloned()
}

#[test]
fn switch_without_old_profile_takes_four_requests() {
    let mut sw = switcher();
    let mut p = host();
    let mut t = sw.switch_profile("work");
    assert_eq!(t.kind, TransitionKind::Switch);
    assert_eq!(t.stage, Stage::Start);

    match sw.advance(&mut t, &mut p, StepOutcome::Completed).unwrap() {
        TransitionAction::Persist => {}
        other => panic!("unexpected {:?}", other),
    }
    assert_eq!(t.stage, Stage::PointerUpdated);
    assert_eq!(sw.state_mgr.active_profile, Some("work".to_string()));
    assert!(sw.state_mgr.config_mgr.needs_save());
    assert_eq!(sw.state_mgr.config_mgr.config.active_profile, Some("work".to_string()));
    assert_eq!(var(&p, "PATH"), Some("/usr/bin".to_string()));

    match sw.advance(&mut t, &mut p, StepOutcome::Completed).unwrap() {
        TransitionAction::LinkBinaries { profile, directory, links } => {
            assert_eq!(profile, "work");
            assert_eq!(directory, WORK_BIN);
            assert_eq!(links.len(), 1);
            assert_eq!(links[0].name, "jq");
            assert_eq!(links[0].target, "/opt/jq/bin/jq");
        }
        other => panic!("unexpected {:?}", other),
    }
    assert_eq!(t.stage, Stage::Linking);
    assert_eq!(var(&p, "PATH"), Some(format!("{}:/home/u/w/bin:/usr/bin", WORK_BIN)));
    assert_eq!(var(&p, "W"), Some("1".to_string()));

    match sw.advance(&mut t, &mut p, StepOutcome::Completed).unwrap() {
        TransitionAction::WriteMarker { profile } => assert_eq!(profile, "work"),
        other => panic!("unexpected {:?}", other),
    }
    assert_eq!(t.stage, Stage::Marking);

    match sw.advance(&mut t, &mut p, StepOutcome::Completed).unwrap() {
        TransitionAction::Finished => {}
        other => panic!("unexpected {:?}", other),
    }
    assert_eq!(t.stage, Stage::Done);
    match sw.advance(&mut t, &mut p, StepOutcome::Completed).unwrap() {
        TransitionAction::Finished => {}
        other => panic!("unexpected {:?}", other),
    }
    assert_eq!(t.stage, Stage::Done);
}

#[test]
fn switch_from_an_active_profile_leaves_it_first() {
    let mut sw = switcher();
    let mut p = host();
    let mut t = sw.switch_profile("work");
    for _ in 0..4 {
        sw.advance(&mut t, &mut p, StepOutcome::Completed).unwrap();
    }
    assert_eq!(t.stage, Stage::Done);

    let mut t = sw.switch_profile("personal");
    match sw.advance(&mut t, &mut p, StepOutcome::Completed).unwrap() {
        TransitionAction::ClearBinaries { profile, directory } => {
            assert_eq!(profile, "work");
            assert_eq!(directory, WORK_BIN);
        }
        other => panic!("unexpected {:?}", other),
    }
    assert_eq!(t.stage, Stage::OldReversed);
    assert_eq!(var(&p, "PATH"), Some("/usr/bin".to_string()));
    assert_eq!(var(&p, "W"), None);
    assert_eq!(sw.state_mgr.active_profile, Some("work".to_string()));

    match sw.advance(&mut t, &mut p, StepOutcome::Completed).unwrap() {
        TransitionAction::Persist => {}
        other => panic!("unexpected {:?}", other),
    }
    assert_eq!(sw.state_mgr.active_profile, Some("personal".to_string()));

    match sw.advance(&mut t, &mut p, StepOutcome::Completed).unwrap() {
        TransitionAction::LinkBinaries { profile, directory, links } => {
            assert_eq!(profile, "personal");
            assert_eq!(directory, PERSONAL_BIN);
            assert!(links.is_empty());
        }
        other => panic!("unexpected {:?}", other),
    }
    assert_eq!(var(&p, "PATH"), Some(format!("{}:/usr/bin", PERSONAL_BIN)));
    match sw.advance(&mut t, &mut p, StepOutcome::Completed).unwrap() {
        TransitionAction::WriteMarker { profile } => assert_eq!(profile, "personal"),
        other => panic!("unexpected {:?}", other),
    }
    sw.advance(&mut t, &mut p, StepOutcome::Completed).unwrap();
    assert_eq!(t.stage, Stage::Done);
}

#[test]
fn a_failed_step_aborts_without_rollback() {
    let mut sw = switcher();
    let mut p = host();
    let mut t = sw.switch_profile("work");
    sw.advance(&mut t, &mut p, StepOutcome::Completed).unwrap();
    assert_eq!(t.stage, Stage::PointerUpdated);
    match sw.advance(&mut t, &mut p, StepOutcome::Failed).unwrap() {
        TransitionAction::Finished => {}
        other => panic!("unexpected {:?}", other),
    }
    assert_eq!(t.stage, Stage::Aborted);
    // the pointer keeps its new value, the environment was never brought in
    assert_eq!(sw.state_mgr.active_profile, Some("work".to_string()));
    assert_eq!(var(&p, "PATH"), Some("/usr/bin".to_string()));
    assert_eq!(var(&p, "W"), None);
    match sw.advance(&mut t, &mut p, StepOutcome::Completed).unwrap() {
        TransitionAction::Finished => {}
        other => panic!("unexpected {:?}", other),
    }
    assert_eq!(t.stage, Stage::Aborted);
}

#[test]
fn switch_to_unknown_profile_aborts_with_not_found() {
    let mut sw = switcher();
    let mut p = host();
    let mut t = sw.switch_profile("nope");
    let err = sw.advance(&mut t, &mut p, StepOutcome::Completed).unwrap_err();
    assert_eq!(err.kind(), ErrorKind::NotFound);
    assert_eq!(err.message(), "not found: Profile 'nope' does not exist");
    assert_eq!(t.stage, Stage::Aborted);
    assert_eq!(sw.state_mgr.active_profile, None);
    assert!(!sw.state_mgr.config_mgr.needs_save());
}

#[test]
fn activation_takes_the_last_three_steps() {
    let mut sw = switcher();
    let mut p = host();
    let mut t = sw.activate_profile("work");
    assert_eq!(t.kind, TransitionKind::Activate);
    match sw.advance(&mut t, &mut p, StepOutcome::Completed).unwrap() {
        TransitionAction::LinkBinaries { profile, directory, links } => {
            assert_eq!(profile, "work");
            assert_eq!(directory, WORK_BIN);
            assert_eq!(links.len(), 1);
        }
        other => panic!("unexpected {:?}", other),
    }
    // the pointer is not touched by an activation
    assert_eq!(sw.state_mgr.active_profile, None);
    assert_eq!(var(&p, "W"), Some("1".to_string()));
    match sw.advance(&mut t, &mut p, StepOutcome::Completed).unwrap() {
        TransitionAction::WriteMarker { profile } => assert_eq!(profile, "work"),
        other => panic!("unexpected {:?}", other),
    }
    match sw.advance(&mut t, &mut p, StepOutcome::Completed).unwrap() {
        TransitionAction::Finished => {}
        other => panic!("unexpected {:?}", other),
    }
    assert_eq!(t.stage, Stage::Done);
}

#[test]
fn deactivation_leaves_and_clears_the_pointer() {
    let mut sw = switcher();
    let mut p = host();
    let mut t = sw.switch_profile("work");
    for _ in 0..4 {
        sw.advance(&mut t, &mut p, StepOutcome::Completed).unwrap();
    }
    sw.state_mgr.config_mgr.mark_saved();

    let mut t = sw.deactivate_current();
    assert_eq!(t.kind, TransitionKind::Deactivate);
    match sw.advance(&mut t, &mut p, StepOutcome::Completed).unwrap() {
        TransitionAction::ClearBinaries { profile, directory } => {
            assert_eq!(profile, "work");
            assert_eq!(directory, WORK_BIN);
        }
        other => panic!("unexpected {:?}", other),
    }
    assert_eq!(t.stage, Stage::Clearing);
    assert_eq!(var(&p, "PATH"), Some("/usr/bin".to_string()));
    assert_eq!(sw.state_mgr.active_profile, Some("work".to_string()));
    assert!(!sw.state_mgr.config_mgr.needs_save());
    match sw.advance(&mut t, &mut p, StepOutcome::Completed).unwrap() {
        TransitionAction::Persist => {}
        other => panic!("unexpected {:?}", other),
    }
    assert_eq!(t.stage, Stage::PointerCleared);
    assert_eq!(sw.state_mgr.active_profile, None);
    // the cleared pointer is handed over for writing like every other change
    assert!(sw.state_mgr.config_mgr.needs_save());
    assert_eq!(sw.state_mgr.config_mgr.config.active_profile, None);
    match sw.advance(&mut t, &mut p, StepOutcome::Completed).unwrap() {
        TransitionAction::Finished => {}
        other => panic!("unexpected {:?}", other),
    }
    assert_eq!(t.stage, Stage::Done);
    assert_eq!(sw.state_mgr.active_profile, None);
}

#[test]
fn deactivation_whose_clearing_fails_keeps_the_pointer() {
    let mut sw = switcher();
    let mut p = host();
    let mut t = sw.switch_profile("work");
    for _ in 0..4 {
        sw.advance(&mut t, &mut p, StepOutcome::Completed).unwrap();
    }
    let mut t = sw.deactivate_current();
    sw.advance(&mut t, &mut p, StepOutcome::Completed).unwrap();
    match sw.advance(&mut t, &mut p, StepOutcome::Failed).unwrap() {
        TransitionAction::Finished => {}
        other => panic!("unexpected {:?}", other),
    }
    assert_eq!(t.stage, Stage::Aborted);
    assert_eq!(sw.state_mgr.active_profile, Some("work".to_string()));
}

#[test]
fn deactivation_without_active_profile_is_over_at_once() {
    let mut sw = switcher();
    let mut p = host();
    let mut t = sw.deactivate_current();
    match sw.advance(&mut t, &mut p, StepOutcome::Completed).unwrap() {
        TransitionAction::Finished => {}
        other => panic!("unexpected {:?}", other),
    }
    assert_eq!(t.stage, Stage::Done);
    assert_eq!(var(&p, "PATH"), Some("/usr/bin".to_string()));
    assert_eq!(sw.state_mgr.active_profile, None);
    assert!(!sw.state_mgr.config_mgr.needs_save());
}

#[test]
fn steps_that_need_home_fail_without_it() {
    let mut sw = switcher();
    let mut p = ProcessEnvironment::new();
    p.set("PATH", "/usr/bin");
    let mut t = sw.activate_profile("personal");
    let err = sw.advance(&mut t, &mut p, StepOutcome::Completed).unwrap_err();
    assert_eq!(err.kind(), ErrorKind::IoFailure);
    assert_eq!(err.message(), "I/O failure: HOME not set");
    assert_eq!(t.stage, Stage::Aborted);
}

#[test]
fn links_mirror_packages_with_a_location() {
    let sw = switcher();
    let links = sw.update_active_binaries("work");
    assert_eq!(links.len(), 1);
    assert_eq!(links[0].name, "jq");
    assert_eq!(links[0].target, "/opt/jq/bin/jq");
    assert!(sw.update_active_binaries("personal").is_empty());
    assert!(sw.update_active_binaries("missing").is_empty());
}

#[test]
fn marker_is_replaced_and_moved_to_the_end() {
    let sw = switcher();
    assert_eq!(sw.update_shell_config("", "work"), "# ZSHRCMAN_PROFILE: work\n");
    assert_eq!(sw.update_shell_config("abc", "work"), "abc\n# ZSHRCMAN_PROFILE: work\n");
    assert_eq!(
        sw.update_shell_config("export A=1\n# ZSHRCMAN_PROFILE: old\nalias x=y\n", "work"),
        "export A=1\nalias x=y\n# ZSHRCMAN_PROFILE: work\n"
    );
    assert_eq!(
        sw.update_shell_config("# ZSHRCMAN_PROFILE: old\n", "work"),
        "# ZSHRCMAN_PROFILE: work\n"
    );
    assert_eq!(
        sw.update_shell_config("# ZSHRCMAN_PROFILE: a\nx\n# ZSHRCMAN_PROFILE: b\n", "w"),
        "x\n# ZSHRCMAN_PROFILE: b\n# ZSHRCMAN_PROFILE: w\n"
    );
    assert_eq!(
        sw.update_shell_config("caf\u{e9}\n# ZSHRCMAN_PROFILE: old\n\u{1f600}", "work"),
        "caf\u{e9}\n\u{1f600}\n# ZSHRCMAN_PROFILE: work\n"
    );
}

#[test]
fn marker_text_inside_a_line_is_left_alone() {
    let sw = switcher();
    assert_eq!(
        sw.update_shell_config("echo # ZSHRCMAN_PROFILE: x\n", "work"),
        "echo # ZSHRCMAN_PROFILE: x\n# ZSHRCMAN_PROFILE: work\n"
    );
}

#[test]
fn marker_line_without_line_break_is_removed_too() {
    let sw = switcher();
    assert_eq!(
        sw.update_shell_config("a\n# ZSHRCMAN_PROFILE: old", "work"),
        "a\n# ZSHRCMAN_PROFILE: work\n"
    );
    assert_eq!(
        sw.update_shell_config("# ZSHRCMAN_PROFILE: old", "new"),
        "# ZSHRCMAN_PROFILE: new\n"
    );
    assert_eq!(
        sw.update_shell_config("a\nb\n# ZSHRCMAN_PROFILE:", "new"),
        "a\nb\n# ZSHRCMAN_PROFILE: new\n"
    );
}

#[test]
fn updating_the_marker_twice_leaves_one_marker() {
    let sw = switcher();
    let once = sw.update_shell_config("export A=1\nalias x=y", "work");
    assert_eq!(once, "export A=1\nalias x=y\n# ZSHRCMAN_PROFILE: work\n");
    let twice = sw.update_shell_config(&once, "personal");
    assert_eq!(twice, "export A=1\nalias x=y\n# ZSHRCMAN_PROFILE: personal\n");
    assert_eq!(twice.matches("# ZSHRCMAN_PROFILE:").count(), 1);
}

#[test]
fn marker_file_follows_the_login_shell() {
    let sw = switcher();
    assert_eq!(sw.get_shell_config_path("/bin/zsh"), ".zshrc");
    assert_eq!(sw.get_shell_config_path("/bin/bash"), ".bashrc");
    assert_eq!(sw.get_shell_config_path("/usr/bin/fish"), ".config/fish/config.fish");
    assert_eq!(sw.get_shell_config_path("/bin/dash"), ".profile");
}

#[test]
fn binary_directory_and_path_edits() {
    let sw = switcher();
    let mut p = host();
    assert_eq!(sw.get_profile_bin_dir("work", &p).unwrap(), WORK_BIN);
    sw.add_to_path("/x", &mut p).unwrap();
    sw.add_to_path("/x", &mut p).unwrap();
    assert_eq!(var(&p, "PATH"), Some("/x:/usr/bin".to_string()));
    // a path that is only part of an entry is not an entry
    sw.add_to_path("/usr", &mut p).unwrap();
    assert_eq!(var(&p, "PATH"), Some("/usr:/x:/usr/bin".to_string()));
    sw.remove_from_path("/usr", &mut p).unwrap();
    assert_eq!(var(&p, "PATH"), Some("/x:/usr/bin".to_string()));
    sw.remove_from_path("/x", &mut p).unwrap();
    assert_eq!(var(&p, "PATH"), Some("/usr/bin".to_string()));
    let none = ProcessEnvironment::new();
    assert_eq!(sw.get_profile_bin_dir("work", &none).unwrap_err().kind(), ErrorKind::IoFailure);
}
