use zshrcman::error::ErrorKind;
use zshrcman::models::{
    Config, InstallScope, InstallationSource, RemovalStrategy, Timestamp,
};
use zshrcman::modules::config::ConfigManager;
use zshrcman::modules::state_manager::InstallationStateManager;

fn now() -> Timestamp {
    Timestamp { secs: 1_700_000_000, nanos: 0 }
}

fn manager() -> InstallationStateManager {
    InstallationStateManager::new(ConfigManager::new(Config::default()))
}

fn manager_with_profiles(names: &[&str]) -> InstallationStateManager {
    let mut m = manager();
    for name in names {
        m.create_profile(name, None).unwrap();
    }
    m
}

/// Ledger and registry agree on every pair of a registered profile and a package.
fn in_step(m: &InstallationStateManager) -> bool {
    let expected = counted_in_step(m);
    assert_eq!(m.check_symmetry(), expected);
    for f in m.profiles.keys() {
        if !m.profile_in_step(&f) {
            assert!(!expected);
        }
    }
    expected
}

fn counted_in_step(m: &InstallationStateManager) -> bool {
    let mut packages = m.installations.keys();
    for f in m.profiles.keys() {
        for p in m.profiles.get(&f).unwrap().packages.to_vec() {
            packages.push(p);
        }
    }
    for f in m.profiles.keys() {
        for p in &packages {
            let listed = match m.installations.get(p) {
                Some(record) => record.active_for.contains(&f),
                None => false,
            };
            let held = m.profiles.get(&f).unwrap().packages.contains(p);
            if listed != held {
                return false;
            }
        }
    }
    true
}

#[test]
fn parent_is_stored_and_need_not_exist() {
    let mut m = manager();
    m.create_profile("work", None).unwrap();
    m.create_profile("personal", Some("work".to_string())).unwrap();
    m.create_profile("orphan", Some("nowhere".to_string())).unwrap();
    assert_eq!(m.profiles.get("work").unwrap().parent, None);
    assert_eq!(m.profiles.get("personal").unwrap().parent, Some("work".to_string()));
    assert_eq!(m.profiles.get("orphan").unwrap().parent, Some("nowhere".to_string()));
    assert!(!m.profiles.contains_key("nowhere"));
    assert_eq!(m.profiles.len(), 3);
}

#[test]
fn fresh_profile_is_empty_and_projecting() {
    let mut m = manager();
    m.create_profile("work", None).unwrap();
    let p = m.profiles.get("work").unwrap();
    assert_eq!(p.name, "work");
    assert!(p.packages.is_empty());
    assert!(p.environment.active);
    assert!(p.environment.paths_prepend.is_empty());
    assert!(p.environment.variables.is_empty());
    assert!(p.os_overrides.is_empty());
}

#[test]
fn create_profile_replaces_an_existing_one() {
    let mut m = manager_with_profiles(&["work"]);
    m.switch_profile("work").unwrap();
    m.smart_install("git", InstallScope::Global, now()).unwrap();
    assert!(m.profiles.get("work").unwrap().packages.contains("git"));
    m.create_profile("work", Some("base".to_string())).unwrap();
    assert!(m.profiles.get("work").unwrap().packages.is_empty());
    assert_eq!(m.profiles.get("work").unwrap().parent, Some("base".to_string()));
    assert_eq!(m.profiles.len(), 1);
}

#[test]
fn install_in_work_records_work() {
    let mut m = manager_with_profiles(&["work", "personal"]);
    m.switch_profile("work").unwrap();
    let fresh = m.smart_install("nodejs", InstallScope::Global, now()).unwrap();
    assert!(fresh);
    let record = m.installations.get("nodejs").unwrap();
    assert_eq!(record.active_for.to_vec(), vec!["work".to_string()]);
    assert_eq!(record.package, "nodejs");
    assert_eq!(record.version, None);
    assert_eq!(record.scope, InstallScope::Global);
    assert_eq!(record.location, None);
    assert_eq!(record.installer_type, "auto");
    assert_eq!(record.installed_at, now());
    match &record.installed_by {
        InstallationSource::Profile(name) => assert_eq!(name, "work"),
        other => panic!("unexpected source {:?}", other),
    }
    assert!(m.profiles.get("work").unwrap().packages.contains("nodejs"));
    assert!(!m.profiles.get("personal").unwrap().packages.contains("nodejs"));
    assert!(in_step(&m));
}

#[test]
fn second_install_only_activates() {
    let mut m = manager_with_profiles(&["work", "personal"]);
    m.switch_profile("work").unwrap();
    let first = m.smart_install(
        "nodejs",
        InstallScope::Global,
        Timestamp { secs: 1_700_000_000, nanos: 7 },
    ).unwrap();
    assert!(first);
    m.switch_profile("personal").unwrap();
    let second = m.smart_install(
        "nodejs",
        InstallScope::Local,
        Timestamp { secs: 1_800_000_000, nanos: 9 },
    ).unwrap();
    assert!(!second);
    let record = m.installations.get("nodejs").unwrap();
    assert_eq!(record.active_for.len(), 2);
    assert!(record.active_for.contains("work"));
    assert!(record.active_for.contains("personal"));
    // the record of the first installation stands
    assert_eq!(record.installed_at, Timestamp { secs: 1_700_000_000, nanos: 7 });
    assert_eq!(record.scope, InstallScope::Global);
    assert!(m.profiles.get("personal").unwrap().packages.contains("nodejs"));
    assert_eq!(m.installations.len(), 1);
    assert!(in_step(&m));
}

#[test]
fn install_without_active_profile_uses_default() {
    let mut m = manager_with_profiles(&["default", "work"]);
    m.smart_install("curl", InstallScope::System, now()).unwrap();
    let record = m.installations.get("curl").unwrap();
    assert_eq!(record.active_for.to_vec(), vec!["default".to_string()]);
    assert!(m.profiles.get("default").unwrap().packages.contains("curl"));
    assert!(!m.is_active("curl"));
    assert_eq!(m.active_profile, None);
    assert!(in_step(&m));
}

#[test]
fn install_without_any_profile_still_records() {
    let mut m = manager();
    m.smart_install("curl", InstallScope::System, now()).unwrap();
    assert!(m.is_installed("curl"));
    assert_eq!(
        m.installations.get("curl").unwrap().active_for.to_vec(),
        vec!["default".to_string()]
    );
    assert!(m.profiles.is_empty());
}

#[test]
fn smart_remove_with_two_users_deactivates() {
    let mut m = manager_with_profiles(&["work", "personal"]);
    m.switch_profile("work").unwrap();
    m.smart_install("nodejs", InstallScope::Global, now()).unwrap();
    m.switch_profile("personal").unwrap();
    m.smart_install("nodejs", InstallScope::Global, now()).unwrap();
    assert_eq!(m.get_usage_count("nodejs").unwrap(), 2);

    let report = m.handle_removal("nodejs", RemovalStrategy::SmartRemove).unwrap();
    assert_eq!(report, Some(1));
    assert!(m.is_installed("nodejs"));
    let record = m.installations.get("nodejs").unwrap();
    assert_eq!(record.active_for.len(), 1);
    assert!(record.active_for.contains("work"));
    assert!(!m.profiles.get("personal").unwrap().packages.contains("nodejs"));
    assert!(in_step(&m));
}

#[test]
fn smart_remove_with_one_user_deletes_the_record() {
    let mut m = manager_with_profiles(&["work", "personal"]);
    m.switch_profile("work").unwrap();
    m.smart_install("nodejs", InstallScope::Global, now()).unwrap();
    m.switch_profile("personal").unwrap();
    m.smart_install("nodejs", InstallScope::Global, now()).unwrap();
    m.handle_removal("nodejs", RemovalStrategy::SmartRemove).unwrap();
    assert_eq!(m.get_usage_count("nodejs").unwrap(), 1);

    let report = m.handle_removal("nodejs", RemovalStrategy::SmartRemove).unwrap();
    assert_eq!(report, None);
    assert!(!m.is_installed("nodejs"));
    assert!(m.installations.get("nodejs").is_none());
    assert_eq!(m.get_usage_count("nodejs").unwrap(), 0);
    // the set of the profile that still held it is not touched
    assert!(m.profiles.get("work").unwrap().packages.contains("nodejs"));
    assert!(!in_step(&m));
}

#[test]
fn deactivate_keeps_the_record_even_when_unused() {
    let mut m = manager_with_profiles(&["work"]);
    m.switch_profile("work").unwrap();
    m.smart_install("nodejs", InstallScope::Global, now()).unwrap();
    let report = m.handle_removal("nodejs", RemovalStrategy::Deactivate).unwrap();
    assert_eq!(report, None);
    assert!(m.is_installed("nodejs"));
    assert!(m.installations.get("nodejs").unwrap().active_for.is_empty());
    assert!(!m.profiles.get("work").unwrap().packages.contains("nodejs"));
    assert!(!m.is_active("nodejs"));
    assert!(in_step(&m));
}

#[test]
fn deactivate_leaves_other_profiles_alone() {
    let mut m = manager_with_profiles(&["work", "personal"]);
    m.switch_profile("work").unwrap();
    m.smart_install("nodejs", InstallScope::Global, now()).unwrap();
    m.switch_profile("personal").unwrap();
    m.smart_install("nodejs", InstallScope::Global, now()).unwrap();
    m.handle_removal("nodejs", RemovalStrategy::Deactivate).unwrap();
    assert_eq!(
        m.installations.get("nodejs").unwrap().active_for.to_vec(),
        vec!["work".to_string()]
    );
    assert!(m.profiles.get("work").unwrap().packages.contains("nodejs"));
    assert!(!m.profiles.get("personal").unwrap().packages.contains("nodejs"));
}

#[test]
fn remove_from_profile_without_other_users_deactivates() {
    let mut m = manager_with_profiles(&["work"]);
    m.switch_profile("work").unwrap();
    m.smart_install("jq", InstallScope::Profile, now()).unwrap();
    m.handle_removal("jq", RemovalStrategy::RemoveFromProfile).unwrap();
    assert!(m.is_installed("jq"));
    assert!(m.installations.get("jq").unwrap().active_for.is_empty());
    assert!(!m.profiles.get("work").unwrap().packages.contains("jq"));
    assert!(in_step(&m));
}

#[test]
fn remove_from_profile_with_other_users_keeps_the_dependant() {
    let mut m = manager_with_profiles(&["work", "personal"]);
    m.switch_profile("work").unwrap();
    m.smart_install("jq", InstallScope::Profile, now()).unwrap();
    m.switch_profile("personal").unwrap();
    m.smart_install("jq", InstallScope::Profile, now()).unwrap();
    assert!(m.used_by_other_profiles("jq").unwrap());
    m.handle_removal("jq", RemovalStrategy::RemoveFromProfile).unwrap();
    assert!(!m.profiles.get("personal").unwrap().packages.contains("jq"));
    let record = m.installations.get("jq").unwrap();
    assert!(record.active_for.contains("personal"));
    assert!(record.active_for.contains("work"));
    assert!(!in_step(&m));
}

#[test]
fn force_remove_clears_every_profile() {
    let mut m = manager_with_profiles(&["work", "personal", "lab"]);
    m.switch_profile("work").unwrap();
    m.smart_install("jq", InstallScope::Profile, now()).unwrap();
    m.smart_install("fd", InstallScope::Profile, now()).unwrap();
    m.switch_profile("personal").unwrap();
    m.smart_install("jq", InstallScope::Profile, now()).unwrap();
    m.switch_profile("lab").unwrap();
    let report = m.handle_removal("jq", RemovalStrategy::ForceRemove).unwrap();
    assert_eq!(report, None);
    assert!(!m.is_installed("jq"));
    assert!(!m.profiles.get("work").unwrap().packages.contains("jq"));
    assert!(!m.profiles.get("personal").unwrap().packages.contains("jq"));
    assert!(m.profiles.get("work").unwrap().packages.contains("fd"));
    assert!(m.is_installed("fd"));
    assert!(in_step(&m));
}

#[test]
fn mark_unused_deactivates() {
    let mut m = manager_with_profiles(&["work"]);
    m.switch_profile("work").unwrap();
    m.smart_install("jq", InstallScope::Profile, now()).unwrap();
    m.handle_removal("jq", RemovalStrategy::MarkUnused).unwrap();
    assert!(m.is_installed("jq"));
    assert!(!m.is_active("jq"));
    assert!(!m.profiles.get("work").unwrap().packages.contains("jq"));
}

#[test]
fn removal_without_active_profile_does_nothing() {
    let mut m = manager_with_profiles(&["default"]);
    m.smart_install("jq", InstallScope::Profile, now()).unwrap();
    for strategy in [
        RemovalStrategy::Deactivate,
        RemovalStrategy::RemoveFromProfile,
        RemovalStrategy::MarkUnused,
    ] {
        m.handle_removal("jq", strategy).unwrap();
        assert!(m.is_installed("jq"));
        assert!(m.installations.get("jq").unwrap().active_for.contains("default"));
        assert!(m.profiles.get("default").unwrap().packages.contains("jq"));
    }
}

#[test]
fn removal_of_unknown_package_is_harmless() {
    let mut m = manager_with_profiles(&["work"]);
    m.switch_profile("work").unwrap();
    for strategy in [
        RemovalStrategy::Deactivate,
        RemovalStrategy::RemoveFromProfile,
        RemovalStrategy::SmartRemove,
        RemovalStrategy::ForceRemove,
        RemovalStrategy::MarkUnused,
    ] {
        assert_eq!(m.handle_removal("ghost", strategy).unwrap(), None);
        assert!(!m.is_installed("ghost"));
        assert!(m.profiles.get("work").unwrap().packages.is_empty());
    }
}

#[test]
fn switch_to_unknown_profile_is_not_found() {
    let mut m = manager_with_profiles(&["work"]);
    m.switch_profile("work").unwrap();
    let err = m.switch_profile("nope").unwrap_err();
    assert_eq!(err.kind(), ErrorKind::NotFound);
    assert_eq!(err.message(), "not found: Profile 'nope' does not exist");
    assert_eq!(m.active_profile, Some("work".to_string()));
}

#[test]
fn deleting_the_active_profile_is_refused() {
    let mut m = manager_with_profiles(&["work", "personal"]);
    m.switch_profile("work").unwrap();
    m.smart_install("jq", InstallScope::Profile, now()).unwrap();
    let err = m.delete_profile("work").unwrap_err();
    assert_eq!(err.kind(), ErrorKind::InvalidOperation);
    assert_eq!(
        err.message(),
        "invalid operation: Cannot delete active profile. Switch to another profile first."
    );
    assert_eq!(m.active_profile, Some("work".to_string()));
    assert_eq!(m.profiles.keys(), vec!["work".to_string(), "personal".to_string()]);
    assert!(m.profiles.get("work").unwrap().packages.contains("jq"));
    assert!(m.is_installed("jq"));
}

#[test]
fn deleting_another_profile_removes_it() {
    let mut m = manager_with_profiles(&["work", "personal"]);
    m.switch_profile("work").unwrap();
    m.delete_profile("personal").unwrap();
    assert_eq!(m.profiles.keys(), vec!["work".to_string()]);
    m.delete_profile("never-there").unwrap();
    assert_eq!(m.profiles.len(), 1);
}

#[test]
fn at_most_one_profile_is_active() {
    let mut m = manager_with_profiles(&["a", "b", "c"]);
    assert_eq!(m.active_profile, None);
    m.switch_profile("a").unwrap();
    m.switch_profile("b").unwrap();
    m.switch_profile("c").unwrap();
    assert_eq!(m.active_profile, Some("c".to_string()));
}

#[test]
fn every_mutation_hands_the_state_over() {
    let mut m = manager();
    assert!(!m.config_mgr.needs_save());
    m.create_profile("work", None).unwrap();
    assert!(m.config_mgr.needs_save());
    assert!(m.config_mgr.config.profiles.contains_key("work"));
    m.config_mgr.mark_saved();
    m.switch_profile("work").unwrap();
    assert!(m.config_mgr.needs_save());
    assert_eq!(m.config_mgr.config.active_profile, Some("work".to_string()));
    m.config_mgr.mark_saved();
    m.smart_install("jq", InstallScope::Profile, now()).unwrap();
    assert!(m.config_mgr.needs_save());
    assert!(m.config_mgr.config.installations.contains_key("jq"));
    assert!(m.config_mgr.config.profiles.get("work").unwrap().packages.contains("jq"));
    m.config_mgr.mark_saved();
    // a request that changes nothing asks for no save
    let mut idle = manager();
    idle.handle_removal("jq", RemovalStrategy::Deactivate).unwrap();
    assert!(!idle.config_mgr.needs_save());
}

#[test]
fn saved_state_reloads_identically() {
    let mut m = manager_with_profiles(&["work", "personal"]);
    m.switch_profile("work").unwrap();
    m.smart_install("jq", InstallScope::Profile, Timestamp { secs: 5, nanos: 6 }).unwrap();
    m.smart_install("fd", InstallScope::Global, Timestamp { secs: 7, nanos: 8 }).unwrap();
    m.switch_profile("personal").unwrap();
    m.smart_install("jq", InstallScope::Profile, Timestamp { secs: 9, nanos: 1 }).unwrap();
    m.save_state().unwrap();

    let reloaded = InstallationStateManager::new(ConfigManager::new(m.config_mgr.config.clone()));
    assert_eq!(reloaded.active_profile, m.active_profile);
    assert_eq!(reloaded.installations.keys(), m.installations.keys());
    assert_eq!(reloaded.profiles.keys(), m.profiles.keys());
    for name in m.profiles.keys() {
        let a = m.profiles.get(&name).unwrap();
        let b = reloaded.profiles.get(&name).unwrap();
        assert_eq!(a.name, b.name);
        assert_eq!(a.parent, b.parent);
        assert_eq!(a.packages.to_vec(), b.packages.to_vec());
    }
    for name in m.installations.keys() {
        let a = m.installations.get(&name).unwrap();
        let b = reloaded.installations.get(&name).unwrap();
        assert_eq!(a.package, b.package);
        assert_eq!(a.installed_at, b.installed_at);
        assert_eq!(a.scope, b.scope);
        assert_eq!(a.active_for.to_vec(), b.active_for.to_vec());
        assert_eq!(a.installer_type, b.installer_type);
    }
}

#[test]
fn active_packages_of_a_profile() {
    let mut m = manager_with_profiles(&["work"]);
    m.switch_profile("work").unwrap();
    m.smart_install("jq", InstallScope::Profile, now()).unwrap();
    m.smart_install("fd", InstallScope::Profile, now()).unwrap();
    assert_eq!(
        m.get_active_packages("work").unwrap(),
        vec!["jq".to_string(), "fd".to_string()]
    );
    assert!(m.get_active_packages("missing").unwrap().is_empty());
    assert_eq!(m.get_package_info("jq").unwrap().package, "jq");
    assert!(m.get_package_info("nope").is_none());
}

#[test]
fn known_package_without_active_profile_is_activated_for_default() {
    let mut m = manager_with_profiles(&["default", "work"]);
    m.switch_profile("work").unwrap();
    m.smart_install("jq", InstallScope::Profile, now()).unwrap();
    m.active_profile = None;
    let fresh = m.smart_install("jq", InstallScope::Profile, now()).unwrap();
    assert!(!fresh);
    let record = m.installations.get("jq").unwrap();
    assert_eq!(record.active_for.to_vec(), vec!["work".to_string(), "default".to_string()]);
    assert!(m.profiles.get("default").unwrap().packages.contains("jq"));
    assert!(m.profiles.get("work").unwrap().packages.contains("jq"));
    assert!(in_step(&m));
}

#[test]
fn symmetry_is_checked_per_profile() {
    let mut m = manager_with_profiles(&["work", "personal"]);
    assert!(m.check_symmetry());
    m.switch_profile("work").unwrap();
    m.smart_install("jq", InstallScope::Profile, now()).unwrap();
    assert!(m.profile_in_step("work"));
    assert!(m.profile_in_step("personal"));
    assert!(m.profile_in_step("unregistered"));
    // a package in a profile's set that no record lists
    m.profiles.get_mut("personal").unwrap().packages.insert("fd".to_string());
    assert!(m.profile_in_step("work"));
    assert!(!m.profile_in_step("personal"));
    assert!(!m.check_symmetry());
    m.profiles.get_mut("personal").unwrap().packages.remove("fd");
    assert!(m.check_symmetry());
    // a record that lists a profile whose set lacks the package
    m.installations.get_mut("jq").unwrap().active_for.insert("personal".to_string());
    assert!(!m.profile_in_step("personal"));
    assert!(!m.check_symmetry());
    // profiles outside the registry are not looked at
    m.installations.get_mut("jq").unwrap().active_for.remove("personal");
    m.installations.get_mut("jq").unwrap().active_for.insert("gone".to_string());
    assert!(m.check_symmetry());
    assert!(!m.profile_in_step("gone"));
}

#[test]
fn creating_a_profile_that_records_list_breaks_symmetry() {
    let mut m = manager();
    m.smart_install("curl", InstallScope::System, now()).unwrap();
    assert!(in_step(&m));
    m.create_profile("default", None).unwrap();
    assert!(!in_step(&m));
}
