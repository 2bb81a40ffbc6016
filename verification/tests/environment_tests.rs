use zshrcman::error::ErrorKind;
use zshrcman::models::EnvironmentState;
use zshrcman::modules::environment::{
    detect_shell, EnvironmentManager, ProcessEnvironment, ShellType,
};

fn sample() -> EnvironmentState {
    let mut env = EnvironmentState::default();
    env.paths_prepend.push("/usr/local/bin".to_string());
    env.paths_prepend.push("~/bin".to_string());
    env.paths_append.push("/opt/bin".to_string());
    env.variables.insert("EDITOR".to_string(), "vim".to_string());
    env.variables.insert("LANG".to_string(), "C".to_string());
    env.aliases.insert("ll".to_string(), "ls -la".to_string());
    env
}

fn process(pairs: &[(&str, &str)]) -> ProcessEnvironment {
    let mut p = ProcessEnvironment::new();
    for (k, v) in pairs {
        p.set(k, v);
    }
    p
}

fn value(p: &ProcessEnvironment, name: &str) -> Option<String> {
    p.get(name).cloned()
}

#[test]
fn bash_and_zsh_source_text() {
    let expected = "# zshrcman profile environment\n\n\
export PATH=\"/usr/local/bin:$PATH\"\n\
export PATH=\"~/bin:$PATH\"\n\
export PATH=\"$PATH:/opt/bin\"\n\
\n\
export EDITOR=\"vim\"\n\
export LANG=\"C\"\n\
\n\
alias ll='ls -la'\n";
    let env = sample();
    for shell in [ShellType::Bash, ShellType::Zsh] {
        let text = EnvironmentManager::with_shell(shell).generate_shell_config(&env).unwrap();
        assert_eq!(text, expected);
    }
}

#[test]
fn fish_source_text() {
    let expected = "# zshrcman profile environment\n\n\
set -gx PATH /usr/local/bin $PATH\n\
set -gx PATH ~/bin $PATH\n\
set -gx PATH $PATH /opt/bin\n\
\n\
set -gx EDITOR \"vim\"\n\
set -gx LANG \"C\"\n\
\n\
alias ll 'ls -la'\n";
    let text = EnvironmentManager::with_shell(ShellType::Fish)
        .generate_shell_config(&sample())
        .unwrap();
    assert_eq!(text, expected);
}

#[test]
fn powershell_source_text() {
    let expected = "# zshrcman profile environment\n\n\
$env:Path = @(\n    \"/usr/local/bin\",\n    \"~/bin\",\n    $env:Path,\n    \"/opt/bin\"\n) -join ';'\n\
\n\
$env:EDITOR = \"vim\"\n\
$env:LANG = \"C\"\n\
\n\
function ll { ls -la }\n";
    let text = EnvironmentManager::with_shell(ShellType::PowerShell)
        .generate_shell_config(&sample())
        .unwrap();
    assert_eq!(text, expected);
}

#[test]
fn batch_source_text_notes_aliases_in_remarks() {
    let expected = "@echo off\nREM zshrcman profile environment\n\n\
set PATH=/usr/local/bin;~/bin;%PATH%;/opt/bin\n\
\n\
set EDITOR=vim\n\
set LANG=C\n\
\n\
REM Aliases not supported in CMD batch files\n\
REM ll = ls -la\n";
    let text = EnvironmentManager::with_shell(ShellType::Cmd)
        .generate_shell_config(&sample())
        .unwrap();
    assert_eq!(text, expected);
}

#[test]
fn empty_environment_renders_only_the_header() {
    let env = EnvironmentState::default();
    let header = "# zshrcman profile environment\n\n";
    assert_eq!(
        EnvironmentManager::with_shell(ShellType::Bash).generate_bash_config(&env).unwrap(),
        header
    );
    assert_eq!(
        EnvironmentManager::with_shell(ShellType::Fish).generate_fish_config(&env).unwrap(),
        header
    );
    assert_eq!(
        EnvironmentManager::with_shell(ShellType::PowerShell)
            .generate_powershell_config(&env)
            .unwrap(),
        header
    );
    assert_eq!(
        EnvironmentManager::with_shell(ShellType::Cmd).generate_cmd_config(&env).unwrap(),
        "@echo off\nREM zshrcman profile environment\n\n"
    );
}

#[test]
fn blank_lines_follow_only_what_was_emitted() {
    let mut only_vars = EnvironmentState::default();
    only_vars.variables.insert("A".to_string(), "1".to_string());
    assert_eq!(
        EnvironmentManager::with_shell(ShellType::Bash).generate_shell_config(&only_vars).unwrap(),
        "# zshrcman profile environment\n\nexport A=\"1\"\n\n"
    );
    let mut only_append = EnvironmentState::default();
    only_append.paths_append.push("/x".to_string());
    assert_eq!(
        EnvironmentManager::with_shell(ShellType::Bash)
            .generate_shell_config(&only_append)
            .unwrap(),
        "# zshrcman profile environment\n\nexport PATH=\"$PATH:/x\"\n\n"
    );
    assert_eq!(
        EnvironmentManager::with_shell(ShellType::PowerShell)
            .generate_shell_config(&only_append)
            .unwrap(),
        "# zshrcman profile environment\n\n$env:Path = @(\n    $env:Path,\n    \"/x\"\n) -join ';'\n\n"
    );
    assert_eq!(
        EnvironmentManager::with_shell(ShellType::Cmd).generate_shell_config(&only_append).unwrap(),
        "@echo off\nREM zshrcman profile environment\n\nset PATH=%PATH%;/x\n\n"
    );
    let mut only_alias = EnvironmentState::default();
    only_alias.aliases.insert("g".to_string(), "git".to_string());
    assert_eq!(
        EnvironmentManager::with_shell(ShellType::Fish).generate_shell_config(&only_alias).unwrap(),
        "# zshrcman profile environment\n\nalias g 'git'\n"
    );
}

#[test]
fn variables_render_in_insertion_order() {
    let mut env = EnvironmentState::default();
    env.variables.insert("Z".to_string(), "26".to_string());
    env.variables.insert("A".to_string(), "1".to_string());
    env.variables.insert("Z".to_string(), "0".to_string());
    assert_eq!(
        EnvironmentManager::with_shell(ShellType::Cmd).generate_shell_config(&env).unwrap(),
        "@echo off\nREM zshrcman profile environment\n\nset Z=0\nset A=1\n\n"
    );
}

#[test]
fn apply_puts_prepends_first_then_path_then_appends() {
    let mut env = EnvironmentState::default();
    env.paths_prepend.push("/usr/local/bin".to_string());
    env.paths_prepend.push("~/bin".to_string());
    env.paths_append.push("$HOME/tools".to_string());
    env.paths_append.push("/bin".to_string());
    env.variables.insert("EDITOR".to_string(), "vim".to_string());
    let mut p = process(&[("PATH", "/usr/bin:/bin"), ("HOME", "/home/u")]);
    let mgr = EnvironmentManager::with_shell(ShellType::Bash);
    mgr.apply_profile_environment(&env, &mut p).unwrap();
    assert_eq!(
        value(&p, "PATH"),
        Some("/usr/local/bin:/home/u/bin:/usr/bin:/bin:/home/u/tools".to_string())
    );
    assert_eq!(value(&p, "EDITOR"), Some("vim".to_string()));
    assert_eq!(value(&p, "HOME"), Some("/home/u".to_string()));
}

#[test]
fn apply_skips_paths_that_are_entries_already() {
    let mut env = EnvironmentState::default();
    env.paths_prepend.push("/usr/bin".to_string());
    env.paths_prepend.push("/opt/a".to_string());
    env.paths_prepend.push("/opt/a".to_string());
    env.paths_append.push("/usr".to_string());
    env.paths_append.push("/opt/a".to_string());
    let mut p = process(&[("PATH", "/usr/bin")]);
    EnvironmentManager::with_shell(ShellType::Bash).apply_profile_environment(&env, &mut p).unwrap();
    assert_eq!(value(&p, "PATH"), Some("/opt/a:/usr/bin:/usr".to_string()));
}

#[test]
fn apply_inserts_a_path_that_is_only_part_of_an_entry() {
    let mut env = EnvironmentState::default();
    env.paths_prepend.push("/usr".to_string());
    let mut p = process(&[("PATH", "/usr/local/bin")]);
    let mgr = EnvironmentManager::with_shell(ShellType::Bash);
    mgr.apply_profile_environment(&env, &mut p).unwrap();
    assert_eq!(value(&p, "PATH"), Some("/usr:/usr/local/bin".to_string()));
    mgr.apply_profile_environment(&env, &mut p).unwrap();
    assert_eq!(value(&p, "PATH"), Some("/usr:/usr/local/bin".to_string()));
}

#[test]
fn apply_on_unset_path_starts_from_empty() {
    let mut env = EnvironmentState::default();
    env.paths_prepend.push("/a".to_string());
    env.paths_append.push("/b".to_string());
    let mut p = process(&[]);
    EnvironmentManager::with_shell(ShellType::Bash).apply_profile_environment(&env, &mut p).unwrap();
    assert_eq!(value(&p, "PATH"), Some("/a::/b".to_string()));
}

#[test]
fn apply_does_nothing_when_switched_off() {
    let mut env = sample();
    env.active = false;
    let mut p = process(&[("PATH", "/usr/bin")]);
    EnvironmentManager::with_shell(ShellType::Bash).apply_profile_environment(&env, &mut p).unwrap();
    assert_eq!(value(&p, "PATH"), Some("/usr/bin".to_string()));
    assert_eq!(value(&p, "EDITOR"), None);
    assert_eq!(p.variables.len(), 1);
}

#[test]
fn apply_fails_without_home_and_changes_nothing() {
    let env = sample();
    let mut p = process(&[("PATH", "/usr/bin")]);
    let err = EnvironmentManager::with_shell(ShellType::Bash)
        .apply_profile_environment(&env, &mut p)
        .unwrap_err();
    assert_eq!(err.kind(), ErrorKind::IoFailure);
    assert_eq!(err.message(), "I/O failure: HOME not set");
    assert_eq!(value(&p, "PATH"), Some("/usr/bin".to_string()));
    assert_eq!(value(&p, "EDITOR"), None);
}

#[test]
fn reverse_removes_whole_entries_and_unsets_variables() {
    let mut env = EnvironmentState::default();
    env.paths_prepend.push("/usr/local/bin".to_string());
    env.paths_prepend.push("~/bin".to_string());
    env.paths_append.push("$HOME/tools".to_string());
    env.variables.insert("EDITOR".to_string(), "vim".to_string());
    let mut p = process(&[
        ("PATH", "/usr/local/bin:/home/u/bin:/usr/bin:/usr/local/bin/extra:/home/u/tools"),
        ("HOME", "/home/u"),
        ("EDITOR", "vim"),
        ("KEEP", "1"),
    ]);
    EnvironmentManager::with_shell(ShellType::Bash).clear_profile_environment(&env, &mut p).unwrap();
    assert_eq!(value(&p, "PATH"), Some("/usr/bin:/usr/local/bin/extra".to_string()));
    assert_eq!(value(&p, "EDITOR"), None);
    assert_eq!(value(&p, "KEEP"), Some("1".to_string()));
}

#[test]
fn reverse_after_apply_restores_the_path() {
    let mut env = EnvironmentState::default();
    env.paths_prepend.push("~/bin".to_string());
    env.paths_append.push("/opt/tools".to_string());
    let mut p = process(&[("PATH", "/usr/bin:/sbin"), ("HOME", "/home/u")]);
    let mgr = EnvironmentManager::with_shell(ShellType::Zsh);
    mgr.apply_profile_environment(&env, &mut p).unwrap();
    assert_eq!(value(&p, "PATH"), Some("/home/u/bin:/usr/bin:/sbin:/opt/tools".to_string()));
    mgr.clear_profile_environment(&env, &mut p).unwrap();
    assert_eq!(value(&p, "PATH"), Some("/usr/bin:/sbin".to_string()));
}

#[test]
fn reverse_fails_without_home_and_changes_nothing() {
    let env = sample();
    let mut p = process(&[("PATH", "/usr/local/bin:/usr/bin"), ("EDITOR", "vim")]);
    let err = EnvironmentManager::with_shell(ShellType::Bash)
        .clear_profile_environment(&env, &mut p)
        .unwrap_err();
    assert_eq!(err.kind(), ErrorKind::IoFailure);
    assert_eq!(value(&p, "PATH"), Some("/usr/local/bin:/usr/bin".to_string()));
    assert_eq!(value(&p, "EDITOR"), Some("vim".to_string()));
}

#[test]
fn home_prefixes_are_expanded() {
    let mgr = EnvironmentManager::with_shell(ShellType::Bash);
    let p = process(&[("HOME", "/home/u")]);
    assert_eq!(mgr.expand_path("~/bin", &p).unwrap(), "/home/u/bin");
    assert_eq!(mgr.expand_path("$HOME/bin", &p).unwrap(), "/home/u/bin");
    assert_eq!(mgr.expand_path("$HOME", &p).unwrap(), "/home/u");
    assert_eq!(mgr.expand_path("/usr/bin", &p).unwrap(), "/usr/bin");
    assert_eq!(mgr.expand_path("~other/bin", &p).unwrap(), "~other/bin");
    assert_eq!(mgr.expand_path("~", &p).unwrap(), "~");
    assert_eq!(mgr.expand_path("", &p).unwrap(), "");
    assert_eq!(mgr.expand_path("~/caf\u{e9}/\u{1f600}", &p).unwrap(), "/home/u/caf\u{e9}/\u{1f600}");
    let none = process(&[]);
    assert_eq!(mgr.expand_path("/usr/bin", &none).unwrap(), "/usr/bin");
    assert_eq!(mgr.expand_path("~/bin", &none).unwrap_err().kind(), ErrorKind::IoFailure);
    assert_eq!(mgr.expand_path("$HOME/bin", &none).unwrap_err().kind(), ErrorKind::IoFailure);
}

#[test]
fn shell_family_is_detected() {
    assert_eq!(detect_shell(false, false, "/bin/zsh"), ShellType::Zsh);
    assert_eq!(detect_shell(false, false, "/usr/bin/bash"), ShellType::Bash);
    assert_eq!(detect_shell(false, false, "/usr/local/bin/fish"), ShellType::Fish);
    assert_eq!(detect_shell(false, false, "/bin/sh"), ShellType::Bash);
    assert_eq!(detect_shell(false, false, ""), ShellType::Bash);
    assert_eq!(detect_shell(false, true, "/opt/bash-like/zsh"), ShellType::Zsh);
    assert_eq!(detect_shell(true, true, "/bin/zsh"), ShellType::PowerShell);
    assert_eq!(detect_shell(true, false, "/bin/zsh"), ShellType::Cmd);
    assert_eq!(EnvironmentManager::new(false, false, "/bin/fish").shell_type, ShellType::Fish);
}

#[test]
fn source_lines_per_shell() {
    let path = "/home/u/.local/share/zshrcman/env/profile.env";
    assert_eq!(
        EnvironmentManager::with_shell(ShellType::Zsh).source_line(path),
        Some(format!("[ -f {} ] && source {}", path, path))
    );
    assert_eq!(
        EnvironmentManager::with_shell(ShellType::Bash).source_line(path),
        Some(format!("[ -f {} ] && source {}", path, path))
    );
    assert_eq!(
        EnvironmentManager::with_shell(ShellType::Fish).source_line(path),
        Some(format!("test -f {}; and source {}", path, path))
    );
    assert_eq!(
        EnvironmentManager::with_shell(ShellType::PowerShell).source_line(path),
        Some(format!(". \"{}\"", path))
    );
    assert_eq!(EnvironmentManager::with_shell(ShellType::Cmd).source_line(path), None);
}

#[test]
fn source_line_is_added_once() {
    let mgr = EnvironmentManager::with_shell(ShellType::Bash);
    let first = mgr.add_source_line("export A=1", "/e").unwrap();
    assert_eq!(first, "export A=1\n\n# zshrcman environment\n[ -f /e ] && source /e\n");
    assert_eq!(mgr.add_source_line(&first, "/e"), None);
    assert_eq!(
        mgr.add_source_line("", "/e").unwrap(),
        "\n# zshrcman environment\n[ -f /e ] && source /e\n"
    );
    assert_eq!(
        mgr.add_source_line("x\n", "/e").unwrap(),
        "x\n\n# zshrcman environment\n[ -f /e ] && source /e\n"
    );
    assert_eq!(EnvironmentManager::with_shell(ShellType::Cmd).add_source_line("x", "/e"), None);
}

#[test]
fn start_up_files_per_shell() {
    assert_eq!(EnvironmentManager::with_shell(ShellType::Zsh).get_shell_config_path(false), ".zshrc");
    assert_eq!(
        EnvironmentManager::with_shell(ShellType::Bash).get_shell_config_path(false),
        ".bashrc"
    );
    assert_eq!(
        EnvironmentManager::with_shell(ShellType::Fish).get_shell_config_path(false),
        ".config/fish/config.fish"
    );
    assert_eq!(
        EnvironmentManager::with_shell(ShellType::PowerShell).get_shell_config_path(false),
        ".config/powershell/profile.ps1"
    );
    assert_eq!(
        EnvironmentManager::with_shell(ShellType::PowerShell).get_shell_config_path(true),
        "Documents/PowerShell/Microsoft.PowerShell_profile.ps1"
    );
    assert_eq!(
        EnvironmentManager::with_shell(ShellType::Cmd).get_shell_config_path(true),
        "zshrcman_env.bat"
    );
    assert_eq!(
        EnvironmentManager::with_shell(ShellType::Zsh).get_profile_env_path("/home/u"),
        "/home/u/.local/share/zshrcman/env/profile.env"
    );
}

#[test]
fn process_environment_sets_and_unsets() {
    let mut p = ProcessEnvironment::new();
    assert_eq!(p.get("A"), None);
    p.set("A", "1");
    p.set("B", "2");
    p.set("A", "3");
    assert_eq!(value(&p, "A"), Some("3".to_string()));
    p.unset("A");
    assert_eq!(p.get("A"), None);
    assert_eq!(value(&p, "B"), Some("2".to_string()));
    p.unset("missing");
    assert_eq!(p.variables.len(), 1);
}

#[test]
fn applying_twice_is_applying_once() {
    let mut env = EnvironmentState::default();
    env.paths_prepend.push("~/bin".to_string());
    env.paths_prepend.push("/opt/a".to_string());
    env.paths_prepend.push("~/bin".to_string());
    env.paths_append.push("/opt/z".to_string());
    env.paths_append.push("/usr/bin".to_string());
    let mut p = process(&[("PATH", "/usr/bin:/bin"), ("HOME", "/home/u")]);
    let mgr = EnvironmentManager::with_shell(ShellType::Bash);
    mgr.apply_profile_environment(&env, &mut p).unwrap();
    let once = value(&p, "PATH");
    assert_eq!(once, Some("/home/u/bin:/opt/a:/usr/bin:/bin:/opt/z".to_string()));
    mgr.apply_profile_environment(&env, &mut p).unwrap();
    assert_eq!(value(&p, "PATH"), once);
}

#[test]
fn reverse_gives_back_a_path_that_held_none_of_the_entries() {
    let mut env = EnvironmentState::default();
    env.paths_prepend.push("/opt/a".to_string());
    env.paths_prepend.push("/opt/b".to_string());
    env.paths_append.push("/opt/c".to_string());
    env.paths_append.push("/opt/a".to_string());
    let mgr = EnvironmentManager::with_shell(ShellType::Bash);
    for start in ["/usr/bin:/bin", "", ":", "/usr/bin::/bin:", "/opt"] {
        let mut p = process(&[("PATH", start)]);
        mgr.apply_profile_environment(&env, &mut p).unwrap();
        mgr.clear_profile_environment(&env, &mut p).unwrap();
        assert_eq!(value(&p, "PATH"), Some(start.to_string()), "from {:?}", start);
    }
}

#[test]
fn reverse_leaves_no_removed_entry_behind() {
    let mut env = EnvironmentState::default();
    env.paths_prepend.push("/opt/a".to_string());
    env.paths_append.push("/opt/b".to_string());
    let mgr = EnvironmentManager::with_shell(ShellType::Bash);
    let mut p = process(&[("PATH", "/opt/a:/x:/opt/b:/opt/a:/y:/opt/b")]);
    mgr.clear_profile_environment(&env, &mut p).unwrap();
    assert_eq!(value(&p, "PATH"), Some("/x:/y".to_string()));
    let mut all = process(&[("PATH", "/opt/a:/opt/b")]);
    mgr.clear_profile_environment(&env, &mut all).unwrap();
    assert_eq!(value(&all, "PATH"), Some("".to_string()));
}
