use anduin::shell_env::{command_args_for_shell, parse_env_output, should_import_var, vars_to_import};

#[test]
fn env_output_splits_entries_at_nul_and_first_equals() {
    let vars = parse_env_output(b"PATH=/bin:/usr/bin\0EMPTY=\0\0NOEQ\0A=b=c\0");
    assert_eq!(
        vars,
        vec![
            (b"PATH".to_vec(), b"/bin:/usr/bin".to_vec()),
            (b"EMPTY".to_vec(), Vec::new()),
            (b"A".to_vec(), b"b=c".to_vec()),
        ]
    );
    assert!(parse_env_output(b"").is_empty());
    assert_eq!(parse_env_output(b"X=1"), vec![(b"X".to_vec(), b"1".to_vec())]);
}

#[test]
fn shell_bookkeeping_variables_are_not_imported() {
    assert!(!should_import_var(&b"PWD".to_vec()));
    assert!(!should_import_var(&b"OLDPWD".to_vec()));
    assert!(!should_import_var(&b"SHLVL".to_vec()));
    assert!(!should_import_var(&b"_".to_vec()));
    assert!(should_import_var(&b"PATH".to_vec()));
    assert!(should_import_var(&b"PWDX".to_vec()));
    let kept = vars_to_import(vec![
        (b"PWD".to_vec(), b"/".to_vec()),
        (b"PATH".to_vec(), b"/bin".to_vec()),
    ]);
    assert_eq!(kept, vec![(b"PATH".to_vec(), b"/bin".to_vec())]);
}

#[test]
fn login_shell_prints_environment() {
    assert_eq!(command_args_for_shell("/bin/zsh"), ["-l", "-c", "env -0"]);
}
