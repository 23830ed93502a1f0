use semgrep_adapter::command::{
    bootstrap_command, default_arguments, resolve, resolve_found, search_name, BinarySettings,
    CommandDescriptor, FallbackPolicy, Platform, ResolveError, DEFAULT_COMMAND, INSTALL_SCRIPT,
    LANGUAGE_SERVER_SUBCOMMAND, NOT_FOUND_MESSAGE, SHELL, SHELL_SCRIPT_FLAG,
};

fn strings(items: &[&str]) -> Vec<String> {
    items.iter().map(|s| s.to_string()).collect()
}

fn custom_settings() -> BinarySettings {
    BinarySettings {
        path: Some("/custom/semgrep".to_string()),
        arguments: Some(vec![]),
        env: None,
    }
}

#[test]
fn resolver_returns_found_default_tool() {
    let result = resolve(
        None,
        |name: &str| {
            assert_eq!(name, "semgrep");
            Some("/usr/local/bin/semgrep".to_string())
        },
        Platform::Linux,
        FallbackPolicy::Bootstrap,
    );
    assert_eq!(
        result,
        Ok(CommandDescriptor {
            command: "/usr/local/bin/semgrep".to_string(),
            arguments: strings(&["lsp"]),
            environment: vec![],
        })
    );
    let strict = resolve(
        None,
        |_: &str| Some("/usr/local/bin/semgrep".to_string()),
        Platform::Windows,
        FallbackPolicy::Strict,
    );
    assert_eq!(
        strict,
        Ok(CommandDescriptor {
            command: "/usr/local/bin/semgrep".to_string(),
            arguments: strings(&["lsp"]),
            environment: vec![],
        })
    );
}

#[test]
fn resolver_returns_custom_path_verbatim_when_not_found() {
    for policy in [FallbackPolicy::Bootstrap, FallbackPolicy::Strict] {
        for platform in [Platform::Mac, Platform::Linux, Platform::Windows] {
            let result = resolve(
                Some(custom_settings()),
                |name: &str| {
                    assert_eq!(name, "/custom/semgrep");
                    None
                },
                platform,
                policy,
            );
            assert_eq!(
                result,
                Ok(CommandDescriptor {
                    command: "/custom/semgrep".to_string(),
                    arguments: strings(&["lsp"]),
                    environment: vec![],
                })
            );
        }
    }
}

#[test]
fn resolver_strict_fails_when_default_tool_is_missing() {
    for platform in [Platform::Mac, Platform::Linux, Platform::Windows] {
        let result = resolve(None, |_: &str| None, platform, FallbackPolicy::Strict);
        assert_eq!(result, Err(ResolveError::ExecutableNotFound));
    }
    let message = ResolveError::ExecutableNotFound.message();
    assert_eq!(message, NOT_FOUND_MESSAGE);
    assert!(message.contains("install"));
    assert!(message.contains("manually"));
    assert!(message.contains("pip install semgrep"));
}

#[test]
fn resolver_bootstrap_wraps_install_script() {
    for platform in [Platform::Mac, Platform::Linux] {
        let result = resolve(None, |_: &str| None, platform, FallbackPolicy::Bootstrap);
        assert_eq!(
            result,
            Ok(CommandDescriptor {
                command: "sh".to_string(),
                arguments: vec![
                    "-c".to_string(),
                    INSTALL_SCRIPT.to_string(),
                    "semgrep".to_string(),
                    "lsp".to_string(),
                ],
                environment: vec![],
            })
        );
    }
}

#[test]
fn resolver_bootstrap_without_shell_returns_default_name() {
    let result = resolve(None, |_: &str| None, Platform::Windows, FallbackPolicy::Bootstrap);
    assert_eq!(
        result,
        Ok(CommandDescriptor {
            command: "semgrep".to_string(),
            arguments: strings(&["lsp"]),
            environment: vec![],
        })
    );
}

#[test]
fn resolver_treats_explicit_default_name_as_default() {
    let settings = BinarySettings {
        path: Some("semgrep".to_string()),
        arguments: None,
        env: None,
    };
    let strict = resolve_found(Some(settings.clone()), None, Platform::Linux, FallbackPolicy::Strict);
    assert_eq!(strict, Err(ResolveError::ExecutableNotFound));
    let bootstrap = resolve_found(Some(settings), None, Platform::Linux, FallbackPolicy::Bootstrap);
    assert_eq!(bootstrap.map(|c| c.command), Ok("sh".to_string()));
}

#[test]
fn resolver_uses_settings_arguments_and_environment() {
    let settings = BinarySettings {
        path: None,
        arguments: Some(strings(&["lsp", "--debug"])),
        env: Some(vec![
            ("SEMGREP_APP_TOKEN".to_string(), "t".to_string()),
            ("NO_COLOR".to_string(), "1".to_string()),
        ]),
    };
    let env = settings.env.clone().unwrap();
    let found = resolve_found(
        Some(settings.clone()),
        Some("/opt/bin/semgrep".to_string()),
        Platform::Mac,
        FallbackPolicy::Strict,
    );
    assert_eq!(
        found,
        Ok(CommandDescriptor {
            command: "/opt/bin/semgrep".to_string(),
            arguments: strings(&["lsp", "--debug"]),
            environment: env.clone(),
        })
    );
    let bootstrapped =
        resolve_found(Some(settings), None, Platform::Mac, FallbackPolicy::Bootstrap);
    assert_eq!(
        bootstrapped,
        Ok(CommandDescriptor {
            command: "sh".to_string(),
            arguments: vec![
                "-c".to_string(),
                INSTALL_SCRIPT.to_string(),
                "semgrep".to_string(),
                "lsp".to_string(),
                "--debug".to_string(),
            ],
            environment: env,
        })
    );
}

#[test]
fn resolver_never_gives_an_empty_argument_list() {
    let settings = [
        None,
        Some(custom_settings()),
        Some(BinarySettings { path: None, arguments: Some(vec![]), env: Some(vec![]) }),
        Some(BinarySettings { path: None, arguments: Some(strings(&["x"])), env: None }),
    ];
    let founds = [None, Some("/bin/semgrep".to_string())];
    for s in settings.iter() {
        for f in founds.iter() {
            for platform in [Platform::Mac, Platform::Linux, Platform::Windows] {
                for policy in [FallbackPolicy::Bootstrap, FallbackPolicy::Strict] {
                    if let Ok(command) = resolve_found(s.clone(), f.clone(), platform, policy) {
                        assert!(!command.arguments.is_empty());
                    }
                }
            }
        }
    }
}

#[test]
fn search_name_prefers_the_settings_path() {
    assert_eq!(search_name(&None), "semgrep");
    assert_eq!(search_name(&Some(custom_settings())), "/custom/semgrep");
    let no_path = BinarySettings { path: None, arguments: None, env: None };
    assert_eq!(search_name(&Some(no_path)), "semgrep");
}

#[test]
fn default_arguments_start_language_server_mode() {
    assert_eq!(default_arguments(), strings(&["lsp"]));
}

#[test]
fn bootstrap_command_hands_arguments_to_the_script() {
    let command = bootstrap_command(
        strings(&["lsp", "-v"]),
        vec![("A".to_string(), "b".to_string())],
    );
    assert_eq!(command.command, SHELL);
    assert_eq!(command.arguments[0], SHELL_SCRIPT_FLAG);
    assert_eq!(command.arguments[1], INSTALL_SCRIPT);
    assert_eq!(command.arguments[2], DEFAULT_COMMAND);
    assert_eq!(command.arguments[3..], strings(&["lsp", "-v"])[..]);
    assert_eq!(command.environment, vec![("A".to_string(), "b".to_string())]);
}

#[test]
fn platform_bootstrap_support() {
    assert!(Platform::Mac.supports_bootstrap());
    assert!(Platform::Linux.supports_bootstrap());
    assert!(!Platform::Windows.supports_bootstrap());
}

#[test]
fn constants_name_the_tool() {
    assert_eq!(DEFAULT_COMMAND, "semgrep");
    assert_eq!(LANGUAGE_SERVER_SUBCOMMAND, "lsp");
    assert_eq!(SHELL, "sh");
    assert_eq!(SHELL_SCRIPT_FLAG, "-c");
}

#[test]
fn install_script_installs_then_starts_the_tool() {
    assert!(INSTALL_SCRIPT.contains("command -v semgrep"));
    assert!(INSTALL_SCRIPT.contains("brew install semgrep"));
    assert!(INSTALL_SCRIPT.contains("pip3 install --user semgrep"));
    assert!(INSTALL_SCRIPT.contains("exec semgrep \"$@\""));
    assert!(INSTALL_SCRIPT.contains("exec python3 -m semgrep \"$@\""));
    assert!(INSTALL_SCRIPT.trim_end().ends_with("exit 1"));
}
