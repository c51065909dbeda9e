use useproxy::cli::{
    run_command, Action, CertCommands, CommandError, Commands, LogCommands, ProxyCommands, RuleChange,
};
use useproxy::config::{Config, ProxyRule};
use useproxy::logger::LogFilter;

#[test]
fn no_command_starts_server_unchanged() {
    let mut c = Config::default();
    assert_eq!(run_command(&mut c, None), Ok(Action::StartServer));
    assert_eq!(c, Config::default());
}

#[test]
fn run_applies_options() {
    let mut c = Config::default();
    let cmd = Commands::Run { port: Some(8080), host: None, https: true };
    assert_eq!(run_command(&mut c, Some(cmd)), Ok(Action::StartServer));
    assert_eq!(c.port, 8080);
    assert_eq!(c.host, "127.0.0.1");
    assert!(c.https.enabled);
}

#[test]
fn proxy_add_appends_and_saves() {
    let mut c = Config::default();
    let cmd = Commands::Proxy {
        command: ProxyCommands::Add { rule: "/api/chat -> https://api.example.com/chat".to_string(), change_origin: true },
    };
    assert_eq!(run_command(&mut c, Some(cmd)), Ok(Action::SaveConfig { change: RuleChange::Added }));
    assert_eq!(c.proxy.rules.len(), 2);
    assert_eq!(
        c.proxy.rules[1],
        ProxyRule { path: "/api/chat".to_string(), target: "https://api.example.com/chat".to_string(), change_origin: true }
    );
}

#[test]
fn proxy_add_refuses_bad_rule() {
    let mut c = Config::default();
    let cmd = Commands::Proxy { command: ProxyCommands::Add { rule: "/api/chat".to_string(), change_origin: false } };
    assert_eq!(run_command(&mut c, Some(cmd)), Err(CommandError::InvalidRuleFormat));
    assert_eq!(c, Config::default());
}

#[test]
fn proxy_remove_list_clear() {
    let mut c = Config::default();
    let listed = run_command(&mut c, Some(Commands::Proxy { command: ProxyCommands::List }));
    assert_eq!(
        listed,
        Ok(Action::ListRules { lines: vec!["/api/github -> https://api.github.com (change_origin: true)".to_string()] })
    );
    let removed = run_command(&mut c, Some(Commands::Proxy { command: ProxyCommands::Remove { path: "/api/github".to_string() } }));
    assert_eq!(removed, Ok(Action::SaveConfig { change: RuleChange::Removed }));
    assert!(c.proxy.rules.is_empty());
    let mut c = Config::default();
    let cleared = run_command(&mut c, Some(Commands::Proxy { command: ProxyCommands::Clear }));
    assert_eq!(cleared, Ok(Action::SaveConfig { change: RuleChange::Cleared }));
    assert!(c.proxy.rules.is_empty());
}

#[test]
fn cert_gen_defaults_and_given_files() {
    let mut c = Config::default();
    let r = run_command(&mut c, Some(Commands::Cert { command: CertCommands::Gen { cert: None, key: None } }));
    assert_eq!(r, Ok(Action::GenerateCertificates { cert: "cert.pem".to_string(), key: "key.pem".to_string() }));
    let r = run_command(
        &mut c,
        Some(Commands::Cert { command: CertCommands::Gen { cert: Some("my.pem".to_string()), key: Some("mykey.pem".to_string()) } }),
    );
    assert_eq!(r, Ok(Action::GenerateCertificates { cert: "my.pem".to_string(), key: "mykey.pem".to_string() }));
}

#[test]
fn logs_commands() {
    let mut c = Config::default();
    let r = run_command(&mut c, Some(Commands::Logs { command: LogCommands::Show }));
    assert_eq!(r, Ok(Action::ShowLogs { url: "http://localhost:3000/logs".to_string() }));
    let r = run_command(&mut c, Some(Commands::Logs { command: LogCommands::Clear }));
    assert_eq!(r, Ok(Action::ClearLogs));
    let r = run_command(
        &mut c,
        Some(Commands::Logs { command: LogCommands::Filter { method: Some("GET".to_string()), status: Some(404), path: Some("/api".to_string()) } }),
    );
    assert_eq!(
        r,
        Ok(Action::FilterLogs {
            filter: LogFilter { method: Some("GET".to_string()), status: Some(404), path: Some("/api".to_string()) }
        })
    );
    assert_eq!(c, Config::default());
}
