//! The command line: its commands, and what each one does to the
//! configuration and asks the program to do next.

use vstd::prelude::*;
use crate::config::{rules_without, Config, ProxyRule, RuleFormatError};
use crate::logger::LogFilter;
use crate::text::trim;

verus! {

/// The program's arguments: a configuration file, and a command.
#[derive(Debug, Clone, PartialEq, Eq)]
pub struct Cli {
    pub config: Option<String>,
    pub command: Option<Commands>,
}

/// The top-level commands.
#[derive(Debug, Clone, PartialEq, Eq)]
#[allow(inconsistent_fields)]
pub enum Commands {
    /// Start the server, optionally on another port or host, with or without TLS.
    Run { port: Option<u16>, host: Option<String>, https: bool },
    /// Manage the forwarding rules.
    Proxy { command: ProxyCommands },
    /// Manage the certificates.
    Cert { command: CertCommands },
    /// Manage the request log.
    Logs { command: LogCommands },
}

/// The commands on forwarding rules.
#[derive(Debug, Clone, PartialEq, Eq)]
pub enum ProxyCommands {
    /// Add a rule written as `PATH -> TARGET`.
    Add { rule: String, change_origin: bool },
    /// Remove the rules with this path.
    Remove { path: String },
    /// List the rules.
    List,
    /// Remove every rule.
    Clear,
}

/// The commands on certificates.
#[derive(Debug, Clone, PartialEq, Eq)]
pub enum CertCommands {
    /// Generate a certificate and key, optionally into other files.
    Gen { cert: Option<String>, key: Option<String> },
}

/// The commands on the request log.
#[derive(Debug, Clone, PartialEq, Eq)]
pub enum LogCommands {
    /// Say where the log can be viewed.
    Show,
    /// Empty the log.
    Clear,
    /// Show the entries that pass a filter.
    Filter { method: Option<String>, status: Option<u16>, path: Option<String> },
}

/// The change to the rules that a saved configuration carries.
#[derive(Debug, Clone, PartialEq, Eq)]
pub enum RuleChange {
    Added,
    Removed,
    Cleared,
}

/// What the program does after a command has been applied to the configuration.
#[derive(Debug, Clone, PartialEq, Eq)]
pub enum Action {
    /// Start the server with the configuration.
    StartServer,
    /// Generate a certificate and key into these files, and report them.
    GenerateCertificates { cert: String, key: String },
    /// Save the configuration, and report the change.
    SaveConfig { change: RuleChange },
    /// Print these lines, which list the rules.
    ListRules { lines: Vec<String> },
    /// Print where the log can be viewed.
    ShowLogs { url: String },
    /// Empty the log.
    ClearLogs,
    /// Print the entries of the log that pass this filter.
    FilterLogs { filter: LogFilter },
}

/// A command that cannot be carried out.
#[derive(Debug, Clone, PartialEq, Eq)]
pub enum CommandError {
    /// The rule to add does not hold exactly one `->`.
    InvalidRuleFormat,
}

/// The lines that list `rules`, one per rule, in their order.
pub fn rule_lines(rules: &Vec<ProxyRule>) -> (r: Vec<String>)
    ensures
        r@.len() == rules@.len(),
        forall|i: int|
            0 <= i < rules@.len() ==> (#[trigger] r@[i])@ == rules@[i].path@ + " -> "@ + rules@[i].target@
                + " (change_origin: "@ + crate::text::bool_text(rules@[i].change_origin) + ")"@,
{
    let mut r: Vec<String> = Vec::new();
    let mut i: usize = 0;
    while i < rules.len()
        invariant
            0 <= i <= rules@.len(),
            r@.len() == i,
            forall|k: int|
                0 <= k < i ==> (#[trigger] r@[k])@ == rules@[k].path@ + " -> "@ + rules@[k].target@
                    + " (change_origin: "@ + crate::text::bool_text(rules@[k].change_origin) + ")"@,
        decreases rules@.len() - i,
    {
        r.push(rules[i].describe());
        i += 1;
    }
    r
}

/// Applies `command` to `config` and says what is to be done next.
///
/// No command, or `run`, starts the server (`run` first applies its port,
/// host and TLS options). `proxy add` appends the parsed rule, `proxy remove`
/// drops the rules with that path, `proxy clear` drops every rule; each of
/// these then saves the configuration. `proxy list` prints the rules.
/// `cert gen` generates into the given files, `cert.pem` and `key.pem` by
/// default. `logs show` prints the log's address, `logs clear` empties the
/// log, `logs filter` prints the entries that pass the filter. Only a rule
/// without exactly one `->` is refused, and then nothing changes.
pub fn run_command(config: &mut Config, command: Option<Commands>) -> (r: Result<Action, CommandError>)
    ensures
        command is None ==> r == Ok::<Action, CommandError>(Action::StartServer) && *final(config) == *old(config),
        command matches Some(Commands::Run { port, host, https }) ==> {
            &&& r == Ok::<Action, CommandError>(Action::StartServer)
            &&& final(config).port == (if let Some(p) = port { p } else { old(config).port })
            &&& final(config).host == (if let Some(h) = host { h } else { old(config).host })
            &&& final(config).https.enabled == https
            &&& final(config).https.cert_file == old(config).https.cert_file
            &&& final(config).https.key_file == old(config).https.key_file
            &&& final(config).static_files == old(config).static_files
            &&& final(config).proxy == old(config).proxy
            &&& final(config).cors == old(config).cors
        },
        command matches Some(Commands::Proxy { command: ProxyCommands::Add { rule, change_origin } }) ==> {
            &&& (r is Ok <==> exists|i: int| crate::config::only_arrow_at(rule@, i))
            &&& r is Ok ==> {
                &&& r == Ok::<Action, CommandError>(Action::SaveConfig { change: RuleChange::Added })
                &&& final(config).proxy.rules@.len() == old(config).proxy.rules@.len() + 1
                &&& final(config).proxy.rules@.drop_last() == old(config).proxy.rules@
                &&& exists|i: int| #![trigger crate::config::only_arrow_at(rule@, i)] {
                    let added = final(config).proxy.rules@.last();
                    &&& crate::config::only_arrow_at(rule@, i)
                    &&& added.path@ == trim(rule@.take(i))
                    &&& added.target@ == trim(rule@.skip(i + 2))
                    &&& added.change_origin == change_origin
                }
            }
            &&& r is Err ==> r == Err::<Action, CommandError>(CommandError::InvalidRuleFormat) && *final(config)
                == *old(config)
            &&& final(config).port == old(config).port
            &&& final(config).host == old(config).host
            &&& final(config).https == old(config).https
            &&& final(config).static_files == old(config).static_files
            &&& final(config).cors == old(config).cors
        },
        command matches Some(Commands::Proxy { command: ProxyCommands::Remove { path } }) ==> {
            &&& r == Ok::<Action, CommandError>(Action::SaveConfig { change: RuleChange::Removed })
            &&& final(config).proxy.rules@ == rules_without(old(config).proxy.rules@, path@)
            &&& final(config).port == old(config).port
            &&& final(config).host == old(config).host
            &&& final(config).https == old(config).https
            &&& final(config).static_files == old(config).static_files
            &&& final(config).cors == old(config).cors
        },
        command matches Some(Commands::Proxy { command: ProxyCommands::Clear }) ==> {
            &&& r == Ok::<Action, CommandError>(Action::SaveConfig { change: RuleChange::Cleared })
            &&& final(config).proxy.rules@.len() == 0
            &&& final(config).port == old(config).port
            &&& final(config).host == old(config).host
            &&& final(config).https == old(config).https
            &&& final(config).static_files == old(config).static_files
            &&& final(config).cors == old(config).cors
        },
        command matches Some(Commands::Proxy { command: ProxyCommands::List }) ==> {
            &&& *final(config) == *old(config)
            &&& r matches Ok(Action::ListRules { lines }) && lines@.len() == old(config).proxy.rules@.len()
                && forall|i: int|
                0 <= i < lines@.len() ==> (#[trigger] lines@[i])@ == old(config).proxy.rules@[i].path@
                    + " -> "@ + old(config).proxy.rules@[i].target@ + " (change_origin: "@
                    + crate::text::bool_text(old(config).proxy.rules@[i].change_origin) + ")"@
        },
        command matches Some(Commands::Cert { command: CertCommands::Gen { cert, key } }) ==> {
            &&& *final(config) == *old(config)
            &&& r matches Ok(Action::GenerateCertificates { cert: c, key: k })
                && c@ == (if let Some(x) = cert { x@ } else { "cert.pem"@ })
                && k@ == (if let Some(x) = key { x@ } else { "key.pem"@ })
        },
        command matches Some(Commands::Logs { command: LogCommands::Show }) ==> {
            &&& *final(config) == *old(config)
            &&& r matches Ok(Action::ShowLogs { url }) && url@ == (if old(config).https.enabled {
                "https://localhost:"@
            } else {
                "http://localhost:"@
            }) + crate::text::decimal(old(config).port as nat) + "/logs"@
        },
        command matches Some(Commands::Logs { command: LogCommands::Clear }) ==> {
            &&& *final(config) == *old(config)
            &&& r == Ok::<Action, CommandError>(Action::ClearLogs)
        },
        command matches Some(Commands::Logs { command: LogCommands::Filter { method, status, path } }) ==> {
            &&& *final(config) == *old(config)
            &&& r == Ok::<Action, CommandError>(
                Action::FilterLogs { filter: LogFilter { method, status, path } },
            )
        },
{
    match command {
        None => Ok(Action::StartServer),
        Some(Commands::Run { port, host, https }) => {
            config.apply_run_options(port, host, https);
            Ok(Action::StartServer)
        },
        Some(Commands::Proxy { command }) => match command {
            ProxyCommands::Add { rule, change_origin } => {
                match ProxyRule::parse(rule.as_str(), change_origin) {
                    Ok(parsed) => {
                        let ghost before = config.proxy.rules@;
                        config.proxy.add_rule(parsed);
                        assert(config.proxy.rules@.drop_last() =~= before);
                        Ok(Action::SaveConfig { change: RuleChange::Added })
                    },
                    Err(RuleFormatError::NotOneArrow) => Err(CommandError::InvalidRuleFormat),
                }
            },
            ProxyCommands::Remove { path } => {
                config.proxy.remove_rules(path.as_str());
                Ok(Action::SaveConfig { change: RuleChange::Removed })
            },
            ProxyCommands::List => Ok(Action::ListRules { lines: rule_lines(&config.proxy.rules) }),
            ProxyCommands::Clear => {
                config.proxy.clear_rules();
                Ok(Action::SaveConfig { change: RuleChange::Cleared })
            },
        },
        Some(Commands::Cert { command }) => match command {
            CertCommands::Gen { cert, key } => {
                let cert = match cert {
                    Some(c) => c,
                    None => "cert.pem".to_string(),
                };
                let key = match key {
                    Some(k) => k,
                    None => "key.pem".to_string(),
                };
                Ok(Action::GenerateCertificates { cert, key })
            },
        },
        Some(Commands::Logs { command }) => match command {
            LogCommands::Show => Ok(Action::ShowLogs { url: config.logs_url() }),
            LogCommands::Clear => Ok(Action::ClearLogs),
            LogCommands::Filter { method, status, path } => Ok(
                Action::FilterLogs { filter: LogFilter { method, status, path } },
            ),
        },
    }
}

} // verus!
