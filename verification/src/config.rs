//! Configuration: how often to poll, and which remote hosts to watch.

use vstd::prelude::*;
use vstd::string::*;
use vstd::utf8::*;

use crate::path::{join_path, joined};
use crate::text::{clone_opt, str_eq};

verus! {

/// A host to watch.
#[derive(Debug)]
pub struct HostConfig {
    pub name: String,
    /// The target for ssh; none for the local machine.
    pub ssh_target: Option<String>,
    /// The path of a private key.
    pub ssh_identity: Option<String>,
    pub ssh_port: Option<u16>,
    /// The only tmux session of the host that is scanned, where there is one.
    pub tmux_session_filter: Option<String>,
}

impl Clone for HostConfig {
    fn clone(&self) -> (r: HostConfig)
        ensures
            r == *self,
    {
        HostConfig {
            name: self.name.clone(),
            ssh_target: clone_opt(&self.ssh_target),
            ssh_identity: clone_opt(&self.ssh_identity),
            ssh_port: self.ssh_port,
            tmux_session_filter: clone_opt(&self.tmux_session_filter),
        }
    }
}

/// How to watch.
#[derive(Debug)]
pub struct Config {
    /// Seconds between polls, at least one.
    pub poll_interval_secs: u16,
    pub hosts: Vec<HostConfig>,
}

impl Clone for Config {
    fn clone(&self) -> (r: Config)
        ensures
            r.poll_interval_secs == self.poll_interval_secs,
            r.hosts@ == self.hosts@,
    {
        let mut hosts: Vec<HostConfig> = Vec::new();
        for i in 0..self.hosts.len()
            invariant
                hosts@ == self.hosts@.take(i as int),
        {
            hosts.push(self.hosts[i].clone());
            assert(hosts@ =~= self.hosts@.take(i + 1));
        }
        assert(self.hosts@.take(self.hosts@.len() as int) =~= self.hosts@);
        Config { poll_interval_secs: self.poll_interval_secs, hosts }
    }
}

impl Default for Config {
    /// Every five seconds, and no remote host.
    fn default() -> (r: Config)
        ensures
            r.poll_interval_secs == 5,
            r.hosts@.len() == 0,
    {
        Config { poll_interval_secs: 5, hosts: Vec::new() }
    }
}

/// What was found at the path of the configuration.
#[derive(Debug)]
pub enum ConfigSource {
    /// No file.
    Missing,
    /// A file that could not be read.
    Unreadable,
    /// A file that does not hold a configuration.
    Unparsable,
    Parsed(Config),
}

/// Why there is no configuration.
#[derive(Clone, Copy, Debug, PartialEq, Eq, Structural)]
pub enum ConfigError {
    Unreadable,
    Unparsable,
    /// The poll interval is zero.
    PollInterval,
}

impl ConfigError {
    /// The error in words, up to the path where one belongs to it.
    pub fn message(&self) -> (r: &'static str)
        ensures
            r@ == match *self {
                ConfigError::Unreadable => "Failed to read config file"@,
                ConfigError::Unparsable => "Failed to parse config file"@,
                ConfigError::PollInterval => "poll_interval_secs must be >= 1"@,
            },
    {
        match self {
            ConfigError::Unreadable => "Failed to read config file",
            ConfigError::Unparsable => "Failed to parse config file",
            ConfigError::PollInterval => "poll_interval_secs must be >= 1",
        }
    }
}

/// The directory for configuration files, by `dirs::config_dir`, as the bytes of
/// its path. It depends on the environment, so nothing is said of it.
#[verifier::external_body]
fn user_config_dir() -> (r: Option<Vec<u8>>) {
    dirs::config_dir().map(|dir| dir.into_os_string().into_encoded_bytes())
}

/// The path of the configuration in a directory for configuration files.
pub open spec fn config_file(dir: Option<Seq<u8>>) -> Seq<u8> {
    let base = match dir {
        Some(d) => d,
        None => encode_utf8("~/.config"@),
    };
    joined(joined(base, encode_utf8("ocwatch"@)), encode_utf8("config.toml"@))
}

impl Config {
    /// The configuration, by what was found at its path; the default one where
    /// nothing was.
    pub fn load(source: ConfigSource) -> (r: Result<Config, ConfigError>)
        ensures
            match source {
                ConfigSource::Missing => r matches Ok(c) && c.poll_interval_secs == 5
                    && c.hosts@.len() == 0,
                ConfigSource::Unreadable => r == Err::<Config, ConfigError>(
                    ConfigError::Unreadable,
                ),
                ConfigSource::Unparsable => r == Err::<Config, ConfigError>(
                    ConfigError::Unparsable,
                ),
                ConfigSource::Parsed(c) => r == (if c.poll_interval_secs >= 1 {
                    Ok(c)
                } else {
                    Err(ConfigError::PollInterval)
                }),
            },
    {
        match source {
            ConfigSource::Missing => Ok(Config::default()),
            ConfigSource::Unreadable => Err(ConfigError::Unreadable),
            ConfigSource::Unparsable => Err(ConfigError::Unparsable),
            ConfigSource::Parsed(config) => match config.validate() {
                Ok(()) => Ok(config),
                Err(error) => Err(error),
            },
        }
    }

    /// The path of the configuration in a directory for configuration files, both
    /// as bytes.
    pub fn config_path_in(dir: Option<&[u8]>) -> (r: Vec<u8>)
        ensures
            r@ == config_file(
                match dir {
                    Some(d) => Some(d@),
                    None => None,
                },
            ),
    {
        let base = match dir {
            Some(d) => d,
            None => "~/.config".as_bytes(),
        };
        join_path(&join_path(base, "ocwatch".as_bytes()), "config.toml".as_bytes())
    }

    /// The path of the configuration, as bytes.
    pub fn config_path() -> (r: Vec<u8>)
        ensures
            exists|dir: Option<Seq<u8>>| r@ == #[trigger] config_file(dir),
    {
        match user_config_dir() {
            Some(dir) => Config::config_path_in(Some(dir.as_slice())),
            None => Config::config_path_in(None),
        }
    }

    /// Whether the configuration can be used.
    fn validate(&self) -> (r: Result<(), ConfigError>)
        ensures
            r == (if self.poll_interval_secs >= 1 {
                Ok::<(), ConfigError>(())
            } else {
                Err(ConfigError::PollInterval)
            }),
    {
        if self.poll_interval_secs < 1 {
            Err(ConfigError::PollInterval)
        } else {
            Ok(())
        }
    }
}

/// The first host from `from` on with a name.
pub open spec fn host_named(hosts: Seq<HostConfig>, name: Seq<char>, from: nat) -> Option<usize>
    decreases hosts.len() - from,
{
    if from >= hosts.len() {
        None
    } else if hosts[from as int].name@ == name {
        Some(from as usize)
    } else {
        host_named(hosts, name, from + 1)
    }
}

/// The first host with a name.
pub fn find_host<'a>(config: &'a Config, name: &str) -> (r: Option<&'a HostConfig>)
    ensures
        match host_named(config.hosts@, name@, 0) {
            Some(i) => i < config.hosts@.len() && r == Some(&config.hosts@[i as int])
                && config.hosts@[i as int].name@ == name@,
            None => r is None && forall|k: int|
                0 <= k < config.hosts@.len() ==> (#[trigger] config.hosts@[k]).name@ != name@,
        },
{
    let mut i: usize = 0;
    while i < config.hosts.len()
        invariant
            i <= config.hosts@.len(),
            host_named(config.hosts@, name@, 0) == host_named(config.hosts@, name@, i as nat),
            forall|k: int| 0 <= k < i ==> (#[trigger] config.hosts@[k]).name@ != name@,
        decreases config.hosts@.len() - i,
    {
        if str_eq(config.hosts[i].name.as_str(), name) {
            return Some(&config.hosts[i]);
        }
        i = i + 1;
    }
    None
}

/// The names of hosts that are reached through ssh, in their order.
pub open spec fn remote_names(hosts: Seq<HostConfig>) -> Seq<Seq<char>>
    decreases hosts.len(),
{
    if hosts.len() == 0 {
        Seq::empty()
    } else if hosts.last().ssh_target is Some {
        remote_names(hosts.drop_last()).push(hosts.last().name@)
    } else {
        remote_names(hosts.drop_last())
    }
}

/// The names of hosts that are reached through ssh.
pub fn configured_remote_hosts(config: &Config) -> (r: Vec<String>)
    ensures
        crate::text::strings(r@) == remote_names(config.hosts@),
{
    let mut out: Vec<String> = Vec::new();
    assert(crate::text::strings(out@) =~= Seq::<Seq<char>>::empty());
    for i in 0..config.hosts.len()
        invariant
            crate::text::strings(out@) == remote_names(config.hosts@.take(i as int)),
    {
        assert(config.hosts@.take(i + 1).drop_last() =~= config.hosts@.take(i as int));
        if config.hosts[i].ssh_target.is_some() {
            crate::text::push_text(&mut out, config.hosts[i].name.as_str());
        }
    }
    assert(config.hosts@.take(config.hosts@.len() as int) =~= config.hosts@);
    out
}

/// A name finds the first host that has it, and none only where no host does.
pub proof fn law_first_host_of_a_name(hosts: Seq<HostConfig>, name: Seq<char>, from: nat)
    requires
        hosts.len() <= usize::MAX,
    ensures
        match host_named(hosts, name, from) {
            Some(h) => from <= h < hosts.len() && hosts[h as int].name@ == name && forall|k: int|
                from <= k < h ==> (#[trigger] hosts[k]).name@ != name,
            None => forall|k: int| from <= k < hosts.len() ==> (#[trigger] hosts[k]).name@ != name,
        },
    decreases hosts.len() - from,
{
    if from < hosts.len() && hosts[from as int].name@ != name {
        law_first_host_of_a_name(hosts, name, from + 1);
    }
}

/// The hosts that are reached through ssh are those with a target, by their names
/// and in turn.
pub proof fn law_remote_hosts_in_turn(host: HostConfig, rest: Seq<HostConfig>)
    ensures
        remote_names(Seq::empty()).len() == 0,
        host.ssh_target is Some ==> remote_names(seq![host] + rest) == seq![host.name@]
            + remote_names(rest),
        host.ssh_target is None ==> remote_names(seq![host] + rest) == remote_names(rest),
    decreases rest.len(),
{
    let all = seq![host] + rest;
    if rest.len() == 0 {
        assert(all.drop_last() =~= Seq::<HostConfig>::empty());
        assert(all.last() == host);
        assert(remote_names(all.drop_last()) =~= Seq::<Seq<char>>::empty());
        if host.ssh_target is Some {
            assert(remote_names(all) =~= seq![host.name@] + remote_names(rest));
        }
    } else {
        law_remote_hosts_in_turn(host, rest.drop_last());
        assert(all.drop_last() =~= seq![host] + rest.drop_last());
        assert(all.last() == rest.last());
        if host.ssh_target is Some {
            assert(remote_names(all) =~= seq![host.name@] + remote_names(rest));
        }
    }
}

} // verus!
