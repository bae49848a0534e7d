//! Connections through the system's ssh: one master connection for each host,
//! over which commands are run and ports are forwarded.

use std::collections::HashMap;

use vstd::prelude::*;
use vstd::string::*;

use crate::config::{find_host, host_named, Config, HostConfig};
use crate::keyed::{map_of, KeyMap};
use crate::shell::{CommandLine, CommandView};
use crate::ssh::ports::{lists_pids, pids, remotes, Forward};
use crate::text::{
    chars_of, concat2, concat3, concat4, concat5, decimal, law_parts_are_seen, number_text,
    push_text, starts_with, string_of, strings, take_chars, take_text, trim, trim_white,
};
use crate::tui::interaction::slice_text;

verus! {

broadcast use vstd::std_specs::hash::group_hash_axioms;

// ---------------------------------------------------------------------------
// Connections
// ---------------------------------------------------------------------------

/// A connection to a host.
pub struct SshConnection {
    pub host_config: HostConfig,
    pub control_path: String,
    /// How remote ports are forwarded.
    pub forwarded_ports: HashMap<u16, Forward>,
}

/// A connection as values.
#[verifier::ext_equal]
pub struct ConnView {
    pub host: HostConfig,
    pub control_path: Seq<char>,
    pub ports: Map<u16, Forward>,
}

impl View for SshConnection {
    type V = ConnView;

    open spec fn view(&self) -> ConnView {
        ConnView {
            host: self.host_config,
            control_path: self.control_path@,
            ports: self.forwarded_ports@,
        }
    }
}

/// The connections, by the names of their hosts.
pub struct SshManager {
    connections: KeyMap<SshConnection>,
}

/// The views of connections.
pub open spec fn conn_views(m: Map<Seq<char>, SshConnection>) -> Map<Seq<char>, ConnView> {
    Map::new(|k: Seq<char>| m.contains_key(k), |k: Seq<char>| m[k]@)
}

impl View for SshManager {
    type V = Map<Seq<char>, ConnView>;

    closed spec fn view(&self) -> Map<Seq<char>, ConnView> {
        conn_views(self.connections@)
    }
}

/// The socket of the master connection to a host: short, so that it fits into
/// what systems allow.
pub open spec fn control_path_of(name: Seq<char>) -> Seq<char> {
    "/tmp/ocw-"@ + take_chars(name, 20)
}

/// A connection without forwarded ports.
pub open spec fn fresh_connection(host: HostConfig) -> ConnView {
    ConnView {
        host,
        control_path: control_path_of(host.name@),
        ports: Map::empty(),
    }
}

/// The option that names the socket.
pub open spec fn control_option(path: Seq<char>) -> Seq<char> {
    "ControlPath="@ + path
}

/// The options for the port and the key of a host.
pub open spec fn host_options(host: HostConfig) -> Seq<Seq<char>> {
    (match host.ssh_port {
        Some(port) => seq!["-p"@, decimal(port as nat)],
        None => Seq::empty(),
    }) + (match host.ssh_identity {
        Some(identity) => seq!["-i"@, identity@],
        None => Seq::empty(),
    })
}

/// The command that sets up the master connection.
pub open spec fn master_command(host: HostConfig, target: Seq<char>) -> CommandView {
    CommandView {
        program: "ssh"@,
        args: seq![
            "-o"@,
            "ControlMaster=auto"@,
            "-o"@,
            control_option(control_path_of(host.name@)),
            "-o"@,
            "ControlPersist=yes"@,
            "-o"@,
            "ServerAliveInterval=30"@,
            "-o"@,
            "ServerAliveCountMax=3"@,
            "-o"@,
            "ConnectTimeout=10"@,
            "-o"@,
            "StrictHostKeyChecking=accept-new"@,
            "-N"@,
        ] + host_options(host) + seq![target],
    }
}

/// A command to the master connection itself.
pub open spec fn control_command(
    path: Seq<char>,
    order: Seq<char>,
    target: Seq<char>,
) -> CommandView {
    CommandView {
        program: "ssh"@,
        args: seq!["-o"@, control_option(path), "-O"@, order, target],
    }
}

/// The arguments to run something on a host.
pub open spec fn remote_args(
    conn: ConnView,
    target: Seq<char>,
    interactive: bool,
    command: Option<Seq<char>>,
) -> Seq<Seq<char>> {
    seq!["-o"@, control_option(conn.control_path), "-o"@, "ControlMaster=no"@] + (if interactive {
        seq!["-t"@]
    } else {
        Seq::empty()
    }) + host_options(conn.host) + seq![target] + (match command {
        Some(c) => seq![c],
        None => Seq::empty(),
    })
}

/// The command that forwards a port.
pub open spec fn forward_command_of(
    conn: ConnView,
    target: Seq<char>,
    local: u16,
    remote: u16,
) -> CommandView {
    CommandView {
        program: "ssh"@,
        args: seq![
            "-o"@,
            control_option(conn.control_path),
            "-o"@,
            "ControlMaster=no"@,
            "-L"@,
            decimal(local as nat) + ":localhost:"@ + decimal(remote as nat),
            "-N"@,
            target,
        ],
    }
}

/// Why something cannot be done on a host.
#[derive(Clone, Copy, Debug, PartialEq, Eq, Structural)]
pub enum SshError {
    /// There is no connection.
    NotConnected,
    /// The host has no target for ssh.
    NoTarget,
}

/// The error in words.
pub open spec fn error_text(e: SshError, host: Seq<char>) -> Seq<char> {
    match e {
        SshError::NotConnected => "Not connected to "@ + host,
        SshError::NoTarget => "No ssh_target for "@ + host,
    }
}

impl SshError {
    /// The error in words.
    pub fn message(&self, host_name: &str) -> (r: String)
        ensures
            r@ == error_text(*self, host_name@),
    {
        match self {
            SshError::NotConnected => concat2("Not connected to ", host_name),
            SshError::NoTarget => concat2("No ssh_target for ", host_name),
        }
    }
}

/// The program and the arguments to run something on a host.
pub open spec fn command_args(
    conns: Map<Seq<char>, ConnView>,
    host: Seq<char>,
    interactive: bool,
    command: Option<Seq<char>>,
) -> Result<(Seq<char>, Seq<Seq<char>>), SshError> {
    if !conns.contains_key(host) {
        Err(SshError::NotConnected)
    } else {
        match conns[host].host.ssh_target {
            Some(target) => Ok(
                ("ssh"@, remote_args(conns[host], target@, interactive, command)),
            ),
            None => Err(SshError::NoTarget),
        }
    }
}

/// The socket of the master connection to a host.
pub fn control_path(host_name: &str) -> (r: String)
    ensures
        r@ == control_path_of(host_name@),
{
    concat2("/tmp/ocw-", take_text(host_name, 20).as_str())
}

/// Adds the options for the port and the key of a host.
fn push_host_options(args: &mut Vec<String>, host: &HostConfig)
    ensures
        strings(final(args)@) == strings(old(args)@) + host_options(*host),
{
    let ghost start = strings(args@);
    match host.ssh_port {
        Some(port) => {
            push_text(args, "-p");
            push_text(args, number_text(port as u64).as_str());
        },
        None => {},
    }
    match &host.ssh_identity {
        Some(identity) => {
            push_text(args, "-i");
            push_text(args, identity.as_str());
        },
        None => {},
    }
    assert(strings(args@) =~= start + host_options(*host));
}

/// A command to the master connection itself.
fn control_command_for(path: &str, order: &str, target: &str) -> (r: CommandLine)
    ensures
        r@ == control_command(path@, order@, target@),
{
    let mut args: Vec<String> = Vec::new();
    push_text(&mut args, "-o");
    push_text(&mut args, concat2("ControlPath=", path).as_str());
    push_text(&mut args, "-O");
    push_text(&mut args, order);
    push_text(&mut args, target);
    let r = CommandLine { program: "ssh".to_string(), args };
    assert(r@.args =~= control_command(path@, order@, target@).args);
    r
}

/// The command by which a master connection is asked whether it is alive; none
/// for a host without a target, which has none.
pub fn check_command(host: &HostConfig, control_path: &str) -> (r: Option<CommandLine>)
    ensures
        match host.ssh_target {
            Some(target) => r matches Some(c) && c@ == control_command(
                control_path@,
                "check"@,
                target@,
            ),
            None => r is None,
        },
{
    match &host.ssh_target {
        Some(target) => Some(control_command_for(control_path, "check", target.as_str())),
        None => None,
    }
}

/// The command that sets up the master connection.
fn master_command_for(host: &HostConfig, target: &str) -> (r: CommandLine)
    ensures
        r@ == master_command(*host, target@),
{
    let mut args: Vec<String> = Vec::new();
    push_text(&mut args, "-o");
    push_text(&mut args, "ControlMaster=auto");
    push_text(&mut args, "-o");
    let path = control_path(host.name.as_str());
    push_text(&mut args, concat2("ControlPath=", path.as_str()).as_str());
    push_text(&mut args, "-o");
    push_text(&mut args, "ControlPersist=yes");
    push_text(&mut args, "-o");
    push_text(&mut args, "ServerAliveInterval=30");
    push_text(&mut args, "-o");
    push_text(&mut args, "ServerAliveCountMax=3");
    push_text(&mut args, "-o");
    push_text(&mut args, "ConnectTimeout=10");
    push_text(&mut args, "-o");
    push_text(&mut args, "StrictHostKeyChecking=accept-new");
    push_text(&mut args, "-N");
    let ghost want = master_command(*host, target@).args;
    assert(strings(args@) =~= want.take(15));
    push_host_options(&mut args, host);
    push_text(&mut args, target);
    assert(strings(args@) =~= want);
    CommandLine { program: "ssh".to_string(), args }
}

// ---------------------------------------------------------------------------
// Setting up a connection
// ---------------------------------------------------------------------------

/// How the setting up of a connection goes on.
pub enum ConnectStep {
    /// The connection is there.
    Connected,
    /// The host has no target, in words.
    Refused(String),
    /// A command is to be started, and its socket waited for.
    Start {
        command: CommandLine,
        control_path: String,
        /// The error where the command cannot be started.
        not_started: String,
        /// The error where the socket does not come in time.
        too_late: String,
    },
}

/// How waiting for a socket goes on.
#[derive(Clone, Copy, Debug, PartialEq, Eq, Structural)]
pub enum SocketWait {
    Ready,
    TooLate,
    /// To be asked again after that many milliseconds.
    Again(u64),
}

/// How waiting for a socket goes on.
pub open spec fn socket_step(exists: bool, waited_ms: u64) -> SocketWait {
    if exists {
        SocketWait::Ready
    } else if waited_ms > 10000 {
        SocketWait::TooLate
    } else {
        SocketWait::Again(200)
    }
}

/// How waiting for a socket goes on, by whether it is there and by how many
/// milliseconds have passed: it is waited for ten seconds.
pub fn socket_wait(exists: bool, waited_ms: u64) -> (r: SocketWait)
    ensures
        r == socket_step(exists, waited_ms),
{
    if exists {
        SocketWait::Ready
    } else if waited_ms > 10000 {
        SocketWait::TooLate
    } else {
        SocketWait::Again(200)
    }
}

/// How the setting up of a connection starts: one that is alive is taken over
/// where it is not known yet.
pub open spec fn connect_start(
    conns: Map<Seq<char>, ConnView>,
    host: HostConfig,
    alive: bool,
) -> Map<Seq<char>, ConnView> {
    if alive && !conns.contains_key(host.name@) {
        conns.insert(host.name@, fresh_connection(host))
    } else {
        conns
    }
}

/// The port here to which a remote port of a host is forwarded, if it is.
pub open spec fn forwarded_to(
    conns: Map<Seq<char>, ConnView>,
    host: Seq<char>,
    remote: u16,
) -> Result<Option<u16>, SshError> {
    if !conns.contains_key(host) {
        Err(SshError::NotConnected)
    } else if conns[host].ports.contains_key(remote) {
        Ok(Some(conns[host].ports[remote].local))
    } else {
        Ok(None)
    }
}

/// The connections after a remote port of a host was forwarded.
pub open spec fn with_forward(
    conns: Map<Seq<char>, ConnView>,
    host: Seq<char>,
    remote: u16,
    forward: Forward,
) -> Map<Seq<char>, ConnView> {
    if conns.contains_key(host) {
        let conn = conns[host];
        conns.insert(host, ConnView { ports: conn.ports.insert(remote, forward), ..conn })
    } else {
        conns
    }
}

/// The connections after a remote port of a host is no longer forwarded.
pub open spec fn without_forward(
    conns: Map<Seq<char>, ConnView>,
    host: Seq<char>,
    remote: u16,
) -> Map<Seq<char>, ConnView> {
    if conns.contains_key(host) {
        let conn = conns[host];
        conns.insert(host, ConnView { ports: conn.ports.remove(remote), ..conn })
    } else {
        conns
    }
}

impl SshManager {
    /// No connections.
    pub fn new() -> (r: SshManager)
        ensures
            r@ == Map::<Seq<char>, ConnView>::empty(),
    {
        let r = SshManager { connections: KeyMap::new() };
        assert(r@ =~= Map::<Seq<char>, ConnView>::empty());
        r
    }

    /// Puts a connection in.
    fn put(&mut self, name: String, conn: SshConnection)
        ensures
            final(self)@ == old(self)@.insert(name@, conn@),
    {
        let ghost before = self.connections@;
        self.connections.insert(name, conn);
        assert(self@ =~= conn_views(before).insert(name@, conn@));
    }

    /// Starts to set up a connection to a host, of which it is known whether its
    /// master connection is alive.
    pub fn connect(&mut self, host: &HostConfig, alive: bool) -> (r: ConnectStep)
        ensures
            final(self)@ == connect_start(old(self)@, *host, alive),
            if alive {
                r is Connected
            } else {
                match host.ssh_target {
                    None => r matches ConnectStep::Refused(t) && t@ == "Host "@ + host.name@
                        + " has no ssh_target"@,
                    Some(target) => {
                        &&& r matches ConnectStep::Start {
                            command,
                            control_path,
                            not_started,
                            too_late,
                        }
                        &&& command@ == master_command(*host, target@)
                        &&& control_path@ == control_path_of(host.name@)
                        &&& not_started@ == "Failed to spawn SSH to "@ + target@
                        &&& too_late@ == "SSH ControlMaster to "@ + target@
                            + " did not connect within 10s"@
                    },
                }
            },
    {
        if alive {
            if !self.connections.contains_key(host.name.as_str()) {
                assert(!self@.contains_key(host.name@));
                self.finish_connect(host);
            } else {
                assert(self@.contains_key(host.name@));
            }
            return ConnectStep::Connected;
        }
        match &host.ssh_target {
            None => ConnectStep::Refused(
                concat3("Host ", host.name.as_str(), " has no ssh_target"),
            ),
            Some(target) => ConnectStep::Start {
                command: master_command_for(host, target.as_str()),
                control_path: control_path(host.name.as_str()),
                not_started: concat2("Failed to spawn SSH to ", target.as_str()),
                too_late: concat3(
                    "SSH ControlMaster to ",
                    target.as_str(),
                    " did not connect within 10s",
                ),
            },
        }
    }

    /// Takes a connection over once its socket is there.
    pub fn finish_connect(&mut self, host: &HostConfig)
        ensures
            final(self)@ == old(self)@.insert(host.name@, fresh_connection(*host)),
    {
        let conn = SshConnection {
            host_config: host.clone(),
            control_path: control_path(host.name.as_str()),
            forwarded_ports: HashMap::new(),
        };
        self.put(host.name.clone(), conn);
    }

    /// What is asked to learn whether a host is connected: the socket that must
    /// be there, and the command that must succeed. Nothing for a host that is
    /// not connected.
    pub fn is_connected(&self, host_name: &str) -> (r: Option<(String, Option<CommandLine>)>)
        ensures
            if self@.contains_key(host_name@) {
                let conn = self@[host_name@];
                r matches Some((path, command)) && path@ == conn.control_path && (match conn.host.ssh_target {
                    Some(target) => command matches Some(c) && c@ == control_command(
                        conn.control_path,
                        "check"@,
                        target@,
                    ),
                    None => command is None,
                })
            } else {
                r is None
            },
    {
        match self.connections.get(host_name) {
            Some(conn) => {
                assert(self@[host_name@] == conn@);
                Some(
                    (
                        conn.control_path.clone(),
                        check_command(&conn.host_config, conn.control_path.as_str()),
                    ),
                )
            },
            None => None,
        }
    }

    /// The program and the arguments to run something on a host.
    pub fn build_command_args(
        &self,
        host_name: &str,
        interactive: bool,
        remote_command: Option<&str>,
    ) -> (r: Result<(String, Vec<String>), SshError>)
        ensures
            match command_args(self@, host_name@, interactive, slice_text(remote_command)) {
                Ok((program, args)) => r matches Ok((p, a)) && p@ == program && strings(a@) == args,
                Err(e) => r == Err::<(String, Vec<String>), SshError>(e),
            },
    {
        match self.connections.get(host_name) {
            None => Err(SshError::NotConnected),
            Some(conn) => {
                assert(self@[host_name@] == conn@);
                match &conn.host_config.ssh_target {
                    None => Err(SshError::NoTarget),
                    Some(target) => {
                        let mut args: Vec<String> = Vec::new();
                        push_text(&mut args, "-o");
                        push_text(
                            &mut args,
                            concat2("ControlPath=", conn.control_path.as_str()).as_str(),
                        );
                        push_text(&mut args, "-o");
                        push_text(&mut args, "ControlMaster=no");
                        if interactive {
                            push_text(&mut args, "-t");
                        }
                        let ghost head = strings(args@);
                        push_host_options(&mut args, &conn.host_config);
                        push_text(&mut args, target.as_str());
                        match remote_command {
                            Some(command) => {
                                push_text(&mut args, command);
                            },
                            None => {},
                        }
                        assert(strings(args@) =~= remote_args(
                            conn@,
                            target@,
                            interactive,
                            slice_text(remote_command),
                        ));
                        Ok(("ssh".to_string(), args))
                    },
                }
            },
        }
    }

    /// The remote ports forwarded for a host, in some order.
    pub fn forwarded_remote_ports(&self, host_name: &str) -> (r: Vec<u16>)
        ensures
            r@.no_duplicates(),
            r@.to_set() == (if self@.contains_key(host_name@) {
                self@[host_name@].ports.dom()
            } else {
                Set::empty()
            }),
    {
        match self.connections.get(host_name) {
            Some(conn) => {
                assert(self@[host_name@] == conn@);
                remotes(&conn.forwarded_ports)
            },
            None => {
                let r: Vec<u16> = Vec::new();
                assert(r@.to_set() =~= Set::<u16>::empty());
                r
            },
        }
    }

    /// The port here to which a remote port is forwarded, if it is.
    pub fn forward_port(&self, host_name: &str, remote_port: u16) -> (r: Result<
        Option<u16>,
        SshError,
    >)
        ensures
            r == forwarded_to(self@, host_name@, remote_port),
    {
        match self.connections.get(host_name) {
            None => Err(SshError::NotConnected),
            Some(conn) => {
                assert(self@[host_name@] == conn@);
                match conn.forwarded_ports.get(&remote_port) {
                    Some(forward) => Ok(Some(forward.local)),
                    None => Ok(None),
                }
            },
        }
    }

    /// The command that forwards a remote port to a port here.
    pub fn forward_command(&self, host_name: &str, local_port: u16, remote_port: u16) -> (r: Result<
        CommandLine,
        SshError,
    >)
        ensures
            if !self@.contains_key(host_name@) {
                r == Err::<CommandLine, SshError>(SshError::NotConnected)
            } else {
                match self@[host_name@].host.ssh_target {
                    Some(target) => r matches Ok(c) && c@ == forward_command_of(
                        self@[host_name@],
                        target@,
                        local_port,
                        remote_port,
                    ),
                    None => r == Err::<CommandLine, SshError>(SshError::NoTarget),
                }
            },
    {
        match self.connections.get(host_name) {
            None => Err(SshError::NotConnected),
            Some(conn) => {
                assert(self@[host_name@] == conn@);
                match &conn.host_config.ssh_target {
                    None => Err(SshError::NoTarget),
                    Some(target) => {
                        let mut args: Vec<String> = Vec::new();
                        push_text(&mut args, "-o");
                        push_text(
                            &mut args,
                            concat2("ControlPath=", conn.control_path.as_str()).as_str(),
                        );
                        push_text(&mut args, "-o");
                        push_text(&mut args, "ControlMaster=no");
                        push_text(&mut args, "-L");
                        let ports = concat3(
                            number_text(local_port as u64).as_str(),
                            ":localhost:",
                            number_text(remote_port as u64).as_str(),
                        );
                        push_text(&mut args, ports.as_str());
                        push_text(&mut args, "-N");
                        push_text(&mut args, target.as_str());
                        let r = CommandLine { program: "ssh".to_string(), args };
                        assert(r@.args =~= forward_command_of(
                            conn@,
                            target@,
                            local_port,
                            remote_port,
                        ).args);
                        Ok(r)
                    },
                }
            },
        }
    }

    /// Keeps in mind that a remote port is forwarded.
    pub fn record_forward(&mut self, host_name: &str, remote_port: u16, forward: Forward)
        ensures
            final(self)@ == with_forward(old(self)@, host_name@, remote_port, forward),
    {
        let ghost before = self.connections@;
        match self.connections.remove(host_name) {
            Some(found) => {
                let ghost old_conn = found@;
                let mut conn = found;
                conn.forwarded_ports.insert(remote_port, forward);
                assert(conn@ =~= ConnView {
                    ports: old_conn.ports.insert(remote_port, forward),
                    ..old_conn
                });
                self.put(host_name.to_string(), conn);
                assert(self@ =~= conn_views(before).insert(host_name@, conn@));
            },
            None => {
                assert(self@ =~= conn_views(before));
            },
        }
    }

    /// Forgets that a remote port is forwarded; gives the process to end.
    pub fn unforward_port(&mut self, host_name: &str, remote_port: u16) -> (r: Option<u32>)
        ensures
            final(self)@ == without_forward(old(self)@, host_name@, remote_port),
            r == (if old(self)@.contains_key(host_name@)
                && old(self)@[host_name@].ports.contains_key(remote_port) {
                old(self)@[host_name@].ports[remote_port].pid
            } else {
                None
            }),
    {
        let ghost before = self.connections@;
        match self.connections.remove(host_name) {
            Some(found) => {
                let ghost old_conn = found@;
                let mut conn = found;
                let taken = conn.forwarded_ports.remove(&remote_port);
                assert(conn@ =~= ConnView { ports: old_conn.ports.remove(remote_port), ..old_conn });
                self.put(host_name.to_string(), conn);
                assert(self@ =~= conn_views(before).insert(host_name@, conn@));
                match taken {
                    Some(forward) => forward.pid,
                    None => None,
                }
            },
            None => {
                assert(self@ =~= conn_views(before));
                None
            },
        }
    }

    /// Forgets the connection to a host; gives what is to be cleaned up.
    pub fn disconnect(&mut self, host_name: &str) -> (r: Option<Disconnect>)
        ensures
            final(self)@ == old(self)@.remove(host_name@),
            if old(self)@.contains_key(host_name@) {
                let conn = old(self)@[host_name@];
                r matches Some(d) && lists_pids(d.pids@, conn.ports) && d.control_path@
                    == conn.control_path && (match conn.host.ssh_target {
                    Some(target) => d.exit_command matches Some(c) && c@ == control_command(
                        conn.control_path,
                        "exit"@,
                        target@,
                    ),
                    None => d.exit_command is None,
                })
            } else {
                r is None
            },
    {
        let ghost before = self.connections@;
        match self.connections.remove(host_name) {
            Some(conn) => {
                assert(self@ =~= conn_views(before).remove(host_name@));
                let exit_command = match &conn.host_config.ssh_target {
                    Some(target) => Some(
                        control_command_for(conn.control_path.as_str(), "exit", target.as_str()),
                    ),
                    None => None,
                };
                Some(
                    Disconnect {
                        pids: pids(&conn.forwarded_ports),
                        exit_command,
                        control_path: conn.control_path,
                    },
                )
            },
            None => {
                assert(self@ =~= conn_views(before).remove(host_name@));
                None
            },
        }
    }

    /// The names of the connected hosts, each once, in some order.
    pub fn connected_hosts(&self) -> (r: Vec<String>)
        ensures
            strings(r@).no_duplicates(),
            strings(r@).to_set() == self@.dom(),
    {
        let n: usize = self.connections.len();
        let mut out: Vec<String> = Vec::new();
        let ghost e = self.connections.listed();
        for i in 0..n
            invariant
                n == e.len(),
                e == self.connections.listed(),
                out@.len() == i,
                forall|j: int| 0 <= j < i ==> (#[trigger] out@[j])@ == e[j].0@,
        {
            out.push(self.connections.at(i).0.clone());
        }
        let ghost names = strings(out@);
        assert forall|a: int, b: int| 0 <= a < b < names.len() implies names[a] != names[b] by {
            assert(out@[a]@ == e[a].0@);
            assert(out@[b]@ == e[b].0@);
        }
        assert forall|k: Seq<char>| names.to_set().contains(k) == self@.dom().contains(k) by {
            if names.to_set().contains(k) {
                let a = choose|a: int| 0 <= a < names.len() && names[a] == k;
                assert(out@[a]@ == e[a].0@);
                assert(map_of(e).contains_key(k));
            }
            if self@.dom().contains(k) {
                assert(map_of(e).contains_key(k));
                let a = choose|a: int| 0 <= a < e.len() && (#[trigger] e[a]).0@ == k;
                assert(out@[a]@ == k);
                assert(names[a] == k);
            }
        }
        assert(names.to_set() =~= self@.dom());
        out
    }
}

impl Default for SshManager {
    fn default() -> (r: SshManager)
        ensures
            r@ == Map::<Seq<char>, ConnView>::empty(),
    {
        SshManager::new()
    }
}

/// What is to be cleaned up of a connection: processes to end, a command to run,
/// and a socket to remove.
pub struct Disconnect {
    pub pids: Vec<u32>,
    pub exit_command: Option<CommandLine>,
    pub control_path: String,
}

// ---------------------------------------------------------------------------
// Results of commands
// ---------------------------------------------------------------------------

/// How a command on a host ended.
pub enum ExecRun {
    TimedOut,
    /// It could not be run.
    NotRun,
    Exited { success: bool, stdout: String, stderr: String },
}

/// What a command on a host gave, or the error in words.
pub open spec fn exec_result(host: Seq<char>, run: ExecRun) -> Result<Seq<char>, Seq<char>> {
    match run {
        ExecRun::TimedOut => Err("SSH exec timed out"@),
        ExecRun::NotRun => Err("SSH exec failed on "@ + host),
        ExecRun::Exited { success, stdout, stderr } => if success {
            Ok(stdout@)
        } else {
            Err("SSH command failed on "@ + host + ": "@ + stderr@)
        },
    }
}

/// The view of a text or an error in words.
pub open spec fn text_result(r: Result<String, String>) -> Result<Seq<char>, Seq<char>> {
    match r {
        Ok(t) => Ok(t@),
        Err(e) => Err(e@),
    }
}

/// What a command on a host gave, or the error in words.
pub fn exec_outcome(host_name: &str, run: ExecRun) -> (r: Result<String, String>)
    ensures
        text_result(r) == exec_result(host_name@, run),
{
    match run {
        ExecRun::TimedOut => Err("SSH exec timed out".to_string()),
        ExecRun::NotRun => Err(concat2("SSH exec failed on ", host_name)),
        ExecRun::Exited { success, stdout, stderr } => {
            if success {
                Ok(stdout)
            } else {
                Err(concat4("SSH command failed on ", host_name, ": ", stderr.as_str()))
            }
        },
    }
}

/// How the check of a connection begins.
pub enum CheckStart {
    /// There is no such host, in words.
    Unknown(String),
    /// The host is this one; the report.
    Local(String),
    /// A connection is set up; what is said before.
    Connect(String),
}

/// How the check of a connection begins.
pub fn ssh_check_start(host_name: &str, config: &Config) -> (r: CheckStart)
    ensures
        match host_named(config.hosts@, host_name@, 0) {
            None => r matches CheckStart::Unknown(e) && e@ == "Host '"@ + host_name@
                + "' not found in config"@,
            Some(i) => match config.hosts@[i as int].ssh_target {
                None => r matches CheckStart::Local(t) && t@
                    == "{\"connected\": true, \"reason\": \"local host (no SSH needed)\"}"@,
                Some(target) => r matches CheckStart::Connect(t) && t@ == "Connecting to "@
                    + host_name@ + " ("@ + target@ + ")..."@,
            },
        },
{
    match find_host(config, host_name) {
        None => CheckStart::Unknown(concat3("Host '", host_name, "' not found in config")),
        Some(host) => match &host.ssh_target {
            None => CheckStart::Local(
                "{\"connected\": true, \"reason\": \"local host (no SSH needed)\"}".to_string(),
            ),
            Some(target) => CheckStart::Connect(
                concat5("Connecting to ", host_name, " (", target.as_str(), ")..."),
            ),
        },
    }
}

/// How the check of a connection ended.
pub enum CheckRun {
    /// The connection could not be set up.
    NotConnected(String),
    /// The test command failed.
    ExecFailed(String),
    /// The test command gave an output.
    Connected(String),
}

/// The report on a connection.
pub open spec fn check_report(host: Seq<char>, run: CheckRun) -> Seq<char> {
    match run {
        CheckRun::NotConnected(error) => "{\"connected\": false, \"error\": \""@ + error@ + "\"}"@,
        CheckRun::ExecFailed(error) => "{\"connected\": false, \"error\": \"exec failed: "@
            + error@ + "\"}"@,
        CheckRun::Connected(output) => "{\"connected\": true, \"exec_test\": \""@ + trim(output@)
            + "\", \"control_path\": \""@ + control_path_of(host) + "\"}"@,
    }
}

/// The report on a connection.
pub fn debug_ssh_check(host_name: &str, run: CheckRun) -> (r: String)
    ensures
        r@ == check_report(host_name@, run),
{
    match run {
        CheckRun::NotConnected(error) => concat3(
            "{\"connected\": false, \"error\": \"",
            error.as_str(),
            "\"}",
        ),
        CheckRun::ExecFailed(error) => concat3(
            "{\"connected\": false, \"error\": \"exec failed: ",
            error.as_str(),
            "\"}",
        ),
        CheckRun::Connected(output) => {
            let chars = chars_of(output.as_str());
            let trimmed = string_of(&trim_white(&chars));
            let path = control_path(host_name);
            concat5(
                "{\"connected\": true, \"exec_test\": \"",
                trimmed.as_str(),
                "\", \"control_path\": \"",
                path.as_str(),
                "\"}",
            )
        },
    }
}

// ---------------------------------------------------------------------------
// Laws
// ---------------------------------------------------------------------------

/// Once a connection is taken over, commands can be run on its host if the host
/// has a target, and the other connections are as before.
pub proof fn law_connected_host_takes_commands(
    conns: Map<Seq<char>, ConnView>,
    host: HostConfig,
    interactive: bool,
    command: Option<Seq<char>>,
)
    ensures
        ({
            let after = conns.insert(host.name@, fresh_connection(host));
            &&& host.ssh_target is Some ==> command_args(
                after,
                host.name@,
                interactive,
                command,
            ) is Ok
            &&& forall|other: Seq<char>|
                other != host.name@ ==> #[trigger] command_args(after, other, interactive, command)
                    == command_args(conns, other, interactive, command)
        }),
{
}

/// Host names of at most twenty characters have sockets of their own.
pub proof fn law_short_names_have_own_sockets(a: Seq<char>, b: Seq<char>)
    requires
        a.len() <= 20,
        b.len() <= 20,
        control_path_of(a) == control_path_of(b),
    ensures
        a == b,
{
    let head = "/tmp/ocw-"@;
    assert(a =~= control_path_of(a).skip(head.len() as int));
    assert(b =~= control_path_of(b).skip(head.len() as int));
}

/// What happens to connections.
pub enum ConnStep {
    /// The setting up of a connection is started.
    Connect { host: HostConfig, alive: bool },
    /// A connection is taken over.
    Finish { host: HostConfig },
    /// A remote port is asked for, and is forwarded where it was not.
    Forward { host: Seq<char>, remote: u16, forward: Forward },
    /// A remote port is no longer forwarded.
    Unforward { host: Seq<char>, remote: u16 },
    /// A connection ends.
    Disconnect { host: Seq<char> },
}

/// The connections after something happened to them.
pub open spec fn after_conn_step(conns: Map<Seq<char>, ConnView>, step: ConnStep) -> Map<
    Seq<char>,
    ConnView,
> {
    match step {
        ConnStep::Connect { host, alive } => connect_start(conns, host, alive),
        ConnStep::Finish { host } => conns.insert(host.name@, fresh_connection(host)),
        ConnStep::Forward { host, remote, forward } => if forwarded_to(conns, host, remote)
            == Ok::<Option<u16>, SshError>(None) {
            with_forward(conns, host, remote, forward)
        } else {
            conns
        },
        ConnStep::Unforward { host, remote } => without_forward(conns, host, remote),
        ConnStep::Disconnect { host } => conns.remove(host),
    }
}

/// The connections after things happened to them, one after the other.
pub open spec fn after_conn_steps(conns: Map<Seq<char>, ConnView>, steps: Seq<ConnStep>) -> Map<
    Seq<char>,
    ConnView,
>
    decreases steps.len(),
{
    if steps.len() == 0 {
        conns
    } else {
        after_conn_step(after_conn_steps(conns, steps.drop_last()), steps.last())
    }
}

/// Whether what happens neither ends the forwarding of a remote port nor takes
/// over or ends the connection to its host.
pub open spec fn spares_forward(step: ConnStep, name: Seq<char>, port: u16) -> bool {
    match step {
        ConnStep::Connect { .. } => true,
        ConnStep::Finish { host } => host.name@ != name,
        ConnStep::Forward { .. } => true,
        ConnStep::Unforward { host, remote } => host != name || remote != port,
        ConnStep::Disconnect { host } => host != name,
    }
}

/// A remote port that was forwarded stays forwarded to the same port here, however
/// often it is asked for and whatever else happens, until its forwarding is ended
/// or the connection to its host is taken over anew or ends.
pub proof fn law_forward_is_kept(
    conns: Map<Seq<char>, ConnView>,
    steps: Seq<ConnStep>,
    host: Seq<char>,
    remote: u16,
    local: u16,
)
    requires
        forwarded_to(conns, host, remote) == Ok::<Option<u16>, SshError>(Some(local)),
        forall|k: int| 0 <= k < steps.len() ==> spares_forward(#[trigger] steps[k], host, remote),
    ensures
        ({
            let after = after_conn_steps(conns, steps);
            &&& forwarded_to(after, host, remote) == Ok::<Option<u16>, SshError>(Some(local))
            &&& after[host].ports.dom().contains(remote)
            &&& after[host].ports[remote] == conns[host].ports[remote]
        }),
    decreases steps.len(),
{
    if steps.len() > 0 {
        let head = steps.drop_last();
        assert forall|k: int| 0 <= k < head.len() implies spares_forward(
            #[trigger] head[k],
            host,
            remote,
        ) by {
            assert(head[k] == steps[k]);
        }
        law_forward_is_kept(conns, head, host, remote, local);
        assert(spares_forward(steps[steps.len() - 1], host, remote));
    }
}

/// Forwarding a remote port of a connected host gives the port here to whoever
/// asks for it then, and asking again changes nothing.
pub proof fn law_forward_is_found(
    conns: Map<Seq<char>, ConnView>,
    host: Seq<char>,
    remote: u16,
    forward: Forward,
    again: Forward,
)
    requires
        conns.contains_key(host),
    ensures
        ({
            let after = with_forward(conns, host, remote, forward);
            &&& forwarded_to(after, host, remote) == Ok::<Option<u16>, SshError>(
                Some(forward.local),
            )
            &&& after_conn_step(after, ConnStep::Forward { host, remote, forward: again }) == after
            &&& after[host].ports.dom() == conns[host].ports.dom().insert(remote)
        }),
{
    let after = with_forward(conns, host, remote, forward);
    assert(after[host].ports.dom() =~= conns[host].ports.dom().insert(remote));
}

/// The port and the identity of a host go into the command where they are
/// configured, each behind its option, the port first.
pub proof fn law_options_as_configured(host: HostConfig)
    ensures
        ({
            let o = host_options(host);
            &&& host.ssh_port is None && host.ssh_identity is None ==> o.len() == 0
            &&& host.ssh_port matches Some(port) ==> o.len() >= 2 && o[0] == "-p"@ && o[1]
                == decimal(port as nat)
            &&& host.ssh_identity matches Some(identity) ==> o.len() >= 2 && o[o.len() - 2]
                == "-i"@ && o[o.len() - 1] == identity@
            &&& o.len() == (if host.ssh_port is Some {
                2int
            } else {
                0
            }) + (if host.ssh_identity is Some {
                2int
            } else {
                0
            })
        }),
{
}

/// A connection is set up by an ssh that runs no command, is shared through the
/// socket of the host, persists, gives up after ten seconds and keeps itself
/// alive; the options of the host follow, and its target is the last word.
pub proof fn law_master_is_shared_and_persists(host: HostConfig, target: Seq<char>)
    ensures
        ({
            let c = master_command(host, target);
            &&& c.program == "ssh"@
            &&& c.args.len() == 16 + host_options(host).len()
            &&& c.args.last() == target
            &&& c.args.subrange(15, c.args.len() - 1) == host_options(host)
            &&& forall|k: int| 0 <= k < 14 && k % 2 == 0 ==> #[trigger] c.args[k] == "-o"@
            &&& c.args[1] == "ControlMaster=auto"@
            &&& c.args[3] == "ControlPath="@ + control_path_of(host.name@)
            &&& c.args[5] == "ControlPersist=yes"@
            &&& c.args[7] == "ServerAliveInterval=30"@
            &&& c.args[9] == "ServerAliveCountMax=3"@
            &&& c.args[11] == "ConnectTimeout=10"@
            &&& c.args[13] == "StrictHostKeyChecking=accept-new"@
            &&& c.args[14] == "-N"@
        }),
{
    let c = master_command(host, target);
    assert(c.args.subrange(15, c.args.len() - 1) =~= host_options(host));
}

/// A command on a host goes through the connection that is set up: the target
/// comes behind all options and the command, if there is one, behind the target;
/// a terminal is asked for if and only if the command is interactive.
pub proof fn law_command_goes_through_the_connection(
    conn: ConnView,
    target: Seq<char>,
    interactive: bool,
    command: Option<Seq<char>>,
)
    ensures
        ({
            let args = remote_args(conn, target, interactive, command);
            let n = args.len();
            let options = host_options(conn.host);
            &&& args[0] == "-o"@ && args[1] == "ControlPath="@ + conn.control_path
            &&& args[2] == "-o"@ && args[3] == "ControlMaster=no"@
            &&& interactive ==> args[4] == "-t"@
            &&& command matches Some(c) ==> args[n - 1] == c && args[n - 2] == target
            &&& command is None ==> args[n - 1] == target
            &&& n == 5 + options.len() + (if interactive {
                1int
            } else {
                0
            }) + (if command is Some {
                1int
            } else {
                0
            })
            &&& interactive ==> args.subrange(5, 5int + options.len()) == options
            &&& !interactive ==> args.subrange(4, 4int + options.len()) == options
        }),
{
    let args = remote_args(conn, target, interactive, command);
    let options = host_options(conn.host);
    if interactive {
        assert(args.subrange(5, 5int + options.len()) =~= options);
    } else {
        assert(args.subrange(4, 4int + options.len()) =~= options);
    }
}

/// A command is refused for a host that is not connected, and for one without a
/// target; otherwise it is an ssh to the target of that host.
pub proof fn law_who_takes_commands(
    conns: Map<Seq<char>, ConnView>,
    host: Seq<char>,
    interactive: bool,
    command: Option<Seq<char>>,
)
    ensures
        ({
            let r = command_args(conns, host, interactive, command);
            &&& !conns.contains_key(host) ==> r == Err::<(Seq<char>, Seq<Seq<char>>), SshError>(
                SshError::NotConnected,
            )
            &&& conns.contains_key(host) && conns[host].host.ssh_target is None ==> r == Err::<
                (Seq<char>, Seq<Seq<char>>),
                SshError,
            >(SshError::NoTarget)
            &&& conns.contains_key(host) && conns[host].host.ssh_target is Some ==> (r matches Ok(
                (program, args),
            ) && program == "ssh"@ && args == remote_args(
                conns[host],
                conns[host].host.ssh_target->0@,
                interactive,
                command,
            ))
        }),
{
}

/// A port is forwarded from the port here to the same host's port there, through
/// the connection that is set up, without a command.
pub proof fn law_forward_from_here_to_there(
    conn: ConnView,
    target: Seq<char>,
    local: u16,
    remote: u16,
)
    ensures
        ({
            let c = forward_command_of(conn, target, local, remote);
            &&& c.program == "ssh"@
            &&& c.args.len() == 8
            &&& c.args[1] == "ControlPath="@ + conn.control_path
            &&& c.args[3] == "ControlMaster=no"@
            &&& c.args[4] == "-L"@
            &&& c.args[5] == decimal(local as nat) + ":localhost:"@ + decimal(remote as nat)
            &&& c.args[6] == "-N"@
            &&& c.args[7] == target
        }),
{
}

/// An order to a connection goes to its socket.
pub proof fn law_order_goes_to_the_socket(path: Seq<char>, order: Seq<char>, target: Seq<char>)
    ensures
        ({
            let c = control_command(path, order, target);
            &&& c.program == "ssh"@
            &&& c.args =~= seq!["-o"@, "ControlPath="@ + path, "-O"@, order, target]
        }),
{
}

/// A socket is named after the first twenty characters of the host's name.
pub proof fn law_socket_is_named_after_the_host(name: Seq<char>)
    ensures
        starts_with(control_path_of(name), "/tmp/ocw-"@),
        name.len() <= 20 ==> control_path_of(name) == "/tmp/ocw-"@ + name,
        name.len() > 20 ==> control_path_of(name) == "/tmp/ocw-"@ + name.subrange(0, 20),
{
    law_parts_are_seen(Seq::empty(), "/tmp/ocw-"@, take_chars(name, 20));
    if name.len() > 20 {
        assert(name.take(20) =~= name.subrange(0, 20));
    }
}

/// A host that is alive and not known yet is connected, with no port forwarded; a
/// connection that is known stays as it is, and no other host is touched.
pub proof fn law_connecting_spares_connections(
    conns: Map<Seq<char>, ConnView>,
    host: HostConfig,
    alive: bool,
    other: Seq<char>,
)
    ensures
        ({
            let after = connect_start(conns, host, alive);
            &&& conns.contains_key(other) ==> after.contains_key(other) && after[other]
                == conns[other]
            &&& !conns.contains_key(other) ==> (after.contains_key(other) <==> alive && other
                == host.name@)
            &&& alive && !conns.contains_key(host.name@) ==> after[host.name@].host == host
                && after[host.name@].ports == Map::<u16, Forward>::empty()
                && after[host.name@].control_path == control_path_of(host.name@)
        }),
{
}

/// A forward is known under its host and its remote port alone, and taking it away
/// takes nothing else.
pub proof fn law_one_forward_at_a_time(
    conns: Map<Seq<char>, ConnView>,
    host: Seq<char>,
    remote: u16,
    forward: Forward,
    name: Seq<char>,
    port: u16,
)
    requires
        conns.contains_key(host),
    ensures
        forwarded_to(with_forward(conns, host, remote, forward), host, remote) == Ok::<
            Option<u16>,
            SshError,
        >(Some(forward.local)),
        forwarded_to(without_forward(conns, host, remote), host, remote) == Ok::<
            Option<u16>,
            SshError,
        >(None),
        name != host || port != remote ==> forwarded_to(
            with_forward(conns, host, remote, forward),
            name,
            port,
        ) == forwarded_to(conns, name, port),
        name != host || port != remote ==> forwarded_to(
            without_forward(conns, host, remote),
            name,
            port,
        ) == forwarded_to(conns, name, port),
        !conns.contains_key(name) ==> forwarded_to(conns, name, port) == Err::<
            Option<u16>,
            SshError,
        >(SshError::NotConnected),
{
}

/// A command on a host gives its output if and only if it ran and succeeded;
/// otherwise the error says what went wrong, and where.
pub proof fn law_command_gives_its_output(host: Seq<char>, run: ExecRun)
    ensures
        match run {
            ExecRun::Exited { success, stdout, stderr } => {
                &&& success ==> exec_result(host, run) == Ok::<Seq<char>, Seq<char>>(stdout@)
                &&& !success ==> exec_result(host, run) == Err::<Seq<char>, Seq<char>>(
                    "SSH command failed on "@ + host + ": "@ + stderr@,
                )
            },
            ExecRun::TimedOut => exec_result(host, run) == Err::<Seq<char>, Seq<char>>(
                "SSH exec timed out"@,
            ),
            ExecRun::NotRun => exec_result(host, run) == Err::<Seq<char>, Seq<char>>(
                "SSH exec failed on "@ + host,
            ),
        },
{
}

/// A check reports a connection if and only if the test command ran, with what it
/// put out; else it reports the error.
pub proof fn law_check_reports_the_connection(host: Seq<char>, run: CheckRun)
    ensures
        match run {
            CheckRun::Connected(output) => check_report(host, run)
                == "{\"connected\": true, \"exec_test\": \""@ + trim(output@)
                + "\", \"control_path\": \""@ + control_path_of(host) + "\"}"@,
            CheckRun::NotConnected(error) => starts_with(
                check_report(host, run),
                "{\"connected\": false, \"error\": \""@ + error@,
            ),
            CheckRun::ExecFailed(error) => starts_with(
                check_report(host, run),
                "{\"connected\": false, \"error\": \"exec failed: "@ + error@,
            ),
        },
{
    match run {
        CheckRun::NotConnected(error) => {
            let head = "{\"connected\": false, \"error\": \""@ + error@;
            law_parts_are_seen(Seq::empty(), head, "\"}"@);
        },
        CheckRun::ExecFailed(error) => {
            let head = "{\"connected\": false, \"error\": \"exec failed: "@ + error@;
            law_parts_are_seen(Seq::empty(), head, "\"}"@);
        },
        _ => {},
    }
}

/// An error tells which host it is about.
pub proof fn law_errors_name_the_host(host: Seq<char>)
    ensures
        error_text(SshError::NotConnected, host) == "Not connected to "@ + host,
        error_text(SshError::NoTarget, host) == "No ssh_target for "@ + host,
{
}

/// A socket is ready if and only if it is there; else it is asked for again every
/// fifth of a second for ten seconds, and then it is too late.
pub proof fn law_socket_takes_ten_seconds(exists: bool, waited_ms: u64)
    ensures
        socket_step(exists, waited_ms) == SocketWait::Ready <==> exists,
        socket_step(exists, waited_ms) == SocketWait::TooLate <==> !exists && waited_ms >= 10_001,
        socket_step(exists, waited_ms) matches SocketWait::Again(ms) ==> ms == 200 && waited_ms
            <= 10_000,
{
}

} // verus!
