//! Settings that decide which tools are offered, and where the daemon keeps
//! its files.
use vstd::prelude::*;

use vstd::utf8::encode_utf8;
use crate::tools::Tool;

verus! {

/// When suggestions appear.
#[derive(Debug, Clone, Copy, PartialEq, Eq, Structural)]
pub enum Trigger {
    /// While typing.
    Auto,
    /// On Tab.
    Tab,
}

impl Default for Trigger {
    fn default() -> (r: Self)
        ensures
            r == Trigger::Auto,
    {
        Trigger::Auto
    }
}

/// Which tools are enabled.
#[derive(Debug, Clone, Copy, PartialEq, Eq, Structural)]
pub struct ToolsConfig {
    pub pnpm: bool,
    pub npm: bool,
    pub yarn: bool,
    pub bun: bool,
    pub make: bool,
    pub docker_compose: bool,
    pub cargo: bool,
}

impl Default for ToolsConfig {
    fn default() -> (r: Self)
        ensures
            forall|t: Tool| r.enabled(t),
    {
        ToolsConfig {
            pnpm: true,
            npm: true,
            yarn: true,
            bun: true,
            make: true,
            docker_compose: true,
            cargo: true,
        }
    }
}

impl ToolsConfig {
    pub open spec fn enabled(self, tool: Tool) -> bool {
        match tool {
            Tool::Pnpm => self.pnpm,
            Tool::Npm => self.npm,
            Tool::Yarn => self.yarn,
            Tool::Bun => self.bun,
            Tool::Make => self.make,
            Tool::DockerCompose => self.docker_compose,
            Tool::Cargo => self.cargo,
        }
    }

    pub fn is_tool_enabled(&self, tool: Tool) -> (r: bool)
        ensures
            r == self.enabled(tool),
    {
        match tool {
            Tool::Pnpm => self.pnpm,
            Tool::Npm => self.npm,
            Tool::Yarn => self.yarn,
            Tool::Bun => self.bun,
            Tool::Make => self.make,
            Tool::DockerCompose => self.docker_compose,
            Tool::Cargo => self.cargo,
        }
    }
}

/// Each tool is enabled by its own setting: pnpm, npm, yarn, bun, make,
/// docker_compose and cargo.
pub proof fn law_each_tool_has_its_setting(c: ToolsConfig)
    ensures
        c.enabled(Tool::Pnpm) == c.pnpm,
        c.enabled(Tool::Npm) == c.npm,
        c.enabled(Tool::Yarn) == c.yarn,
        c.enabled(Tool::Bun) == c.bun,
        c.enabled(Tool::Make) == c.make,
        c.enabled(Tool::DockerCompose) == c.docker_compose,
        c.enabled(Tool::Cargo) == c.cargo,
{
}

/// The user's home directory as `dirs::home_dir` finds it (from the
/// environment or the password database), as the bytes of the path
/// (`OsString::into_encoded_bytes`, the path's own bytes on Unix), so that
/// a home directory that is not UTF-8 is kept as it is. Nothing is claimed
/// of the result: it depends on the environment.
#[verifier::external_body]
fn home_dir() -> (r: Option<Vec<u8>>) {
    match dirs::home_dir() {
        Some(p) => Some(p.into_os_string().into_encoded_bytes()),
        None => None,
    }
}

/// `dir` joined with the relative name `name`, as bytes (`Path::join`).
pub open spec fn join_bytes(dir: Seq<u8>, name: Seq<u8>) -> Seq<u8> {
    if dir.len() == 0 {
        name
    } else if dir.last() == 0x2fu8 {
        dir + name
    } else {
        dir + seq![0x2fu8] + name
    }
}

fn join_path_bytes(dir: &[u8], name: &str) -> (r: Vec<u8>)
    ensures
        r@ == join_bytes(dir@, encode_utf8(name@)),
{
    let mut out: Vec<u8> = Vec::new();
    let mut i: usize = 0;
    while i < dir.len()
        invariant
            i <= dir@.len(),
            out@ == dir@.take(i as int),
        decreases dir@.len() - i,
    {
        out.push(dir[i]);
        i += 1;
        assert(out@ =~= dir@.take(i as int));
    }
    assert(dir@.take(dir@.len() as int) =~= dir@);
    if dir.len() > 0 && dir[dir.len() - 1] != 0x2f {
        out.push(0x2f);
    }
    let ghost head = out@;
    let b = name.as_bytes();
    let mut j: usize = 0;
    while j < b.len()
        invariant
            j <= b@.len(),
            b@ == encode_utf8(name@),
            out@ == head + b@.take(j as int),
        decreases b@.len() - j,
    {
        out.push(b[j]);
        j += 1;
        assert(out@ =~= head + b@.take(j as int));
    }
    assert(b@.take(b@.len() as int) =~= b@);
    assert(out@ =~= join_bytes(dir@, encode_utf8(name@)));
    out
}

/// `~/.peek` for the home directory `home`.
pub open spec fn spec_data_dir(home: Seq<u8>) -> Seq<u8> {
    join_bytes(home, encode_utf8(".peek"@))
}

/// `~/.peek/peek.sock` for the home directory `home`.
pub open spec fn spec_socket_path(home: Seq<u8>) -> Seq<u8> {
    join_bytes(spec_data_dir(home), encode_utf8("peek.sock"@))
}

/// `~/.peek/peekd.pid` for the home directory `home`.
pub open spec fn spec_pid_path(home: Seq<u8>) -> Seq<u8> {
    join_bytes(spec_data_dir(home), encode_utf8("peekd.pid"@))
}

/// `~/.peek/logs` for the home directory `home`.
pub open spec fn spec_log_dir(home: Seq<u8>) -> Seq<u8> {
    join_bytes(spec_data_dir(home), encode_utf8("logs"@))
}

/// The peek data directory in the home directory `home` (the bytes of a
/// path).
pub fn data_dir_in(home: &[u8]) -> (r: Vec<u8>)
    ensures
        r@ == spec_data_dir(home@),
{
    join_path_bytes(home, ".peek")
}

/// The socket file for the home directory `home`.
pub fn socket_path_in(home: &[u8]) -> (r: Vec<u8>)
    ensures
        r@ == spec_socket_path(home@),
{
    let d = data_dir_in(home);
    join_path_bytes(d.as_slice(), "peek.sock")
}

/// The PID file for the home directory `home`.
pub fn pid_path_in(home: &[u8]) -> (r: Vec<u8>)
    ensures
        r@ == spec_pid_path(home@),
{
    let d = data_dir_in(home);
    join_path_bytes(d.as_slice(), "peekd.pid")
}

/// The log directory for the home directory `home`.
pub fn log_dir_in(home: &[u8]) -> (r: Vec<u8>)
    ensures
        r@ == spec_log_dir(home@),
{
    let d = data_dir_in(home);
    join_path_bytes(d.as_slice(), "logs")
}

/// The peek data directory (`~/.peek`), as the bytes of a path; `None` when
/// there is no home directory.
pub fn data_dir() -> (r: Option<Vec<u8>>)
    ensures
        r matches Some(d) ==> exists|h: Seq<u8>| d@ == spec_data_dir(h),
{
    match home_dir() {
        Some(h) => Some(data_dir_in(h.as_slice())),
        None => None,
    }
}

/// Returns the path to the socket file (`~/.peek/peek.sock`); `None` when
/// there is no home directory.
pub fn socket_path() -> (r: Option<Vec<u8>>)
    ensures
        r matches Some(p) ==> exists|h: Seq<u8>| p@ == spec_socket_path(h),
{
    match home_dir() {
        Some(h) => Some(socket_path_in(h.as_slice())),
        None => None,
    }
}

/// Returns the path to the PID file (`~/.peek/peekd.pid`); `None` when
/// there is no home directory.
pub fn pid_path() -> (r: Option<Vec<u8>>)
    ensures
        r matches Some(p) ==> exists|h: Seq<u8>| p@ == spec_pid_path(h),
{
    match home_dir() {
        Some(h) => Some(pid_path_in(h.as_slice())),
        None => None,
    }
}

/// Returns the path to the log directory (`~/.peek/logs`); `None` when
/// there is no home directory.
pub fn log_dir() -> (r: Option<Vec<u8>>)
    ensures
        r matches Some(p) ==> exists|h: Seq<u8>| p@ == spec_log_dir(h),
{
    match home_dir() {
        Some(h) => Some(log_dir_in(h.as_slice())),
        None => None,
    }
}

} // verus!
