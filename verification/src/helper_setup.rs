//! Making sure the remote helper runs, step by step: create its
//! directories, probe the platform and the installed version, install the
//! right binary where needed, reuse a healthy running helper or start one,
//! then wait for its port file and for it to answer with the expected
//! version.
//!
//! The decisions are a state machine: [`setup_begin`] gives the first
//! action, and [`setup_step`] the next state and action from the current
//! state and the outcome of the last action. The caller performs the
//! actions (SSH commands, uploads, HTTP probes, sleeps) and feeds back what
//! happened, until the action is [`SetupAction::Finish`].

use vstd::prelude::*;
use crate::text::{trim, decimal, push_str, push_decimal, chars_to_string};
use crate::helper::{
    RemotePlatform, spec_parse_remote_platform, spec_parse_helper_version, spec_parse_u16, spec_start_command,
    upload_path, parse_remote_platform, parse_helper_version, parse_port_file, start_command, install_command,
    port_probe_command, needs_install, helper_version_url, helper_download_url, helper_name, triple_of,
};

verus! {

/// How often the port file is read, a second apart, before giving up.
pub const PORT_ATTEMPTS: u32 = 10;

/// How often a found helper is asked for its version, half a second apart,
/// before giving up.
pub const PROBE_ATTEMPTS: u32 = 10;

/// Where the setup stands, waiting for the outcome of its last action.
#[derive(Debug, Clone, Copy, PartialEq, Eq, Structural)]
pub enum SetupState {
    /// The state and bin directories are being created.
    MakingDirs,
    /// `uname` is being asked for the platform.
    DetectingPlatform,
    /// The installed helper is being asked for its version.
    ReadingVersion(RemotePlatform),
    /// The helper binary for the platform is being obtained locally.
    LoadingBinary(RemotePlatform),
    /// The binary is being uploaded.
    Uploading,
    /// The uploaded binary is being moved into place.
    Installing,
    /// The port file of an already running helper is being read.
    ReadingOldPort,
    /// The helper on this port is being asked for its version.
    CheckingOld(u16),
    /// The helper is being started.
    Starting,
    /// A second's grace before the first look at the port file.
    FirstWait,
    /// The port file is being read (attempt number).
    ReadingPort(u32),
    /// A second's pause after a missing port file (attempt number).
    WaitingPort(u32),
    /// The helper on this port is being asked for its version (attempt number).
    Probing(u16, u32),
    /// Half a second's pause after a failed probe (attempt number).
    WaitingProbe(u16, u32),
    /// The setup is over.
    Finished,
}

/// What the caller does next.
#[derive(Debug)]
pub enum SetupAction {
    /// Run this shell command on the remote host; answer with its output.
    Run(String),
    /// Obtain the helper binary for this platform (cache, local build or
    /// download); answer with success or the error.
    LoadBinary(RemotePlatform),
    /// Upload the obtained binary to this remote path; answer with success
    /// or the error.
    Upload(String),
    /// Ask this URL for the helper's version; answer whether it is the
    /// expected one.
    Probe(String),
    /// Sleep this many milliseconds.
    Sleep(u64),
    /// The setup is over: the helper's port, or why it failed.
    Finish(Result<u16, String>),
}

/// What happened to the last action.
#[derive(Debug)]
pub enum SetupEvent {
    /// A command, load or upload ended: its output (empty for a load or an
    /// upload), or its error.
    Done(Result<String, String>),
    /// A probe answered: whether the version was the expected one.
    Healthy(bool),
    /// A sleep ended.
    Slept,
}

/// The mathematical content of a [`SetupAction`].
pub enum SetupActionModel {
    Run(Seq<char>),
    LoadBinary(RemotePlatform),
    Upload(Seq<char>),
    Probe(Seq<char>),
    Sleep(u64),
    Finish(Result<u16, Seq<char>>),
}

/// The mathematical content of a [`SetupEvent`].
pub enum SetupEventModel {
    Done(Result<Seq<char>, Seq<char>>),
    Healthy(bool),
    Slept,
}

impl View for SetupAction {
    type V = SetupActionModel;

    open spec fn view(&self) -> SetupActionModel {
        match self {
            SetupAction::Run(c) => SetupActionModel::Run(c@),
            SetupAction::LoadBinary(p) => SetupActionModel::LoadBinary(*p),
            SetupAction::Upload(p) => SetupActionModel::Upload(p@),
            SetupAction::Probe(u) => SetupActionModel::Probe(u@),
            SetupAction::Sleep(ms) => SetupActionModel::Sleep(*ms),
            SetupAction::Finish(Ok(p)) => SetupActionModel::Finish(Ok(*p)),
            SetupAction::Finish(Err(e)) => SetupActionModel::Finish(Err(e@)),
        }
    }
}

impl View for SetupEvent {
    type V = SetupEventModel;

    open spec fn view(&self) -> SetupEventModel {
        match self {
            SetupEvent::Done(Ok(o)) => SetupEventModel::Done(Ok(o@)),
            SetupEvent::Done(Err(e)) => SetupEventModel::Done(Err(e@)),
            SetupEvent::Healthy(b) => SetupEventModel::Healthy(*b),
            SetupEvent::Slept => SetupEventModel::Slept,
        }
    }
}

// ---------------------------------------------------------------------------
// The commands and messages
// ---------------------------------------------------------------------------

/// Creates the helper's state and bin directories.
pub open spec fn mkdir_command() -> Seq<char> {
    "mkdir -p ~/.local/state/zelland ~/bin"@
}

/// Prints the operating system and the architecture, a line each.
pub open spec fn platform_command() -> Seq<char> {
    "uname -s && uname -m"@
}

/// Prints the installed helper's version, or nothing.
pub open spec fn version_command() -> Seq<char> {
    "if [ -x \"$HOME/bin/zlnd\" ]; then \"$HOME/bin/zlnd\" --version; fi"@
}

/// Prints the helper's port file, or nothing.
pub open spec fn port_command() -> Seq<char> {
    "cat ~/.local/state/zelland/zlnd.port 2>/dev/null || true"@
}

/// Moves the uploaded binary into place.
pub open spec fn install_cmd() -> Seq<char> {
    "chmod 755 "@ + upload_path() + " && mv "@ + upload_path() + " ~/bin/zlnd"@
}

/// Where the helper on `port` of `host` tells its version.
pub open spec fn version_url(host: Seq<char>, port: u16) -> Seq<char> {
    "http://"@ + host + ":"@ + decimal(port as nat) + "/api/v1/meta/version"@
}

/// The port in the output of the port-file command; none where the command
/// failed or printed no port.
pub open spec fn port_in(r: Result<Seq<char>, Seq<char>>) -> Option<u16> {
    match r {
        Ok(out) => spec_parse_u16(trim(out)),
        Err(_) => None,
    }
}

/// The error where no port file appeared.
pub open spec fn no_port_file_error() -> Seq<char> {
    "Remote helper did not write port file after 10 s \u{2014} check ~/.local/state/zelland/zlnd.log on the remote host"@
}

/// The error where the helper on `port` never answered with the expected
/// version.
pub open spec fn unhealthy_error(port: u16) -> Seq<char> {
    "Remote helper started on port "@ + decimal(port as nat)
        + " but did not become healthy \u{2014} check ~/.local/state/zelland/zlnd.log on the remote host"@
}

// ---------------------------------------------------------------------------
// The machine
// ---------------------------------------------------------------------------

/// The attempt counters of `s` are in range.
pub open spec fn setup_wf(s: SetupState) -> bool {
    match s {
        SetupState::ReadingPort(k) => k < PORT_ATTEMPTS,
        SetupState::WaitingPort(k) => k < PORT_ATTEMPTS,
        SetupState::Probing(_, k) => k < PROBE_ATTEMPTS,
        SetupState::WaitingProbe(_, k) => k < PROBE_ATTEMPTS,
        _ => true,
    }
}

/// The kind of outcome that the action of the state `s` has.
pub open spec fn expects(s: SetupState, e: SetupEventModel) -> bool {
    match s {
        SetupState::CheckingOld(_) => e is Healthy,
        SetupState::Probing(_, _) => e is Healthy,
        SetupState::FirstWait => e is Slept,
        SetupState::WaitingPort(_) => e is Slept,
        SetupState::WaitingProbe(_, _) => e is Slept,
        SetupState::Finished => false,
        _ => e is Done,
    }
}

/// The setup fails with `m`.
pub open spec fn fail(m: Seq<char>) -> (SetupState, SetupActionModel) {
    (SetupState::Finished, SetupActionModel::Finish(Err(m)))
}

/// Start the helper; after an install, kill a running one first.
pub open spec fn start(force_restart: bool) -> (SetupState, SetupActionModel) {
    (SetupState::Starting, SetupActionModel::Run(spec_start_command(force_restart)))
}

/// Look for the port file, attempt `k`.
pub open spec fn read_port(k: u32) -> (SetupState, SetupActionModel) {
    (SetupState::ReadingPort(k), SetupActionModel::Run(port_command()))
}

/// Ask the helper on `port` of `host` for its version, attempt `k`.
pub open spec fn probe(host: Seq<char>, port: u16, k: u32) -> (SetupState, SetupActionModel) {
    (SetupState::Probing(port, k), SetupActionModel::Probe(version_url(host, port)))
}

/// The next state and action after the outcome `e` of the action of `s`,
/// on the host `host`, where the helper of version `expected` is wanted.
/// A failed command, load or upload ends the setup with its error, except
/// a failed read of the port file, which counts as no port file.
pub open spec fn next_step(s: SetupState, e: SetupEventModel, host: Seq<char>, expected: Seq<char>) -> (
    SetupState,
    SetupActionModel,
) {
    match s {
        SetupState::MakingDirs => match e {
            SetupEventModel::Done(Err(m)) => fail(m),
            _ => (SetupState::DetectingPlatform, SetupActionModel::Run(platform_command())),
        },
        SetupState::DetectingPlatform => match e {
            SetupEventModel::Done(Ok(out)) => match spec_parse_remote_platform(out) {
                Ok(p) => (SetupState::ReadingVersion(p), SetupActionModel::Run(version_command())),
                Err(m) => fail(m),
            },
            SetupEventModel::Done(Err(m)) => fail(m),
            _ => fail(Seq::empty()),
        },
        SetupState::ReadingVersion(p) => match e {
            SetupEventModel::Done(Ok(out)) => if spec_parse_helper_version(out) == Some(expected) {
                (SetupState::ReadingOldPort, SetupActionModel::Run(port_command()))
            } else {
                (SetupState::LoadingBinary(p), SetupActionModel::LoadBinary(p))
            },
            SetupEventModel::Done(Err(m)) => fail(m),
            _ => fail(Seq::empty()),
        },
        SetupState::LoadingBinary(_) => match e {
            SetupEventModel::Done(Err(m)) => fail(m),
            _ => (SetupState::Uploading, SetupActionModel::Upload(upload_path())),
        },
        SetupState::Uploading => match e {
            SetupEventModel::Done(Err(m)) => fail(m),
            _ => (SetupState::Installing, SetupActionModel::Run(install_cmd())),
        },
        SetupState::Installing => match e {
            SetupEventModel::Done(Err(m)) => fail(m),
            _ => start(true),
        },
        SetupState::ReadingOldPort => match e {
            SetupEventModel::Done(r) => match port_in(r) {
                Some(port) => (SetupState::CheckingOld(port), SetupActionModel::Probe(version_url(host, port))),
                None => start(false),
            },
            _ => start(false),
        },
        SetupState::CheckingOld(port) => match e {
            SetupEventModel::Healthy(true) => (SetupState::Finished, SetupActionModel::Finish(Ok(port))),
            _ => start(false),
        },
        SetupState::Starting => match e {
            SetupEventModel::Done(Err(m)) => fail(m),
            _ => (SetupState::FirstWait, SetupActionModel::Sleep(1000)),
        },
        SetupState::FirstWait => read_port(0),
        SetupState::ReadingPort(k) => match e {
            SetupEventModel::Done(r) => match port_in(r) {
                Some(port) => probe(host, port, 0),
                None => (SetupState::WaitingPort(k), SetupActionModel::Sleep(1000)),
            },
            _ => (SetupState::WaitingPort(k), SetupActionModel::Sleep(1000)),
        },
        SetupState::WaitingPort(k) => if k + 1 < PORT_ATTEMPTS {
            read_port((k + 1) as u32)
        } else {
            fail(no_port_file_error())
        },
        SetupState::Probing(port, k) => match e {
            SetupEventModel::Healthy(true) => (SetupState::Finished, SetupActionModel::Finish(Ok(port))),
            _ => (SetupState::WaitingProbe(port, k), SetupActionModel::Sleep(500)),
        },
        SetupState::WaitingProbe(port, k) => if k + 1 < PROBE_ATTEMPTS {
            probe(host, port, (k + 1) as u32)
        } else {
            fail(unhealthy_error(port))
        },
        SetupState::Finished => fail(Seq::empty()),
    }
}

/// The first state and action: create the directories.
pub fn setup_begin() -> (r: (SetupState, SetupAction))
    ensures
        r.0 == SetupState::MakingDirs,
        r.1@ == SetupActionModel::Run(mkdir_command()),
{
    (SetupState::MakingDirs, SetupAction::Run("mkdir -p ~/.local/state/zelland ~/bin".to_string()))
}

fn fail_exec(m: String) -> (r: (SetupState, SetupAction))
    ensures
        (r.0, r.1@) == fail(m@),
{
    (SetupState::Finished, SetupAction::Finish(Err(m)))
}

fn start_exec(force_restart: bool) -> (r: (SetupState, SetupAction))
    ensures
        (r.0, r.1@) == start(force_restart),
{
    (SetupState::Starting, SetupAction::Run(start_command(force_restart)))
}

fn read_port_exec(k: u32) -> (r: (SetupState, SetupAction))
    ensures
        (r.0, r.1@) == read_port(k),
{
    (SetupState::ReadingPort(k), SetupAction::Run(port_probe_command()))
}

fn probe_exec(host: &str, port: u16, k: u32) -> (r: (SetupState, SetupAction))
    ensures
        (r.0, r.1@) == probe(host@, port, k),
{
    (SetupState::Probing(port, k), SetupAction::Probe(helper_version_url(host, port)))
}

fn port_in_exec(r: &Result<String, String>) -> (p: Option<u16>)
    ensures
        p == port_in(match r {
            Ok(o) => Ok(o@),
            Err(e) => Err(e@),
        }),
{
    match r {
        Ok(out) => parse_port_file(out.as_str()),
        Err(_) => None,
    }
}

fn no_port_file_exec() -> (r: String)
    ensures
        r@ == no_port_file_error(),
{
    "Remote helper did not write port file after 10 s \u{2014} check ~/.local/state/zelland/zlnd.log on the remote host".to_string()
}

fn unhealthy_exec(port: u16) -> (r: String)
    ensures
        r@ == unhealthy_error(port),
{
    let mut out: Vec<char> = Vec::new();
    push_str(&mut out, "Remote helper started on port ");
    push_decimal(&mut out, port as u64);
    push_str(
        &mut out,
        " but did not become healthy \u{2014} check ~/.local/state/zelland/zlnd.log on the remote host",
    );
    chars_to_string(&out)
}

/// The next state and action after the outcome `e` of the action of `s`
/// (see [`next_step`]).
pub fn setup_step(s: SetupState, e: SetupEvent, host: &str, expected: &str) -> (r: (SetupState, SetupAction))
    requires
        setup_wf(s),
        expects(s, e@),
    ensures
        (r.0, r.1@) == next_step(s, e@, host@, expected@),
        setup_wf(r.0),
{
    match s {
        SetupState::MakingDirs => match e {
            SetupEvent::Done(Err(m)) => fail_exec(m),
            _ => (SetupState::DetectingPlatform, SetupAction::Run("uname -s && uname -m".to_string())),
        },
        SetupState::DetectingPlatform => match e {
            SetupEvent::Done(Ok(out)) => match parse_remote_platform(out.as_str()) {
                Ok(p) => (
                    SetupState::ReadingVersion(p),
                    SetupAction::Run(
                        "if [ -x \"$HOME/bin/zlnd\" ]; then \"$HOME/bin/zlnd\" --version; fi".to_string(),
                    ),
                ),
                Err(m) => fail_exec(m),
            },
            SetupEvent::Done(Err(m)) => fail_exec(m),
            _ => fail_exec(String::new()),
        },
        SetupState::ReadingVersion(p) => match e {
            SetupEvent::Done(Ok(out)) => {
                let v = parse_helper_version(out.as_str());
                let install = match &v {
                    Some(x) => needs_install(Some(x.as_str()), expected),
                    None => needs_install(None, expected),
                };
                if !install {
                    (SetupState::ReadingOldPort, SetupAction::Run(port_probe_command()))
                } else {
                    (SetupState::LoadingBinary(p), SetupAction::LoadBinary(p))
                }
            },
            SetupEvent::Done(Err(m)) => fail_exec(m),
            _ => fail_exec(String::new()),
        },
        SetupState::LoadingBinary(_) => match e {
            SetupEvent::Done(Err(m)) => fail_exec(m),
            _ => (SetupState::Uploading, SetupAction::Upload("~/.local/state/zelland/zlnd.upload".to_string())),
        },
        SetupState::Uploading => match e {
            SetupEvent::Done(Err(m)) => fail_exec(m),
            _ => (SetupState::Installing, SetupAction::Run(install_command())),
        },
        SetupState::Installing => match e {
            SetupEvent::Done(Err(m)) => fail_exec(m),
            _ => start_exec(true),
        },
        SetupState::ReadingOldPort => match e {
            SetupEvent::Done(r) => match port_in_exec(&r) {
                Some(port) => (SetupState::CheckingOld(port), SetupAction::Probe(helper_version_url(host, port))),
                None => start_exec(false),
            },
            _ => start_exec(false),
        },
        SetupState::CheckingOld(port) => match e {
            SetupEvent::Healthy(true) => (SetupState::Finished, SetupAction::Finish(Ok(port))),
            _ => start_exec(false),
        },
        SetupState::Starting => match e {
            SetupEvent::Done(Err(m)) => fail_exec(m),
            _ => (SetupState::FirstWait, SetupAction::Sleep(1000)),
        },
        SetupState::FirstWait => read_port_exec(0),
        SetupState::ReadingPort(k) => match e {
            SetupEvent::Done(r) => match port_in_exec(&r) {
                Some(port) => probe_exec(host, port, 0),
                None => (SetupState::WaitingPort(k), SetupAction::Sleep(1000)),
            },
            _ => (SetupState::WaitingPort(k), SetupAction::Sleep(1000)),
        },
        SetupState::WaitingPort(k) => if k + 1 < PORT_ATTEMPTS {
            read_port_exec(k + 1)
        } else {
            fail_exec(no_port_file_exec())
        },
        SetupState::Probing(port, k) => match e {
            SetupEvent::Healthy(true) => (SetupState::Finished, SetupAction::Finish(Ok(port))),
            _ => (SetupState::WaitingProbe(port, k), SetupAction::Sleep(500)),
        },
        SetupState::WaitingProbe(port, k) => if k + 1 < PROBE_ATTEMPTS {
            probe_exec(host, port, k + 1)
        } else {
            fail_exec(unhealthy_exec(port))
        },
        SetupState::Finished => fail_exec(String::new()),
    }
}

// ---------------------------------------------------------------------------
// Where the binary comes from
// ---------------------------------------------------------------------------

/// Where the helper binary to install is taken from.
#[derive(Debug)]
pub enum BinarySource {
    /// The local cache of an earlier download or build.
    Cache(String),
    /// A helper built next to this client (then also cached).
    Local(String),
    /// The release asset at this URL (then also cached).
    Download(String),
}

/// The mathematical content of a [`BinarySource`].
pub enum BinarySourceModel {
    Cache(Seq<char>),
    Local(Seq<char>),
    Download(Seq<char>),
}

impl View for BinarySource {
    type V = BinarySourceModel;

    open spec fn view(&self) -> BinarySourceModel {
        match self {
            BinarySource::Cache(p) => BinarySourceModel::Cache(p@),
            BinarySource::Local(p) => BinarySourceModel::Local(p@),
            BinarySource::Download(u) => BinarySourceModel::Download(u@),
        }
    }
}

/// Where the binary for `platform` is taken from: the cache where it holds
/// one, else a local build where there is one, else the release asset of
/// `version` in `repository`.
pub fn helper_binary_source(
    cache_path: &str,
    cache_exists: bool,
    local_build: Option<String>,
    repository: &str,
    version: &str,
    platform: RemotePlatform,
) -> (r: BinarySource)
    ensures
        r@ == if cache_exists {
            BinarySourceModel::Cache(cache_path@)
        } else {
            match local_build {
                Some(p) => BinarySourceModel::Local(p@),
                None => BinarySourceModel::Download(
                    "https://github.com/"@ + repository@ + "/releases/download/v"@ + version@ + "/"@
                        + helper_name() + "-"@ + triple_of(platform),
                ),
            }
        },
{
    if cache_exists {
        BinarySource::Cache(cache_path.to_string())
    } else {
        match local_build {
            Some(p) => BinarySource::Local(p),
            None => BinarySource::Download(helper_download_url(repository, version, platform)),
        }
    }
}

/// The error where reading from `source` failed with `err`.
pub fn binary_load_error(source: &BinarySource, err: &str) -> (r: String)
    ensures
        r@ == match source@ {
            BinarySourceModel::Cache(p) => "Failed to read cached helper "@ + p + ": "@ + err@,
            BinarySourceModel::Local(p) => "Failed to read local helper "@ + p + ": "@ + err@,
            BinarySourceModel::Download(u) => "Failed to download helper from "@ + u + ": "@ + err@,
        },
{
    let mut out: Vec<char> = Vec::new();
    match source {
        BinarySource::Cache(p) => {
            push_str(&mut out, "Failed to read cached helper ");
            push_str(&mut out, p.as_str());
        },
        BinarySource::Local(p) => {
            push_str(&mut out, "Failed to read local helper ");
            push_str(&mut out, p.as_str());
        },
        BinarySource::Download(u) => {
            push_str(&mut out, "Failed to download helper from ");
            push_str(&mut out, u.as_str());
        },
    }
    push_str(&mut out, ": ");
    push_str(&mut out, err);
    chars_to_string(&out)
}

// ---------------------------------------------------------------------------
// Laws
// ---------------------------------------------------------------------------

/// How many steps at most remain from `s`.
pub open spec fn remaining_steps(s: SetupState) -> nat {
    match s {
        SetupState::MakingDirs => 49,
        SetupState::DetectingPlatform => 48,
        SetupState::ReadingVersion(_) => 47,
        SetupState::LoadingBinary(_) => 46,
        SetupState::Uploading => 45,
        SetupState::ReadingOldPort => 45,
        SetupState::Installing => 44,
        SetupState::CheckingOld(_) => 44,
        SetupState::Starting => 43,
        SetupState::FirstWait => 42,
        SetupState::ReadingPort(k) => (21 + 2 * (PORT_ATTEMPTS - k)) as nat,
        SetupState::WaitingPort(k) => (20 + 2 * (PORT_ATTEMPTS - k)) as nat,
        SetupState::Probing(_, k) => (2 * (PROBE_ATTEMPTS - k)) as nat,
        SetupState::WaitingProbe(_, k) => (2 * (PROBE_ATTEMPTS - k) - 1) as nat,
        SetupState::Finished => 0,
    }
}

/// The setup always ends: every step from a state with its counters in
/// range comes closer to the end, so that at most 49 actions are taken,
/// however the remote host answers.
pub proof fn law_setup_terminates(s: SetupState, e: SetupEventModel, host: Seq<char>, expected: Seq<char>)
    requires
        setup_wf(s),
        expects(s, e),
    ensures
        setup_wf(next_step(s, e, host, expected).0),
        remaining_steps(next_step(s, e, host, expected).0) < remaining_steps(s),
        remaining_steps(s) <= 49,
{
}

/// The setup reports a port only when the helper on that port has just
/// answered with the expected version.
pub proof fn law_port_only_after_healthy_probe(
    s: SetupState,
    e: SetupEventModel,
    host: Seq<char>,
    expected: Seq<char>,
    port: u16,
)
    requires
        setup_wf(s),
        expects(s, e),
        next_step(s, e, host, expected).1 == SetupActionModel::Finish(Ok(port)),
    ensures
        e == SetupEventModel::Healthy(true),
        s == SetupState::CheckingOld(port) || exists|k: u32| s == SetupState::Probing(port, k),
{
}

/// A new binary is loaded exactly when the installed version is not the
/// expected one, and after an install the running helper is restarted.
pub proof fn law_install_when_version_differs(
    p: RemotePlatform,
    out: Seq<char>,
    host: Seq<char>,
    expected: Seq<char>,
)
    ensures
        (next_step(SetupState::ReadingVersion(p), SetupEventModel::Done(Ok(out)), host, expected).1
            == SetupActionModel::LoadBinary(p)) <==> spec_parse_helper_version(out) != Some(expected),
        next_step(SetupState::Installing, SetupEventModel::Done(Ok(Seq::empty())), host, expected) == start(true),
{
}

} // verus!
