//! Decisions about the local playlist service and the command line: whether
//! the service answers, whether to start it, and which command was asked for.
use vstd::prelude::*;

use crate::text::push_str;

verus! {

/// How an attempt to connect to the service's port ended.
#[derive(Debug, PartialEq, Eq, Clone, Copy)]
pub enum ConnectOutcome {
    Connected,
    Refused,
    TimedOut,
    /// Any other failure.
    Failed,
}

/// Whether the port is open, as a connection attempt shows it: open when it
/// connected, closed when it was refused or timed out, unknown (`None`) after
/// any other failure.
pub open spec fn port_state(outcome: ConnectOutcome) -> Option<bool> {
    match outcome {
        ConnectOutcome::Connected => Some(true),
        ConnectOutcome::Refused => Some(false),
        ConnectOutcome::TimedOut => Some(false),
        ConnectOutcome::Failed => None,
    }
}

/// Whether the port is open, as a connection attempt shows it.
pub fn port_status(outcome: ConnectOutcome) -> (r: Option<bool>)
    ensures
        r == port_state(outcome),
{
    match outcome {
        ConnectOutcome::Connected => Some(true),
        ConnectOutcome::Refused => Some(false),
        ConnectOutcome::TimedOut => Some(false),
        ConnectOutcome::Failed => None,
    }
}

/// What starting up comes to.
#[derive(Debug, PartialEq, Eq, Clone, Copy)]
pub enum InitStep {
    /// The port is open: the service is running.
    AlreadyRunning,
    /// The service must be started, but its folder does not exist.
    ApiMissing,
    /// Start the service from its folder.
    Launch,
}

/// What starting up comes to: an open port means the service runs; when the
/// port is closed, or the check failed, the service is started from its
/// folder if the folder exists.
pub open spec fn init_step_for(port: Option<bool>, api_exists: bool) -> InitStep {
    if port == Some(true) {
        InitStep::AlreadyRunning
    } else if api_exists {
        InitStep::Launch
    } else {
        InitStep::ApiMissing
    }
}

/// An open port means the service is already running, whatever the folder;
/// otherwise the service is launched exactly when its folder exists, and is
/// reported missing exactly when it does not.
pub proof fn lemma_init_step_cases(port: Option<bool>, api_exists: bool)
    ensures
        port == Some(true) ==> init_step_for(port, api_exists) == InitStep::AlreadyRunning,
        init_step_for(port, api_exists) == InitStep::AlreadyRunning ==> port == Some(true),
        port != Some(true) ==> (init_step_for(port, api_exists) == InitStep::Launch <==> api_exists),
        init_step_for(port, api_exists) == InitStep::ApiMissing <==> (port != Some(true)
            && !api_exists),
{
}

/// What starting up comes to.
pub fn init_step(port: Option<bool>, api_exists: bool) -> (s: InitStep)
    ensures
        s == init_step_for(port, api_exists),
        port == Some(true) ==> s == InitStep::AlreadyRunning,
        port != Some(true) && api_exists ==> s == InitStep::Launch,
        port != Some(true) && !api_exists ==> s == InitStep::ApiMissing,
{
    proof {
        lemma_init_step_cases(port, api_exists);
    }
    match port {
        Some(true) => InitStep::AlreadyRunning,
        _ => if api_exists {
            InitStep::Launch
        } else {
            InitStep::ApiMissing
        },
    }
}

/// Whether the program goes on after starting up: unless the service's
/// folder was missing.
pub fn init_succeeds(step: InitStep) -> (b: bool)
    ensures
        b == (step != InitStep::ApiMissing),
{
    match step {
        InitStep::ApiMissing => false,
        _ => true,
    }
}

/// The script that starts the service from its folder.
pub fn launch_script(api_path: &str) -> (s: String)
    ensures
        s@ == api_path@ + "app.js"@,
{
    let mut s = String::new();
    push_str(&mut s, api_path);
    push_str(&mut s, "app.js");
    assert(s@ =~= api_path@ + "app.js"@);
    s
}

/// The commands of the program.
#[derive(Debug, PartialEq, Eq, Clone, Copy)]
pub enum Command {
    /// Download the playlist's new songs and tag them.
    Down,
    /// Tag the songs that the info file lists.
    Tag,
    Unknown,
}

/// The command that a word names.
pub open spec fn command_for(word: Seq<char>) -> Command {
    if word == "down"@ {
        Command::Down
    } else if word == "tag"@ {
        Command::Tag
    } else {
        Command::Unknown
    }
}

/// The command that a word names.
pub fn parse_command(word: &str) -> (c: Command)
    ensures
        c == command_for(word@),
{
    let mut down = String::new();
    push_str(&mut down, "down");
    let mut tag = String::new();
    push_str(&mut tag, "tag");
    assert(down@ =~= "down"@);
    assert(tag@ =~= "tag"@);
    if crate::music::str_eq(word, down.as_str()) {
        Command::Down
    } else if crate::music::str_eq(word, tag.as_str()) {
        Command::Tag
    } else {
        Command::Unknown
    }
}

} // verus!
