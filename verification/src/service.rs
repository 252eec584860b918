//! Starting and stopping the daemon through `systemctl --user`, so nobody has
//! to learn systemctl: which commands to run, and what their answers mean.

use vstd::prelude::*;

use crate::text::{chars_of, push_str, string_of, trim, trim_range, range_is};

verus! {

/// What the service is doing, independent of whether the daemon answers.
#[derive(Debug, Clone, Copy, PartialEq, Eq, Structural)]
pub enum State {
    /// Running now, and set to start at login.
    Running,
    /// Not running, but will start at next login.
    Stopped,
    /// Will not start on its own.
    Disabled,
    /// systemd is not managing it: a manually launched binary, or no
    /// systemd user session at all.
    Unmanaged,
}

pub const UNIT: &'static str = "sensord.service";

pub const SYSTEMCTL: &'static str = "systemctl";

impl State {
    pub open spec fn label_text(self) -> Seq<char> {
        match self {
            State::Running => "Running"@,
            State::Stopped => "Stopped"@,
            State::Disabled => "Disabled"@,
            State::Unmanaged => "Not installed as a service"@,
        }
    }

    pub open spec fn description_text(self) -> Seq<char> {
        match self {
            State::Running => "Listening for your hotkey. Starts automatically when you log in."@,
            State::Stopped => "Not listening. It will start again next time you log in."@,
            State::Disabled => "Turned off, and will stay off until you start it again."@,
            State::Unmanaged =>
                "No systemd service found. Run `sensorctl setup`, or start sensord yourself."@,
        }
    }

    pub fn label(self) -> (s: &'static str)
        ensures
            s@ == self.label_text(),
    {
        match self {
            State::Running => "Running",
            State::Stopped => "Stopped",
            State::Disabled => "Disabled",
            State::Unmanaged => "Not installed as a service",
        }
    }

    /// The small-grey-text explanation shown under the label.
    pub fn description(self) -> (s: &'static str)
        ensures
            s@ == self.description_text(),
    {
        match self {
            State::Running => "Listening for your hotkey. Starts automatically when you log in.",
            State::Stopped => "Not listening. It will start again next time you log in.",
            State::Disabled => "Turned off, and will stay off until you start it again.",
            State::Unmanaged => {
                "No systemd service found. Run `sensorctl setup`, or start sensord yourself."
            },
        }
    }
}

/// What the service is doing, from the output of `systemctl --user
/// is-active` (`None` when it could not be run at all) and of `is-enabled`
/// (`None` when it could not be run). A unit that systemd does not know
/// reports neither, which is the manual-launch case. `Running` means both
/// running now and enabled at login; a unit that runs but is not enabled
/// will not start on its own, so it counts as `Disabled`.
pub open spec fn state_spec(active: Option<Seq<char>>, enabled: Option<Seq<char>>) -> State {
    match active {
        None => State::Unmanaged,
        Some(a) => {
            let a = trim(a);
            let e = match enabled {
                Some(e) => trim(e),
                None => Seq::empty(),
            };
            if e.len() == 0 && a.len() == 0 {
                State::Unmanaged
            } else if e == "enabled"@ {
                if a == "active"@ {
                    State::Running
                } else {
                    State::Stopped
                }
            } else {
                State::Disabled
            }
        },
    }
}

/// Classifies the service from the two probes' outputs (see `active_query`
/// and `enabled_query`).
pub fn state(active: Option<String>, enabled: Option<String>) -> (s: State)
    ensures
        s == state_spec(
            match active {
                Some(a) => Some(a@),
                None => None,
            },
            match enabled {
                Some(e) => Some(e@),
                None => None,
            },
        ),
{
    let a = match active {
        None => {
            return State::Unmanaged;
        },
        Some(a) => chars_of(a.as_str()),
    };
    let e = match enabled {
        Some(e) => chars_of(e.as_str()),
        None => Vec::new(),
    };
    let (a0, a1) = trim_range(&a, 0, a.len());
    let (e0, e1) = trim_range(&e, 0, e.len());
    assert(a@.subrange(0, a@.len() as int) =~= a@);
    assert(e@.subrange(0, e@.len() as int) =~= e@);
    proof {
        if e@.len() == 0 {
            assert(e@ =~= Seq::<char>::empty());
            assert(trim(Seq::<char>::empty()) =~= Seq::<char>::empty());
        }
    }
    if e0 == e1 && a0 == a1 {
        State::Unmanaged
    } else if range_is(&e, e0, e1, "enabled") {
        if range_is(&a, a0, a1, "active") {
            State::Running
        } else {
            State::Stopped
        }
    } else {
        State::Disabled
    }
}

/// The service counts as running only when `is-active` answers exactly
/// `active` and `is-enabled` answers `enabled` (each trimmed). A unit that is
/// enabled but not active (stopped, failed, starting) is `Stopped`; one that
/// could not be asked at all is `Unmanaged`; one that is not enabled and
/// answers something is `Disabled`.
pub proof fn running_means_active_and_enabled(a: Seq<char>, e: Option<Seq<char>>)
    ensures
        state_spec(Some(a), e) == State::Running ==> trim(a) == "active"@ && (e matches Some(y)
            && trim(y) == "enabled"@),
        state_spec(None, e) == State::Unmanaged,
        e matches Some(y) && trim(y) == "enabled"@ ==> state_spec(Some(a), e) == (if trim(a)
            == "active"@ {
            State::Running
        } else {
            State::Stopped
        }),
        trim(a).len() > 0 && !(e matches Some(y) && trim(y) == "enabled"@) ==> state_spec(
            Some(a),
            e,
        ) == State::Disabled,
{
    reveal_strlit("enabled");
    reveal_strlit("active");
    assert("enabled"@.len() == 7);
    assert("active"@.len() == 6);
    match e {
        Some(y) => {},
        None => {
            assert(Seq::<char>::empty() != "enabled"@);
        },
    }
}

/// The arguments that ask systemctl whether the daemon runs now.
pub fn active_query() -> (args: Vec<&'static str>)
    ensures
        args@.len() == 3,
        args@[0]@ == "--user"@,
        args@[1]@ == "is-active"@,
        args@[2]@ == UNIT@,
{
    vec!["--user", "is-active", UNIT]
}

/// The arguments that ask systemctl whether the daemon starts at login.
pub fn enabled_query() -> (args: Vec<&'static str>)
    ensures
        args@.len() == 3,
        args@[0]@ == "--user"@,
        args@[1]@ == "is-enabled"@,
        args@[2]@ == UNIT@,
{
    vec!["--user", "is-enabled", UNIT]
}

/// A systemctl command that changes the service, and what it is doing, for
/// the message when it fails.
pub struct Invocation {
    pub args: Vec<&'static str>,
    pub doing: &'static str,
}

/// Whether `inv` runs `systemctl --user <verb...> sensord.service`.
pub open spec fn runs(inv: Invocation, verbs: Seq<Seq<char>>, doing: Seq<char>) -> bool {
    &&& inv.args@.len() == verbs.len() + 2
    &&& inv.args@[0]@ == "--user"@
    &&& forall|i: int| 0 <= i < verbs.len() ==> (#[trigger] inv.args@[i + 1])@ == verbs[i]
    &&& inv.args@[verbs.len() + 1int]@ == UNIT@
    &&& inv.doing@ == doing
}

/// Start now and at every login.
pub fn start() -> (inv: Invocation)
    ensures
        runs(inv, seq!["enable"@, "--now"@], "starting"@),
{
    Invocation { args: vec!["--user", "enable", "--now", UNIT], doing: "starting" }
}

/// Stop now, but leave it enabled for next login.
pub fn stop() -> (inv: Invocation)
    ensures
        runs(inv, seq!["stop"@], "stopping"@),
{
    Invocation { args: vec!["--user", "stop", UNIT], doing: "stopping" }
}

/// Stop now and do not start at login.
pub fn disable() -> (inv: Invocation)
    ensures
        runs(inv, seq!["disable"@, "--now"@], "disabling"@),
{
    Invocation { args: vec!["--user", "disable", "--now", UNIT], doing: "disabling" }
}

/// Pick up a changed config: the daemon reads it once at startup.
pub fn restart() -> (inv: Invocation)
    ensures
        runs(inv, seq!["restart"@], "restarting"@),
{
    Invocation { args: vec!["--user", "restart", UNIT], doing: "restarting" }
}

/// A systemctl command that failed, with its explanation.
#[derive(Debug)]
pub struct ServiceError {
    pub message: String,
}

/// The message for a failed command: what was being done, and what systemctl
/// said on stderr, if it said anything.
pub open spec fn failure_text(doing: Seq<char>, stderr: Seq<char>) -> Seq<char> {
    let e = trim(stderr);
    doing + " the service failed"@ + if e.len() == 0 {
        Seq::empty()
    } else {
        ": "@ + e
    }
}

impl Invocation {
    /// The result of the command, from whether it succeeded and its stderr.
    pub fn outcome(&self, success: bool, stderr: &str) -> (r: Result<(), ServiceError>)
        ensures
            success ==> r is Ok,
            !success ==> (r matches Err(e) && e.message@ == failure_text(self.doing@, stderr@)),
    {
        if success {
            return Ok(());
        }
        let v = chars_of(stderr);
        let (a, b) = trim_range(&v, 0, v.len());
        assert(v@.subrange(0, v@.len() as int) =~= v@);
        let mut out: Vec<char> = Vec::new();
        push_str(&mut out, self.doing);
        push_str(&mut out, " the service failed");
        if a < b {
            push_str(&mut out, ": ");
            crate::text::push_range(&mut out, &v, a, b);
        }
        assert(out@ =~= failure_text(self.doing@, stderr@));
        Err(ServiceError { message: string_of(&out) })
    }
}

} // verus!
