//! What switching the active account asks of the surrounding system.
//!
//! The gateway does not touch processes, files or the tray itself. It plans
//! the steps; the caller carries them out in order and stops at the first
//! required step that fails.

use crate::text::joined;
use vstd::prelude::*;

verus! {

/// One step of an account switch.
#[derive(Clone, Copy, Debug, PartialEq, Eq, Structural)]
pub enum SwitchStep {
    /// Close the editor process, waiting up to `timeout_secs`.
    CloseProcess { timeout_secs: u64 },
    /// Write the account's device profile to the editor's storage.
    WriteDeviceProfile,
    /// Copy the editor's state database aside.
    BackupDatabase,
    /// Write the account's tokens into the state database.
    InjectToken,
    /// Start the editor process again.
    StartProcess,
    /// Rebuild the tray menu.
    RefreshTray,
}

/// What the caller found before a switch.
#[derive(Clone, Copy, Debug, PartialEq, Eq, Structural)]
pub struct SwitchProbe {
    /// The editor process is running.
    pub process_running: bool,
    /// The account has a device profile attached.
    pub has_device_profile: bool,
    /// The editor's state database exists.
    pub database_exists: bool,
}

/// Seconds that a running editor is given to close.
pub const CLOSE_TIMEOUT_SECS: u64 = 20;

/// The first steps of a switch on a desktop, those before the database is
/// looked at: close the editor if it runs, write the device profile if
/// there is one.
pub open spec fn desktop_opening(process_running: bool, has_device_profile: bool) -> Seq<
    SwitchStep,
> {
    let close = if process_running {
        seq![SwitchStep::CloseProcess { timeout_secs: CLOSE_TIMEOUT_SECS }]
    } else {
        Seq::empty()
    };
    let profile = if has_device_profile {
        seq![SwitchStep::WriteDeviceProfile]
    } else {
        Seq::empty()
    };
    close + profile
}

/// The last steps of a switch on a desktop: back the database up if it
/// exists, inject the token, start the editor, refresh the tray.
pub open spec fn desktop_closing(database_exists: bool) -> Seq<SwitchStep> {
    let backup = if database_exists {
        seq![SwitchStep::BackupDatabase]
    } else {
        Seq::empty()
    };
    backup + seq![SwitchStep::InjectToken, SwitchStep::StartProcess, SwitchStep::RefreshTray]
}

/// The steps of a switch on a desktop, in order: the first steps, then the
/// last.
pub open spec fn desktop_plan(probe: SwitchProbe) -> Seq<SwitchStep> {
    desktop_opening(probe.process_running, probe.has_device_profile) + desktop_closing(
        probe.database_exists,
    )
}

/// A step whose failure does not stop the switch.
pub open spec fn best_effort(step: SwitchStep) -> bool {
    step == SwitchStep::BackupDatabase || step == SwitchStep::RefreshTray
}

/// Whether the failure of `step` leaves the switch going.
pub fn is_best_effort(step: SwitchStep) -> (r: bool)
    ensures
        r == best_effort(step),
{
    match step {
        SwitchStep::BackupDatabase => true,
        SwitchStep::RefreshTray => true,
        _ => false,
    }
}

/// The system-level side of the gateway.
pub trait SystemIntegration {
    /// The steps that a switch takes. Unless an integration says otherwise,
    /// none.
    open spec fn switch_plan(&self, probe: SwitchProbe) -> Seq<SwitchStep> {
        Seq::empty()
    }

    /// Whether there is a tray to refresh.
    open spec fn has_tray(&self) -> bool {
        false
    }

    /// The tag put before a notification.
    open spec fn notice_tag(&self) -> Seq<char> {
        Seq::empty()
    }

    /// Plans the system-level steps of switching the active account.
    fn on_account_switch(&self, probe: &SwitchProbe) -> (steps: Vec<SwitchStep>)
        ensures
            steps@ == self.switch_plan(*probe),
    ;

    /// Whether the tray menu is to be rebuilt.
    fn update_tray(&self) -> (refresh: bool)
        ensures
            refresh == self.has_tray(),
    ;

    /// The line that delivers a notification: the tag, the title, a colon
    /// and a space, and the body.
    fn show_notification(&self, title: &str, body: &str) -> (line: String)
        ensures
            line@ == self.notice_tag() + title@ + ": "@ + body@,
    ;
}

fn notice(tag: &str, title: &str, body: &str) -> (line: String)
    ensures
        line@ == tag@ + title@ + ": "@ + body@,
{
    let mut line = joined(tag, title);
    line.append(": ");
    line.append(body);
    line
}

fn push_opening(steps: &mut Vec<SwitchStep>, process_running: bool, has_device_profile: bool)
    ensures
        final(steps)@ == old(steps)@ + desktop_opening(process_running, has_device_profile),
{
    if process_running {
        steps.push(SwitchStep::CloseProcess { timeout_secs: CLOSE_TIMEOUT_SECS });
    }
    if has_device_profile {
        steps.push(SwitchStep::WriteDeviceProfile);
    }
    assert(steps@ =~= old(steps)@ + desktop_opening(process_running, has_device_profile));
}

fn push_closing(steps: &mut Vec<SwitchStep>, database_exists: bool)
    ensures
        final(steps)@ == old(steps)@ + desktop_closing(database_exists),
{
    if database_exists {
        steps.push(SwitchStep::BackupDatabase);
    }
    steps.push(SwitchStep::InjectToken);
    steps.push(SwitchStep::StartProcess);
    steps.push(SwitchStep::RefreshTray);
    assert(steps@ =~= old(steps)@ + desktop_closing(database_exists));
}

fn plan_desktop(probe: &SwitchProbe) -> (steps: Vec<SwitchStep>)
    ensures
        steps@ == desktop_plan(*probe),
{
    let mut steps: Vec<SwitchStep> = Vec::new();
    push_opening(&mut steps, probe.process_running, probe.has_device_profile);
    push_closing(&mut steps, probe.database_exists);
    assert(steps@ =~= desktop_plan(*probe));
    steps
}

/// The desktop: process control, database injection and a tray.
#[derive(Clone, Copy, Debug)]
pub struct DesktopIntegration;

/// A headless host: the switch happens in memory only.
#[derive(Clone, Copy, Debug)]
pub struct HeadlessIntegration;

impl SystemIntegration for DesktopIntegration {
    open spec fn switch_plan(&self, probe: SwitchProbe) -> Seq<SwitchStep> {
        desktop_plan(probe)
    }

    open spec fn has_tray(&self) -> bool {
        true
    }

    open spec fn notice_tag(&self) -> Seq<char> {
        "[Notification] "@
    }

    fn on_account_switch(&self, probe: &SwitchProbe) -> (steps: Vec<SwitchStep>) {
        plan_desktop(probe)
    }

    fn update_tray(&self) -> (refresh: bool) {
        true
    }

    fn show_notification(&self, title: &str, body: &str) -> (line: String) {
        notice("[Notification] ", title, body)
    }
}

impl SystemIntegration for HeadlessIntegration {
    open spec fn switch_plan(&self, probe: SwitchProbe) -> Seq<SwitchStep> {
        Seq::empty()
    }

    open spec fn has_tray(&self) -> bool {
        false
    }

    open spec fn notice_tag(&self) -> Seq<char> {
        "[Log Notification] "@
    }

    fn on_account_switch(&self, probe: &SwitchProbe) -> (steps: Vec<SwitchStep>) {
        Vec::new()
    }

    fn update_tray(&self) -> (refresh: bool) {
        false
    }

    fn show_notification(&self, title: &str, body: &str) -> (line: String) {
        notice("[Log Notification] ", title, body)
    }
}

/// The integration in use, chosen once at startup.
#[derive(Clone, Copy, Debug, PartialEq, Eq, Structural)]
pub enum SystemManager {
    Desktop,
    Headless,
}

impl SystemManager {
    /// The first steps of a switch: see [`desktop_opening`]. A headless host
    /// takes none.
    pub open spec fn opening(&self, process_running: bool, has_device_profile: bool) -> Seq<
        SwitchStep,
    > {
        match self {
            SystemManager::Desktop => desktop_opening(process_running, has_device_profile),
            SystemManager::Headless => Seq::empty(),
        }
    }

    /// The last steps of a switch: see [`desktop_closing`]. A headless host
    /// takes none.
    pub open spec fn closing(&self, database_exists: bool) -> Seq<SwitchStep> {
        match self {
            SystemManager::Desktop => desktop_closing(database_exists),
            SystemManager::Headless => Seq::empty(),
        }
    }

    /// Plans the system-level steps of switching the active account.
    pub fn on_account_switch(&self, probe: &SwitchProbe) -> (steps: Vec<SwitchStep>)
        ensures
            steps@ == self.switch_plan(*probe),
            steps@ == self.opening(probe.process_running, probe.has_device_profile)
                + self.closing(probe.database_exists),
    {
        match self {
            SystemManager::Desktop => DesktopIntegration.on_account_switch(probe),
            SystemManager::Headless => HeadlessIntegration.on_account_switch(probe),
        }
    }

    /// Plans the first steps of a switch, for a caller that looks at the
    /// database only once they are taken.
    pub fn opening_steps(&self, process_running: bool, has_device_profile: bool) -> (steps: Vec<
        SwitchStep,
    >)
        ensures
            steps@ == self.opening(process_running, has_device_profile),
    {
        let mut steps: Vec<SwitchStep> = Vec::new();
        match self {
            SystemManager::Desktop => {
                push_opening(&mut steps, process_running, has_device_profile);
            },
            SystemManager::Headless => {},
        }
        steps
    }

    /// Plans the last steps of a switch, once the first are taken.
    pub fn closing_steps(&self, database_exists: bool) -> (steps: Vec<SwitchStep>)
        ensures
            steps@ == self.closing(database_exists),
    {
        let mut steps: Vec<SwitchStep> = Vec::new();
        match self {
            SystemManager::Desktop => {
                push_closing(&mut steps, database_exists);
            },
            SystemManager::Headless => {},
        }
        steps
    }

    /// Whether the tray menu is to be rebuilt.
    pub fn update_tray(&self) -> (refresh: bool)
        ensures
            refresh == self.has_tray(),
    {
        match self {
            SystemManager::Desktop => DesktopIntegration.update_tray(),
            SystemManager::Headless => HeadlessIntegration.update_tray(),
        }
    }

    /// The line that delivers a notification.
    pub fn show_notification(&self, title: &str, body: &str) -> (line: String)
        ensures
            line@ == self.notice_tag() + title@ + ": "@ + body@,
    {
        match self {
            SystemManager::Desktop => DesktopIntegration.show_notification(title, body),
            SystemManager::Headless => HeadlessIntegration.show_notification(title, body),
        }
    }
}

impl SystemIntegration for SystemManager {
    open spec fn switch_plan(&self, probe: SwitchProbe) -> Seq<SwitchStep> {
        match self {
            SystemManager::Desktop => desktop_plan(probe),
            SystemManager::Headless => Seq::empty(),
        }
    }

    open spec fn has_tray(&self) -> bool {
        *self == SystemManager::Desktop
    }

    open spec fn notice_tag(&self) -> Seq<char> {
        match self {
            SystemManager::Desktop => "[Notification] "@,
            SystemManager::Headless => "[Log Notification] "@,
        }
    }

    fn on_account_switch(&self, probe: &SwitchProbe) -> (steps: Vec<SwitchStep>) {
        SystemManager::on_account_switch(self, probe)
    }

    fn update_tray(&self) -> (refresh: bool) {
        SystemManager::update_tray(self)
    }

    fn show_notification(&self, title: &str, body: &str) -> (line: String) {
        SystemManager::show_notification(self, title, body)
    }
}

} // verus!
