//! The decisions of launching or focusing a desktop, as a state machine:
//! the caller performs each action (registry, helper and SSH work) and hands
//! back what came of it.
use vstd::prelude::*;
use vstd::string::StringExecFns;

use crate::launch::{
    CommandFailure, LaunchError, LaunchIdentity, LaunchOutcome, LaunchPlan, RuntimePaths,
    bundle_id_of, check_launch_identity, desktop_app_path, desktop_app_path_of, expected_bundle_id,
    identity_problem, joined_path, plan_for, plan_json, plan_json_text, plan_of,
    record_fields_of, record_from_desktop, record_matches, record_matches_desktop,
    undefined_desktop,
};
use crate::parse::{Desktop, DesktopConfig, DesktopMode, first_desktop_at};
use crate::registry::{InstanceRecord, copy_record};
use crate::text::{debug_quoted, decimal, decimal_string, join2, join3, join4, quoted};

verus! {

/// Where a launch stands.
#[derive(Debug)]
pub enum LaunchStage {
    /// Waiting for the pending marker and the live record of the desktop.
    Inspecting,
    /// Asked the helper to focus the recorded client.
    Activating { was_pending: bool, record: InstanceRecord },
    /// Removing the record of a client that no longer exists.
    RemovingStale { was_pending: bool },
    /// Clearing the pending marker left beside a stale record.
    ClearingStale,
    /// Checking the remote target over SSH.
    Preflighting,
    /// Creating the pending marker.
    MarkingPending,
    /// Running the launch helper.
    Launching,
    /// Writing the record of the new client.
    Recording { record: InstanceRecord },
    /// Terminating a client whose record could not be written.
    Terminating { write_error: String, record: InstanceRecord },
    /// Clearing the pending marker before reporting `outcome`.
    Clearing { outcome: Result<LaunchOutcome, String> },
    /// Finished.
    Done,
}

/// What the caller is to do next.
#[derive(Debug)]
pub enum LaunchAction {
    /// Run the identity helper's `activate` on the recorded client.
    Activate(InstanceRecord),
    /// Remove the desktop's record.
    RemoveRecord,
    /// Remove the desktop's pending marker.
    ClearPending,
    /// Run the bounded SSH preflight against the target.
    Preflight(String),
    /// Create the desktop's pending marker.
    MarkPending,
    /// Run the launch helper.
    RunLauncher,
    /// Write the record.
    WriteRecord(InstanceRecord),
    /// Run the identity helper's `terminate` on the client.
    Terminate(InstanceRecord),
    /// Report the result of the launch.
    Finish(Result<LaunchOutcome, LaunchError>),
}

/// What came of the last action.
#[derive(Debug)]
pub enum LaunchEvent {
    /// Whether a pending marker exists, and the live record of the desktop.
    Inspected { was_pending: bool, live: Option<InstanceRecord> },
    /// The identity helper's result.
    Helper(Result<(), CommandFailure>),
    /// The result of a registry step or of the SSH preflight.
    Step(Result<(), String>),
    /// The launch helper's result: its reported identity, or the text of why
    /// its output could not be read as one.
    Launcher(Result<Result<LaunchIdentity, String>, CommandFailure>),
}

/// One launch of one desktop.
#[derive(Debug)]
pub struct LaunchFlow {
    pub id: String,
    pub desktop: Desktop,
    pub canonical_app: String,
    pub bundle_id: String,
    pub pending_path: String,
    pub stage: LaunchStage,
}

/// What a launch needs from the configuration before any file is touched.
#[derive(Debug)]
pub struct LaunchTarget {
    pub desktop: Desktop,
    pub app: String,
    pub bundle_id: String,
    pub plan: LaunchPlan,
    pub expected_plan: String,
}

pub fn copy_desktop(d: &Desktop) -> (c: Desktop)
    ensures
        c == *d,
{
    Desktop {
        id: d.id.clone(),
        label: d.label.clone(),
        mode: match &d.mode {
            DesktopMode::Local => DesktopMode::Local,
            DesktopMode::Remote { target, session, keybindings, app_name } => DesktopMode::Remote {
                target: target.clone(),
                session: session.clone(),
                keybindings: *keybindings,
                app_name: app_name.clone(),
            },
        },
    }
}

/// The desktop, app, bundle id and plan of desktop `id`.
pub fn prepare_launch(paths: &RuntimePaths, config: &DesktopConfig, id: &str) -> (r: Result<
    LaunchTarget,
    LaunchError,
>)
    ensures
        match r {
            Ok(t) => exists|i: int|
                first_desktop_at(config.desktops@, id@, i) && t.desktop == config.desktops@[i]
                    && t.app@ == desktop_app_path_of(*paths, t.desktop) && t.bundle_id@
                    == bundle_id_of(t.desktop) && t.plan == plan_of(t.desktop)
                    && t.expected_plan@ == plan_json_text(t.plan),
            Err(e) => (forall|i: int|
                0 <= i < config.desktops@.len() ==> (#[trigger] config.desktops@[i]).id@ != id@)
                && e.0@ == undefined_desktop(id@),
        },
{
    match config.desktop(id) {
        Some(desktop) => {
            let plan = plan_for(desktop);
            let app = desktop_app_path(paths, desktop);
            let bundle_id = expected_bundle_id(desktop);
            let expected_plan = plan_json(&plan);
            Ok(LaunchTarget { desktop: copy_desktop(desktop), app, bundle_id, plan, expected_plan })
        },
        None => {
            let q = quoted(id);
            Err(LaunchError(join3("desktop ", q.as_str(), " is not defined")))
        },
    }
}

// ---------------------------------------------------------------------------
// Messages.
// ---------------------------------------------------------------------------
pub open spec fn drift_message(id: Seq<char>, pid: i32) -> Seq<char> {
    "desktop "@ + debug_quoted(id) + " configuration changed while pid "@ + decimal(pid as int)
        + " is still open; close the old client before launching the new endpoint"@
}

pub open spec fn unresolved_message(id: Seq<char>, pending_path: Seq<char>) -> Seq<char> {
    "desktop "@ + debug_quoted(id)
        + " has an unresolved previous launch without a verifiable registry record; inspect "@
        + pending_path + " before retrying"@
}

pub open spec fn focus_message(id: Seq<char>, error: Seq<char>) -> Seq<char> {
    "could not focus existing desktop "@ + debug_quoted(id) + ": "@ + error
}

pub open spec fn launch_failed_message(id: Seq<char>, f: CommandFailure) -> Seq<char> {
    "desktop "@ + debug_quoted(id) + " launch failed"@ + if f.launch_state_unknown() {
        "; outcome is unknown and retries are blocked"@
    } else {
        Seq::<char>::empty()
    } + ": "@ + f.text()
}

pub open spec fn untrusted_message(id: Seq<char>, error: Seq<char>) -> Seq<char> {
    "desktop "@ + debug_quoted(id)
        + " may be running but returned untrusted identity; retries remain blocked: "@ + error
}

pub open spec fn terminated_message(id: Seq<char>, write_error: Seq<char>) -> Seq<char> {
    "could not record desktop "@ + debug_quoted(id)
        + "; the newly launched client was terminated: "@ + write_error
}

pub open spec fn cleanup_message(id: Seq<char>, write_error: Seq<char>, cleanup: Seq<char>) -> Seq<
    char,
> {
    "could not record desktop "@ + debug_quoted(id)
        + " and could not verify cleanup; retries remain blocked: "@ + write_error + "; cleanup: "@
        + cleanup
}

// ---------------------------------------------------------------------------
// The transition relation.
// ---------------------------------------------------------------------------
pub open spec fn finishes_with_error(a: LaunchAction, message: Seq<char>) -> bool {
    a matches LaunchAction::Finish(Err(e)) && e.0@ == message
}

pub open spec fn finishes_with(a: LaunchAction, o: LaunchOutcome) -> bool {
    a matches LaunchAction::Finish(Ok(x)) && x == o
}

pub open spec fn clearing_with_error(s: LaunchStage, message: Seq<char>) -> bool {
    s matches LaunchStage::Clearing { outcome: Err(m) } && m@ == message
}

pub open spec fn clearing_with(s: LaunchStage, o: LaunchOutcome) -> bool {
    s matches LaunchStage::Clearing { outcome: Ok(x) } && x == o
}

/// With no live record to focus: a leftover pending marker stops the launch;
/// otherwise a remote target is checked first and then the marker is set.
pub open spec fn proceeds(flow: LaunchFlow, was_pending: bool, s: LaunchStage, a: LaunchAction) -> bool {
    if was_pending {
        s is Done && finishes_with_error(a, unresolved_message(flow.id@, flow.pending_path@))
    } else {
        match flow.desktop.mode {
            DesktopMode::Remote { target, .. } => s is Preflighting && (a matches LaunchAction::Preflight(
                t,
            ) && t@ == target@),
            DesktopMode::Local => s is MarkingPending && a is MarkPending,
        }
    }
}

/// The stage `s` and action `a` that follow `event` in `flow`.
pub open spec fn launch_step(flow: LaunchFlow, event: LaunchEvent, s: LaunchStage, a: LaunchAction) -> bool {
    let id = flow.id@;
    match (flow.stage, event) {
        (LaunchStage::Inspecting, LaunchEvent::Inspected { was_pending, live }) => match live {
            Some(r) => if record_matches(r, flow.desktop, flow.canonical_app@, flow.bundle_id@) {
                s == LaunchStage::Activating { was_pending, record: r } && a
                    == LaunchAction::Activate(r)
            } else {
                s is Done && finishes_with_error(a, drift_message(id, r.pid))
            },
            None => proceeds(flow, was_pending, s, a),
        },
        (LaunchStage::Activating { was_pending, record }, LaunchEvent::Helper(result)) => match result {
            Ok(()) => if was_pending {
                clearing_with(s, LaunchOutcome::Focused { pid: record.pid }) && a is ClearPending
            } else {
                s is Done && finishes_with(a, LaunchOutcome::Focused { pid: record.pid })
            },
            Err(f) => if f matches CommandFailure::Exit { code: Some(65i32), .. } {
                s == LaunchStage::RemovingStale { was_pending } && a is RemoveRecord
            } else if was_pending {
                clearing_with_error(s, focus_message(id, f.text())) && a is ClearPending
            } else {
                s is Done && finishes_with_error(a, focus_message(id, f.text()))
            },
        },
        (LaunchStage::RemovingStale { was_pending }, LaunchEvent::Step(result)) => match result {
            Err(e) => s is Done && finishes_with_error(a, e@),
            Ok(()) => if was_pending {
                s is ClearingStale && a is ClearPending
            } else {
                proceeds(flow, false, s, a)
            },
        },
        (LaunchStage::ClearingStale, LaunchEvent::Step(result)) => s is Done && match result {
            Err(e) => finishes_with_error(a, e@),
            Ok(()) => finishes_with_error(a, unresolved_message(id, flow.pending_path@)),
        },
        (LaunchStage::Preflighting, LaunchEvent::Step(result)) => match result {
            Err(e) => s is Done && finishes_with_error(a, e@),
            Ok(()) => s is MarkingPending && a is MarkPending,
        },
        (LaunchStage::MarkingPending, LaunchEvent::Step(result)) => match result {
            Err(e) => s is Done && finishes_with_error(a, e@),
            Ok(()) => s is Launching && a is RunLauncher,
        },
        (LaunchStage::Launching, LaunchEvent::Launcher(result)) => match result {
            Err(f) => if f.launch_state_unknown() {
                s is Done && finishes_with_error(a, launch_failed_message(id, f))
            } else {
                clearing_with_error(s, launch_failed_message(id, f)) && a is ClearPending
            },
            Ok(Err(text)) => s is Done && finishes_with_error(a, untrusted_message(id, text@)),
            Ok(Ok(identity)) => match identity_problem(
                flow.canonical_app@,
                flow.bundle_id@,
                identity,
            ) {
                Some(p) => s is Done && finishes_with_error(a, untrusted_message(id, p)),
                None => (s matches LaunchStage::Recording { record } && record_fields_of(
                    flow.desktop,
                    identity,
                    record,
                ) && a == LaunchAction::WriteRecord(record)),
            },
        },
        (LaunchStage::Recording { record }, LaunchEvent::Step(result)) => match result {
            Ok(()) => clearing_with(s, LaunchOutcome::Launched { pid: record.pid }) && a is ClearPending,
            Err(e) => s == LaunchStage::Terminating { write_error: e, record } && a
                == LaunchAction::Terminate(record),
        },
        (LaunchStage::Terminating { write_error, record }, LaunchEvent::Helper(result)) => match result {
            Ok(()) => clearing_with_error(s, terminated_message(id, write_error@)) && a is ClearPending,
            Err(f) => s is Done && finishes_with_error(
                a,
                cleanup_message(id, write_error@, f.text()),
            ),
        },
        (LaunchStage::Clearing { outcome }, LaunchEvent::Step(result)) => s is Done && match result {
            Err(e) => finishes_with_error(a, e@),
            Ok(()) => match outcome {
                Ok(o) => finishes_with(a, o),
                Err(m) => finishes_with_error(a, m@),
            },
        },
        _ => false,
    }
}

/// The event answers the action that the stage is waiting on.
pub open spec fn event_fits(s: LaunchStage, event: LaunchEvent) -> bool {
    match (s, event) {
        (LaunchStage::Inspecting, LaunchEvent::Inspected { .. }) => true,
        (LaunchStage::Activating { .. }, LaunchEvent::Helper(_)) => true,
        (LaunchStage::Terminating { .. }, LaunchEvent::Helper(_)) => true,
        (LaunchStage::Launching, LaunchEvent::Launcher(_)) => true,
        (LaunchStage::RemovingStale { .. }, LaunchEvent::Step(_)) => true,
        (LaunchStage::ClearingStale, LaunchEvent::Step(_)) => true,
        (LaunchStage::Preflighting, LaunchEvent::Step(_)) => true,
        (LaunchStage::MarkingPending, LaunchEvent::Step(_)) => true,
        (LaunchStage::Recording { .. }, LaunchEvent::Step(_)) => true,
        (LaunchStage::Clearing { .. }, LaunchEvent::Step(_)) => true,
        _ => false,
    }
}

impl LaunchFlow {
    /// A launch of `desktop`, whose app resolves to `canonical_app` and must
    /// carry `bundle_id`; its pending marker lives under `state_dir`.
    pub fn new(
        id: &str,
        desktop: Desktop,
        canonical_app: String,
        bundle_id: String,
        state_dir: &str,
    ) -> (flow: LaunchFlow)
        ensures
            flow.id@ == id@,
            flow.desktop == desktop,
            flow.canonical_app == canonical_app,
            flow.bundle_id == bundle_id,
            flow.pending_path@ == joined_path(state_dir@, id@ + ".pending"@),
            flow.stage is Inspecting,
    {
        let name = join2(id, ".pending");
        let pending_path = crate::launch::join_path(state_dir, name.as_str());
        LaunchFlow {
            id: String::from_str(id),
            desktop,
            canonical_app,
            bundle_id,
            pending_path,
            stage: LaunchStage::Inspecting,
        }
    }

    fn finish_error(&mut self, message: String) -> (a: LaunchAction)
        ensures
            final(self).stage is Done,
            finishes_with_error(a, message@),
            final(self).id == old(self).id,
            final(self).desktop == old(self).desktop,
            final(self).canonical_app == old(self).canonical_app,
            final(self).bundle_id == old(self).bundle_id,
            final(self).pending_path == old(self).pending_path,
    {
        self.stage = LaunchStage::Done;
        LaunchAction::Finish(Err(LaunchError(message)))
    }

    fn unresolved(&self) -> (m: String)
        ensures
            m@ == unresolved_message(self.id@, self.pending_path@),
    {
        let q = quoted(self.id.as_str());
        let head = join3("desktop ", q.as_str(), " has an unresolved previous launch without a verifiable registry record; inspect ");
        join3(head.as_str(), self.pending_path.as_str(), " before retrying")
    }

    fn proceed(&mut self, was_pending: bool) -> (a: LaunchAction)
        ensures
            proceeds(*old(self), was_pending, final(self).stage, a),
            final(self).id == old(self).id,
            final(self).desktop == old(self).desktop,
            final(self).canonical_app == old(self).canonical_app,
            final(self).bundle_id == old(self).bundle_id,
            final(self).pending_path == old(self).pending_path,
    {
        if was_pending {
            let m = self.unresolved();
            return self.finish_error(m);
        }
        match &self.desktop.mode {
            DesktopMode::Remote { target, .. } => {
                let t = target.clone();
                self.stage = LaunchStage::Preflighting;
                LaunchAction::Preflight(t)
            },
            DesktopMode::Local => {
                self.stage = LaunchStage::MarkingPending;
                LaunchAction::MarkPending
            },
        }
    }

    /// Whether `event` answers the action that the launch waits on.
    pub fn accepts(&self, event: &LaunchEvent) -> (r: bool)
        ensures
            r == event_fits(self.stage, *event),
    {
        match (&self.stage, event) {
            (LaunchStage::Inspecting, LaunchEvent::Inspected { .. }) => true,
            (LaunchStage::Activating { .. }, LaunchEvent::Helper(_)) => true,
            (LaunchStage::Terminating { .. }, LaunchEvent::Helper(_)) => true,
            (LaunchStage::Launching, LaunchEvent::Launcher(_)) => true,
            (LaunchStage::RemovingStale { .. }, LaunchEvent::Step(_)) => true,
            (LaunchStage::ClearingStale, LaunchEvent::Step(_)) => true,
            (LaunchStage::Preflighting, LaunchEvent::Step(_)) => true,
            (LaunchStage::MarkingPending, LaunchEvent::Step(_)) => true,
            (LaunchStage::Recording { .. }, LaunchEvent::Step(_)) => true,
            (LaunchStage::Clearing { .. }, LaunchEvent::Step(_)) => true,
            _ => false,
        }
    }

    /// Takes the result of the last action and says what to do next.
    pub fn step(&mut self, event: LaunchEvent) -> (a: LaunchAction)
        requires
            event_fits(old(self).stage, event),
        ensures
            launch_step(*old(self), event, final(self).stage, a),
            final(self).id == old(self).id,
            final(self).desktop == old(self).desktop,
            final(self).canonical_app == old(self).canonical_app,
            final(self).bundle_id == old(self).bundle_id,
            final(self).pending_path == old(self).pending_path,
    {
        let mut stage = LaunchStage::Done;
        std::mem::swap(&mut stage, &mut self.stage);
        let ghost before = LaunchFlow { stage, ..*old(self) };
        assert(before == *old(self));
        match stage {
            LaunchStage::Inspecting => match event {
                LaunchEvent::Inspected { was_pending, live } => match live {
                    Some(r) => {
                        if record_matches_desktop(
                            &r,
                            &self.desktop,
                            self.canonical_app.as_str(),
                            self.bundle_id.as_str(),
                        ) {
                            let copy = copy_record(&r);
                            self.stage = LaunchStage::Activating { was_pending, record: r };
                            LaunchAction::Activate(copy)
                        } else {
                            let q = quoted(self.id.as_str());
                            let pid = decimal_string(r.pid as i64);
                            let head = join4("desktop ", q.as_str(), " configuration changed while pid ", pid.as_str());
                            let m = join2(head.as_str(), " is still open; close the old client before launching the new endpoint");
                            assert(m@ =~= drift_message(self.id@, r.pid));
                            self.finish_error(m)
                        }
                    },
                    None => self.proceed(was_pending),
                },
                _ => self.finish_error(String::new()),
            },
            LaunchStage::Activating { was_pending, record } => match event {
                LaunchEvent::Helper(result) => match result {
                    Ok(()) => {
                        let outcome = LaunchOutcome::Focused { pid: record.pid };
                        if was_pending {
                            self.stage = LaunchStage::Clearing { outcome: Ok(outcome) };
                            LaunchAction::ClearPending
                        } else {
                            LaunchAction::Finish(Ok(outcome))
                        }
                    },
                    Err(f) => {
                        if f.code() == Some(65i32) {
                            self.stage = LaunchStage::RemovingStale { was_pending };
                            LaunchAction::RemoveRecord
                        } else {
                            let q = quoted(self.id.as_str());
                            let text = f.message();
                            let m = join4("could not focus existing desktop ", q.as_str(), ": ", text.as_str());
                            if was_pending {
                                self.stage = LaunchStage::Clearing { outcome: Err(m) };
                                LaunchAction::ClearPending
                            } else {
                                self.finish_error(m)
                            }
                        }
                    },
                },
                _ => self.finish_error(String::new()),
            },
            LaunchStage::RemovingStale { was_pending } => match event {
                LaunchEvent::Step(result) => match result {
                    Err(e) => self.finish_error(e),
                    Ok(()) => {
                        if was_pending {
                            self.stage = LaunchStage::ClearingStale;
                            LaunchAction::ClearPending
                        } else {
                            self.proceed(false)
                        }
                    },
                },
                _ => self.finish_error(String::new()),
            },
            LaunchStage::ClearingStale => match event {
                LaunchEvent::Step(result) => match result {
                    Err(e) => self.finish_error(e),
                    Ok(()) => {
                        let m = self.unresolved();
                        self.finish_error(m)
                    },
                },
                _ => self.finish_error(String::new()),
            },
            LaunchStage::Preflighting => match event {
                LaunchEvent::Step(result) => match result {
                    Err(e) => self.finish_error(e),
                    Ok(()) => {
                        self.stage = LaunchStage::MarkingPending;
                        LaunchAction::MarkPending
                    },
                },
                _ => self.finish_error(String::new()),
            },
            LaunchStage::MarkingPending => match event {
                LaunchEvent::Step(result) => match result {
                    Err(e) => self.finish_error(e),
                    Ok(()) => {
                        self.stage = LaunchStage::Launching;
                        LaunchAction::RunLauncher
                    },
                },
                _ => self.finish_error(String::new()),
            },
            LaunchStage::Launching => match event {
                LaunchEvent::Launcher(result) => match result {
                    Err(f) => {
                        let q = quoted(self.id.as_str());
                        let unknown = f.unknown_launch_state();
                        let note = if unknown {
                            "; outcome is unknown and retries are blocked"
                        } else {
                            ""
                        };
                        let text = f.message();
                        let head = join4("desktop ", q.as_str(), " launch failed", note);
                        let m = join3(head.as_str(), ": ", text.as_str());
                        proof {
                            reveal_strlit("");
                        }
                        assert(m@ =~= launch_failed_message(self.id@, f));
                        if unknown {
                            self.finish_error(m)
                        } else {
                            self.stage = LaunchStage::Clearing { outcome: Err(m) };
                            LaunchAction::ClearPending
                        }
                    },
                    Ok(Err(text)) => {
                        let q = quoted(self.id.as_str());
                        let m = join4("desktop ", q.as_str(), " may be running but returned untrusted identity; retries remain blocked: ", text.as_str());
                        self.finish_error(m)
                    },
                    Ok(Ok(identity)) => {
                        let ghost reported = identity;
                        match check_launch_identity(
                            self.canonical_app.as_str(),
                            self.bundle_id.as_str(),
                            identity,
                        ) {
                            Err(e) => {
                                let q = quoted(self.id.as_str());
                                let m = join4("desktop ", q.as_str(), " may be running but returned untrusted identity; retries remain blocked: ", e.0.as_str());
                                self.finish_error(m)
                            },
                            Ok(identity) => {
                                let record = record_from_desktop(&self.desktop, identity);
                                let copy = copy_record(&record);
                                self.stage = LaunchStage::Recording { record };
                                LaunchAction::WriteRecord(copy)
                            },
                        }
                    },
                },
                _ => self.finish_error(String::new()),
            },
            LaunchStage::Recording { record } => match event {
                LaunchEvent::Step(result) => match result {
                    Ok(()) => {
                        self.stage = LaunchStage::Clearing {
                            outcome: Ok(LaunchOutcome::Launched { pid: record.pid }),
                        };
                        LaunchAction::ClearPending
                    },
                    Err(e) => {
                        let copy = copy_record(&record);
                        self.stage = LaunchStage::Terminating { write_error: e, record };
                        LaunchAction::Terminate(copy)
                    },
                },
                _ => self.finish_error(String::new()),
            },
            LaunchStage::Terminating { write_error, record } => match event {
                LaunchEvent::Helper(result) => match result {
                    Ok(()) => {
                        let q = quoted(self.id.as_str());
                        let m = join4("could not record desktop ", q.as_str(), "; the newly launched client was terminated: ", write_error.as_str());
                        self.stage = LaunchStage::Clearing { outcome: Err(m) };
                        LaunchAction::ClearPending
                    },
                    Err(f) => {
                        let q = quoted(self.id.as_str());
                        let text = f.message();
                        let head = join4("could not record desktop ", q.as_str(), " and could not verify cleanup; retries remain blocked: ", write_error.as_str());
                        let m = join3(head.as_str(), "; cleanup: ", text.as_str());
                        self.finish_error(m)
                    },
                },
                _ => self.finish_error(String::new()),
            },
            LaunchStage::Clearing { outcome } => match event {
                LaunchEvent::Step(result) => match result {
                    Err(e) => self.finish_error(e),
                    Ok(()) => match outcome {
                        Ok(o) => LaunchAction::Finish(Ok(o)),
                        Err(m) => self.finish_error(m),
                    },
                },
                _ => self.finish_error(String::new()),
            },
            LaunchStage::Done => self.finish_error(String::new()),
        }
    }
}


// ---------------------------------------------------------------------------
// Laws of the launch.
// ---------------------------------------------------------------------------
/// A recorded client whose bundle, app path or endpoint no longer matches the
/// configuration is neither focused nor replaced: the launch stops with the
/// drift error.
pub proof fn law_drift_is_refused(
    flow: LaunchFlow,
    was_pending: bool,
    record: InstanceRecord,
    s: LaunchStage,
    a: LaunchAction,
)
    requires
        flow.stage is Inspecting,
        !record_matches(record, flow.desktop, flow.canonical_app@, flow.bundle_id@),
        launch_step(flow, LaunchEvent::Inspected { was_pending, live: Some(record) }, s, a),
    ensures
        s is Done,
        finishes_with_error(a, drift_message(flow.id@, record.pid)),
{
}

/// A pending marker with no verifiable live record blocks the launch.
pub proof fn law_pending_marker_blocks_launch(flow: LaunchFlow, s: LaunchStage, a: LaunchAction)
    requires
        flow.stage is Inspecting,
        launch_step(flow, LaunchEvent::Inspected { was_pending: true, live: None }, s, a),
    ensures
        s is Done,
        finishes_with_error(a, unresolved_message(flow.id@, flow.pending_path@)),
{
}

/// When the launch helper fails in a way that leaves the outcome unknown, the
/// pending marker is left in place: the launch finishes without clearing it.
pub proof fn law_unknown_outcome_keeps_marker(
    flow: LaunchFlow,
    failure: CommandFailure,
    s: LaunchStage,
    a: LaunchAction,
)
    requires
        flow.stage is Launching,
        failure.launch_state_unknown(),
        launch_step(flow, LaunchEvent::Launcher(Err(failure)), s, a),
    ensures
        s is Done,
        a is Finish,
        !(a is ClearPending),
{
}

/// How a failure of the launch helper ends the launch. When the helper may
/// have started a client anyway (it could not be waited for, timed out, died
/// by a signal, or exited with code 75), the launch finishes with an error
/// saying retries are blocked and the pending marker is kept. When it surely
/// started nothing (it could not be started, or exited with any other code),
/// the marker is cleared before the plain failure is reported.
pub proof fn law_launcher_failure_decides_the_marker(
    flow: LaunchFlow,
    failure: CommandFailure,
    s: LaunchStage,
    a: LaunchAction,
)
    requires
        flow.stage is Launching,
        launch_step(flow, LaunchEvent::Launcher(Err(failure)), s, a),
    ensures
        ({
            let head = "desktop "@ + debug_quoted(flow.id@) + " launch failed"@;
            let kept = match failure {
                CommandFailure::Start(_) => false,
                CommandFailure::Wait(_) => true,
                CommandFailure::Timeout => true,
                CommandFailure::Exit { code: None, .. } => true,
                CommandFailure::Exit { code: Some(c), .. } => c == 75,
            };
            &&& kept ==> s is Done && finishes_with_error(
                a,
                head + "; outcome is unknown and retries are blocked"@ + ": "@ + failure.text(),
            ) && !(a is ClearPending)
            &&& !kept ==> a is ClearPending && clearing_with_error(
                s,
                head + Seq::<char>::empty() + ": "@ + failure.text(),
            )
        }),
{
}

/// The launch helper runs only once the pending marker was created: the
/// step that asks for it answers a successful marking.
pub proof fn law_launcher_runs_only_after_marking(
    flow: LaunchFlow,
    event: LaunchEvent,
    s: LaunchStage,
    a: LaunchAction,
)
    requires
        launch_step(flow, event, s, a),
    ensures
        a is RunLauncher ==> flow.stage is MarkingPending && event matches LaunchEvent::Step(Ok(())),
{
}

/// A remote desktop is marked pending only after its SSH preflight passed,
/// and the preflight checks the desktop's own target.
pub proof fn law_remote_marked_only_after_preflight(
    flow: LaunchFlow,
    event: LaunchEvent,
    s: LaunchStage,
    a: LaunchAction,
)
    requires
        launch_step(flow, event, s, a),
        flow.desktop.mode is Remote,
    ensures
        a is MarkPending ==> flow.stage is Preflighting && event matches LaunchEvent::Step(Ok(())),
        a matches LaunchAction::Preflight(t) ==> t@ == flow.desktop.mode->Remote_target@,
{
}

/// When the record of a newly launched client cannot be written, that client
/// is terminated.
pub proof fn law_unrecorded_client_is_terminated(
    flow: LaunchFlow,
    record: InstanceRecord,
    error: String,
    s: LaunchStage,
    a: LaunchAction,
)
    requires
        flow.stage == (LaunchStage::Recording { record }),
        launch_step(flow, LaunchEvent::Step(Err(error)), s, a),
    ensures
        a == LaunchAction::Terminate(record),
        s == (LaunchStage::Terminating { write_error: error, record }),
{
}

/// When the identity helper cannot focus the recorded client because it exits
/// with code 65 (the client is gone), the stale record is removed; any other
/// failure ends the launch with the focus error, after clearing a pending
/// marker if there was one.
pub proof fn law_focus_failure(
    flow: LaunchFlow,
    was_pending: bool,
    record: InstanceRecord,
    failure: CommandFailure,
    s: LaunchStage,
    a: LaunchAction,
)
    requires
        flow.stage == (LaunchStage::Activating { was_pending, record }),
        launch_step(flow, LaunchEvent::Helper(Err(failure)), s, a),
    ensures
        (failure matches CommandFailure::Exit { code: Some(c), .. } && c == 65) ==> a is RemoveRecord,
        !(failure matches CommandFailure::Exit { code: Some(c), .. } && c == 65) ==> {
            let m = "could not focus existing desktop "@ + debug_quoted(flow.id@) + ": "@ + failure.text();
            if was_pending {
                a is ClearPending && clearing_with_error(s, m)
            } else {
                s is Done && finishes_with_error(a, m)
            }
        },
{
}

/// A launch reports `Launched` only after the new client's record was written
/// and then the pending marker was cleared.
pub proof fn law_launched_only_after_record_and_clear(
    flow: LaunchFlow,
    event: LaunchEvent,
    s: LaunchStage,
    a: LaunchAction,
    pid: i32,
)
    requires
        launch_step(flow, event, s, a),
    ensures
        clearing_with(s, LaunchOutcome::Launched { pid }) ==> (flow.stage matches LaunchStage::Recording {
            record,
        } && record.pid == pid && event matches LaunchEvent::Step(Ok(()))),
        finishes_with(a, LaunchOutcome::Launched { pid }) ==> (flow.stage matches LaunchStage::Clearing {
            outcome: Ok(LaunchOutcome::Launched { pid: p }),
        } && p == pid && event matches LaunchEvent::Step(Ok(()))),
{
}

/// A launch reports `Focused` only after the identity helper activated the
/// recorded client (and, if a marker was pending, after clearing it).
pub proof fn law_focused_only_after_activation(
    flow: LaunchFlow,
    event: LaunchEvent,
    s: LaunchStage,
    a: LaunchAction,
    pid: i32,
)
    requires
        launch_step(flow, event, s, a),
    ensures
        clearing_with(s, LaunchOutcome::Focused { pid }) ==> (flow.stage matches LaunchStage::Activating {
            was_pending: true,
            record,
        } && record.pid == pid && event matches LaunchEvent::Helper(Ok(()))),
        finishes_with(a, LaunchOutcome::Focused { pid }) ==> ((flow.stage matches LaunchStage::Activating {
            was_pending: false,
            record,
        } && record.pid == pid && event matches LaunchEvent::Helper(Ok(()))) || (
        flow.stage matches LaunchStage::Clearing { outcome: Ok(LaunchOutcome::Focused { pid: p }) }
            && p == pid && event matches LaunchEvent::Step(Ok(())))),
{
}

} // verus!
