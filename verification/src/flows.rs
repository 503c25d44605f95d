//! The two interactive flows, building a template and spawning a VM, as step
//! functions: from where a flow stands and what the caller observed to where
//! it goes next and what the caller is to do (ask, list, run a command, stop).

use vstd::prelude::*;
use crate::choices::fallback_clone_vmid;
use crate::pvesh::{
    entry_views, json_objects, list_templates, next_free_vmid, next_free_vmid_from, sort_by_id,
    strip_char, template_entries, vmid_exists, vmid_listed, vmids_of,
};
use crate::text::{parse_u32, split_lines, trim};

verus! {

/// Templates conventionally live from this VMID up.
pub const TEMPLATE_VMID_BASE: u32 = 9000;

/// `d` is the lowest VMID `>= start` outside `used`.
pub open spec fn lowest_free(start: u32, used: Set<u32>, d: u32) -> bool {
    &&& start <= d
    &&& !used.contains(d)
    &&& forall|x: u32| start <= x < d ==> used.contains(x)
}

/// Some VMID `>= start` is outside `used`.
pub open spec fn some_free(start: u32, used: Set<u32>) -> bool {
    exists|c: u32| start <= c && !used.contains(c)
}

/// The VMID that `pvesh get /cluster/nextid` printed, if the command ran and
/// its output reads as one.
pub open spec fn printed_next_id(o: Option<String>) -> Option<u32> {
    match o {
        Some(x) => parse_u32(strip_char(trim(x@), '"')),
        None => None,
    }
}

fn read_next_id(o: &Option<String>) -> (r: Option<u32>)
    ensures
        r == printed_next_id(*o),
{
    match o {
        Some(x) => next_free_vmid(x.as_str()),
        None => None,
    }
}

// ---------------------------------------------------------------------------
// Building a template
// ---------------------------------------------------------------------------

/// Where building a template stands (after the image, storage and bridge are chosen).
pub enum TemplateFlow {
    Start,
    /// Waiting for the cluster's VM list, to find a free VMID from 9000 up.
    ScanningFree,
    /// Every VMID from 9000 up is taken: waiting for the cluster's next id.
    QueryingNextId,
    /// Waiting for the VMID the user enters.
    AskingVmid,
    /// Waiting for `qm list`, to refuse a VMID that exists.
    CheckingVmid(u32),
    /// Waiting for the name, memory and cores, and the confirmation of the plan.
    Confirming,
    /// Waiting for `qm create`.
    Creating,
    /// Waiting for the disk import.
    Importing,
    /// Waiting for the four commands that attach the disk and make the template.
    Attaching,
    Done,
    Aborted,
    Failed,
}

/// What the caller observed.
pub enum TemplateEvent {
    Begin,
    /// The JSON of `pvesh get /cluster/resources`, or `None` when it failed.
    ResourcesListed(Option<String>),
    /// The output of `pvesh get /cluster/nextid`, or `None` when it failed.
    NextIdPrinted(Option<String>),
    VmidEntered(u32),
    /// The output of `qm list`, or `None` when it failed.
    VmsListed(Option<String>),
    /// Whether the user confirmed the plan.
    Confirmed(bool),
    /// Whether the command (or commands) of the step succeeded.
    StepFinished(bool),
}

/// What the caller is to do next.
pub enum TemplateAction {
    /// Run `pvesh get /cluster/resources`.
    ListResources,
    /// Run `pvesh get /cluster/nextid`.
    QueryNextId,
    /// Ask for the VMID, offering this default.
    AskVmid(u32),
    /// Run `qm list` to see whether this VMID exists.
    ListVms(u32),
    /// Ask for name, memory and cores, show the plan, ask to proceed.
    AskDetails,
    /// Run `qm create`.
    CreateShell,
    /// Import the disk.
    ImportDisk,
    /// Attach the disk and make the VM a template.
    AttachAndFinalize,
    /// The template is ready.
    Finish,
    /// The user declined: stop, having run nothing.
    Abort,
    /// The VMID exists: stop with an error.
    FailVmidTaken(u32),
    /// Stop with the error of the command that just failed.
    FailStep,
    /// The event does not belong to this state.
    Unexpected,
}

/// The step of the template flow from `state` on `event`.
pub open spec fn template_flow_spec(
    state: TemplateFlow,
    event: TemplateEvent,
    next: TemplateFlow,
    action: TemplateAction,
) -> bool {
    match (state, event) {
        (TemplateFlow::Start, TemplateEvent::Begin) => next is ScanningFree && action is ListResources,
        (TemplateFlow::ScanningFree, TemplateEvent::ResourcesListed(o)) => match o {
            Some(x) => {
                let used = vmids_of(json_objects(x@));
                if some_free(TEMPLATE_VMID_BASE, used) {
                    &&& next is AskingVmid
                    &&& action matches TemplateAction::AskVmid(d) && lowest_free(
                        TEMPLATE_VMID_BASE,
                        used,
                        d,
                    )
                } else {
                    next is QueryingNextId && action is QueryNextId
                }
            },
            None => next is AskingVmid && (action matches TemplateAction::AskVmid(d) && d
                == TEMPLATE_VMID_BASE),
        },
        (TemplateFlow::QueryingNextId, TemplateEvent::NextIdPrinted(o)) => {
            &&& next is AskingVmid
            &&& action matches TemplateAction::AskVmid(d) && d == match printed_next_id(o) {
                Some(n) => n,
                None => TEMPLATE_VMID_BASE,
            }
        },
        (TemplateFlow::AskingVmid, TemplateEvent::VmidEntered(v)) => {
            &&& next matches TemplateFlow::CheckingVmid(w) && w == v
            &&& action matches TemplateAction::ListVms(w) && w == v
        },
        (TemplateFlow::CheckingVmid(v), TemplateEvent::VmsListed(o)) => match o {
            Some(x) => if vmid_listed(split_lines(x@), v) {
                next is Failed && (action matches TemplateAction::FailVmidTaken(w) && w == v)
            } else {
                next is Confirming && action is AskDetails
            },
            None => next is Failed && action is FailStep,
        },
        (TemplateFlow::Confirming, TemplateEvent::Confirmed(yes)) => if yes {
            next is Creating && action is CreateShell
        } else {
            next is Aborted && action is Abort
        },
        (TemplateFlow::Creating, TemplateEvent::StepFinished(ok)) => if ok {
            next is Importing && action is ImportDisk
        } else {
            next is Failed && action is FailStep
        },
        (TemplateFlow::Importing, TemplateEvent::StepFinished(ok)) => if ok {
            next is Attaching && action is AttachAndFinalize
        } else {
            next is Failed && action is FailStep
        },
        (TemplateFlow::Attaching, TemplateEvent::StepFinished(ok)) => if ok {
            next is Done && action is Finish
        } else {
            next is Failed && action is FailStep
        },
        _ => next is Failed && action is Unexpected,
    }
}

/// One step of building a template; see [`template_flow_spec`].
pub fn template_flow_step(state: &TemplateFlow, event: &TemplateEvent) -> (r: (
    TemplateFlow,
    TemplateAction,
))
    ensures
        template_flow_spec(*state, *event, r.0, r.1),
{
    match (state, event) {
        (TemplateFlow::Start, TemplateEvent::Begin) => (
            TemplateFlow::ScanningFree,
            TemplateAction::ListResources,
        ),
        (TemplateFlow::ScanningFree, TemplateEvent::ResourcesListed(o)) => match o {
            Some(x) => match next_free_vmid_from(TEMPLATE_VMID_BASE, x.as_str()) {
                Some(d) => (TemplateFlow::AskingVmid, TemplateAction::AskVmid(d)),
                None => (TemplateFlow::QueryingNextId, TemplateAction::QueryNextId),
            },
            None => (TemplateFlow::AskingVmid, TemplateAction::AskVmid(TEMPLATE_VMID_BASE)),
        },
        (TemplateFlow::QueryingNextId, TemplateEvent::NextIdPrinted(o)) => {
            let d = match read_next_id(o) {
                Some(n) => n,
                None => TEMPLATE_VMID_BASE,
            };
            (TemplateFlow::AskingVmid, TemplateAction::AskVmid(d))
        },
        (TemplateFlow::AskingVmid, TemplateEvent::VmidEntered(v)) => (
            TemplateFlow::CheckingVmid(*v),
            TemplateAction::ListVms(*v),
        ),
        (TemplateFlow::CheckingVmid(v), TemplateEvent::VmsListed(o)) => match o {
            Some(x) => if vmid_exists(x.as_str(), *v) {
                (TemplateFlow::Failed, TemplateAction::FailVmidTaken(*v))
            } else {
                (TemplateFlow::Confirming, TemplateAction::AskDetails)
            },
            None => (TemplateFlow::Failed, TemplateAction::FailStep),
        },
        (TemplateFlow::Confirming, TemplateEvent::Confirmed(yes)) => if *yes {
            (TemplateFlow::Creating, TemplateAction::CreateShell)
        } else {
            (TemplateFlow::Aborted, TemplateAction::Abort)
        },
        (TemplateFlow::Creating, TemplateEvent::StepFinished(ok)) => if *ok {
            (TemplateFlow::Importing, TemplateAction::ImportDisk)
        } else {
            (TemplateFlow::Failed, TemplateAction::FailStep)
        },
        (TemplateFlow::Importing, TemplateEvent::StepFinished(ok)) => if *ok {
            (TemplateFlow::Attaching, TemplateAction::AttachAndFinalize)
        } else {
            (TemplateFlow::Failed, TemplateAction::FailStep)
        },
        (TemplateFlow::Attaching, TemplateEvent::StepFinished(ok)) => if *ok {
            (TemplateFlow::Done, TemplateAction::Finish)
        } else {
            (TemplateFlow::Failed, TemplateAction::FailStep)
        },
        _ => (TemplateFlow::Failed, TemplateAction::Unexpected),
    }
}

/// Building a template runs its commands only after the plan is confirmed,
/// in the order create, import, attach, each only after the one before it
/// succeeded.
pub proof fn lemma_template_commands_in_order(
    state: TemplateFlow,
    event: TemplateEvent,
    next: TemplateFlow,
    action: TemplateAction,
)
    requires
        template_flow_spec(state, event, next, action),
    ensures
        action is CreateShell ==> state is Confirming && event == TemplateEvent::Confirmed(true),
        action is ImportDisk ==> state is Creating && event == TemplateEvent::StepFinished(true),
        action is AttachAndFinalize ==> state is Importing && event == TemplateEvent::StepFinished(
            true,
        ),
{
}

/// An existing VMID ends the template flow with an error, and a declined plan
/// ends it having run nothing: once the flow has ended, no event makes it
/// run a command or ask anything.
pub proof fn lemma_template_ends(
    state: TemplateFlow,
    event: TemplateEvent,
    next: TemplateFlow,
    action: TemplateAction,
)
    requires
        template_flow_spec(state, event, next, action),
    ensures
        (state matches TemplateFlow::CheckingVmid(v) && event matches TemplateEvent::VmsListed(o)
            && o matches Some(x) && vmid_listed(split_lines(x@), v)) ==> next is Failed
            && action is FailVmidTaken,
        event == TemplateEvent::Confirmed(false) && state is Confirming ==> next is Aborted
            && action is Abort,
        (state is Done || state is Aborted || state is Failed) ==> next is Failed
            && action is Unexpected,
{
}

// ---------------------------------------------------------------------------
// Spawning a VM from a template
// ---------------------------------------------------------------------------

/// Where spawning a VM stands. The flag of the running states is whether the
/// VM is to be started at the end.
pub enum SpawnFlow {
    Start,
    /// Waiting for the cluster's VM list, to find the templates.
    ListingTemplates,
    /// Waiting for the template the user picks.
    PickingTemplate,
    /// Waiting for the cluster's next id; the template picked.
    QueryingNextId(u32),
    /// Waiting for the VMID the user enters.
    AskingVmid,
    /// Waiting for `qm list`, to refuse a VMID that exists.
    CheckingVmid(u32),
    /// Waiting for name, storage, sizes, snippet, whether to start, and the confirmation.
    Confirming,
    /// Waiting for `qm clone`.
    Cloning(bool),
    /// Waiting for `qm set` with the settings and the snippet.
    Configuring(bool),
    /// Waiting for `qm resize`.
    Resizing(bool),
    /// Waiting for `qm start`.
    Starting,
    Done,
    Aborted,
    Failed,
}

/// What the caller observed.
pub enum SpawnEvent {
    Begin,
    /// The JSON of `pvesh get /cluster/resources`, or `None` when it failed.
    ResourcesListed(Option<String>),
    /// The VMID of the template the user picked.
    TemplatePicked(u32),
    /// The output of `pvesh get /cluster/nextid`, or `None` when it failed.
    NextIdPrinted(Option<String>),
    VmidEntered(u32),
    /// The output of `qm list`, or `None` when it failed.
    VmsListed(Option<String>),
    /// Whether to proceed with the plan, and whether to start the VM at the end.
    Confirmed { proceed: bool, start_after: bool },
    /// Whether the command of the step succeeded.
    StepFinished(bool),
}

/// What the caller is to do next.
pub enum SpawnAction {
    /// Run `pvesh get /cluster/resources`.
    ListResources,
    /// There is no template: say so and stop.
    ReportNoTemplates,
    /// Ask which of these templates `(vmid, name)` to clone.
    AskTemplate(Vec<(u32, String)>),
    /// Run `pvesh get /cluster/nextid`.
    QueryNextId,
    /// Ask for the VMID, offering this default.
    AskVmid(u32),
    /// Run `qm list` to see whether this VMID exists.
    ListVms(u32),
    /// Ask for name, storage, cores, memory, disk, snippet and whether to start;
    /// show the plan; ask to proceed.
    AskDetails,
    /// Run `qm clone`.
    CloneTemplate,
    /// Run `qm set` with the settings and the snippet.
    ApplySettings,
    /// Run `qm resize`.
    ResizeDisk,
    /// Run `qm start`.
    StartVm,
    /// The VM is ready.
    Finish,
    /// The user declined: stop, having run nothing.
    Abort,
    /// The VMID exists: stop with an error.
    FailVmidTaken(u32),
    /// The next id could not be read and the template's VMID has no successor.
    FailNoDefaultVmid,
    /// Stop with the error of the command that just failed.
    FailStep,
    /// The event does not belong to this state.
    Unexpected,
}

/// The VMID offered for a clone of template `t` when the next id is unknown.
pub open spec fn clone_fallback(t: u32) -> u32 {
    if t + 1 < 100 {
        100
    } else {
        (t + 1) as u32
    }
}

/// The step of the spawn flow from `state` on `event`.
pub open spec fn spawn_flow_spec(
    state: SpawnFlow,
    event: SpawnEvent,
    next: SpawnFlow,
    action: SpawnAction,
) -> bool {
    match (state, event) {
        (SpawnFlow::Start, SpawnEvent::Begin) => next is ListingTemplates && action is ListResources,
        (SpawnFlow::ListingTemplates, SpawnEvent::ResourcesListed(o)) => match o {
            Some(x) => {
                let ts = sort_by_id(template_entries(json_objects(x@)));
                if ts.len() == 0 {
                    next is Done && action is ReportNoTemplates
                } else {
                    &&& next is PickingTemplate
                    &&& action matches SpawnAction::AskTemplate(l) && entry_views(l@) == ts
                }
            },
            None => next is Failed && action is FailStep,
        },
        (SpawnFlow::PickingTemplate, SpawnEvent::TemplatePicked(t)) => {
            &&& next matches SpawnFlow::QueryingNextId(u) && u == t
            &&& action is QueryNextId
        },
        (SpawnFlow::QueryingNextId(t), SpawnEvent::NextIdPrinted(o)) => match printed_next_id(o) {
            Some(n) => next is AskingVmid && (action matches SpawnAction::AskVmid(d) && d == n),
            None => if t < u32::MAX {
                next is AskingVmid && (action matches SpawnAction::AskVmid(d) && d == clone_fallback(
                    t,
                ))
            } else {
                next is Failed && action is FailNoDefaultVmid
            },
        },
        (SpawnFlow::AskingVmid, SpawnEvent::VmidEntered(v)) => {
            &&& next matches SpawnFlow::CheckingVmid(w) && w == v
            &&& action matches SpawnAction::ListVms(w) && w == v
        },
        (SpawnFlow::CheckingVmid(v), SpawnEvent::VmsListed(o)) => match o {
            Some(x) => if vmid_listed(split_lines(x@), v) {
                next is Failed && (action matches SpawnAction::FailVmidTaken(w) && w == v)
            } else {
                next is Confirming && action is AskDetails
            },
            None => next is Failed && action is FailStep,
        },
        (SpawnFlow::Confirming, SpawnEvent::Confirmed { proceed, start_after }) => if proceed {
            next == SpawnFlow::Cloning(start_after) && action is CloneTemplate
        } else {
            next is Aborted && action is Abort
        },
        (SpawnFlow::Cloning(s), SpawnEvent::StepFinished(ok)) => if ok {
            next == SpawnFlow::Configuring(s) && action is ApplySettings
        } else {
            next is Failed && action is FailStep
        },
        (SpawnFlow::Configuring(s), SpawnEvent::StepFinished(ok)) => if ok {
            next == SpawnFlow::Resizing(s) && action is ResizeDisk
        } else {
            next is Failed && action is FailStep
        },
        (SpawnFlow::Resizing(s), SpawnEvent::StepFinished(ok)) => if !ok {
            next is Failed && action is FailStep
        } else if s {
            next is Starting && action is StartVm
        } else {
            next is Done && action is Finish
        },
        (SpawnFlow::Starting, SpawnEvent::StepFinished(ok)) => if ok {
            next is Done && action is Finish
        } else {
            next is Failed && action is FailStep
        },
        _ => next is Failed && action is Unexpected,
    }
}

/// One step of spawning a VM; see [`spawn_flow_spec`].
pub fn spawn_flow_step(state: &SpawnFlow, event: &SpawnEvent) -> (r: (SpawnFlow, SpawnAction))
    ensures
        spawn_flow_spec(*state, *event, r.0, r.1),
{
    match (state, event) {
        (SpawnFlow::Start, SpawnEvent::Begin) => (
            SpawnFlow::ListingTemplates,
            SpawnAction::ListResources,
        ),
        (SpawnFlow::ListingTemplates, SpawnEvent::ResourcesListed(o)) => match o {
            Some(x) => {
                let ts = list_templates(x.as_str());
                if ts.len() == 0 {
                    (SpawnFlow::Done, SpawnAction::ReportNoTemplates)
                } else {
                    (SpawnFlow::PickingTemplate, SpawnAction::AskTemplate(ts))
                }
            },
            None => (SpawnFlow::Failed, SpawnAction::FailStep),
        },
        (SpawnFlow::PickingTemplate, SpawnEvent::TemplatePicked(t)) => (
            SpawnFlow::QueryingNextId(*t),
            SpawnAction::QueryNextId,
        ),
        (SpawnFlow::QueryingNextId(t), SpawnEvent::NextIdPrinted(o)) => match read_next_id(o) {
            Some(n) => (SpawnFlow::AskingVmid, SpawnAction::AskVmid(n)),
            None => if *t < u32::MAX {
                (SpawnFlow::AskingVmid, SpawnAction::AskVmid(fallback_clone_vmid(*t)))
            } else {
                (SpawnFlow::Failed, SpawnAction::FailNoDefaultVmid)
            },
        },
        (SpawnFlow::AskingVmid, SpawnEvent::VmidEntered(v)) => (
            SpawnFlow::CheckingVmid(*v),
            SpawnAction::ListVms(*v),
        ),
        (SpawnFlow::CheckingVmid(v), SpawnEvent::VmsListed(o)) => match o {
            Some(x) => if vmid_exists(x.as_str(), *v) {
                (SpawnFlow::Failed, SpawnAction::FailVmidTaken(*v))
            } else {
                (SpawnFlow::Confirming, SpawnAction::AskDetails)
            },
            None => (SpawnFlow::Failed, SpawnAction::FailStep),
        },
        (SpawnFlow::Confirming, SpawnEvent::Confirmed { proceed, start_after }) => if *proceed {
            (SpawnFlow::Cloning(*start_after), SpawnAction::CloneTemplate)
        } else {
            (SpawnFlow::Aborted, SpawnAction::Abort)
        },
        (SpawnFlow::Cloning(s), SpawnEvent::StepFinished(ok)) => if *ok {
            (SpawnFlow::Configuring(*s), SpawnAction::ApplySettings)
        } else {
            (SpawnFlow::Failed, SpawnAction::FailStep)
        },
        (SpawnFlow::Configuring(s), SpawnEvent::StepFinished(ok)) => if *ok {
            (SpawnFlow::Resizing(*s), SpawnAction::ResizeDisk)
        } else {
            (SpawnFlow::Failed, SpawnAction::FailStep)
        },
        (SpawnFlow::Resizing(s), SpawnEvent::StepFinished(ok)) => if !*ok {
            (SpawnFlow::Failed, SpawnAction::FailStep)
        } else if *s {
            (SpawnFlow::Starting, SpawnAction::StartVm)
        } else {
            (SpawnFlow::Done, SpawnAction::Finish)
        },
        (SpawnFlow::Starting, SpawnEvent::StepFinished(ok)) => if *ok {
            (SpawnFlow::Done, SpawnAction::Finish)
        } else {
            (SpawnFlow::Failed, SpawnAction::FailStep)
        },
        _ => (SpawnFlow::Failed, SpawnAction::Unexpected),
    }
}

/// Spawning a VM runs its commands only after the plan is confirmed, in the
/// order clone, settings, resize, start, each only after the one before it
/// succeeded; and it starts the VM only when that was asked for, the answer
/// being carried unchanged from the confirmation to the last step.
pub proof fn lemma_spawn_commands_in_order(
    state: SpawnFlow,
    event: SpawnEvent,
    next: SpawnFlow,
    action: SpawnAction,
)
    requires
        spawn_flow_spec(state, event, next, action),
    ensures
        action is CloneTemplate ==> state is Confirming && (event matches SpawnEvent::Confirmed {
            proceed,
            start_after,
        } && proceed && next == SpawnFlow::Cloning(start_after)),
        action is ApplySettings ==> event == SpawnEvent::StepFinished(true) && (state
            matches SpawnFlow::Cloning(s) && next == SpawnFlow::Configuring(s)),
        action is ResizeDisk ==> event == SpawnEvent::StepFinished(true) && (state
            matches SpawnFlow::Configuring(s) && next == SpawnFlow::Resizing(s)),
        action is StartVm ==> state == SpawnFlow::Resizing(true) && event
            == SpawnEvent::StepFinished(true),
{
}

/// An existing VMID ends the spawn flow with an error, a declined plan ends
/// it having run nothing, and no template ends it at once: once the flow has
/// ended, no event makes it run a command or ask anything.
pub proof fn lemma_spawn_ends(
    state: SpawnFlow,
    event: SpawnEvent,
    next: SpawnFlow,
    action: SpawnAction,
)
    requires
        spawn_flow_spec(state, event, next, action),
    ensures
        (state matches SpawnFlow::CheckingVmid(v) && event matches SpawnEvent::VmsListed(o)
            && o matches Some(x) && vmid_listed(split_lines(x@), v)) ==> next is Failed
            && action is FailVmidTaken,
        (state is Confirming && (event matches SpawnEvent::Confirmed { proceed, start_after }
            && !proceed)) ==> next is Aborted && action is Abort,
        (state is Done || state is Aborted || state is Failed) ==> next is Failed
            && action is Unexpected,
{
}

} // verus!
