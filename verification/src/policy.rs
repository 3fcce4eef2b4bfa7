//! The boot policy engine: a state machine that consumes the device profile,
//! a catalog snapshot and the boot configuration, and decides between
//! auto-booting a default, an interactive menu, and a remote-management
//! fallback. The caller races the menu-request input against the configured
//! timeout, renders menus, attempts the network connection and fires the boot
//! dispatch; each such outside step reports its outcome back as an event.

use vstd::prelude::*;
use crate::catalog::{OperatingSystem, OsEntryView, OSType, entry_views, has_name, names_distinct,
    find_by_name};
use crate::lifecycle::OSManager;

verus! {

/// The states of the engine.
pub enum BootState {
    /// Racing the configured timeout against a menu request.
    AwaitingInput,
    /// Rendering the catalog and the administrative choices.
    InteractiveMenu,
    /// Dispatching the chosen entry's boot sequence.
    AutoBooting(OperatingSystem),
    /// Attempting the network connection for remote management.
    RemoteFallback,
    /// Nothing to boot: offering a rescan and remote-install guidance.
    NoSystemsFound,
    /// Handed off to the remote management surface, holding steady.
    RemoteActive,
    /// Absorbing: no operation is valid afterwards in this process run.
    Terminal,
}

/// The shape of a state, with the chosen entry abstracted away.
#[derive(Clone, Copy, Debug, PartialEq, Eq, Structural)]
pub enum StateKind {
    AwaitingInput,
    InteractiveMenu,
    AutoBooting,
    RemoteFallback,
    NoSystemsFound,
    RemoteActive,
    Terminal,
}

/// The shape of a state.
pub open spec fn kind_of(s: BootState) -> StateKind {
    match s {
        BootState::AwaitingInput => StateKind::AwaitingInput,
        BootState::InteractiveMenu => StateKind::InteractiveMenu,
        BootState::AutoBooting(_) => StateKind::AutoBooting,
        BootState::RemoteFallback => StateKind::RemoteFallback,
        BootState::NoSystemsFound => StateKind::NoSystemsFound,
        BootState::RemoteActive => StateKind::RemoteActive,
        BootState::Terminal => StateKind::Terminal,
    }
}

/// How the input-versus-timeout race resolved: strictly first wins, the
/// loser is discarded.
#[derive(Clone, Copy, Debug, PartialEq, Eq, Structural)]
pub enum RaceOutcome {
    MenuRequested,
    TimedOut,
}

/// A choice made on the interactive menu.
#[derive(Clone, Copy, Debug, PartialEq, Eq, Structural)]
pub enum MenuSelection {
    BootOS(usize),
    AdvancedOptions,
    WebInterface,
    RestartTests,
    Shutdown,
}

/// Whether the remote-management connection came up.
#[derive(Clone, Copy, Debug, PartialEq, Eq, Structural)]
pub enum RemoteOutcome {
    Connected,
    ConnectionFailed,
}

/// What the engine asks its caller to perform next.
#[derive(Clone, Copy, Debug, PartialEq, Eq, Structural)]
pub enum BootAction {
    Idle,
    RenderMenu,
    ShowNoSystemsHelp,
    AttemptRemoteConnection,
    DispatchBoot,
    HoldRemoteSession,
    PowerOff,
}

/// The category-specific boot sequence an entry gets: the three retro-gaming
/// categories share one, the general-Linux categories another, and an
/// unclassified entry a generic one.
#[derive(Clone, Copy, Debug, PartialEq, Eq, Structural)]
pub enum BootSequenceKind {
    Gaming,
    Standard,
    Generic,
}

/// Which boot sequence a category gets.
pub open spec fn sequence_for(t: OSType) -> BootSequenceKind {
    match t {
        OSType::RetroPie => BootSequenceKind::Gaming,
        OSType::Batocera => BootSequenceKind::Gaming,
        OSType::Recalbox => BootSequenceKind::Gaming,
        OSType::RaspberryPiOS => BootSequenceKind::Standard,
        OSType::Ubuntu => BootSequenceKind::Standard,
        OSType::Debian => BootSequenceKind::Standard,
        OSType::Unknown => BootSequenceKind::Generic,
    }
}

/// The dispatch table from category to boot sequence.
pub fn boot_sequence_kind(t: OSType) -> (r: BootSequenceKind)
    ensures
        r == sequence_for(t),
{
    match t {
        OSType::RetroPie | OSType::Batocera | OSType::Recalbox => BootSequenceKind::Gaming,
        OSType::RaspberryPiOS | OSType::Ubuntu | OSType::Debian => BootSequenceKind::Standard,
        OSType::Unknown => BootSequenceKind::Generic,
    }
}

/// Gaming categories get the gaming hardware configuration; everything else
/// the standard one.
pub fn apply_gaming_hardware_config(t: OSType) -> (r: bool)
    ensures
        r == (sequence_for(t) == BootSequenceKind::Gaming),
{
    match t {
        OSType::RetroPie | OSType::Batocera | OSType::Recalbox => true,
        _ => false,
    }
}

/// Where the race decision leads: an empty catalog short-circuits into the
/// no-systems state and never into auto-boot; a menu request wins over
/// everything else; a timeout boots a configured default that is present in
/// the catalog, and falls back to remote management when no usable default
/// exists.
pub open spec fn resolve_await_kind(
    catalog: Seq<OsEntryView>,
    default_os: Option<Seq<char>>,
    outcome: RaceOutcome,
) -> StateKind {
    if catalog.len() == 0 {
        StateKind::NoSystemsFound
    } else if outcome is MenuRequested {
        StateKind::InteractiveMenu
    } else {
        match default_os {
            Some(d) => if has_name(catalog, d) {
                StateKind::AutoBooting
            } else {
                StateKind::RemoteFallback
            },
            None => StateKind::RemoteFallback,
        }
    }
}

/// The view of the configured default.
pub open spec fn default_view(d: Option<String>) -> Option<Seq<char>> {
    match d {
        Some(s) => Some(s@),
        None => None,
    }
}

/// Resolve the input-versus-timeout race against the catalog snapshot and
/// the configured default.
pub fn resolve_await(
    catalog: &Vec<OperatingSystem>,
    default_os: &Option<String>,
    outcome: RaceOutcome,
) -> (r: BootState)
    ensures
        kind_of(r) == resolve_await_kind(entry_views(catalog@), default_view(*default_os), outcome),
        r matches BootState::AutoBooting(os) ==> {
            &&& default_view(*default_os) matches Some(d) && os@.name == d
            &&& entry_views(catalog@).contains(os@)
        },
{
    if catalog.len() == 0 {
        return BootState::NoSystemsFound;
    }
    match outcome {
        RaceOutcome::MenuRequested => BootState::InteractiveMenu,
        RaceOutcome::TimedOut => {
            match default_os {
                Some(d) => {
                    match find_by_name(catalog, d.as_str()) {
                        Some(i) => {
                            let os = catalog[i].clone_entry();
                            assert(entry_views(catalog@)[i as int] == os@);
                            BootState::AutoBooting(os)
                        },
                        None => BootState::RemoteFallback,
                    }
                },
                None => BootState::RemoteFallback,
            }
        },
    }
}

/// Where the remote attempt leads: a connection hands off and holds; a
/// failure degrades to the interactive menu.
pub open spec fn resolve_remote_kind(outcome: RemoteOutcome) -> StateKind {
    match outcome {
        RemoteOutcome::Connected => StateKind::RemoteActive,
        RemoteOutcome::ConnectionFailed => StateKind::InteractiveMenu,
    }
}

/// Resolve the remote-management connection attempt.
pub fn resolve_remote(outcome: RemoteOutcome) -> (r: BootState)
    ensures
        kind_of(r) == resolve_remote_kind(outcome),
{
    match outcome {
        RemoteOutcome::Connected => BootState::RemoteActive,
        RemoteOutcome::ConnectionFailed => BootState::InteractiveMenu,
    }
}

/// Where a menu choice leads: a valid entry boots; the administrative
/// choices are handled locally and return to the menu, except shutdown.
pub open spec fn handle_selection_kind(catalog: Seq<OsEntryView>, sel: MenuSelection) -> StateKind {
    match sel {
        MenuSelection::BootOS(i) => if i < catalog.len() {
            StateKind::AutoBooting
        } else {
            StateKind::InteractiveMenu
        },
        MenuSelection::Shutdown => StateKind::Terminal,
        _ => StateKind::InteractiveMenu,
    }
}

/// Handle one choice made on the interactive menu.
pub fn handle_selection(catalog: &Vec<OperatingSystem>, sel: MenuSelection) -> (r: BootState)
    ensures
        kind_of(r) == handle_selection_kind(entry_views(catalog@), sel),
        r matches BootState::AutoBooting(os) ==> (sel matches MenuSelection::BootOS(i) && os@
            == entry_views(catalog@)[i as int]),
{
    match sel {
        MenuSelection::BootOS(i) => {
            if i < catalog.len() {
                BootState::AutoBooting(catalog[i].clone_entry())
            } else {
                BootState::InteractiveMenu
            }
        },
        MenuSelection::Shutdown => BootState::Terminal,
        MenuSelection::AdvancedOptions => BootState::InteractiveMenu,
        MenuSelection::WebInterface => BootState::InteractiveMenu,
        MenuSelection::RestartTests => BootState::InteractiveMenu,
    }
}

/// The action a state asks of the caller on entry.
pub open spec fn action_for(k: StateKind) -> BootAction {
    match k {
        StateKind::AwaitingInput => BootAction::Idle,
        StateKind::InteractiveMenu => BootAction::RenderMenu,
        StateKind::AutoBooting => BootAction::DispatchBoot,
        StateKind::RemoteFallback => BootAction::AttemptRemoteConnection,
        StateKind::NoSystemsFound => BootAction::ShowNoSystemsHelp,
        StateKind::RemoteActive => BootAction::HoldRemoteSession,
        StateKind::Terminal => BootAction::PowerOff,
    }
}

/// One external happening the engine reacts to.
pub enum BootEvent {
    Race(RaceOutcome),
    Menu(MenuSelection),
    Remote(RemoteOutcome),
    DispatchDone,
}

/// The full transition relation, at the level of state shapes. Any event a
/// state does not consume leaves it where it is; `Terminal` is absorbing.
pub open spec fn step_kind(
    k: StateKind,
    catalog: Seq<OsEntryView>,
    default_os: Option<Seq<char>>,
    ev: BootEvent,
) -> StateKind {
    match (k, ev) {
        (StateKind::AwaitingInput, BootEvent::Race(o)) => resolve_await_kind(catalog, default_os, o),
        (StateKind::InteractiveMenu, BootEvent::Menu(sel)) => handle_selection_kind(catalog, sel),
        (StateKind::RemoteFallback, BootEvent::Remote(o)) => resolve_remote_kind(o),
        (StateKind::AutoBooting, BootEvent::DispatchDone) => StateKind::Terminal,
        _ => k,
    }
}

/// The boot policy engine: the current state of one boot decision.
pub struct BootPolicyEngine {
    pub state: BootState,
}

impl BootPolicyEngine {
    /// A fresh engine, racing the timeout against a menu request.
    pub fn new() -> (r: BootPolicyEngine)
        ensures
            kind_of(r.state) == StateKind::AwaitingInput,
    {
        BootPolicyEngine { state: BootState::AwaitingInput }
    }

    /// Advance on one event and say what to perform next. The state moves
    /// exactly as `step_kind` says; in particular `Terminal` absorbs every
    /// event, and an engine that reached `AutoBooting` carries the chosen
    /// entry until its dispatch is done.
    pub fn step(
        &mut self,
        catalog: &Vec<OperatingSystem>,
        default_os: &Option<String>,
        ev: &BootEvent,
    ) -> (r: BootAction)
        ensures
            kind_of(final(self).state) == step_kind(
                kind_of(old(self).state),
                entry_views(catalog@),
                default_view(*default_os),
                *ev,
            ),
            r == action_for(kind_of(final(self).state)),
            final(self).state matches BootState::AutoBooting(os) ==> entry_views(
                catalog@,
            ).contains(os@) || (old(self).state matches BootState::AutoBooting(prev) && os == prev),
    {
        let next: BootState;
        let consumed: bool;
        match (&self.state, ev) {
            (BootState::AwaitingInput, BootEvent::Race(o)) => {
                next = resolve_await(catalog, default_os, *o);
                consumed = true;
            },
            (BootState::InteractiveMenu, BootEvent::Menu(sel)) => {
                next = handle_selection(catalog, *sel);
                consumed = true;
            },
            (BootState::RemoteFallback, BootEvent::Remote(o)) => {
                next = resolve_remote(*o);
                consumed = true;
            },
            (BootState::AutoBooting(_), BootEvent::DispatchDone) => {
                next = BootState::Terminal;
                consumed = true;
            },
            _ => {
                next = BootState::AwaitingInput;
                consumed = false;
            },
        }
        if consumed {
            self.state = next;
        }
        match &self.state {
            BootState::AwaitingInput => BootAction::Idle,
            BootState::InteractiveMenu => BootAction::RenderMenu,
            BootState::AutoBooting(_) => BootAction::DispatchBoot,
            BootState::RemoteFallback => BootAction::AttemptRemoteConnection,
            BootState::NoSystemsFound => BootAction::ShowNoSystemsHelp,
            BootState::RemoteActive => BootAction::HoldRemoteSession,
            BootState::Terminal => BootAction::PowerOff,
        }
    }
}

/// Dispatch a boot: choose the category-specific sequence and persist the
/// entry as most recently used — the bookkeeping happens whatever the
/// fire-and-forget sequence later does.
pub fn boot_operating_system(manager: &mut OSManager, os: &OperatingSystem, now: u64) -> (r:
    BootSequenceKind)
    requires
        old(manager).wf(),
    ensures
        final(manager).wf(),
        r == sequence_for(os.os_type),
        final(manager).same_frame(old(manager)),
        final(manager).installed@ == old(manager).installed@,
        final(manager).archives@ == old(manager).archives@,
        final(manager).boot_config == old(manager).boot_config,
        old(manager).registry@.dom().contains(os@.name) ==> final(manager).registry@ == old(
            manager,
        ).registry@.insert(
            os@.name,
            crate::registry::RecordView {
                last_used: Some(now),
                ..old(manager).registry@[os@.name]
            },
        ),
        !old(manager).registry@.dom().contains(os@.name) ==> final(manager).registry@ == old(
            manager,
        ).registry@,
{
    manager.mark_os_used(os.name.as_str(), now);
    boot_sequence_kind(os.os_type)
}

// ---------- The stated laws of the boot policy ----------

/// Law: an empty catalog short-circuits the timeout straight into the
/// no-systems state — never into auto-boot — whatever default is configured.
pub proof fn lemma_empty_catalog_never_boots(
    catalog: Seq<OsEntryView>,
    default_os: Option<Seq<char>>,
)
    requires
        catalog.len() == 0,
    ensures
        resolve_await_kind(catalog, default_os, RaceOutcome::TimedOut) == StateKind::NoSystemsFound,
        resolve_await_kind(catalog, default_os, RaceOutcome::TimedOut) != StateKind::AutoBooting,
{
}

/// Law: when the timeout wins and the configured default is present in the
/// catalog, the engine auto-boots, and the entry it carries is exactly the
/// catalog's entry of that name.
pub proof fn lemma_timeout_boots_default(
    catalog: Seq<OsEntryView>,
    d: Seq<char>,
    os: OsEntryView,
)
    requires
        names_distinct(catalog),
        has_name(catalog, d),
        catalog.contains(os),
        os.name == d,
    ensures
        resolve_await_kind(catalog, Some(d), RaceOutcome::TimedOut) == StateKind::AutoBooting,
        forall|other: OsEntryView|
            catalog.contains(other) && (#[trigger] other.name) == d ==> other == os,
{
    assert forall|other: OsEntryView|
        catalog.contains(other) && (#[trigger] other.name) == d implies other == os by {
        let i = choose|i: int| 0 <= i < catalog.len() && catalog[i] == os;
        let j = choose|j: int| 0 <= j < catalog.len() && catalog[j] == other;
        if i != j {
            if i < j {
                assert(catalog[i].name != catalog[j].name);
            } else {
                assert(catalog[j].name != catalog[i].name);
            }
        }
    }
}

/// Law: when the timeout wins but the configured default is absent from the
/// catalog, the engine goes to the remote fallback, and a failed connection
/// there degrades to the interactive menu.
pub proof fn lemma_absent_default_falls_back(catalog: Seq<OsEntryView>, d: Seq<char>)
    requires
        catalog.len() > 0,
        !has_name(catalog, d),
    ensures
        resolve_await_kind(catalog, Some(d), RaceOutcome::TimedOut) == StateKind::RemoteFallback,
        step_kind(
            resolve_await_kind(catalog, Some(d), RaceOutcome::TimedOut),
            catalog,
            Some(d),
            BootEvent::Remote(RemoteOutcome::ConnectionFailed),
        ) == StateKind::InteractiveMenu,
{
}

/// Law: `Terminal` is absorbing — no event moves the engine out of it.
pub proof fn lemma_terminal_absorbing(
    catalog: Seq<OsEntryView>,
    default_os: Option<Seq<char>>,
    ev: BootEvent,
)
    ensures
        step_kind(StateKind::Terminal, catalog, default_os, ev) == StateKind::Terminal,
{
}

} // verus!
