//! The boot policy engine: the race resolution, the menu, the remote
//! fallback, and the terminal state.

use dos_safar::catalog::{OSType, OperatingSystem};
use dos_safar::lifecycle::{InstallSource, DirImage, NamedFile, OSManager};
use dos_safar::policy::{BootAction, BootEvent, BootPolicyEngine, BootSequenceKind, BootState,
    MenuSelection, RaceOutcome, RemoteOutcome, boot_operating_system, boot_sequence_kind,
    handle_selection, resolve_await, resolve_remote, apply_gaming_hardware_config};

fn entry(name: &str, t: OSType) -> OperatingSystem {
    OperatingSystem {
        name: name.to_string(),
        path: format!("/boot/{}", name),
        description: String::new(),
        os_type: t,
        is_bootable: true,
        last_used: None,
    }
}

#[test]
fn empty_catalog_timeout_reaches_no_systems_found() {
    let catalog: Vec<OperatingSystem> = vec![];
    let state = resolve_await(&catalog, &None, RaceOutcome::TimedOut);
    assert!(matches!(state, BootState::NoSystemsFound));
    // and never auto-boot, whatever default is configured
    let with_default = resolve_await(
        &catalog,
        &Some("RetroPie".to_string()),
        RaceOutcome::TimedOut,
    );
    assert!(matches!(with_default, BootState::NoSystemsFound));
}

#[test]
fn timeout_with_present_default_auto_boots_it() {
    let catalog = vec![entry("Batocera", OSType::Batocera), entry("RetroPie", OSType::RetroPie)];
    let state = resolve_await(&catalog, &Some("RetroPie".to_string()), RaceOutcome::TimedOut);
    match state {
        BootState::AutoBooting(os) => {
            assert_eq!(os.name, "RetroPie");
            assert_eq!(os.os_type, OSType::RetroPie);
        },
        _ => panic!("expected auto-boot of the configured default"),
    }
}

#[test]
fn timeout_with_absent_default_falls_back_to_menu() {
    let catalog = vec![entry("Batocera", OSType::Batocera)];
    let state = resolve_await(&catalog, &Some("Foo".to_string()), RaceOutcome::TimedOut);
    assert!(matches!(state, BootState::RemoteFallback));
    // the remote connection fails, degrading to the interactive menu
    let next = resolve_remote(RemoteOutcome::ConnectionFailed);
    assert!(matches!(next, BootState::InteractiveMenu));
}

#[test]
fn menu_request_wins_the_race() {
    let catalog = vec![entry("Batocera", OSType::Batocera)];
    let state = resolve_await(&catalog, &Some("Batocera".to_string()), RaceOutcome::MenuRequested);
    assert!(matches!(state, BootState::InteractiveMenu));
}

#[test]
fn remote_connection_holds_steady() {
    assert!(matches!(resolve_remote(RemoteOutcome::Connected), BootState::RemoteActive));
}

#[test]
fn menu_selection_boots_entry() {
    let catalog = vec![entry("A", OSType::Unknown), entry("B", OSType::Ubuntu)];
    match handle_selection(&catalog, MenuSelection::BootOS(1)) {
        BootState::AutoBooting(os) => assert_eq!(os.name, "B"),
        _ => panic!("expected a boot"),
    }
    assert!(matches!(
        handle_selection(&catalog, MenuSelection::BootOS(5)),
        BootState::InteractiveMenu
    ));
    assert!(matches!(
        handle_selection(&catalog, MenuSelection::AdvancedOptions),
        BootState::InteractiveMenu
    ));
    assert!(matches!(handle_selection(&catalog, MenuSelection::Shutdown), BootState::Terminal));
}

#[test]
fn engine_walks_timeout_to_terminal() {
    let catalog = vec![entry("RetroPie", OSType::RetroPie)];
    let default = Some("RetroPie".to_string());
    let mut engine = BootPolicyEngine::new();
    let action = engine.step(&catalog, &default, &BootEvent::Race(RaceOutcome::TimedOut));
    assert_eq!(action, BootAction::DispatchBoot);
    let action = engine.step(&catalog, &default, &BootEvent::DispatchDone);
    assert_eq!(action, BootAction::PowerOff);
    // terminal absorbs every further event
    let action = engine.step(&catalog, &default, &BootEvent::Race(RaceOutcome::MenuRequested));
    assert_eq!(action, BootAction::PowerOff);
    assert!(matches!(engine.state, BootState::Terminal));
}

#[test]
fn boot_sequence_per_category() {
    assert_eq!(boot_sequence_kind(OSType::RetroPie), BootSequenceKind::Gaming);
    assert_eq!(boot_sequence_kind(OSType::Batocera), BootSequenceKind::Gaming);
    assert_eq!(boot_sequence_kind(OSType::Recalbox), BootSequenceKind::Gaming);
    assert_eq!(boot_sequence_kind(OSType::RaspberryPiOS), BootSequenceKind::Standard);
    assert_eq!(boot_sequence_kind(OSType::Ubuntu), BootSequenceKind::Standard);
    assert_eq!(boot_sequence_kind(OSType::Debian), BootSequenceKind::Standard);
    assert_eq!(boot_sequence_kind(OSType::Unknown), BootSequenceKind::Generic);
    assert!(apply_gaming_hardware_config(OSType::RetroPie));
    assert!(!apply_gaming_hardware_config(OSType::Ubuntu));
}

#[test]
fn dispatch_persists_last_used_regardless() {
    let mut m = OSManager::new(false, false);
    let src = InstallSource {
        path: "/tmp/x.img".to_string(),
        readable: true,
        extract_ok: true,
        tool_stderr: String::new(),
        payload: DirImage { files: vec![NamedFile { name: "retropie".to_string(), content: vec![] }] },
        type_tool_output: String::new(),
    };
    m.install_os_from_image("RetroPie", &src, 0).unwrap();
    let systems = m.get_available_systems();
    let kind = boot_operating_system(&mut m, &systems[0], 4242);
    assert_eq!(kind, BootSequenceKind::Gaming);
    let after = m.get_available_systems();
    assert_eq!(after[0].last_used, Some(4242));
}
