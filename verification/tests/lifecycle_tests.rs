//! The lifecycle manager: install, backup, restore, remove and update with
//! rollback, over concrete states.

use dos_safar::lifecycle::{ArchiveOutcome, DirImage, ImageType, InstallSource, InstalledSystem,
    LifecycleError, NamedFile, OSManager, ToolOutcome, calculate_directory_size, detect_image_type,
    detect_os_type, is_bootable};
use dos_safar::catalog::OSType;

fn file(name: &str, content: &[u8]) -> NamedFile {
    NamedFile { name: name.to_string(), content: content.to_vec() }
}

fn payload(files: Vec<NamedFile>) -> DirImage {
    DirImage { files }
}

fn good_source(path: &str, files: Vec<NamedFile>) -> InstallSource {
    InstallSource {
        path: path.to_string(),
        readable: true,
        extract_ok: true,
        tool_stderr: String::new(),
        payload: payload(files),
        type_tool_output: String::new(),
    }
}

#[test]
fn install_then_scan_lists_bootable_entry() {
    let mut m = OSManager::new(false, false);
    let src = good_source("/tmp/retropie.img", vec![file("retropie", b"")]);
    m.install_os_from_image("RetroPie", &src, 1000).unwrap();
    let systems = m.get_available_systems();
    assert_eq!(systems.len(), 1);
    assert_eq!(systems[0].name, "RetroPie");
    assert!(systems[0].is_bootable);
    assert_eq!(systems[0].os_type, OSType::RetroPie);
    assert_eq!(systems[0].path, "/boot/dos_safar/systems/RetroPie");
}

#[test]
fn install_unreadable_zip_source_changes_nothing() {
    let mut m = OSManager::new(false, false);
    let src = InstallSource {
        path: "/tmp/missing.zip".to_string(),
        readable: false,
        extract_ok: false,
        tool_stderr: String::new(),
        payload: payload(vec![]),
        type_tool_output: String::new(),
    };
    let r = m.install_os_from_image("Foo", &src, 1000);
    assert!(matches!(r, Err(LifecycleError::SourceUnavailable)));
    assert!(!m.os_exists("Foo"));
    assert_eq!(m.registry.records().len(), 0);
    assert_eq!(m.installed.len(), 0);
}

#[test]
fn install_failing_extraction_leaves_no_partial_registry_entry() {
    let mut m = OSManager::new(false, false);
    let src = InstallSource {
        path: "/tmp/bad.tar".to_string(),
        readable: true,
        extract_ok: false,
        tool_stderr: "tar: unexpected end of file".to_string(),
        payload: payload(vec![]),
        type_tool_output: String::new(),
    };
    let r = m.install_os_from_image("Foo", &src, 1000);
    match r {
        Err(LifecycleError::ExternalToolFailure(msg)) => {
            assert_eq!(msg, "tar: unexpected end of file");
        },
        _ => panic!("expected the extraction tool's failure"),
    }
    assert!(!m.os_exists("Foo"));
    assert_eq!(m.registry.records().len(), 0);
}

#[test]
fn install_writes_metadata_and_boot_script() {
    let mut m = OSManager::new(false, false);
    let src = good_source("/tmp/x.img", vec![file("data.bin", b"abc")]);
    m.install_os_from_image("X", &src, 0).unwrap();
    let sys = &m.installed[0];
    let names: Vec<&str> = sys.image.files.iter().map(|f| f.name.as_str()).collect();
    assert_eq!(names, vec!["data.bin", "dos_safar_config.toml", "boot.sh"]);
    let config = String::from_utf8(sys.image.files[1].content.clone()).unwrap();
    assert!(config.contains("name = \"X\""));
    assert!(config.contains("install_date = \"1970-01-01T00:00:00+00:00\""));
    assert!(is_bootable(&sys.image));
}

#[test]
fn install_on_handheld_writes_display_settings() {
    let mut m = OSManager::new(false, true);
    let src = good_source("/tmp/x.img", vec![]);
    m.install_os_from_image("X", &src, 0).unwrap();
    let names: Vec<&str> = m.installed[0].image.files.iter().map(|f| f.name.as_str()).collect();
    assert_eq!(names, vec!["dos_safar_config.toml", "display_config.txt", "boot.sh"]);
}

#[test]
fn raspberry_pi_install_tunes_existing_config() {
    let mut m = OSManager::new(true, false);
    let src = good_source("/tmp/x.img", vec![file("config.txt", b"arm_64bit=1\n")]);
    m.install_os_from_image("X", &src, 0).unwrap();
    let config = &m.installed[0].image.files[0];
    assert_eq!(config.name, "config.txt");
    let text = String::from_utf8(config.content.clone()).unwrap();
    assert!(text.contains("gpu_mem=128"));
    assert!(text.contains("gpu_freq=500"));
}

#[test]
fn raspberry_pi_install_keeps_tuned_config() {
    let mut m = OSManager::new(true, false);
    let src = good_source("/tmp/x.img", vec![file("config.txt", b"gpu_mem=256\n")]);
    m.install_os_from_image("X", &src, 0).unwrap();
    let text = String::from_utf8(m.installed[0].image.files[0].content.clone()).unwrap();
    assert_eq!(text, "gpu_mem=256\n");
}

#[test]
fn backup_names_archive_with_timestamp() {
    let mut m = OSManager::new(false, false);
    let src = good_source("/tmp/x.img", vec![file("a", b"12345")]);
    m.install_os_from_image("X", &src, 0).unwrap();
    let b = m.backup_os("X", 0, &ArchiveOutcome::Archived { size_bytes: 3 * 1024 * 1024 }).unwrap();
    assert_eq!(b.backup_path, "/boot/dos_safar/backups/X_19700101_000000.tar.gz");
    assert_eq!(b.os_name, "X");
    assert_eq!(b.backup_date, 0);
    assert_eq!(b.backup_size_mb, 3);
    assert!(b.is_bootable);
}

#[test]
fn backup_of_missing_system_is_not_found() {
    let mut m = OSManager::new(false, false);
    let r = m.backup_os("Nope", 0, &ArchiveOutcome::Archived { size_bytes: 0 });
    assert!(matches!(r, Err(LifecycleError::NotFound)));
}

#[test]
fn backup_tool_failure_changes_nothing() {
    let mut m = OSManager::new(false, false);
    let src = good_source("/tmp/x.img", vec![]);
    m.install_os_from_image("X", &src, 0).unwrap();
    let r = m.backup_os("X", 0, &ArchiveOutcome::Failed { stderr: "disk full".to_string() });
    match r {
        Err(LifecycleError::ExternalToolFailure(msg)) => assert_eq!(msg, "disk full"),
        _ => panic!("expected the archiving tool's failure"),
    }
    assert_eq!(m.archives.len(), 0);
    assert!(m.os_exists("X"));
}

#[test]
fn remove_with_backup_is_restorable() {
    let mut m = OSManager::new(false, false);
    let src = good_source("/tmp/x.img", vec![file("retropie", b"rom data")]);
    m.install_os_from_image("X", &src, 100).unwrap();
    let original = m.installed[0].image.files.clone();

    m.remove_os("X", true, 200, &ArchiveOutcome::Archived { size_bytes: 1024 }).unwrap();
    assert!(!m.os_exists("X"));
    assert!(!m.registry.contains("X"));

    let backups = m.get_backups();
    assert_eq!(backups.len(), 1);
    assert_eq!(backups[0].os_name, "X");

    m.restore_os_from_backup(&backups[0], 300, &ToolOutcome::Success).unwrap();
    assert!(m.os_exists("X"));
    let restored = &m.installed[0].image.files;
    assert_eq!(restored.len(), original.len());
    for (x, y) in restored.iter().zip(original.iter()) {
        assert_eq!(x.name, y.name);
        assert_eq!(x.content, y.content);
    }
    let systems = m.get_available_systems();
    assert!(systems.iter().any(|e| e.name == "X"));
}

#[test]
fn remove_aborts_when_backup_fails() {
    let mut m = OSManager::new(false, false);
    let src = good_source("/tmp/x.img", vec![]);
    m.install_os_from_image("X", &src, 0).unwrap();
    let r = m.remove_os("X", true, 0, &ArchiveOutcome::Failed { stderr: "no space".to_string() });
    assert!(matches!(r, Err(LifecycleError::ExternalToolFailure(_))));
    assert!(m.os_exists("X"));
    assert!(m.registry.contains("X"));
}

#[test]
fn remove_without_backup_leaves_no_archive() {
    let mut m = OSManager::new(false, false);
    let src = good_source("/tmp/x.img", vec![]);
    m.install_os_from_image("X", &src, 0).unwrap();
    m.remove_os("X", false, 0, &ArchiveOutcome::Archived { size_bytes: 0 }).unwrap();
    assert!(!m.os_exists("X"));
    assert_eq!(m.archives.len(), 0);
}

#[test]
fn remove_missing_system_is_not_found() {
    let mut m = OSManager::new(false, false);
    let r = m.remove_os("Nope", false, 0, &ArchiveOutcome::Archived { size_bytes: 0 });
    assert!(matches!(r, Err(LifecycleError::NotFound)));
}

#[test]
fn failed_update_restores_directory_byte_for_byte() {
    let mut m = OSManager::new(false, false);
    let src = good_source("/tmp/x.img", vec![file("retropie", b"version one")]);
    m.install_os_from_image("X", &src, 0).unwrap();
    let before = m.installed[0].image.files.clone();

    let bad = InstallSource {
        path: "/tmp/broken.img".to_string(),
        readable: false,
        extract_ok: false,
        tool_stderr: String::new(),
        payload: payload(vec![]),
        type_tool_output: String::new(),
    };
    let r = m.update_os(
        "X",
        &bad,
        50,
        &ArchiveOutcome::Archived { size_bytes: 10 },
        &ToolOutcome::Success,
    );
    let f = r.unwrap_err();
    assert!(matches!(f.original, LifecycleError::SourceUnavailable));
    assert!(f.rollback.is_none());

    assert!(m.os_exists("X"));
    let after = &m.installed[0].image.files;
    assert_eq!(after.len(), before.len());
    for (x, y) in after.iter().zip(before.iter()) {
        assert_eq!(x.name, y.name);
        assert_eq!(x.content, y.content);
    }
    // the safety backup is retained
    assert_eq!(m.get_backups().len(), 1);
}

#[test]
fn update_fails_immediately_when_backup_fails() {
    let mut m = OSManager::new(false, false);
    let src = good_source("/tmp/x.img", vec![file("a", b"one")]);
    m.install_os_from_image("X", &src, 0).unwrap();
    let update_src = good_source("/tmp/y.img", vec![file("a", b"two")]);
    let r = m.update_os(
        "X",
        &update_src,
        50,
        &ArchiveOutcome::Failed { stderr: "boom".to_string() },
        &ToolOutcome::Success,
    );
    let f = r.unwrap_err();
    assert!(matches!(f.original, LifecycleError::ExternalToolFailure(_)));
    assert!(f.rollback.is_none());
    assert_eq!(m.archives.len(), 0);
    assert_eq!(
        String::from_utf8(m.installed[0].image.files[0].content.clone()).unwrap(),
        "one",
    );
}

#[test]
fn update_surfaces_both_failures_when_rollback_fails() {
    let mut m = OSManager::new(false, false);
    let src = good_source("/tmp/x.img", vec![file("a", b"one")]);
    m.install_os_from_image("X", &src, 0).unwrap();
    let bad = InstallSource {
        path: "/tmp/broken.img".to_string(),
        readable: true,
        extract_ok: false,
        tool_stderr: "bad archive".to_string(),
        payload: payload(vec![]),
        type_tool_output: String::new(),
    };
    let r = m.update_os(
        "X",
        &bad,
        50,
        &ArchiveOutcome::Archived { size_bytes: 10 },
        &ToolOutcome::Failure { stderr: "cannot extract".to_string() },
    );
    let f = r.unwrap_err();
    assert!(matches!(f.original, LifecycleError::ExternalToolFailure(_)));
    match f.rollback {
        Some(LifecycleError::ExternalToolFailure(msg)) => assert_eq!(msg, "cannot extract"),
        _ => panic!("expected the rollback failure beside the original"),
    }
}

#[test]
fn successful_update_replaces_payload_and_keeps_backup() {
    let mut m = OSManager::new(false, false);
    let src = good_source("/tmp/x.img", vec![file("a", b"one")]);
    m.install_os_from_image("X", &src, 0).unwrap();
    let update_src = good_source("/tmp/y.img", vec![file("a", b"two")]);
    m.update_os(
        "X",
        &update_src,
        50,
        &ArchiveOutcome::Archived { size_bytes: 10 },
        &ToolOutcome::Success,
    ).unwrap();
    assert_eq!(
        String::from_utf8(m.installed[0].image.files[0].content.clone()).unwrap(),
        "two",
    );
    assert_eq!(m.get_backups().len(), 1);
}

#[test]
fn set_default_requires_installed_system() {
    let mut m = OSManager::new(false, false);
    assert!(matches!(m.set_default_os("X"), Err(LifecycleError::NotFound)));
    let src = good_source("/tmp/x.img", vec![]);
    m.install_os_from_image("X", &src, 0).unwrap();
    m.set_default_os("X").unwrap();
    assert_eq!(m.boot_config.default_os.as_deref(), Some("X"));
}

#[test]
fn optimize_requires_installed_system() {
    let mut m = OSManager::new(false, false);
    assert!(matches!(m.optimize_os("X"), Err(LifecycleError::NotFound)));
    let src = good_source("/tmp/x.img", vec![]);
    m.install_os_from_image("X", &src, 0).unwrap();
    assert!(m.optimize_os("X").is_ok());
}

#[test]
fn catalog_merges_registry_last_used() {
    let mut m = OSManager::new(false, false);
    let src = good_source("/tmp/x.img", vec![]);
    m.install_os_from_image("X", &src, 0).unwrap();
    m.mark_os_used("X", 777);
    let systems = m.get_available_systems();
    assert_eq!(systems[0].last_used, Some(777));
}

#[test]
fn get_backups_sorts_newest_first() {
    let mut m = OSManager::new(false, false);
    let src = good_source("/tmp/x.img", vec![]);
    m.install_os_from_image("X", &src, 0).unwrap();
    m.backup_os("X", 100, &ArchiveOutcome::Archived { size_bytes: 0 }).unwrap();
    m.backup_os("X", 300, &ArchiveOutcome::Archived { size_bytes: 0 }).unwrap();
    m.backup_os("X", 200, &ArchiveOutcome::Archived { size_bytes: 0 }).unwrap();
    let dates: Vec<u64> = m.get_backups().iter().map(|b| b.backup_date).collect();
    assert_eq!(dates, vec![300, 200, 100]);
}

#[test]
fn directory_size_counts_whole_megabytes() {
    let img = DirImage {
        files: vec![
            file("a", &[0u8; 1024 * 1024]),
            file("b", &[0u8; 512 * 1024]),
            file("c", &[0u8; 512 * 1024]),
        ],
    };
    assert_eq!(calculate_directory_size(&img), 2);
}

#[test]
fn detect_os_type_precedence_in_directory() {
    let img = DirImage { files: vec![file("batocera", b""), file("recalbox", b"")] };
    assert_eq!(detect_os_type(&img), OSType::Batocera);
    let ubuntu = DirImage { files: vec![file("etc/lsb-release", b"")] };
    assert_eq!(detect_os_type(&ubuntu), OSType::Ubuntu);
}

#[test]
fn container_type_by_extension_then_sniffing() {
    assert_eq!(detect_image_type("/tmp/os.ISO", ""), ImageType::ISO);
    assert_eq!(detect_image_type("/tmp/os.img", ""), ImageType::IMG);
    assert_eq!(detect_image_type("/images/a.tgz", ""), ImageType::TAR);
    assert_eq!(detect_image_type("/images/a.tar", ""), ImageType::TAR);
    assert_eq!(detect_image_type("/images/a.ZIP", ""), ImageType::ZIP);
    // no extension: the content-identification tool decides
    assert_eq!(detect_image_type("/tmp/payload", "POSIX tar archive"), ImageType::TAR);
    assert_eq!(detect_image_type("/tmp/payload", "Zip archive data"), ImageType::ZIP);
    assert_eq!(detect_image_type("/tmp/.hidden", "ISO 9660 filesystem"), ImageType::ISO);
    // unrecognized extension and unresolved content default to a raw image
    assert_eq!(detect_image_type("/tmp/payload.bin", "data"), ImageType::IMG);
}

#[test]
fn adopted_duplicate_system_is_dropped() {
    let mut m = OSManager::new(false, false);
    m.adopt_system(InstalledSystem {
        name: "X".to_string(),
        path: "/boot/dos_safar/systems/X".to_string(),
        image: DirImage { files: vec![file("boot.sh", b"a")] },
    });
    m.adopt_system(InstalledSystem {
        name: "X".to_string(),
        path: "/elsewhere/X".to_string(),
        image: DirImage { files: vec![] },
    });
    assert_eq!(m.installed.len(), 1);
    assert_eq!(m.installed[0].path, "/boot/dos_safar/systems/X");
}
