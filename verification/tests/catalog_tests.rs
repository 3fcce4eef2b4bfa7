//! The catalog: classification precedence, ordering, deduplication, and the
//! stability of repeated scans.

use dos_safar::catalog::{DirectoryListing, ImageCandidate, OSType, OperatingSystem, ScanInput,
    entry_before, identify_os_from_boot_partition, identify_os_from_image,
    scan_for_operating_systems, sort_entries, find_by_name};

fn listing(path: &str, entries: &[&str]) -> DirectoryListing {
    DirectoryListing {
        path: path.to_string(),
        entries: entries.iter().map(|e| e.to_string()).collect(),
    }
}

fn entry(name: &str, last_used: Option<u64>) -> OperatingSystem {
    OperatingSystem {
        name: name.to_string(),
        path: format!("/boot/{}", name),
        description: String::new(),
        os_type: OSType::Unknown,
        is_bootable: true,
        last_used,
    }
}

#[test]
fn classify_retropie_partition() {
    let l = listing("/boot", &["retropie", "config.txt"]);
    let os = identify_os_from_boot_partition(&l).unwrap();
    assert_eq!(os.os_type, OSType::RetroPie);
    assert_eq!(os.name, "RetroPie");
    assert_eq!(os.description, "Retro Gaming System");
    assert!(os.is_bootable);
    assert_eq!(os.path, "/boot");
    assert!(os.last_used.is_none());
}

#[test]
fn classify_unknown_partition() {
    let l = listing("/mnt/boot", &["random.txt"]);
    assert!(identify_os_from_boot_partition(&l).is_none());
}

#[test]
fn classify_raspberry_pi_os_needs_both_markers() {
    let only_config = listing("/boot", &["config.txt"]);
    assert!(identify_os_from_boot_partition(&only_config).is_none());
    let both = listing("/boot", &["config.txt", "cmdline.txt"]);
    assert_eq!(identify_os_from_boot_partition(&both).unwrap().os_type, OSType::RaspberryPiOS);
}

#[test]
fn signature_beats_filename_heuristic() {
    // the directory carries a RetroPie signature even though everything else
    // about it (its path, a stray entry) matches Batocera
    let l = listing("/media/batocera_build", &["retropie", "batocera"]);
    let os = identify_os_from_boot_partition(&l).unwrap();
    assert_eq!(os.os_type, OSType::RetroPie);
}

#[test]
fn classify_image_by_keyword() {
    let img = ImageCandidate {
        path: "/boot/os_images/Batocera_v35.IMG".to_string(),
        file_name: "Batocera_v35.IMG".to_string(),
    };
    let os = identify_os_from_image(&img);
    assert_eq!(os.os_type, OSType::Batocera);
    assert_eq!(os.name, "Batocera Image");
}

#[test]
fn classify_image_unknown_keyword() {
    let img = ImageCandidate {
        path: "/boot/os_images/custom.img".to_string(),
        file_name: "custom.img".to_string(),
    };
    let os = identify_os_from_image(&img);
    assert_eq!(os.os_type, OSType::Unknown);
    assert_eq!(os.name, "OS Image: custom.img");
    assert_eq!(os.description, "Unknown OS Image");
}

#[test]
fn order_timestamp_beats_absent() {
    let a = entry("alpha", Some(100));
    let b = entry("beta", None);
    assert!(entry_before(&a, &b));
    assert!(!entry_before(&b, &a));
}

#[test]
fn order_later_timestamp_first() {
    let a = entry("alpha", Some(100));
    let b = entry("beta", Some(200));
    assert!(entry_before(&b, &a));
    assert!(!entry_before(&a, &b));
}

#[test]
fn order_name_breaks_ties() {
    let a = entry("alpha", None);
    let b = entry("beta", None);
    assert!(entry_before(&a, &b));
    assert!(!entry_before(&b, &a));
    let c = entry("alpha", Some(5));
    let d = entry("beta", Some(5));
    assert!(entry_before(&c, &d));
    assert!(!entry_before(&d, &c));
}

#[test]
fn sort_entries_orders_catalog() {
    let v = vec![
        entry("zeta", None),
        entry("alpha", Some(10)),
        entry("beta", None),
        entry("gamma", Some(99)),
    ];
    let sorted = sort_entries(v);
    let names: Vec<&str> = sorted.iter().map(|e| e.name.as_str()).collect();
    assert_eq!(names, vec!["gamma", "alpha", "beta", "zeta"]);
}

#[test]
fn scan_is_idempotent_on_unchanged_input() {
    let input = ScanInput {
        boot_partitions: vec![
            listing("/boot", &["retropie"]),
            listing("/mnt/boot", &["batocera"]),
        ],
        image_files: vec![ImageCandidate {
            path: "/boot/os_images/recalbox.img".to_string(),
            file_name: "recalbox.img".to_string(),
        }],
        usb_mounts: vec![listing("/media/usb0", &["config.txt", "cmdline.txt"])],
    };
    let first = scan_for_operating_systems(&input);
    let second = scan_for_operating_systems(&input);
    assert_eq!(first.len(), second.len());
    for (x, y) in first.iter().zip(second.iter()) {
        assert_eq!(x.name, y.name);
        assert_eq!(x.path, y.path);
        assert_eq!(x.os_type, y.os_type);
    }
}

#[test]
fn scan_deduplicates_by_name() {
    // both partitions classify as RetroPie; only the first survives
    let input = ScanInput {
        boot_partitions: vec![
            listing("/boot", &["retropie"]),
            listing("/media/boot", &["RetroPie"]),
        ],
        image_files: vec![],
        usb_mounts: vec![],
    };
    let result = scan_for_operating_systems(&input);
    assert_eq!(result.len(), 1);
    assert_eq!(result[0].name, "RetroPie");
    assert_eq!(result[0].path, "/boot");
}

#[test]
fn find_by_name_first_match() {
    let v = vec![entry("alpha", None), entry("beta", None)];
    assert_eq!(find_by_name(&v, "beta"), Some(1));
    assert_eq!(find_by_name(&v, "gamma"), None);
}
