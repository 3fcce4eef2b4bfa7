//! Device profiling: classification priority, the capability tables, and the
//! identity-file parsers.

use dos_safar::device::{DeviceDetector, DeviceProbe, DeviceType, DisplayType, get_cpu_info,
    get_memory_mb};

fn probe() -> DeviceProbe {
    DeviceProbe {
        model_text: String::new(),
        cpuinfo_text: String::new(),
        meminfo_text: String::new(),
        architecture: "aarch64".to_string(),
        anbernic_dir_present: false,
        gpio_node_present: false,
        video_device_present: false,
        camera_node_present: false,
        dsi_node_present: false,
        hdmi_connector_present: false,
        dsi_connector_present: false,
        input_device_names: vec![],
    }
}

#[test]
fn classify_raspberry_pi_first() {
    let d = DeviceDetector::new();
    let mut p = probe();
    // the handheld markers are also present, but the Raspberry Pi probe runs first
    p.model_text = "Raspberry Pi 4 Model B Rev 1.4".to_string();
    p.anbernic_dir_present = true;
    assert_eq!(d.detect_device_type(&p), DeviceType::RaspberryPi);
}

#[test]
fn classify_by_cpuinfo_fallback() {
    let d = DeviceDetector::new();
    let mut p = probe();
    p.cpuinfo_text = "Hardware\t: BCM2835 raspberry pi\n".to_string();
    assert_eq!(d.detect_device_type(&p), DeviceType::RaspberryPi);
}

#[test]
fn classify_handheld_and_boards() {
    let d = DeviceDetector::new();
    let mut p = probe();
    p.model_text = "Anbernic RG351P".to_string();
    assert_eq!(d.detect_device_type(&p), DeviceType::Anbernic);
    p.model_text = "Orange Pi Zero2".to_string();
    assert_eq!(d.detect_device_type(&p), DeviceType::OrangePi);
    p.model_text = "Banana Pi M5".to_string();
    assert_eq!(d.detect_device_type(&p), DeviceType::BananaPi);
    p.model_text = "Rock Pi 4".to_string();
    assert_eq!(d.detect_device_type(&p), DeviceType::RockPi);
    p.model_text = "ODROID-N2".to_string();
    assert_eq!(d.detect_device_type(&p), DeviceType::Odroid);
    p.model_text = "odroid n2".to_string();
    assert_eq!(d.detect_device_type(&p), DeviceType::Odroid);
    p.model_text = "Something Else".to_string();
    assert_eq!(d.detect_device_type(&p), DeviceType::Generic);
}

#[test]
fn anbernic_dir_alone_classifies_handheld() {
    let d = DeviceDetector::new();
    let mut p = probe();
    p.anbernic_dir_present = true;
    assert_eq!(d.detect_device_type(&p), DeviceType::Anbernic);
}

#[test]
fn gpio_follows_class_table() {
    let d = DeviceDetector::new();
    assert!(d.has_gpio_support(&DeviceType::RaspberryPi, false));
    assert!(d.has_gpio_support(&DeviceType::Odroid, false));
    assert!(!d.has_gpio_support(&DeviceType::Anbernic, true));
    assert!(d.has_gpio_support(&DeviceType::Generic, true));
    assert!(!d.has_gpio_support(&DeviceType::Generic, false));
}

#[test]
fn display_type_per_class() {
    let d = DeviceDetector::new();
    let mut p = probe();
    assert_eq!(d.detect_display_type(&DeviceType::Anbernic, &p), DisplayType::LCD);
    assert_eq!(d.detect_display_type(&DeviceType::RaspberryPi, &p), DisplayType::HDMI);
    p.dsi_node_present = true;
    assert_eq!(d.detect_display_type(&DeviceType::RaspberryPi, &p), DisplayType::DSI);
    assert_eq!(d.detect_display_type(&DeviceType::Generic, &p), DisplayType::Unknown);
    p.hdmi_connector_present = true;
    assert_eq!(d.detect_display_type(&DeviceType::Generic, &p), DisplayType::HDMI);
}

#[test]
fn gaming_features_table() {
    let d = DeviceDetector::new();
    let p = probe();
    let handheld = d.detect_gaming_features(&DeviceType::Anbernic, &p);
    assert!(handheld.has_dpad && handheld.has_analog_sticks && handheld.has_shoulder_buttons);
    assert!(handheld.has_built_in_screen && handheld.has_battery);
    assert_eq!(handheld.screen_size_tenths_inches, Some(35));
    assert_eq!(handheld.native_resolution_width, Some(480));
    assert_eq!(handheld.native_resolution_height, Some(320));

    let pi_without_pad = d.detect_gaming_features(&DeviceType::RaspberryPi, &p);
    assert!(!pi_without_pad.has_dpad);

    let mut with_pad = probe();
    with_pad.input_device_names = vec!["js0".to_string()];
    let pi_with_pad = d.detect_gaming_features(&DeviceType::RaspberryPi, &with_pad);
    assert!(pi_with_pad.has_dpad && pi_with_pad.has_analog_sticks);

    let generic = d.detect_gaming_features(&DeviceType::Generic, &with_pad);
    assert!(!generic.has_dpad);
}

#[test]
fn model_string_trims_and_resolves() {
    let d = DeviceDetector::new();
    let mut p = probe();
    p.model_text = "Raspberry Pi 4\0\0".to_string();
    assert_eq!(d.get_device_model(&DeviceType::RaspberryPi, &p), "Raspberry Pi 4");
    p.model_text = String::new();
    assert_eq!(d.get_device_model(&DeviceType::RaspberryPi, &p), "Raspberry Pi (Unknown Model)");
    assert_eq!(d.get_device_model(&DeviceType::OrangePi, &p), "OrangePi Device");
    p.model_text = "anbernic rg552 console".to_string();
    assert_eq!(d.get_device_model(&DeviceType::Anbernic, &p), "Anbernic RG552");
    p.model_text = "anbernic something".to_string();
    assert_eq!(d.get_device_model(&DeviceType::Anbernic, &p), "Anbernic Gaming Handheld");
}

#[test]
fn memory_total_parses_first_usable_line() {
    let text = "MemFree:  100 kB\nMemTotal:  2048000 kB\nMemTotal: 1 kB\n";
    assert_eq!(get_memory_mb(text), 2000);
    assert_eq!(get_memory_mb(""), 1024);
    assert_eq!(get_memory_mb("MemTotal: abc kB\n"), 1024);
}

#[test]
fn cpu_info_parses_model_cores_and_frequency() {
    let text = "processor\t: 0\nmodel name\t: ARMv7 Processor rev 4 (v7l)\ncpu MHz\t\t: 1500.00\nprocessor\t: 1\nprocessor\t: 2\nprocessor\t: 3\n";
    let c = get_cpu_info(text);
    assert_eq!(c.model, "ARMv7 Processor rev 4 (v7l)");
    assert_eq!(c.cores, 4);
    assert_eq!(c.frequency_mhz, Some(1500));
}

#[test]
fn cpu_info_of_empty_text() {
    let c = get_cpu_info("");
    assert_eq!(c.model, "Unknown");
    assert_eq!(c.cores, 0);
    assert_eq!(c.frequency_mhz, None);
}

#[test]
fn full_profile_assembles() {
    let d = DeviceDetector::new();
    let mut p = probe();
    p.model_text = "Raspberry Pi 4 Model B".to_string();
    p.meminfo_text = "MemTotal: 4096000 kB\n".to_string();
    p.cpuinfo_text = "processor: 0\nprocessor: 1\n".to_string();
    p.camera_node_present = true;
    let info = d.detect_device(&p);
    assert_eq!(info.device_type, DeviceType::RaspberryPi);
    assert_eq!(info.model, "Raspberry Pi 4 Model B");
    assert_eq!(info.memory_mb, 4000);
    assert_eq!(info.cpu_info.cores, 2);
    assert!(info.has_gpio);
    assert!(info.has_camera);
    assert_eq!(info.architecture, "aarch64");
}
