//! Input device classification, capability tables, and the gaming-controls
//! judgement.

use dos_safar::device::{DeviceDetector, DeviceProbe};
use dos_safar::input::{GamingControlsTest, InputDeviceType, InputFileProbe, InputProbe,
    InputTester};

fn profile(model: &str) -> dos_safar::device::DeviceInfo {
    let d = DeviceDetector::new();
    let p = DeviceProbe {
        model_text: model.to_string(),
        cpuinfo_text: String::new(),
        meminfo_text: String::new(),
        architecture: "aarch64".to_string(),
        anbernic_dir_present: false,
        gpio_node_present: false,
        video_device_present: false,
        camera_node_present: false,
        dsi_node_present: false,
        hdmi_connector_present: false,
        dsi_connector_present: false,
        input_device_names: vec![],
    };
    d.detect_device(&p)
}

fn input_probe(names: &[(&str, bool)]) -> InputProbe {
    InputProbe {
        device_files: names.iter().map(|(n, openable)| InputFileProbe {
            file_name: n.to_string(),
            path: format!("/dev/input/{}", n),
            openable: *openable,
        }).collect(),
        proc_devices_text: String::new(),
    }
}

#[test]
fn gaming_controls_counting() {
    let t = GamingControlsTest {
        dpad_working: true,
        action_buttons_working: true,
        shoulder_buttons_working: false,
        analog_sticks_working: true,
        start_select_working: true,
    };
    assert!(t.is_fully_functional());
    assert_eq!(t.get_working_controls_count(), 4);

    let u = GamingControlsTest {
        dpad_working: true,
        action_buttons_working: true,
        shoulder_buttons_working: true,
        analog_sticks_working: true,
        start_select_working: false,
    };
    assert!(!u.is_fully_functional());
    assert_eq!(u.get_working_controls_count(), 4);

    let none = GamingControlsTest {
        dpad_working: false,
        action_buttons_working: false,
        shoulder_buttons_working: false,
        analog_sticks_working: false,
        start_select_working: false,
    };
    assert_eq!(none.get_working_controls_count(), 0);
}

#[test]
fn device_kind_from_name() {
    let tester = InputTester::new(&profile("Some Box"));
    assert_eq!(
        tester.determine_device_type("/dev/input/event0", "Sony Controller"),
        InputDeviceType::Gamepad
    );
    assert_eq!(
        tester.determine_device_type("/dev/input/event1", "AT Keyboard"),
        InputDeviceType::Keyboard
    );
    assert_eq!(
        tester.determine_device_type("/dev/input/event2", "USB Optical Mouse"),
        InputDeviceType::Mouse
    );
    assert_eq!(
        tester.determine_device_type("/dev/input/event3", "FT5406 Touch Panel"),
        InputDeviceType::Touchscreen
    );
    assert_eq!(
        tester.determine_device_type("/dev/input/js0", "Unnamed"),
        InputDeviceType::Gamepad
    );
    assert_eq!(
        tester.determine_device_type("/dev/input/event4", "gpio-keys"),
        InputDeviceType::Unknown
    );
}

#[test]
fn handheld_gpio_source_is_its_dpad() {
    let tester = InputTester::new(&profile("Anbernic RG351"));
    assert_eq!(
        tester.determine_device_type("/dev/input/event0", "gpio-keys"),
        InputDeviceType::DPad
    );
    assert_eq!(
        tester.determine_device_type("/dev/input/event1", "adc-keys"),
        InputDeviceType::DPad
    );
    // a name that reads as a generic controller stays a gamepad even here
    assert_eq!(
        tester.determine_device_type("/dev/input/event2", "adc-joystick"),
        InputDeviceType::Gamepad
    );
}

#[test]
fn capability_tables() {
    let tester = InputTester::new(&profile("Some Box"));
    let pad = tester.analyze_device_capabilities(&InputDeviceType::Gamepad);
    assert!(pad.has_buttons && pad.has_dpad && pad.has_analog_sticks && pad.has_triggers);
    assert_eq!(pad.button_count, 12);
    assert_eq!(pad.analog_stick_count, 2);
    let kb = tester.analyze_device_capabilities(&InputDeviceType::Keyboard);
    assert_eq!(kb.button_count, 104);
    assert!(!kb.has_dpad);
    let touch = tester.analyze_device_capabilities(&InputDeviceType::Touchscreen);
    assert!(touch.has_touchscreen && !touch.has_buttons);
    let unknown = tester.analyze_device_capabilities(&InputDeviceType::Unknown);
    assert!(!unknown.has_buttons && unknown.button_count == 0);
}

#[test]
fn builtin_controls_for_handheld() {
    let tester = InputTester::new(&profile("Anbernic RG351"));
    let builtin = tester.detect_builtin_gaming_controls();
    assert_eq!(builtin.len(), 2);
    assert_eq!(builtin[0].device_type, InputDeviceType::DPad);
    assert_eq!(builtin[0].device_name, "Built-in D-Pad");
    assert!(builtin[0].is_working);
    assert_eq!(builtin[1].device_type, InputDeviceType::AnalogStick);

    let none = InputTester::new(&profile("Some Box")).detect_builtin_gaming_controls();
    assert!(none.is_empty());
}

#[test]
fn input_scan_filters_event_and_joystick_files() {
    let tester = InputTester::new(&profile("Some Box"));
    let probe = input_probe(&[("event0", true), ("mice", true), ("js0", true), ("by-id", true)]);
    let picked = tester.scan_input_devices(&probe);
    assert_eq!(picked, vec![0, 2]);
}

#[test]
fn gaming_controls_on_handheld_trusted() {
    let tester = InputTester::new(&profile("Anbernic RG351"));
    let t = tester.test_specific_gaming_controls(&input_probe(&[]));
    assert!(t.dpad_working && t.action_buttons_working && t.start_select_working);
    assert!(t.shoulder_buttons_working && t.analog_sticks_working);
    assert!(t.is_fully_functional());
}

#[test]
fn gaming_controls_elsewhere_need_devices() {
    let tester = InputTester::new(&profile("Some Box"));
    let without = tester.test_specific_gaming_controls(&input_probe(&[("mice", true)]));
    assert!(!without.action_buttons_working);
    let with_js = tester.test_specific_gaming_controls(&input_probe(&[("js0", true)]));
    assert!(with_js.action_buttons_working && with_js.start_select_working);
    assert!(!with_js.dpad_working);
}

#[test]
fn device_name_from_registry_text() {
    let tester = InputTester::new(&profile("Some Box"));
    let proc_text = "\
I: Bus=0003 Vendor=054c\n\
N: Name=\"Wireless Controller\"\n\
H: Handlers=js0 event5\n\
\n\
I: Bus=0011 Vendor=0001\n\
N: Name=\"AT Keyboard\"\n\
H: Handlers=kbd event0\n";
    assert_eq!(
        tester.get_device_name("event5", proc_text).as_deref(),
        Some("Wireless Controller")
    );
    assert_eq!(tester.get_device_name("event0", proc_text).as_deref(), Some("AT Keyboard"));
    // the registry is silent: fall back to a path-derived name
    assert_eq!(
        tester.get_device_name("/dev/input/event7", "").as_deref(),
        Some("Input Event Device 7")
    );
    assert_eq!(
        tester.get_device_name("/dev/input/js1", "").as_deref(),
        Some("Joystick Device 1")
    );
    assert_eq!(tester.get_device_name("/dev/input/mice", ""), None);
}

#[test]
fn controllers_scan_and_judge() {
    let tester = InputTester::new(&profile("Some Box"));
    let probe = InputProbe {
        device_files: vec![
            InputFileProbe {
                file_name: "event0".to_string(),
                path: "/dev/input/event0".to_string(),
                openable: true,
            },
            InputFileProbe {
                file_name: "mice".to_string(),
                path: "/dev/input/mice".to_string(),
                openable: true,
            },
            InputFileProbe {
                file_name: "js0".to_string(),
                path: "/dev/input/js0".to_string(),
                openable: false,
            },
        ],
        proc_devices_text: String::new(),
    };
    let devices = tester.test_controllers(&probe);
    assert_eq!(devices.len(), 2);
    assert_eq!(devices[0].device_path, "/dev/input/event0");
    assert_eq!(devices[0].device_name, "Input Event Device 0");
    assert!(devices[0].is_working);
    assert_eq!(devices[1].device_path, "/dev/input/js0");
    assert_eq!(devices[1].device_type, InputDeviceType::Gamepad);
    assert!(!devices[1].is_working);
}

#[test]
fn controllers_scan_appends_builtin_on_handheld() {
    let tester = InputTester::new(&profile("Anbernic RG351"));
    let probe = InputProbe { device_files: vec![], proc_devices_text: String::new() };
    let devices = tester.test_controllers(&probe);
    assert_eq!(devices.len(), 2);
    assert_eq!(devices[0].device_name, "Built-in D-Pad");
    assert_eq!(devices[1].device_name, "Built-in Analog Stick");
    assert!(devices[0].is_working && devices[1].is_working);
}

#[test]
fn device_usability_judgement() {
    let tester = InputTester::new(&profile("Some Box"));
    let builtin = dos_safar::input::InputDevice {
        device_path: "/dev/input/builtin_dpad".to_string(),
        device_name: "Built-in D-Pad".to_string(),
        device_type: InputDeviceType::DPad,
        capabilities: tester.analyze_device_capabilities(&InputDeviceType::DPad),
        is_working: false,
    };
    assert!(tester.test_input_device(&builtin, false));
    let external = dos_safar::input::InputDevice {
        device_path: "/dev/input/event0".to_string(),
        device_name: "Pad".to_string(),
        device_type: InputDeviceType::Gamepad,
        capabilities: tester.analyze_device_capabilities(&InputDeviceType::Gamepad),
        is_working: false,
    };
    assert!(tester.test_input_device(&external, true));
    assert!(!tester.test_input_device(&external, false));
}
