//! Input device testing: classify connected input devices from their names,
//! derive their capability tables, add the built-in controls of gaming
//! handhelds, and judge the gaming-specific controls. The caller lists the
//! device files and reads the device registry text; everything it hands in is
//! plain values.

use vstd::prelude::*;
use crate::device::{DeviceInfo, DeviceType, is_input_candidate};
use crate::text::{contains_bytes, lower_bytes, bytes_of, contains_ci, contains_sub, starts_with,
    starts_with_bytes, spec_lines, split_lines, str_eq};

verus! {

use vstd::string::StringSliceAdditionalSpecFns;
use vstd::string::StrSliceExecFns;

/// The kinds of input device the tester distinguishes.
#[derive(Clone, Copy, Debug, PartialEq, Eq, Structural)]
pub enum InputDeviceType {
    Gamepad,
    Keyboard,
    Mouse,
    Touchscreen,
    DPad,
    AnalogStick,
    Unknown,
}

/// What one input device can do.
#[derive(Clone, Copy, Debug, PartialEq, Eq, Structural)]
pub struct InputCapabilities {
    pub has_buttons: bool,
    pub button_count: u32,
    pub has_dpad: bool,
    pub has_analog_sticks: bool,
    pub analog_stick_count: u32,
    pub has_triggers: bool,
    pub has_touchscreen: bool,
}

/// One detected input device.
#[derive(Clone, Debug)]
pub struct InputDevice {
    pub device_path: String,
    pub device_name: String,
    pub device_type: InputDeviceType,
    pub capabilities: InputCapabilities,
    pub is_working: bool,
}

/// The mathematical value of one detected input device.
pub ghost struct InputDeviceView {
    pub device_path: Seq<char>,
    pub device_name: Seq<char>,
    pub device_type: InputDeviceType,
    pub capabilities: InputCapabilities,
    pub is_working: bool,
}

impl View for InputDevice {
    type V = InputDeviceView;

    open spec fn view(&self) -> InputDeviceView {
        InputDeviceView {
            device_path: self.device_path@,
            device_name: self.device_name@,
            device_type: self.device_type,
            capabilities: self.capabilities,
            is_working: self.is_working,
        }
    }
}

/// The views of a row of detected devices.
pub open spec fn device_views(s: Seq<InputDevice>) -> Seq<InputDeviceView> {
    s.map_values(|d: InputDevice| d@)
}

/// The outcome of the gaming-controls test.
#[derive(Clone, Copy, Debug, PartialEq, Eq, Structural)]
pub struct GamingControlsTest {
    pub dpad_working: bool,
    pub action_buttons_working: bool,
    pub shoulder_buttons_working: bool,
    pub analog_sticks_working: bool,
    pub start_select_working: bool,
}

impl GamingControlsTest {
    /// The controls needed to drive the menus all work: d-pad, action
    /// buttons, and start/select.
    pub fn is_fully_functional(&self) -> (r: bool)
        ensures
            r == (self.dpad_working && self.action_buttons_working && self.start_select_working),
    {
        self.dpad_working && self.action_buttons_working && self.start_select_working
    }

    /// How many of the five control groups work.
    pub fn get_working_controls_count(&self) -> (r: u32)
        ensures
            r == working_count(*self),
    {
        let mut count: u32 = 0;
        if self.dpad_working {
            count = count + 1;
        }
        if self.action_buttons_working {
            count = count + 1;
        }
        if self.shoulder_buttons_working {
            count = count + 1;
        }
        if self.analog_sticks_working {
            count = count + 1;
        }
        if self.start_select_working {
            count = count + 1;
        }
        count
    }
}

/// The number of working control groups.
pub open spec fn working_count(t: GamingControlsTest) -> u32 {
    ((if t.dpad_working {
        1int
    } else {
        0
    }) + (if t.action_buttons_working {
        1int
    } else {
        0
    }) + (if t.shoulder_buttons_working {
        1int
    } else {
        0
    }) + (if t.analog_sticks_working {
        1int
    } else {
        0
    }) + (if t.start_select_working {
        1int
    } else {
        0
    })) as u32
}

/// The device name, case-folded, mentions the keyword.
pub open spec fn name_mentions(name: Seq<char>, keyword: &str) -> bool {
    contains_bytes(lower_bytes(bytes_of(name)), lower_bytes(keyword.spec_bytes()))
}

/// The classification of an input device from its name and path: gamepads,
/// keyboards, mice and touchscreens by name keywords; on a gaming handheld a
/// bare GPIO or ADC source is its built-in d-pad.
pub open spec fn device_type_of(
    host: DeviceType,
    path: Seq<char>,
    name: Seq<char>,
) -> InputDeviceType {
    if name_mentions(name, "gamepad") || name_mentions(name, "controller") || name_mentions(
        name,
        "joystick",
    ) || name_mentions(path, "js") {
        InputDeviceType::Gamepad
    } else if name_mentions(name, "keyboard") || name_mentions(name, "kbd") {
        InputDeviceType::Keyboard
    } else if name_mentions(name, "mouse") || name_mentions(name, "pointing") {
        InputDeviceType::Mouse
    } else if name_mentions(name, "touch") || name_mentions(name, "screen") {
        InputDeviceType::Touchscreen
    } else if host == DeviceType::Anbernic && (name_mentions(name, "gpio") || name_mentions(
        name,
        "adc",
    )) {
        InputDeviceType::DPad
    } else {
        InputDeviceType::Unknown
    }
}

/// The capability table, keyed by device kind.
pub open spec fn capabilities_for(t: InputDeviceType) -> InputCapabilities {
    match t {
        InputDeviceType::Gamepad => InputCapabilities {
            has_buttons: true,
            button_count: 12,
            has_dpad: true,
            has_analog_sticks: true,
            analog_stick_count: 2,
            has_triggers: true,
            has_touchscreen: false,
        },
        InputDeviceType::DPad => InputCapabilities {
            has_buttons: true,
            button_count: 8,
            has_dpad: true,
            has_analog_sticks: false,
            analog_stick_count: 0,
            has_triggers: false,
            has_touchscreen: false,
        },
        InputDeviceType::Keyboard => InputCapabilities {
            has_buttons: true,
            button_count: 104,
            has_dpad: false,
            has_analog_sticks: false,
            analog_stick_count: 0,
            has_triggers: false,
            has_touchscreen: false,
        },
        InputDeviceType::Mouse => InputCapabilities {
            has_buttons: true,
            button_count: 3,
            has_dpad: false,
            has_analog_sticks: false,
            analog_stick_count: 0,
            has_triggers: false,
            has_touchscreen: false,
        },
        InputDeviceType::Touchscreen => InputCapabilities {
            has_buttons: false,
            button_count: 0,
            has_dpad: false,
            has_analog_sticks: false,
            analog_stick_count: 0,
            has_triggers: false,
            has_touchscreen: true,
        },
        _ => InputCapabilities {
            has_buttons: false,
            button_count: 0,
            has_dpad: false,
            has_analog_sticks: false,
            analog_stick_count: 0,
            has_triggers: false,
            has_touchscreen: false,
        },
    }
}

/// What the caller read for the input scan: the names of the files under the
/// input-device directory (each with whether opening it succeeded), and the
/// device registry text.
#[derive(Clone, Debug)]
pub struct InputProbe {
    pub device_files: Vec<InputFileProbe>,
    pub proc_devices_text: String,
}

/// One file of the input-device directory.
#[derive(Clone, Debug)]
pub struct InputFileProbe {
    pub file_name: String,
    pub path: String,
    pub openable: bool,
}

/// The input tester for one profiled device.
pub struct InputTester {
    pub device_info: DeviceInfo,
}

impl InputTester {
    /// A tester over a copy of the profile.
    pub fn new(device_info: &DeviceInfo) -> (r: InputTester)
        ensures
            r.device_info.device_type == device_info.device_type,
            r.device_info.gaming_features == device_info.gaming_features,
    {
        InputTester { device_info: device_info.clone_profile() }
    }

    /// The event and joystick files among the listed input-device files.
    pub fn scan_input_devices(&self, probe: &InputProbe) -> (r: Vec<usize>)
        ensures
            forall|k: int|
                0 <= k < r@.len() ==> (#[trigger] r@[k]) < probe.device_files@.len()
                    && is_input_candidate(probe.device_files@[r@[k] as int].file_name@),
            forall|i: int|
                0 <= i < probe.device_files@.len() && is_input_candidate(
                    (#[trigger] probe.device_files@[i]).file_name@,
                ) ==> r@.contains(i as usize),
    {
        let mut out: Vec<usize> = Vec::new();
        let mut i: usize = 0;
        while i < probe.device_files.len()
            invariant
                i <= probe.device_files@.len(),
                forall|k: int|
                    0 <= k < out@.len() ==> (#[trigger] out@[k]) < probe.device_files@.len()
                        && is_input_candidate(probe.device_files@[out@[k] as int].file_name@),
                forall|j: int|
                    0 <= j < i && is_input_candidate(
                        (#[trigger] probe.device_files@[j]).file_name@,
                    ) ==> out@.contains(j as usize),
            decreases probe.device_files@.len() - i,
        {
            let ghost pre = out@;
            let n = probe.device_files[i].file_name.as_str();
            let candidate = starts_with(n, "event") || starts_with(n, "js");
            if candidate {
                out.push(i);
                assert(out@.last() == i as usize);
            }
            i = i + 1;
            proof {
                assert forall|j: int|
                    0 <= j < i && is_input_candidate(
                        (#[trigger] probe.device_files@[j]).file_name@,
                    ) implies out@.contains(j as usize) by {
                    if j < i - 1 {
                        let k = choose|k: int| 0 <= k < pre.len() && pre[k] == j as usize;
                        assert(out@[k] == j as usize);
                    } else {
                        assert(out@[out@.len() - 1] == j as usize);
                    }
                }
            }
        }
        out
    }

    /// Classify one input device from its path and name.
    pub fn determine_device_type(&self, device_path: &str, device_name: &str) -> (r:
        InputDeviceType)
        ensures
            r == device_type_of(self.device_info.device_type, device_path@, device_name@),
    {
        if contains_ci(device_name, "gamepad") || contains_ci(device_name, "controller")
            || contains_ci(device_name, "joystick") || contains_ci(device_path, "js") {
            InputDeviceType::Gamepad
        } else if contains_ci(device_name, "keyboard") || contains_ci(device_name, "kbd") {
            InputDeviceType::Keyboard
        } else if contains_ci(device_name, "mouse") || contains_ci(device_name, "pointing") {
            InputDeviceType::Mouse
        } else if contains_ci(device_name, "touch") || contains_ci(device_name, "screen") {
            InputDeviceType::Touchscreen
        } else if matches!(self.device_info.device_type, DeviceType::Anbernic) && (contains_ci(
            device_name,
            "gpio",
        ) || contains_ci(device_name, "adc")) {
            InputDeviceType::DPad
        } else {
            InputDeviceType::Unknown
        }
    }

    /// The capability table for a classified device.
    pub fn analyze_device_capabilities(&self, device_type: &InputDeviceType) -> (r:
        InputCapabilities)
        ensures
            r == capabilities_for(*device_type),
    {
        match device_type {
            InputDeviceType::Gamepad => InputCapabilities {
                has_buttons: true,
                button_count: 12,
                has_dpad: true,
                has_analog_sticks: true,
                analog_stick_count: 2,
                has_triggers: true,
                has_touchscreen: false,
            },
            InputDeviceType::DPad => InputCapabilities {
                has_buttons: true,
                button_count: 8,
                has_dpad: true,
                has_analog_sticks: false,
                analog_stick_count: 0,
                has_triggers: false,
                has_touchscreen: false,
            },
            InputDeviceType::Keyboard => InputCapabilities {
                has_buttons: true,
                button_count: 104,
                has_dpad: false,
                has_analog_sticks: false,
                analog_stick_count: 0,
                has_triggers: false,
                has_touchscreen: false,
            },
            InputDeviceType::Mouse => InputCapabilities {
                has_buttons: true,
                button_count: 3,
                has_dpad: false,
                has_analog_sticks: false,
                analog_stick_count: 0,
                has_triggers: false,
                has_touchscreen: false,
            },
            InputDeviceType::Touchscreen => InputCapabilities {
                has_buttons: false,
                button_count: 0,
                has_dpad: false,
                has_analog_sticks: false,
                analog_stick_count: 0,
                has_triggers: false,
                has_touchscreen: true,
            },
            _ => InputCapabilities {
                has_buttons: false,
                button_count: 0,
                has_dpad: false,
                has_analog_sticks: false,
                analog_stick_count: 0,
                has_triggers: false,
                has_touchscreen: false,
            },
        }
    }

    /// The built-in controls a gaming handheld always carries: its d-pad,
    /// and an analog stick when the feature set has one. Built-in controls
    /// are taken as working.
    pub fn detect_builtin_gaming_controls(&self) -> (r: Vec<InputDevice>)
        ensures
            device_views(r@) == builtin_device_views(
                self.device_info.device_type,
                self.device_info.gaming_features.has_analog_sticks,
            ),
    {
        let mut out: Vec<InputDevice> = Vec::new();
        proof {
            assert(device_views(out@) =~= Seq::<InputDeviceView>::empty());
        }
        if matches!(self.device_info.device_type, DeviceType::Anbernic) {
            out.push(
                InputDevice {
                    device_path: String::from_str("/dev/input/builtin_dpad"),
                    device_name: String::from_str("Built-in D-Pad"),
                    device_type: InputDeviceType::DPad,
                    capabilities: InputCapabilities {
                        has_buttons: true,
                        button_count: 4,
                        has_dpad: true,
                        has_analog_sticks: false,
                        analog_stick_count: 0,
                        has_triggers: false,
                        has_touchscreen: false,
                    },
                    is_working: true,
                },
            );
            if self.device_info.gaming_features.has_analog_sticks {
                out.push(
                    InputDevice {
                        device_path: String::from_str("/dev/input/builtin_analog"),
                        device_name: String::from_str("Built-in Analog Stick"),
                        device_type: InputDeviceType::AnalogStick,
                        capabilities: InputCapabilities {
                            has_buttons: false,
                            button_count: 0,
                            has_dpad: false,
                            has_analog_sticks: true,
                            analog_stick_count: 1,
                            has_triggers: false,
                            has_touchscreen: false,
                        },
                        is_working: true,
                    },
                );
            }
        }
        proof {
            let bv = builtin_device_views(
                self.device_info.device_type,
                self.device_info.gaming_features.has_analog_sticks,
            );
            assert(device_views(out@) =~= bv) by {
                assert(forall|i: int|
                    0 <= i < out@.len() ==> device_views(out@)[i] == #[trigger] out@[i]@);
            }
        }
        out
    }

    /// Detect and judge every input device: the event and joystick files
    /// among the listed device files, each analyzed against the registry
    /// text and judged by whether it opened, followed by the built-in
    /// controls of a gaming handheld.
    pub fn test_controllers(&self, probe: &InputProbe) -> (r: Vec<InputDevice>)
        ensures
            device_views(r@) == scanned_devices(
                self.device_info.device_type,
                probe.device_files@,
                probe.proc_devices_text@,
            ) + builtin_device_views(
                self.device_info.device_type,
                self.device_info.gaming_features.has_analog_sticks,
            ),
    {
        let ghost host = self.device_info.device_type;
        let ghost files = probe.device_files@;
        let ghost proc_text = probe.proc_devices_text@;
        let mut out: Vec<InputDevice> = Vec::new();
        let mut i: usize = 0;
        proof {
            assert(device_views(out@) =~= scanned_devices(host, files.take(0), proc_text));
        }
        while i < probe.device_files.len()
            invariant
                i <= probe.device_files@.len(),
                host == self.device_info.device_type,
                files == probe.device_files@,
                proc_text == probe.proc_devices_text@,
                device_views(out@) =~= scanned_devices(host, files.take(i as int), proc_text),
            decreases probe.device_files@.len() - i,
        {
            let ghost pre = device_views(out@);
            let f = &probe.device_files[i];
            proof {
                assert(files.take(i + 1).drop_last() =~= files.take(i as int));
                assert(files.take(i + 1).last() == files[i as int]);
            }
            if starts_with(f.file_name.as_str(), "event") || starts_with(
                f.file_name.as_str(),
                "js",
            ) {
                let mut device = self.analyze_input_device(f.path.as_str(), probe.proc_devices_text.as_str());
                device.is_working = self.test_input_device(&device, f.openable);
                out.push(device);
                proof {
                    assert(device_views(out@) =~= pre.push(out@.last()@));
                }
            }
            i = i + 1;
        }
        proof {
            assert(files.take(i as int) =~= files);
        }
        let mut builtin = self.detect_builtin_gaming_controls();
        let ghost scanned = device_views(out@);
        let ghost built = device_views(builtin@);
        out.append(&mut builtin);
        proof {
            assert(device_views(out@) =~= scanned + built);
        }
        out
    }

    /// The name a device file carries: what the device registry text reports
    /// for its path, else a name derived from the path.
    pub fn get_device_name(&self, device_path: &str, proc_text: &str) -> (r: Option<String>)
        ensures
            match r {
                Some(n) => device_name_of(proc_text@, device_path@) == Some(n@),
                None => device_name_of(proc_text@, device_path@) is None,
            },
    {
        match parse_device_name_from_proc(proc_text, device_path) {
            Some(n) => Some(n),
            None => {
                if contains_sub(device_path, "event") {
                    let r = String::from_str("Input Event Device ").concat(
                        last_char_str(device_path).as_str(),
                    );
                    proof {
                        assert(r@ =~= "Input Event Device "@ + seq![last_char_of(device_path@)]);
                    }
                    Some(r)
                } else if contains_sub(device_path, "js") {
                    let r = String::from_str("Joystick Device ").concat(
                        last_char_str(device_path).as_str(),
                    );
                    proof {
                        assert(r@ =~= "Joystick Device "@ + seq![last_char_of(device_path@)]);
                    }
                    Some(r)
                } else {
                    None
                }
            },
        }
    }

    /// Analyze one device file: name it, classify it, and attach its
    /// capability table; usability is judged separately.
    pub fn analyze_input_device(&self, device_path: &str, proc_text: &str) -> (r: InputDevice)
        ensures
            r@ == analyzed_device(self.device_info.device_type, device_path@, proc_text@),
    {
        let device_name = match self.get_device_name(device_path, proc_text) {
            Some(n) => n,
            None => String::from_str("Unknown Device"),
        };
        let device_type = self.determine_device_type(device_path, device_name.as_str());
        let capabilities = self.analyze_device_capabilities(&device_type);
        InputDevice {
            device_path: device_path.to_owned(),
            device_name,
            device_type,
            capabilities,
            is_working: false,
        }
    }

    /// Whether an input device is usable: a built-in control always is; a
    /// device file must exist and have opened.
    pub fn test_input_device(&self, device: &InputDevice, openable: bool) -> (r: bool)
        ensures
            r == (name_mentions(device.device_path@, "builtin") || openable),
    {
        if contains_ci(device.device_path.as_str(), "builtin") {
            return true;
        }
        openable
    }

    /// Judge the gaming-specific control groups for the profiled device: the
    /// built-in controls of a gaming handheld are trusted; anything else goes
    /// by the feature set and whether a joystick device file is connected.
    pub fn test_specific_gaming_controls(&self, probe: &InputProbe) -> (r: GamingControlsTest)
        ensures
            r.dpad_working == (self.device_info.gaming_features.has_dpad && (matches!(
                self.device_info.device_type,
                DeviceType::Anbernic,
            ) || has_event_device(probe.device_files@))),
            r.action_buttons_working == (matches!(
                self.device_info.device_type,
                DeviceType::Anbernic,
            ) || has_joystick_device(probe.device_files@)),
            r.shoulder_buttons_working == self.device_info.gaming_features.has_shoulder_buttons,
            r.analog_sticks_working == self.device_info.gaming_features.has_analog_sticks,
            r.start_select_working == (matches!(
                self.device_info.device_type,
                DeviceType::Anbernic,
            ) || has_joystick_device(probe.device_files@)),
    {
        let anbernic = matches!(self.device_info.device_type, DeviceType::Anbernic);
        let dpad_working = self.device_info.gaming_features.has_dpad && (anbernic
            || self.check_for_dpad_events(probe));
        let pad = anbernic || self.has_gamepad_with_buttons(probe);
        GamingControlsTest {
            dpad_working,
            action_buttons_working: pad,
            shoulder_buttons_working: self.device_info.gaming_features.has_shoulder_buttons,
            analog_sticks_working: self.device_info.gaming_features.has_analog_sticks,
            start_select_working: pad,
        }
    }

    /// Whether an event device file is present.
    pub fn check_for_dpad_events(&self, probe: &InputProbe) -> (r: bool)
        ensures
            r == has_event_device(probe.device_files@),
    {
        let files = &probe.device_files;
        let mut i: usize = 0;
        while i < files.len()
            invariant
                i <= files@.len(),
                files@ == probe.device_files@,
                forall|k: int|
                    0 <= k < i ==> !starts_with_bytes(
                        bytes_of((#[trigger] files@[k]).file_name@),
                        "event".spec_bytes(),
                    ),
            decreases files@.len() - i,
        {
            if starts_with(files[i].file_name.as_str(), "event") {
                assert(has_event_device(probe.device_files@));
                return true;
            }
            i = i + 1;
        }
        proof {
            if has_event_device(probe.device_files@) {
                let k = choose|k: int|
                    0 <= k < files@.len() && starts_with_bytes(
                        bytes_of(files@[k].file_name@),
                        "event".spec_bytes(),
                    );
                assert(!starts_with_bytes(bytes_of(files@[k].file_name@), "event".spec_bytes()));
            }
        }
        return false;
    }

    /// Whether a joystick device file is present.
    pub fn has_gamepad_with_buttons(&self, probe: &InputProbe) -> (r: bool)
        ensures
            r == has_joystick_device(probe.device_files@),
    {
        let files = &probe.device_files;
        let mut i: usize = 0;
        while i < files.len()
            invariant
                i <= files@.len(),
                files@ == probe.device_files@,
                forall|k: int|
                    0 <= k < i ==> !starts_with_bytes(
                        bytes_of((#[trigger] files@[k]).file_name@),
                        "js".spec_bytes(),
                    ),
            decreases files@.len() - i,
        {
            if starts_with(files[i].file_name.as_str(), "js") {
                assert(has_joystick_device(probe.device_files@));
                return true;
            }
            i = i + 1;
        }
        proof {
            if has_joystick_device(probe.device_files@) {
                let k = choose|k: int|
                    0 <= k < files@.len() && starts_with_bytes(
                        bytes_of(files@[k].file_name@),
                        "js".spec_bytes(),
                    );
                assert(!starts_with_bytes(bytes_of(files@[k].file_name@), "js".spec_bytes()));
            }
        }
        return false;
    }
}

// ---------- The device registry text ----------

/// The position of the first blank line, or the length when there is none.
pub open spec fn first_blank(lines: Seq<Seq<char>>) -> int
    decreases lines.len(),
{
    if lines.len() == 0 {
        0
    } else if lines[0].len() == 0 {
        0
    } else {
        1 + first_blank(lines.drop_first())
    }
}

proof fn lemma_first_blank(lines: Seq<Seq<char>>, i: int)
    requires
        0 <= i <= lines.len(),
        forall|j: int| 0 <= j < i ==> (#[trigger] lines[j]).len() != 0,
        i < lines.len() ==> lines[i].len() == 0,
    ensures
        first_blank(lines) == if i < lines.len() {
            i
        } else {
            lines.len() as int
        },
    decreases lines.len(),
{
    if lines.len() > 0 {
        if i == 0 {
        } else {
            lemma_first_blank(lines.drop_first(), i - 1);
        }
    }
}

/// The blank-line-separated sections of a line listing.
pub open spec fn line_groups(lines: Seq<Seq<char>>) -> Seq<Seq<Seq<char>>>
    decreases lines.len(),
{
    if lines.len() == 0 {
        Seq::empty()
    } else {
        let i = first_blank(lines);
        if 0 <= i < lines.len() {
            seq![lines.take(i)] + line_groups(lines.skip(i + 1))
        } else {
            seq![lines]
        }
    }
}

/// A section mentions the device path.
pub open spec fn group_mentions(g: Seq<Seq<char>>, target: Seq<char>) -> bool {
    exists|i: int|
        0 <= i < g.len() && contains_bytes(bytes_of(#[trigger] g[i]), bytes_of(target))
}

/// The name a section reports: the value of its first `N: Name=` line, with
/// the surrounding quotes dropped.
pub open spec fn group_name(g: Seq<Seq<char>>) -> Option<Seq<char>>
    decreases g.len(),
{
    if g.len() == 0 {
        None
    } else if starts_with_bytes(bytes_of(g[0]), "N: Name=".spec_bytes()) && g[0].len() >= 8 {
        Some(crate::text::trim_quotes(g[0].skip(8)))
    } else {
        group_name(g.drop_first())
    }
}

/// The registered name of a device: the first section of the registry text
/// that mentions its path and reports a name.
pub open spec fn proc_name_scan(groups: Seq<Seq<Seq<char>>>, target: Seq<char>) -> Option<
    Seq<char>,
>
    decreases groups.len(),
{
    if groups.len() == 0 {
        None
    } else if group_mentions(groups[0], target) && group_name(groups[0]) is Some {
        group_name(groups[0])
    } else {
        proc_name_scan(groups.drop_first(), target)
    }
}

fn group_mentions_exec(lines: &Vec<String>, lo: usize, hi: usize, target: &str) -> (r: bool)
    requires
        lo <= hi <= lines@.len(),
    ensures
        r == group_mentions(
            lines@.map_values(|x: String| x@).subrange(lo as int, hi as int),
            target@,
        ),
{
    let ghost g = lines@.map_values(|x: String| x@).subrange(lo as int, hi as int);
    let mut i: usize = lo;
    while i < hi
        invariant
            lo <= i <= hi <= lines@.len(),
            g == lines@.map_values(|x: String| x@).subrange(lo as int, hi as int),
            forall|k: int|
                0 <= k < i - lo ==> !contains_bytes(bytes_of(#[trigger] g[k]), bytes_of(target@)),
        decreases hi - i,
    {
        if crate::text::contains_sub(lines[i].as_str(), target) {
            assert(g[i - lo] == lines@[i as int]@);
            return true;
        }
        assert(g[i - lo] == lines@[i as int]@);
        i = i + 1;
    }
    proof {
        if group_mentions(g, target@) {
            let k = choose|k: int|
                0 <= k < g.len() && contains_bytes(bytes_of(g[k]), bytes_of(target@));
            assert(!contains_bytes(bytes_of(g[k]), bytes_of(target@)));
        }
    }
    return false;
}

fn group_name_exec(lines: &Vec<String>, lo: usize, hi: usize) -> (r: Option<String>)
    requires
        lo <= hi <= lines@.len(),
    ensures
        match r {
            Some(n) => group_name(lines@.map_values(|x: String| x@).subrange(lo as int, hi as int))
                == Some(n@),
            None => group_name(
                lines@.map_values(|x: String| x@).subrange(lo as int, hi as int),
            ) is None,
        },
{
    let ghost g = lines@.map_values(|x: String| x@).subrange(lo as int, hi as int);
    let mut i: usize = lo;
    proof {
        assert(g.skip(0) =~= g);
    }
    while i < hi
        invariant
            lo <= i <= hi <= lines@.len(),
            g == lines@.map_values(|x: String| x@).subrange(lo as int, hi as int),
            group_name(g) == group_name(g.skip(i - lo)),
        decreases hi - i,
    {
        let line = lines[i].as_str();
        proof {
            assert(g.skip(i - lo)[0] == lines@[i as int]@);
            assert(g.skip(i - lo).drop_first() =~= g.skip(i + 1 - lo));
        }
        if starts_with(line, "N: Name=") && line.unicode_len() >= 8 {
            let len = line.unicode_len();
            let raw = line.substring_char(8, len);
            proof {
                assert(raw@ =~= lines@[i as int]@.skip(8));
            }
            return Some(crate::text::trim_quotes_str(raw));
        }
        i = i + 1;
    }
    proof {
        assert(g.skip(i - lo).len() == 0);
    }
    return None;
}

/// Look a device's registered name up in the device registry text: the first
/// section mentioning its path that reports a name.
pub fn parse_device_name_from_proc(content: &str, target_device: &str) -> (r: Option<String>)
    ensures
        match r {
            Some(n) => proc_name_scan(line_groups(spec_lines(content@)), target_device@) == Some(
                n@,
            ),
            None => proc_name_scan(line_groups(spec_lines(content@)), target_device@) is None,
        },
{
    let lines = split_lines(content);
    let ghost lviews = lines@.map_values(|x: String| x@);
    let mut p: usize = 0;
    proof {
        assert(lviews.skip(0) =~= lviews);
    }
    while p < lines.len()
        invariant
            p <= lines@.len(),
            lviews == lines@.map_values(|x: String| x@),
            lviews == spec_lines(content@),
            proc_name_scan(line_groups(lviews), target_device@) == proc_name_scan(
                line_groups(lviews.skip(p as int)),
                target_device@,
            ),
        decreases lines@.len() - p,
    {
        // find the end of the current section
        let mut q: usize = p;
        while q < lines.len() && lines[q].as_str().unicode_len() > 0
            invariant
                p <= q <= lines@.len(),
                lviews == lines@.map_values(|x: String| x@),
                forall|j: int| p <= j < q ==> (#[trigger] lviews[j]).len() != 0,
        decreases lines@.len() - q,
        {
            q = q + 1;
        }
        let ghost rest = lviews.skip(p as int);
        let ghost g0 = lviews.subrange(p as int, q as int);
        proof {
            lemma_first_blank(rest, q - p);
            assert(forall|j: int| 0 <= j < q - p ==> (#[trigger] rest[j]).len() != 0);
            assert(q < lviews.len() ==> rest[q - p].len() == 0);
            assert(rest.take(q - p) =~= g0);
            if q < lviews.len() {
                let gs = line_groups(lviews.skip(q + 1));
                assert(rest.skip(q - p + 1) =~= lviews.skip(q + 1));
                assert(line_groups(rest) == seq![g0] + gs);
                assert((seq![g0] + gs)[0] == g0);
                assert((seq![g0] + gs).drop_first() =~= gs);
            } else {
                assert(first_blank(rest) == rest.len());
                assert(rest =~= g0);
                assert(line_groups(rest) == seq![g0]);
                assert(seq![g0][0] == g0);
                assert(seq![g0].drop_first() =~= Seq::<Seq<Seq<char>>>::empty());
            }
        }
        let mentions = group_mentions_exec(&lines, p, q, target_device);
        let found: Option<String> = if mentions {
            group_name_exec(&lines, p, q)
        } else {
            None
        };
        match found {
            Some(n) => {
                assert(proc_name_scan(line_groups(rest), target_device@) == Some(n@));
                return Some(n);
            },
            None => {
                proof {
                    assert(!(group_mentions(g0, target_device@) && group_name(g0) is Some));
                    if q < lviews.len() {
                        assert(proc_name_scan(line_groups(rest), target_device@)
                            == proc_name_scan(
                            line_groups(lviews.skip(q + 1)),
                            target_device@,
                        ));
                    } else {
                        assert(proc_name_scan(line_groups(rest), target_device@)
                            == proc_name_scan(
                            Seq::<Seq<Seq<char>>>::empty(),
                            target_device@,
                        ));
                    }
                }
            },
        }
        if q < lines.len() {
            p = q + 1;
        } else {
            p = lines.len();
            proof {
                assert(lviews.skip(p as int) =~= Seq::<Seq<char>>::empty());
                assert(line_groups(lviews.skip(p as int)) == Seq::<Seq<Seq<char>>>::empty());
            }
        }
    }
    proof {
        assert(lviews.skip(p as int) =~= Seq::<Seq<char>>::empty());
    }
    return None;
}

/// The last character of a path, or a zero digit for an empty one — the
/// device number suffix a fallback name carries.
pub open spec fn last_char_of(path: Seq<char>) -> char {
    if path.len() > 0 {
        path.last()
    } else {
        '0'
    }
}

/// The name a device gets when the registry text does not report one: named
/// after its path when that reads as an event or joystick device.
pub open spec fn fallback_device_name(path: Seq<char>) -> Option<Seq<char>> {
    if contains_bytes(bytes_of(path), "event".spec_bytes()) {
        Some("Input Event Device "@ + seq![last_char_of(path)])
    } else if contains_bytes(bytes_of(path), "js".spec_bytes()) {
        Some("Joystick Device "@ + seq![last_char_of(path)])
    } else {
        None
    }
}

/// The name a device carries: what the registry text reports for its path,
/// else the path-derived fallback, else nothing.
pub open spec fn device_name_of(proc_text: Seq<char>, path: Seq<char>) -> Option<Seq<char>> {
    match proc_name_scan(line_groups(spec_lines(proc_text)), path) {
        Some(n) => Some(n),
        None => fallback_device_name(path),
    }
}

/// The full analysis of one device file: its name, kind and capability
/// table, with usability judged later.
pub open spec fn analyzed_device(
    host: DeviceType,
    path: Seq<char>,
    proc_text: Seq<char>,
) -> InputDeviceView {
    let name = match device_name_of(proc_text, path) {
        Some(n) => n,
        None => "Unknown Device"@,
    };
    let t = device_type_of(host, path, name);
    InputDeviceView {
        device_path: path,
        device_name: name,
        device_type: t,
        capabilities: capabilities_for(t),
        is_working: false,
    }
}

/// The devices a scan detects, in listing order: every event or joystick
/// file, analyzed and judged.
pub open spec fn scanned_devices(
    host: DeviceType,
    files: Seq<InputFileProbe>,
    proc_text: Seq<char>,
) -> Seq<InputDeviceView>
    decreases files.len(),
{
    if files.len() == 0 {
        Seq::empty()
    } else {
        let rest = scanned_devices(host, files.drop_last(), proc_text);
        let f = files.last();
        if is_input_candidate(f.file_name@) {
            let d = analyzed_device(host, f.path@, proc_text);
            rest.push(
                InputDeviceView {
                    is_working: name_mentions(f.path@, "builtin") || f.openable,
                    ..d
                },
            )
        } else {
            rest
        }
    }
}

/// The built-in controls of a gaming handheld: its d-pad, and an analog
/// stick when the feature set has one; nothing on any other class.
pub open spec fn builtin_device_views(host: DeviceType, has_analog_sticks: bool) -> Seq<
    InputDeviceView,
> {
    if host == DeviceType::Anbernic {
        let dpad = InputDeviceView {
            device_path: "/dev/input/builtin_dpad"@,
            device_name: "Built-in D-Pad"@,
            device_type: InputDeviceType::DPad,
            capabilities: InputCapabilities {
                has_buttons: true,
                button_count: 4,
                has_dpad: true,
                has_analog_sticks: false,
                analog_stick_count: 0,
                has_triggers: false,
                has_touchscreen: false,
            },
            is_working: true,
        };
        let analog = InputDeviceView {
            device_path: "/dev/input/builtin_analog"@,
            device_name: "Built-in Analog Stick"@,
            device_type: InputDeviceType::AnalogStick,
            capabilities: InputCapabilities {
                has_buttons: false,
                button_count: 0,
                has_dpad: false,
                has_analog_sticks: true,
                analog_stick_count: 1,
                has_triggers: false,
                has_touchscreen: false,
            },
            is_working: true,
        };
        if has_analog_sticks {
            seq![dpad, analog]
        } else {
            seq![dpad]
        }
    } else {
        Seq::empty()
    }
}

/// The last character of a path as a one-character string.
fn last_char_str(path: &str) -> (r: String)
    ensures
        r@ == seq![last_char_of(path@)],
{
    let len = path.unicode_len();
    if len == 0 {
        proof {
            reveal_strlit("0");
        }
        let r = String::from_str("0");
        proof {
            assert(r@ =~= seq![last_char_of(path@)]);
        }
        r
    } else {
        let r = path.substring_char(len - 1, len).to_owned();
        proof {
            assert(r@ =~= seq![last_char_of(path@)]);
        }
        r
    }
}

/// Some listed input file is an event source.
pub open spec fn has_event_device(files: Seq<InputFileProbe>) -> bool {
    exists|i: int|
        0 <= i < files.len() && starts_with_bytes(
            bytes_of((#[trigger] files[i]).file_name@),
            "event".spec_bytes(),
        )
}

/// Some listed input file is a joystick.
pub open spec fn has_joystick_device(files: Seq<InputFileProbe>) -> bool {
    exists|i: int|
        0 <= i < files.len() && starts_with_bytes(
            bytes_of((#[trigger] files[i]).file_name@),
            "js".spec_bytes(),
        )
}

} // verus!
