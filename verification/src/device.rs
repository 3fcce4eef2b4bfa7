//! Device capability profiling: classify the host into a device class from
//! its identity sources, read out memory and CPU facts, and derive the
//! capability flags. The caller reads the identity files and probes the
//! filesystem once, hands the readings in as a `DeviceProbe`, and gets the
//! immutable `DeviceInfo` every other component consumes.

use vstd::prelude::*;
use crate::text::{contains_bytes, lower_bytes, bytes_of, contains_ci, starts_with,
    starts_with_bytes, spec_lines, spec_fields, spec_trim, split_lines, split_fields, trim_str,
    parse_u64, is_digit, all_digits, dec_val, first_index, lemma_first_index};

verus! {

use vstd::string::StringSliceAdditionalSpecFns;
use vstd::string::StrSliceExecFns;

/// The device classes the profiler distinguishes.
#[derive(Clone, Copy, Debug, PartialEq, Eq, Structural)]
pub enum DeviceType {
    RaspberryPi,
    Anbernic,
    OrangePi,
    BananaPi,
    RockPi,
    Odroid,
    Generic,
}

/// The display a device class drives.
#[derive(Clone, Copy, Debug, PartialEq, Eq, Structural)]
pub enum DisplayType {
    HDMI,
    DSI,
    LCD,
    OLED,
    Unknown,
}

/// CPU facts read from the host.
#[derive(Clone, Debug)]
pub struct CpuInfo {
    pub model: String,
    pub cores: u32,
    pub frequency_mhz: Option<u32>,
}

/// The gaming-feature set of a device. The screen size is kept in tenths of
/// an inch; the native resolution as width and height.
#[derive(Clone, Copy, Debug, PartialEq, Eq, Structural)]
pub struct GamingFeatures {
    pub has_dpad: bool,
    pub has_analog_sticks: bool,
    pub has_shoulder_buttons: bool,
    pub has_built_in_screen: bool,
    pub has_battery: bool,
    pub screen_size_tenths_inches: Option<u32>,
    pub native_resolution_width: Option<u32>,
    pub native_resolution_height: Option<u32>,
}

/// The immutable device profile, built once at startup.
#[derive(Clone, Debug)]
pub struct DeviceInfo {
    pub device_type: DeviceType,
    pub model: String,
    pub architecture: String,
    pub cpu_info: CpuInfo,
    pub memory_mb: u64,
    pub has_gpio: bool,
    pub has_camera: bool,
    pub display_type: DisplayType,
    pub gaming_features: GamingFeatures,
}

/// What one pass over the host's identity sources read: file contents as
/// text (empty when a file was unreadable), and the filesystem probes as
/// flags.
#[derive(Clone, Debug)]
pub struct DeviceProbe {
    pub model_text: String,
    pub cpuinfo_text: String,
    pub meminfo_text: String,
    pub architecture: String,
    pub anbernic_dir_present: bool,
    pub gpio_node_present: bool,
    pub video_device_present: bool,
    pub camera_node_present: bool,
    pub dsi_node_present: bool,
    pub hdmi_connector_present: bool,
    pub dsi_connector_present: bool,
    pub input_device_names: Vec<String>,
}

/// The identity text, case-folded, mentions the keyword.
pub open spec fn text_mentions(text: Seq<char>, keyword: &str) -> bool {
    contains_bytes(lower_bytes(bytes_of(text)), lower_bytes(keyword.spec_bytes()))
}

/// The device classification: identity sources probed in a fixed priority
/// order, first positive match wins — no scoring, no multi-match resolution.
pub open spec fn classify_device(p: DeviceProbe) -> DeviceType {
    if text_mentions(p.model_text@, "raspberry pi") || text_mentions(
        p.cpuinfo_text@,
        "raspberry pi",
    ) {
        DeviceType::RaspberryPi
    } else if text_mentions(p.model_text@, "rg351") || text_mentions(p.model_text@, "rg552")
        || text_mentions(p.model_text@, "rg35xx") || text_mentions(p.model_text@, "anbernic")
        || p.anbernic_dir_present {
        DeviceType::Anbernic
    } else if text_mentions(p.model_text@, "orange pi") {
        DeviceType::OrangePi
    } else if text_mentions(p.model_text@, "banana pi") {
        DeviceType::BananaPi
    } else if text_mentions(p.model_text@, "rock pi") {
        DeviceType::RockPi
    } else if text_mentions(p.model_text@, "odroid") {
        DeviceType::Odroid
    } else {
        DeviceType::Generic
    }
}

/// The gaming-feature table, keyed by device class. The one probe-dependent
/// row is the Raspberry Pi's, whose d-pad and analog flags follow the
/// connected-gamepad probe.
pub open spec fn gaming_features_for(t: DeviceType, gamepad_connected: bool) -> GamingFeatures {
    match t {
        DeviceType::Anbernic => GamingFeatures {
            has_dpad: true,
            has_analog_sticks: true,
            has_shoulder_buttons: true,
            has_built_in_screen: true,
            has_battery: true,
            screen_size_tenths_inches: Some(35),
            native_resolution_width: Some(480),
            native_resolution_height: Some(320),
        },
        DeviceType::RaspberryPi => GamingFeatures {
            has_dpad: gamepad_connected,
            has_analog_sticks: gamepad_connected,
            has_shoulder_buttons: false,
            has_built_in_screen: false,
            has_battery: false,
            screen_size_tenths_inches: None,
            native_resolution_width: None,
            native_resolution_height: None,
        },
        _ => GamingFeatures {
            has_dpad: false,
            has_analog_sticks: false,
            has_shoulder_buttons: false,
            has_built_in_screen: false,
            has_battery: false,
            screen_size_tenths_inches: None,
            native_resolution_width: None,
            native_resolution_height: None,
        },
    }
}

/// Whether a class exposes GPIO; a generic device goes by the filesystem
/// probe.
pub open spec fn gpio_for(t: DeviceType, gpio_node_present: bool) -> bool {
    match t {
        DeviceType::RaspberryPi => true,
        DeviceType::OrangePi => true,
        DeviceType::BananaPi => true,
        DeviceType::RockPi => true,
        DeviceType::Odroid => true,
        DeviceType::Anbernic => false,
        DeviceType::Generic => gpio_node_present,
    }
}

/// The display a class drives, falling back to the connector probes.
pub open spec fn display_for(t: DeviceType, p: DeviceProbe) -> DisplayType {
    match t {
        DeviceType::RaspberryPi => if p.dsi_node_present {
            DisplayType::DSI
        } else {
            DisplayType::HDMI
        },
        DeviceType::Anbernic => DisplayType::LCD,
        _ => if p.hdmi_connector_present {
            DisplayType::HDMI
        } else if p.dsi_connector_present {
            DisplayType::DSI
        } else {
            DisplayType::Unknown
        },
    }
}

/// A name of an input device file that reports game or event input.
pub open spec fn is_input_candidate(name: Seq<char>) -> bool {
    starts_with_bytes(bytes_of(name), "js".spec_bytes()) || starts_with_bytes(
        bytes_of(name),
        "event".spec_bytes(),
    )
}

/// Some connected input device file looks like a gamepad or event source.
pub open spec fn gamepad_connected(names: Seq<String>) -> bool {
    exists|i: int| 0 <= i < names.len() && is_input_candidate(names[i]@)
}

/// The model string the profile carries: the device-tree text with its
/// trailing NUL bytes dropped, the Anbernic model names resolved, and fixed
/// fallbacks when nothing was read.
pub open spec fn device_model_of(t: DeviceType, model_text: Seq<char>) -> Seq<char> {
    match t {
        DeviceType::RaspberryPi => if model_text.len() > 0 {
            trim_nuls(model_text)
        } else {
            "Raspberry Pi (Unknown Model)"@
        },
        DeviceType::Anbernic => if text_mentions(model_text, "rg351") {
            "Anbernic RG351"@
        } else if text_mentions(model_text, "rg552") {
            "Anbernic RG552"@
        } else if text_mentions(model_text, "rg35xx") {
            "Anbernic RG35XX"@
        } else {
            "Anbernic Gaming Handheld"@
        },
        _ => if model_text.len() > 0 {
            trim_nuls(model_text)
        } else {
            generic_model_name(t)
        },
    }
}

/// The fallback model name of a class without an identity file.
pub open spec fn generic_model_name(t: DeviceType) -> Seq<char> {
    match t {
        DeviceType::RaspberryPi => "RaspberryPi Device"@,
        DeviceType::Anbernic => "Anbernic Device"@,
        DeviceType::OrangePi => "OrangePi Device"@,
        DeviceType::BananaPi => "BananaPi Device"@,
        DeviceType::RockPi => "RockPi Device"@,
        DeviceType::Odroid => "Odroid Device"@,
        DeviceType::Generic => "Generic Device"@,
    }
}

/// The text with its trailing NUL characters dropped, as a device-tree model
/// string is read.
pub open spec fn trim_nuls(s: Seq<char>) -> Seq<char>
    decreases s.len(),
{
    if s.len() > 0 && s.last() == '\0' {
        trim_nuls(s.drop_last())
    } else {
        s
    }
}

fn trim_nuls_exec(s: &str) -> (r: String)
    ensures
        r@ == trim_nuls(s@),
{
    let len = s.unicode_len();
    let mut b: usize = len;
    assert(s@.take(len as int) =~= s@);
    while b > 0 && s.get_char(b - 1) == '\0'
        invariant
            b <= len,
            len == s@.len(),
            trim_nuls(s@) == trim_nuls(s@.take(b as int)),
        decreases b,
    {
        proof {
            assert(s@.take(b as int).last() == s@[b - 1]);
            assert(s@.take(b as int).drop_last() =~= s@.take(b - 1));
        }
        b = b - 1;
    }
    proof {
        if b > 0 {
            assert(s@.take(b as int).last() == s@[b - 1]);
        }
        assert(trim_nuls(s@.take(b as int)) == s@.take(b as int));
    }
    s.substring_char(0, b).to_owned()
}

impl CpuInfo {
    /// A copy with the same facts.
    pub fn clone_cpu(&self) -> (r: CpuInfo)
        ensures
            r.model@ == self.model@,
            r.cores == self.cores,
            r.frequency_mhz == self.frequency_mhz,
    {
        CpuInfo {
            model: self.model.clone(),
            cores: self.cores,
            frequency_mhz: self.frequency_mhz,
        }
    }
}

impl DeviceInfo {
    /// A copy of the profile.
    pub fn clone_profile(&self) -> (r: DeviceInfo)
        ensures
            r.device_type == self.device_type,
            r.model@ == self.model@,
            r.architecture@ == self.architecture@,
            r.cpu_info.model@ == self.cpu_info.model@,
            r.cpu_info.cores == self.cpu_info.cores,
            r.cpu_info.frequency_mhz == self.cpu_info.frequency_mhz,
            r.memory_mb == self.memory_mb,
            r.has_gpio == self.has_gpio,
            r.has_camera == self.has_camera,
            r.display_type == self.display_type,
            r.gaming_features == self.gaming_features,
    {
        DeviceInfo {
            device_type: self.device_type,
            model: self.model.clone(),
            architecture: self.architecture.clone(),
            cpu_info: self.cpu_info.clone_cpu(),
            memory_mb: self.memory_mb,
            has_gpio: self.has_gpio,
            has_camera: self.has_camera,
            display_type: self.display_type,
            gaming_features: self.gaming_features,
        }
    }
}

pub struct DeviceDetector {}

impl DeviceDetector {
    /// A fresh profiler.
    pub fn new() -> DeviceDetector {
        DeviceDetector {  }
    }

    /// Classify the host from the probe, in the fixed priority order.
    pub fn detect_device_type(&self, probe: &DeviceProbe) -> (r: DeviceType)
        ensures
            r == classify_device(*probe),
    {
        let model = probe.model_text.as_str();
        if contains_ci(model, "raspberry pi") || contains_ci(
            probe.cpuinfo_text.as_str(),
            "raspberry pi",
        ) {
            DeviceType::RaspberryPi
        } else if contains_ci(model, "rg351") || contains_ci(model, "rg552") || contains_ci(
            model,
            "rg35xx",
        ) || contains_ci(model, "anbernic") || probe.anbernic_dir_present {
            DeviceType::Anbernic
        } else if contains_ci(model, "orange pi") {
            DeviceType::OrangePi
        } else if contains_ci(model, "banana pi") {
            DeviceType::BananaPi
        } else if contains_ci(model, "rock pi") {
            DeviceType::RockPi
        } else if contains_ci(model, "odroid") {
            DeviceType::Odroid
        } else {
            DeviceType::Generic
        }
    }

    /// Whether the classified device exposes GPIO pins.
    pub fn has_gpio_support(&self, device_type: &DeviceType, gpio_node_present: bool) -> (r: bool)
        ensures
            r == gpio_for(*device_type, gpio_node_present),
    {
        match device_type {
            DeviceType::RaspberryPi
            | DeviceType::OrangePi
            | DeviceType::BananaPi
            | DeviceType::RockPi => true,
            DeviceType::Anbernic => false,
            DeviceType::Odroid => true,
            DeviceType::Generic => gpio_node_present,
        }
    }

    /// The camera probe: any of the camera nodes is enough.
    pub fn detect_camera(&self, probe: &DeviceProbe) -> (r: bool)
        ensures
            r == (probe.video_device_present || probe.camera_node_present),
    {
        probe.video_device_present || probe.camera_node_present
    }

    /// The display the classified device drives.
    pub fn detect_display_type(&self, device_type: &DeviceType, probe: &DeviceProbe) -> (r:
        DisplayType)
        ensures
            r == display_for(*device_type, *probe),
    {
        match device_type {
            DeviceType::RaspberryPi => {
                if probe.dsi_node_present {
                    DisplayType::DSI
                } else {
                    DisplayType::HDMI
                }
            },
            DeviceType::Anbernic => DisplayType::LCD,
            _ => {
                if probe.hdmi_connector_present {
                    DisplayType::HDMI
                } else if probe.dsi_connector_present {
                    DisplayType::DSI
                } else {
                    DisplayType::Unknown
                }
            },
        }
    }

    /// Whether an input device file that reports game or event input is
    /// connected.
    pub fn detect_gamepad_connected(&self, probe: &DeviceProbe) -> (r: bool)
        ensures
            r == gamepad_connected(probe.input_device_names@),
    {
        let names = &probe.input_device_names;
        let mut i: usize = 0;
        while i < names.len()
            invariant
                i <= names@.len(),
                names@ == probe.input_device_names@,
                forall|k: int| 0 <= k < i ==> !is_input_candidate(names@[k]@),
            decreases names@.len() - i,
        {
            let n = names[i].as_str();
            if starts_with(n, "js") || starts_with(n, "event") {
                assert(is_input_candidate(names@[i as int]@));
                assert(gamepad_connected(probe.input_device_names@));
                return true;
            }
            i = i + 1;
        }
        proof {
            if gamepad_connected(probe.input_device_names@) {
                let k = choose|k: int|
                    0 <= k < names@.len() && is_input_candidate(names@[k]@);
                assert(!is_input_candidate(names@[k]@));
            }
        }
        return false;
    }

    /// The gaming-feature set of the classified device: a fixed lookup table
    /// keyed by the class, with the Raspberry Pi row following the gamepad
    /// probe.
    pub fn detect_gaming_features(&self, device_type: &DeviceType, probe: &DeviceProbe) -> (r:
        GamingFeatures)
        ensures
            r == gaming_features_for(*device_type, gamepad_connected(probe.input_device_names@)),
    {
        match device_type {
            DeviceType::Anbernic => GamingFeatures {
                has_dpad: true,
                has_analog_sticks: true,
                has_shoulder_buttons: true,
                has_built_in_screen: true,
                has_battery: true,
                screen_size_tenths_inches: Some(35),
                native_resolution_width: Some(480),
                native_resolution_height: Some(320),
            },
            DeviceType::RaspberryPi => {
                let pad = self.detect_gamepad_connected(probe);
                GamingFeatures {
                    has_dpad: pad,
                    has_analog_sticks: pad,
                    has_shoulder_buttons: false,
                    has_built_in_screen: false,
                    has_battery: false,
                    screen_size_tenths_inches: None,
                    native_resolution_width: None,
                    native_resolution_height: None,
                }
            },
            _ => GamingFeatures {
                has_dpad: false,
                has_analog_sticks: false,
                has_shoulder_buttons: false,
                has_built_in_screen: false,
                has_battery: false,
                screen_size_tenths_inches: None,
                native_resolution_width: None,
                native_resolution_height: None,
            },
        }
    }

    /// The model string the profile carries.
    pub fn get_device_model(&self, device_type: &DeviceType, probe: &DeviceProbe) -> (r: String)
        ensures
            r@ == device_model_of(*device_type, probe.model_text@),
    {
        let model = probe.model_text.as_str();
        match device_type {
            DeviceType::Anbernic => {
                if contains_ci(model, "rg351") {
                    String::from_str("Anbernic RG351")
                } else if contains_ci(model, "rg552") {
                    String::from_str("Anbernic RG552")
                } else if contains_ci(model, "rg35xx") {
                    String::from_str("Anbernic RG35XX")
                } else {
                    String::from_str("Anbernic Gaming Handheld")
                }
            },
            _ => {
                if model.unicode_len() > 0 {
                    trim_nuls_exec(model)
                } else {
                    match device_type {
                        DeviceType::RaspberryPi => String::from_str("Raspberry Pi (Unknown Model)"),
                        DeviceType::Anbernic => String::from_str("Anbernic Device"),
                        DeviceType::OrangePi => String::from_str("OrangePi Device"),
                        DeviceType::BananaPi => String::from_str("BananaPi Device"),
                        DeviceType::RockPi => String::from_str("RockPi Device"),
                        DeviceType::Odroid => String::from_str("Odroid Device"),
                        DeviceType::Generic => String::from_str("Generic Device"),
                    }
                }
            },
        }
    }

    /// Build the whole profile from one probe.
    pub fn detect_device(&self, probe: &DeviceProbe) -> (r: DeviceInfo)
        ensures
            r.device_type == classify_device(*probe),
            r.model@ == device_model_of(classify_device(*probe), probe.model_text@),
            r.architecture@ == probe.architecture@,
            r.memory_mb == memory_mb_of(probe.meminfo_text@),
            r.has_gpio == gpio_for(classify_device(*probe), probe.gpio_node_present),
            r.has_camera == (probe.video_device_present || probe.camera_node_present),
            r.display_type == display_for(classify_device(*probe), *probe),
            r.gaming_features == gaming_features_for(
                classify_device(*probe),
                gamepad_connected(probe.input_device_names@),
            ),
            cpu_info_matches(r.cpu_info, probe.cpuinfo_text@),
    {
        let device_type = self.detect_device_type(probe);
        let model = self.get_device_model(&device_type, probe);
        let cpu_info = get_cpu_info(probe.cpuinfo_text.as_str());
        let memory_mb = get_memory_mb(probe.meminfo_text.as_str());
        let has_gpio = self.has_gpio_support(&device_type, probe.gpio_node_present);
        let has_camera = self.detect_camera(probe);
        let display_type = self.detect_display_type(&device_type, probe);
        let gaming_features = self.detect_gaming_features(&device_type, probe);
        DeviceInfo {
            device_type,
            model,
            architecture: probe.architecture.clone(),
            cpu_info,
            memory_mb,
            has_gpio,
            has_camera,
            display_type,
            gaming_features,
        }
    }
}

// ---------- Memory ----------

/// The value a memory-total line carries: the line starts with `MemTotal:`
/// and its second field is a number of kilobytes.
pub open spec fn mem_line_kb(l: Seq<char>) -> Option<u64> {
    let fs = spec_fields(l);
    if starts_with_bytes(bytes_of(l), "MemTotal:".spec_bytes()) && fs.len() >= 2 && bytes_of(
        fs[1],
    ).len() > 0 && all_digits(bytes_of(fs[1])) && dec_val(bytes_of(fs[1])) <= u64::MAX {
        Some(dec_val(bytes_of(fs[1])) as u64)
    } else {
        None
    }
}

/// The first usable memory-total line of the text, in megabytes.
pub open spec fn mem_scan(lines: Seq<Seq<char>>) -> Option<u64>
    decreases lines.len(),
{
    if lines.len() == 0 {
        None
    } else {
        match mem_line_kb(lines[0]) {
            Some(kb) => Some((kb / 1024) as u64),
            None => mem_scan(lines.drop_first()),
        }
    }
}

/// The memory size the profile carries: the first usable memory-total line,
/// or a one-gigabyte default when none is found.
pub open spec fn memory_mb_of(text: Seq<char>) -> u64 {
    match mem_scan(spec_lines(text)) {
        Some(mb) => mb,
        None => 1024,
    }
}

/// Read the total memory in megabytes out of the memory-information text.
pub fn get_memory_mb(text: &str) -> (r: u64)
    ensures
        r == memory_mb_of(text@),
{
    let lines = split_lines(text);
    let ghost lviews = lines@.map_values(|x: String| x@);
    let mut i: usize = 0;
    proof {
        assert(lviews.skip(0) =~= lviews);
    }
    while i < lines.len()
        invariant
            i <= lines@.len(),
            lviews == lines@.map_values(|x: String| x@),
            lviews == spec_lines(text@),
            mem_scan(lviews) == mem_scan(lviews.skip(i as int)),
        decreases lines@.len() - i,
    {
        let line = &lines[i];
        let ghost lv = lviews[i as int];
        proof {
            assert(lviews.skip(i as int)[0] == lv);
            assert(lviews.skip(i as int).drop_first() =~= lviews.skip(i + 1));
        }
        if starts_with(line.as_str(), "MemTotal:") {
            let fields = split_fields(line.as_str());
            if fields.len() >= 2 {
                let fb = fields[1].as_str().as_bytes_vec();
                proof {
                    assert(fields@.map_values(|x: String| x@)[1] == fields@[1]@);
                    assert(fb@ == bytes_of(spec_fields(lv)[1]));
                }
                match parse_u64(&fb) {
                    Some(kb) => {
                        assert(mem_line_kb(lv) == Some(kb));
                        return kb / 1024;
                    },
                    None => {
                        assert(mem_line_kb(lv) is None);
                    },
                }
            } else {
                assert(mem_line_kb(lv) is None);
            }
        } else {
            assert(mem_line_kb(lv) is None);
        }
        i = i + 1;
    }
    proof {
        assert(lviews.skip(i as int).len() == 0);
    }
    return 1024;
}

// ---------- CPU ----------

/// The running result of the CPU-information scan.
pub ghost struct CpuScan {
    pub model: Seq<char>,
    pub cores: nat,
    pub freq: Option<u32>,
}

/// The text between the first and second colon of a line, trimmed — the
/// value column of the CPU-information format.
pub open spec fn colon_value(l: Seq<char>) -> Option<Seq<char>> {
    let i = first_index(l, ':');
    if i < l.len() {
        let rest = l.skip(i + 1);
        Some(spec_trim(rest.take(first_index(rest, ':'))))
    } else {
        None
    }
}

/// The megahertz reading of a frequency field: the digits before the decimal
/// point, accepted only when the whole field is a plain decimal number.
pub open spec fn mhz_value(field: Seq<u8>) -> Option<u32> {
    let p = first_digit_end(field);
    let ip = field.take(p);
    if ip.len() > 0 && (p == field.len() || (field[p] == 46 && all_digits(field.skip(p + 1))))
        && dec_val(ip) <= u32::MAX {
        Some(dec_val(ip) as u32)
    } else {
        None
    }
}

/// The position of the first non-digit byte, or the length.
pub open spec fn first_digit_end(s: Seq<u8>) -> int
    decreases s.len(),
{
    if s.len() == 0 {
        0
    } else if !is_digit(s[0]) {
        0
    } else {
        1 + first_digit_end(s.drop_first())
    }
}

proof fn lemma_first_digit_end(s: Seq<u8>, i: int)
    requires
        0 <= i <= s.len(),
        forall|j: int| 0 <= j < i ==> is_digit(s[j]),
        i < s.len() ==> !is_digit(s[i]),
    ensures
        first_digit_end(s) == if i < s.len() {
            i
        } else {
            s.len() as int
        },
    decreases s.len(),
{
    if s.len() > 0 {
        if i == 0 {
        } else {
            lemma_first_digit_end(s.drop_first(), i - 1);
        }
    }
}

/// One line applied to the running CPU scan: a model line sets the model, a
/// processor line counts a core, a frequency line sets the megahertz.
pub open spec fn cpu_scan_line(acc: CpuScan, l: Seq<char>) -> CpuScan {
    if starts_with_bytes(bytes_of(l), "model name".spec_bytes()) || starts_with_bytes(
        bytes_of(l),
        "Model".spec_bytes(),
    ) {
        match colon_value(l) {
            Some(v) => CpuScan { model: v, ..acc },
            None => acc,
        }
    } else if starts_with_bytes(bytes_of(l), "processor".spec_bytes()) {
        CpuScan { cores: acc.cores + 1, ..acc }
    } else if starts_with_bytes(bytes_of(l), "cpu MHz".spec_bytes()) {
        match colon_value(l) {
            Some(v) => match mhz_value(bytes_of(v)) {
                Some(m) => CpuScan { freq: Some(m), ..acc },
                None => acc,
            },
            None => acc,
        }
    } else {
        acc
    }
}

/// The CPU scan over the whole text.
pub open spec fn cpu_scan(lines: Seq<Seq<char>>) -> CpuScan
    decreases lines.len(),
{
    if lines.len() == 0 {
        CpuScan { model: "Unknown"@, cores: 0, freq: None }
    } else {
        cpu_scan_line(cpu_scan(lines.drop_last()), lines.last())
    }
}

/// The profile's CPU facts agree with the text: model and frequency from the
/// scan, the core count the number of processor lines (clamped to its type).
pub open spec fn cpu_info_matches(c: CpuInfo, text: Seq<char>) -> bool {
    let sc = cpu_scan(spec_lines(text));
    &&& c.model@ == sc.model
    &&& c.cores == if sc.cores > u32::MAX {
        u32::MAX as nat
    } else {
        sc.cores
    }
    &&& c.frequency_mhz == sc.freq
}

/// Extract the value column of a CPU-information line.
fn colon_value_exec(line: &str) -> (r: Option<String>)
    ensures
        match r {
            Some(v) => colon_value(line@) == Some(v@),
            None => colon_value(line@) is None,
        },
{
    let len = line.unicode_len();
    let mut i: usize = 0;
    while i < len && line.get_char(i) != ':'
        invariant
            i <= len,
            len == line@.len(),
            forall|j: int| 0 <= j < i ==> line@[j] != ':',
        decreases len - i,
    {
        i = i + 1;
    }
    proof {
        lemma_first_index(line@, ':', i as int);
    }
    if i == len {
        return None;
    }
    let mut q: usize = i + 1;
    while q < len && line.get_char(q) != ':'
        invariant
            i + 1 <= q <= len,
            len == line@.len(),
            forall|j: int| i + 1 <= j < q ==> line@[j] != ':',
        decreases len - q,
    {
        q = q + 1;
    }
    let seg = line.substring_char(i + 1, q);
    let trimmed = trim_str(seg);
    proof {
        let rest = line@.skip(i + 1);
        lemma_first_index(rest, ':', q - i - 1);
        assert(rest.take(q - i - 1) =~= line@.subrange(i + 1, q as int));
    }
    Some(trimmed)
}

/// Read the frequency field as whole megahertz.
fn parse_mhz(field: &str) -> (r: Option<u32>)
    ensures
        r == mhz_value(field.spec_bytes()),
{
    let bytes = field.as_bytes_vec();
    let ghost fb = field.spec_bytes();
    let mut p: usize = 0;
    while p < bytes.len() && bytes[p] >= 48 && bytes[p] <= 57
        invariant
            p <= fb.len(),
            bytes@ == fb,
            forall|j: int| 0 <= j < p ==> is_digit(fb[j]),
        decreases fb.len() - p,
    {
        p = p + 1;
    }
    proof {
        lemma_first_digit_end(fb, p as int);
    }
    if p == 0 {
        return None;
    }
    // the remainder must be empty or a dot followed by digits only
    if p < bytes.len() {
        if bytes[p] != 46 {
            return None;
        }
        let mut q: usize = p + 1;
        while q < bytes.len()
            invariant
                p + 1 <= q <= fb.len(),
                bytes@ == fb,
                fb == field.spec_bytes(),
                0 < p < fb.len(),
                first_digit_end(fb) == p as int,
                fb[p as int] == 46,
                forall|j: int| p + 1 <= j < q ==> is_digit(fb[j]),
            decreases fb.len() - q,
        {
            if bytes[q] < 48 || bytes[q] > 57 {
                assert(!all_digits(fb.skip(p + 1))) by {
                    assert(fb.skip(p + 1)[q - p - 1] == fb[q as int]);
                }
                return None;
            }
            q = q + 1;
        }
        proof {
            assert(all_digits(fb.skip(p + 1))) by {
                assert(forall|j: int|
                    0 <= j < fb.skip(p + 1).len() ==> #[trigger] fb.skip(p + 1)[j] == fb[j + p
                        + 1]);
            }
        }
    }
    let mut ip: Vec<u8> = Vec::new();
    let mut k: usize = 0;
    while k < p
        invariant
            k <= p,
            p <= fb.len(),
            bytes@ == fb,
            ip@ =~= fb.take(p as int).take(k as int),
        decreases p - k,
    {
        ip.push(bytes[k]);
        k = k + 1;
        proof {
            assert(fb.take(p as int).take(k as int) =~= fb.take(p as int).take(k - 1).push(
                fb[k - 1],
            ));
        }
    }
    proof {
        assert(ip@ =~= fb.take(p as int));
    }
    match parse_u64(&ip) {
        Some(v) => {
            if v <= u32::MAX as u64 {
                Some(v as u32)
            } else {
                None
            }
        },
        None => None,
    }
}

/// Read the CPU facts out of the CPU-information text.
pub fn get_cpu_info(text: &str) -> (r: CpuInfo)
    ensures
        cpu_info_matches(r, text@),
{
    let lines = split_lines(text);
    let ghost lviews = lines@.map_values(|x: String| x@);
    let mut model = String::from_str("Unknown");
    let mut cores: u64 = 0;
    let mut freq: Option<u32> = None;
    let mut i: usize = 0;
    proof {
        assert(lviews.take(0) =~= Seq::<Seq<char>>::empty());
    }
    while i < lines.len()
        invariant
            i <= lines@.len(),
            lviews == lines@.map_values(|x: String| x@),
            lviews == spec_lines(text@),
            cores <= i,
            ({
                let sc = cpu_scan(lviews.take(i as int));
                model@ == sc.model && cores == sc.cores && freq == sc.freq
            }),
        decreases lines@.len() - i,
    {
        let line = lines[i].as_str();
        let ghost lv = lviews[i as int];
        proof {
            assert(lviews.take(i + 1).drop_last() =~= lviews.take(i as int));
            assert(lviews.take(i + 1).last() == lv);
        }
        if starts_with(line, "model name") || starts_with(line, "Model") {
            match colon_value_exec(line) {
                Some(v) => {
                    model = v;
                },
                None => {},
            }
        } else if starts_with(line, "processor") {
            cores = cores + 1;
        } else if starts_with(line, "cpu MHz") {
            match colon_value_exec(line) {
                Some(v) => {
                    match parse_mhz(v.as_str()) {
                        Some(m) => {
                            freq = Some(m);
                        },
                        None => {},
                    }
                },
                None => {},
            }
        }
        i = i + 1;
    }
    proof {
        assert(lviews.take(i as int) =~= lviews);
    }
    let cores32: u32 = if cores > u32::MAX as u64 {
        u32::MAX
    } else {
        cores as u32
    };
    CpuInfo { model, cores: cores32, frequency_mhz: freq }
}

} // verus!
