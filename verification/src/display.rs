//! Display configuration: parse the framebuffer and mode-listing formats and
//! decide the display configuration for the profiled device. The caller reads
//! the framebuffer files, the connector listings and the firmware tool's
//! output, and hands the texts in as a `DisplayProbe`.

use vstd::prelude::*;
use crate::device::{DeviceInfo, DeviceType, GamingFeatures};
use crate::text::{spec_trim, trim_str, first_index, lemma_first_index, num_u32, parse_num_u32,
    spec_lines, split_lines, contains_ci, str_eq};

verus! {

use vstd::string::StringSliceAdditionalSpecFns;
use vstd::string::StrSliceExecFns;

/// One display configuration.
#[derive(Clone, Debug)]
pub struct DisplayConfig {
    pub width: u32,
    pub height: u32,
    pub refresh_rate: u32,
    pub color_depth: u32,
    pub interface: String,
    pub is_working: bool,
}

/// The mathematical value of a display configuration.
pub ghost struct DisplayConfigView {
    pub width: u32,
    pub height: u32,
    pub refresh_rate: u32,
    pub color_depth: u32,
    pub interface: Seq<char>,
    pub is_working: bool,
}

impl View for DisplayConfig {
    type V = DisplayConfigView;

    open spec fn view(&self) -> DisplayConfigView {
        DisplayConfigView {
            width: self.width,
            height: self.height,
            refresh_rate: self.refresh_rate,
            color_depth: self.color_depth,
            interface: self.interface@,
            is_working: self.is_working,
        }
    }
}

/// The outcome of one display test.
#[derive(Clone, Debug)]
pub struct DisplayTestResult {
    pub config: DisplayConfig,
    pub test_passed: bool,
    pub error_message: Option<String>,
}

// ---------- Parsers ----------

/// The value of a framebuffer `virtual_size` text: two comma-separated
/// numbers, surrounding whitespace allowed.
pub open spec fn resolution_of(s: Seq<char>) -> Option<(u32, u32)> {
    let t = spec_trim(s);
    let i = first_index(t, ',');
    if i < t.len() && num_u32(t.take(i)) is Some && num_u32(t.skip(i + 1)) is Some {
        Some((num_u32(t.take(i)).unwrap(), num_u32(t.skip(i + 1)).unwrap()))
    } else {
        None
    }
}

/// Split at the single occurrence of a separator: the position of the first
/// occurrence, provided no second occurrence follows.
fn split_single(s: &str, sep: char) -> (r: Option<usize>)
    ensures
        match r {
            Some(i) => {
                &&& i < s@.len()
                &&& first_index(s@, sep) == i as int
                &&& forall|j: int| i < j < s@.len() ==> s@[j] != sep
            },
            None => first_index(s@, sep) == s@.len() || exists|i: int, j: int|
                0 <= i < j < s@.len() && s@[i] == sep && s@[j] == sep,
        },
{
    let len = s.unicode_len();
    let mut i: usize = 0;
    while i < len && s.get_char(i) != sep
        invariant
            i <= len,
            len == s@.len(),
            forall|j: int| 0 <= j < i ==> s@[j] != sep,
        decreases len - i,
    {
        i = i + 1;
    }
    proof {
        lemma_first_index(s@, sep, i as int);
    }
    if i == len {
        return None;
    }
    let mut q: usize = i + 1;
    while q < len
        invariant
            i < q <= len,
            len == s@.len(),
            s@[i as int] == sep,
            forall|j: int| i < j < q ==> s@[j] != sep,
        decreases len - q,
    {
        if s.get_char(q) == sep {
            assert(s@[i as int] == sep && s@[q as int] == sep);
            return None;
        }
        q = q + 1;
    }
    Some(i)
}

/// Parse a framebuffer `virtual_size` text: exactly two comma-separated
/// numbers give the width and height.
pub fn parse_resolution(resolution_str: &str) -> (r: Option<(u32, u32)>)
    ensures
        r == resolution_of(resolution_str@),
{
    let t = trim_str(resolution_str);
    let ts = t.as_str();
    match split_single(ts, ',') {
        None => {
            proof {
                let tv = spec_trim(resolution_str@);
                if first_index(tv, ',') < tv.len() {
                    let i = first_index(tv, ',');
                    if num_u32(tv.skip(i + 1)) is Some {
                        let (a, b) = choose|a: int, b: int|
                            0 <= a < b < tv.len() && tv[a] == ',' && tv[b] == ',';
                        crate::text::lemma_first_index_props(tv, ',');
                        assert(a >= i && b > i);
                        assert(tv.skip(i + 1)[b - i - 1] == tv[b]);
                        assert(!crate::text::is_digit_char(','));
                        assert(false);
                    }
                }
            }
            None
        },
        Some(i) => {
            let len = ts.unicode_len();
            let w = parse_num_u32(ts.substring_char(0, i));
            let h = parse_num_u32(ts.substring_char(i + 1, len));
            proof {
                assert(t@.take(i as int) =~= t@.subrange(0, i as int));
                assert(t@.skip(i + 1) =~= t@.subrange(i + 1, len as int));
            }
            match (w, h) {
                (Some(w), Some(h)) => Some((w, h)),
                _ => {
                    proof {
                        if resolution_of(resolution_str@) is Some {
                            let tv = spec_trim(resolution_str@);
                            assert(first_index(tv, ',') == i as int);
                        }
                    }
                    None
                },
            }
        },
    }
}

/// The value of one mode line, `WIDTHxHEIGHT@REFRESH`, surrounding
/// whitespace allowed.
pub open spec fn drm_mode_of(s: Seq<char>) -> Option<(u32, u32, u32)> {
    let t = spec_trim(s);
    let a = first_index(t, '@');
    if a < t.len() && single_at(t) {
        let res = t.take(a);
        let x = first_index(res, 'x');
        if x < res.len() && num_u32(res.take(x)) is Some && num_u32(res.skip(x + 1)) is Some
            && num_u32(t.skip(a + 1)) is Some {
            Some(
                (
                    num_u32(res.take(x)).unwrap(),
                    num_u32(res.skip(x + 1)).unwrap(),
                    num_u32(t.skip(a + 1)).unwrap(),
                ),
            )
        } else {
            None
        }
    } else {
        None
    }
}

/// The text holds exactly one `@`.
pub open spec fn single_at(t: Seq<char>) -> bool {
    forall|j: int| first_index(t, '@') < j < t.len() ==> t[j] != '@'
}

/// Parse one mode line of the connector listing: `1920x1080@60`.
pub fn parse_drm_mode_line(mode_line: &str) -> (r: Option<(u32, u32, u32)>)
    ensures
        r == drm_mode_of(mode_line@),
{
    let t = trim_str(mode_line);
    let ts = t.as_str();
    let ghost tv = spec_trim(mode_line@);
    match split_single(ts, '@') {
        None => {
            proof {
                if first_index(tv, '@') < tv.len() && single_at(tv) {
                    let (a, b) = choose|a: int, b: int|
                        0 <= a < b < tv.len() && tv[a] == '@' && tv[b] == '@';
                    crate::text::lemma_first_index_props(tv, '@');
                    assert(first_index(tv, '@') <= a);
                    assert(tv[b] != '@');
                }
            }
            None
        },
        Some(a) => {
            let len = ts.unicode_len();
            let res = ts.substring_char(0, a);
            proof {
                assert(t@.take(a as int) =~= t@.subrange(0, a as int));
                assert(t@.skip(a + 1) =~= t@.subrange(a + 1, len as int));
            }
            let refresh = parse_num_u32(ts.substring_char(a + 1, len));
            let xr = split_single_str(res, 'x');
            match xr {
                None => {
                    proof {
                        if drm_mode_of(mode_line@) is Some {
                            let rv = tv.take(a as int);
                            let x = first_index(rv, 'x');
                            assert(x < rv.len());
                            if num_u32(rv.skip(x + 1)) is Some {
                                let (p, q) = choose|p: int, q: int|
                                    0 <= p < q < rv.len() && rv[p] == 'x' && rv[q] == 'x';
                                crate::text::lemma_first_index_props(rv, 'x');
                                assert(p >= x && q > x);
                                assert(rv.skip(x + 1)[q - x - 1] == rv[q]);
                                assert(!crate::text::is_digit_char('x'));
                                assert(false);
                            }
                        }
                    }
                    None
                },
                Some(x) => {
                    let rlen = res.unicode_len();
                    let w = parse_num_u32(res.substring_char(0, x));
                    let h = parse_num_u32(res.substring_char(x + 1, rlen));
                    proof {
                        let rv = tv.take(a as int);
                        assert(rv.take(x as int) =~= rv.subrange(0, x as int));
                        assert(rv.skip(x + 1) =~= rv.subrange(x + 1, rlen as int));
                        assert(res@ == rv);
                    }
                    match (w, h, refresh) {
                        (Some(w), Some(h), Some(rf)) => Some((w, h, rf)),
                        _ => None,
                    }
                },
            }
        },
    }
}

/// `split_single` on a borrowed piece.
fn split_single_str(s: &str, sep: char) -> (r: Option<usize>)
    ensures
        match r {
            Some(i) => {
                &&& i < s@.len()
                &&& first_index(s@, sep) == i as int
                &&& forall|j: int| i < j < s@.len() ==> s@[j] != sep
            },
            None => first_index(s@, sep) == s@.len() || exists|i: int, j: int|
                0 <= i < j < s@.len() && s@[i] == sep && s@[j] == sep,
        },
{
    split_single(s, sep)
}

// ---------- The display configuration decision ----------

/// One connector of the graphics subsystem, as read from its directory.
#[derive(Clone, Debug)]
pub struct DrmConnector {
    pub name: String,
    pub status_text: String,
    pub modes_text: String,
}

/// What the caller read for the display decision: the framebuffer files, the
/// connector listings, and whether the firmware query tool answered.
#[derive(Clone, Debug)]
pub struct DisplayProbe {
    pub framebuffer_present: bool,
    pub virtual_size_text: String,
    pub bits_per_pixel_text: String,
    pub connectors: Vec<DrmConnector>,
    pub vcgencmd_ok: bool,
    pub fb_write_ok: bool,
    pub fb_node_present: bool,
}

/// The color depth a bits-per-pixel text denotes, defaulting to 24.
pub open spec fn bpp_of(t: Seq<char>) -> u32 {
    match num_u32(spec_trim(t)) {
        Some(v) => v,
        None => 24,
    }
}

/// The configuration the framebuffer files denote, when present and
/// readable.
pub open spec fn fb_config_of(p: DisplayProbe) -> Option<DisplayConfigView> {
    if p.framebuffer_present {
        match resolution_of(p.virtual_size_text@) {
            Some((w, h)) => Some(
                DisplayConfigView {
                    width: w,
                    height: h,
                    refresh_rate: 60,
                    color_depth: bpp_of(p.bits_per_pixel_text@),
                    interface: "Framebuffer"@,
                    is_working: true,
                },
            ),
            None => None,
        }
    } else {
        None
    }
}

/// The first mode of a connector's mode listing.
pub open spec fn first_mode_of(modes_text: Seq<char>) -> Option<(u32, u32, u32)> {
    let lines = spec_lines(modes_text);
    if lines.len() > 0 {
        drm_mode_of(lines[0])
    } else {
        None
    }
}

/// A connector that is connected, drives HDMI or DSI, and lists a readable
/// mode.
pub open spec fn connector_usable(c: DrmConnector) -> bool {
    &&& crate::catalog::name_matches(crate::text::bytes_of(c.name@), "hdmi") || crate::catalog::name_matches(
        crate::text::bytes_of(c.name@),
        "dsi",
    )
    &&& spec_trim(c.status_text@) == "connected"@
    &&& first_mode_of(c.modes_text@) is Some
}

/// The configuration of the first usable connector.
pub open spec fn drm_pick(cs: Seq<DrmConnector>) -> Option<DisplayConfigView>
    decreases cs.len(),
{
    if cs.len() == 0 {
        None
    } else if connector_usable(cs[0]) {
        let m = first_mode_of(cs[0].modes_text@).unwrap();
        Some(
            DisplayConfigView {
                width: m.0,
                height: m.1,
                refresh_rate: m.2,
                color_depth: 24,
                interface: "DRM"@,
                is_working: true,
            },
        )
    } else {
        drm_pick(cs.drop_first())
    }
}

/// The display configuration decision for the profiled device: a gaming
/// handheld's built-in panel wins; a Raspberry Pi tries the framebuffer, the
/// connectors, then the firmware tool, and falls back to a safe default;
/// anything else tries the framebuffer and falls back.
pub open spec fn display_config_for(info: DeviceInfo, p: DisplayProbe) -> DisplayConfigView {
    match info.device_type {
        DeviceType::Anbernic => anbernic_config(info.gaming_features),
        DeviceType::RaspberryPi => match fb_config_of(p) {
            Some(c) => c,
            None => match drm_pick(p.connectors@) {
                Some(c) => c,
                None => if p.vcgencmd_ok {
                    DisplayConfigView {
                        width: 1920,
                        height: 1080,
                        refresh_rate: 60,
                        color_depth: 24,
                        interface: "HDMI"@,
                        is_working: true,
                    }
                } else {
                    DisplayConfigView {
                        width: 1920,
                        height: 1080,
                        refresh_rate: 60,
                        color_depth: 24,
                        interface: "HDMI"@,
                        is_working: false,
                    }
                },
            },
        },
        _ => match fb_config_of(p) {
            Some(c) => c,
            None => DisplayConfigView {
                width: 1024,
                height: 768,
                refresh_rate: 60,
                color_depth: 24,
                interface: "Unknown"@,
                is_working: false,
            },
        },
    }
}

/// A gaming handheld's fixed panel: its native resolution (or the common
/// 480 by 320), sixteen-bit color, always working.
pub open spec fn anbernic_config(g: GamingFeatures) -> DisplayConfigView {
    let w = match g.native_resolution_width {
        Some(w) => w,
        None => 480,
    };
    let h = match g.native_resolution_height {
        Some(h) => h,
        None => 320,
    };
    DisplayConfigView {
        width: w,
        height: h,
        refresh_rate: 60,
        color_depth: 16,
        interface: "LCD"@,
        is_working: true,
    }
}

/// Whether the display test passes: a built-in screen is trusted; otherwise
/// both the framebuffer write and the responsiveness probe must succeed.
pub open spec fn display_test_passes(has_built_in_screen: bool, p: DisplayProbe) -> bool {
    has_built_in_screen || (p.fb_write_ok && p.fb_node_present)
}

/// The display tester for one profiled device.
pub struct DisplayTester {
    pub device_info: DeviceInfo,
}

impl DisplayTester {
    /// A tester over a copy of the profile.
    pub fn new(device_info: &DeviceInfo) -> (r: DisplayTester)
        ensures
            r.device_info.device_type == device_info.device_type,
            r.device_info.gaming_features == device_info.gaming_features,
    {
        DisplayTester { device_info: device_info.clone_profile() }
    }

    /// Decide the display configuration from the probe and judge it: the
    /// returned configuration is exactly what the cascade decides for this
    /// device, and the verdict says whether the caller should persist it as
    /// the known-working one.
    pub fn test_display(&self, probe: &DisplayProbe) -> (r: DisplayTestResult)
        ensures
            r.config@ == display_config_for(self.device_info, *probe),
            r.test_passed == display_test_passes(
                self.device_info.gaming_features.has_built_in_screen,
                *probe,
            ),
    {
        let config = self.detect_current_display_config(probe);
        self.run_display_test(&config, probe)
    }

    /// The configuration cascade for the profiled device class.
    pub fn detect_current_display_config(&self, probe: &DisplayProbe) -> (r: DisplayConfig)
        ensures
            r@ == display_config_for(self.device_info, *probe),
    {
        match self.device_info.device_type {
            DeviceType::Anbernic => self.detect_anbernic_display(),
            DeviceType::RaspberryPi => self.detect_raspberry_pi_display(probe),
            _ => self.detect_generic_display(probe),
        }
    }

    /// A gaming handheld's built-in panel.
    pub fn detect_anbernic_display(&self) -> (r: DisplayConfig)
        ensures
            r@ == anbernic_config(self.device_info.gaming_features),
    {
        let g = &self.device_info.gaming_features;
        let width = match g.native_resolution_width {
            Some(w) => w,
            None => 480,
        };
        let height = match g.native_resolution_height {
            Some(h) => h,
            None => 320,
        };
        DisplayConfig {
            width,
            height,
            refresh_rate: 60,
            color_depth: 16,
            interface: String::from_str("LCD"),
            is_working: true,
        }
    }

    /// The Raspberry Pi cascade: framebuffer, connectors, firmware tool,
    /// safe default.
    fn detect_raspberry_pi_display(&self, probe: &DisplayProbe) -> (r: DisplayConfig)
        ensures
            self.device_info.device_type == DeviceType::RaspberryPi ==> r@ == display_config_for(
                self.device_info,
                *probe,
            ),
    {
        match self.get_framebuffer_config(probe) {
            Some(c) => c,
            None => {
                match self.get_drm_config(probe) {
                    Some(c) => c,
                    None => {
                        DisplayConfig {
                            width: 1920,
                            height: 1080,
                            refresh_rate: 60,
                            color_depth: 24,
                            interface: String::from_str("HDMI"),
                            is_working: probe.vcgencmd_ok,
                        }
                    },
                }
            },
        }
    }

    /// The generic cascade: framebuffer, then a safe default.
    fn detect_generic_display(&self, probe: &DisplayProbe) -> (r: DisplayConfig)
        ensures
            match fb_config_of(*probe) {
                Some(c) => r@ == c,
                None => r@ == DisplayConfigView {
                    width: 1024,
                    height: 768,
                    refresh_rate: 60,
                    color_depth: 24,
                    interface: "Unknown"@,
                    is_working: false,
                },
            },
    {
        match self.get_framebuffer_config(probe) {
            Some(c) => c,
            None => DisplayConfig {
                width: 1024,
                height: 768,
                refresh_rate: 60,
                color_depth: 24,
                interface: String::from_str("Unknown"),
                is_working: false,
            },
        }
    }

    /// Read the configuration out of the framebuffer files.
    pub fn get_framebuffer_config(&self, probe: &DisplayProbe) -> (r: Option<DisplayConfig>)
        ensures
            match r {
                Some(c) => fb_config_of(*probe) == Some(c@),
                None => fb_config_of(*probe) is None,
            },
    {
        if !probe.framebuffer_present {
            return None;
        }
        match parse_resolution(probe.virtual_size_text.as_str()) {
            Some((width, height)) => {
                let color_depth = match parse_num_u32(
                    trim_str(probe.bits_per_pixel_text.as_str()).as_str(),
                ) {
                    Some(v) => v,
                    None => 24,
                };
                Some(
                    DisplayConfig {
                        width,
                        height,
                        refresh_rate: 60,
                        color_depth,
                        interface: String::from_str("Framebuffer"),
                        is_working: true,
                    },
                )
            },
            None => None,
        }
    }

    /// Pick the first usable connector of the graphics subsystem.
    pub fn get_drm_config(&self, probe: &DisplayProbe) -> (r: Option<DisplayConfig>)
        ensures
            match r {
                Some(c) => drm_pick(probe.connectors@) == Some(c@),
                None => drm_pick(probe.connectors@) is None,
            },
    {
        let cs = &probe.connectors;
        let mut i: usize = 0;
        proof {
            assert(cs@.skip(0) =~= cs@);
        }
        while i < cs.len()
            invariant
                i <= cs@.len(),
                cs@ == probe.connectors@,
                drm_pick(cs@) == drm_pick(cs@.skip(i as int)),
            decreases cs@.len() - i,
        {
            let c = &cs[i];
            proof {
                assert(cs@.skip(i as int)[0] == cs@[i as int]);
                assert(cs@.skip(i as int).drop_first() =~= cs@.skip(i + 1));
            }
            let name_ok = contains_ci(c.name.as_str(), "hdmi") || contains_ci(
                c.name.as_str(),
                "dsi",
            );
            let status_ok = str_eq(trim_str(c.status_text.as_str()).as_str(), "connected");
            if name_ok && status_ok {
                match self.parse_drm_mode(c.modes_text.as_str()) {
                    Some((w, h, refresh)) => {
                        assert(connector_usable(cs@[i as int]));
                        return Some(
                            DisplayConfig {
                                width: w,
                                height: h,
                                refresh_rate: refresh,
                                color_depth: 24,
                                interface: String::from_str("DRM"),
                                is_working: true,
                            },
                        );
                    },
                    None => {
                        assert(!connector_usable(cs@[i as int]));
                    },
                }
            } else {
                assert(!connector_usable(cs@[i as int]));
            }
            i = i + 1;
        }
        proof {
            assert(cs@.skip(i as int).len() == 0);
        }
        return None;
    }

    /// The first mode of a connector's mode listing.
    pub fn parse_drm_mode(&self, modes_text: &str) -> (r: Option<(u32, u32, u32)>)
        ensures
            r == first_mode_of(modes_text@),
    {
        let lines = split_lines(modes_text);
        if lines.len() == 0 {
            return None;
        }
        proof {
            assert(lines@.map_values(|x: String| x@)[0] == lines@[0]@);
        }
        parse_drm_mode_line(lines[0].as_str())
    }

    /// Judge a configuration: a built-in screen passes; otherwise the
    /// framebuffer write and responsiveness probes decide, and a failure
    /// carries a diagnosis.
    pub fn run_display_test(&self, config: &DisplayConfig, probe: &DisplayProbe) -> (r:
        DisplayTestResult)
        ensures
            r.test_passed == display_test_passes(
                self.device_info.gaming_features.has_built_in_screen,
                *probe,
            ),
            r.config@ == config@,
            r.test_passed <==> r.error_message is None,
    {
        if self.device_info.gaming_features.has_built_in_screen {
            return DisplayTestResult {
                config: self.clone_config(config),
                test_passed: true,
                error_message: None,
            };
        }
        let passed = probe.fb_write_ok && probe.fb_node_present;
        DisplayTestResult {
            config: self.clone_config(config),
            test_passed: passed,
            error_message: if passed {
                None
            } else {
                Some(
                    String::from_str(
                        "Display test failed: framebuffer or responsiveness issue",
                    ),
                )
            },
        }
    }

    fn clone_config(&self, c: &DisplayConfig) -> (r: DisplayConfig)
        ensures
            r@ == c@,
    {
        DisplayConfig {
            width: c.width,
            height: c.height,
            refresh_rate: c.refresh_rate,
            color_depth: c.color_depth,
            interface: c.interface.clone(),
            is_working: c.is_working,
        }
    }
}

} // verus!
