//! The typed configuration value the rest of the system consumes. Loading
//! and saving the configuration file is the caller's concern; this module
//! defines the shape, the defaults, and the small accessors on it.
//!
//! Lengths that the original configuration kept fractionally are held here
//! as integers: the LCD size in tenths of an inch, the touch calibration
//! matrix in millionths.

use vstd::prelude::*;

verus! {

#[derive(Clone, Debug)]
pub struct SystemConfig {
    pub device_type: String,
    pub log_level: String,
    pub config_persist_path: String,
}

#[derive(Clone, Debug)]
pub struct HardwareConfig {
    pub test_timeout_seconds: u64,
    pub display_test_enabled: bool,
    pub input_test_enabled: bool,
    pub network_test_enabled: bool,
    pub auto_save_working_config: bool,
}

#[derive(Clone, Debug)]
pub struct BackupNetwork {
    pub ssid: String,
    pub password: String,
}

#[derive(Clone, Debug)]
pub struct NetworkConfig {
    pub wifi_ssid: Option<String>,
    pub wifi_password: Option<String>,
    pub connection_timeout_seconds: u64,
    pub auto_connect: bool,
    pub ethernet_preferred: bool,
    pub backup_networks: Vec<BackupNetwork>,
    pub auto_scan_open_networks: bool,
    pub prefer_saved_networks: bool,
    pub max_connection_attempts: u32,
}

#[derive(Clone, Debug)]
pub struct LcdConfig {
    pub enabled: bool,
    pub auto_detect: bool,
    pub driver: String,
    pub interface: String,
    pub size_tenths_inch: u32,
    pub rotation: u32,
    pub spi_bus: u8,
    pub spi_device: u8,
    pub spi_speed_hz: u32,
    pub gpio_cs: Option<u8>,
    pub gpio_dc: Option<u8>,
    pub gpio_rst: Option<u8>,
    pub gpio_bl: Option<u8>,
    pub touch_enabled: bool,
    pub touch_device: String,
    pub calibration_matrix_millionths: Vec<i64>,
}

#[derive(Clone, Debug)]
pub struct WebConfig {
    pub port: u16,
    pub host: String,
    pub enable_cors: bool,
    pub static_files_path: String,
    pub auto_launch_interface: bool,
    pub show_qr_code: bool,
}

#[derive(Clone, Debug)]
pub struct BootConfig {
    pub menu_timeout_seconds: u64,
    pub default_os: Option<String>,
    pub show_advanced_options: bool,
    pub gaming_mode: bool,
    pub auto_web_on_timeout: bool,
    pub keyboard_interrupt_enabled: bool,
    pub show_ip_on_screen: bool,
}

#[derive(Clone, Debug)]
pub struct Config {
    pub system: SystemConfig,
    pub hardware: HardwareConfig,
    pub network: NetworkConfig,
    pub web: WebConfig,
    pub boot: BootConfig,
    pub lcd: LcdConfig,
}

impl Default for Config {
    /// The configuration substituted when none was loaded: a short three
    /// second boot timeout in gaming mode, no default OS, all hardware tests
    /// enabled, and the web interface on every address at port 8080.
    fn default() -> (c: Config)
        ensures
            c.boot.menu_timeout_seconds == 3,
            c.boot.default_os is None,
            c.boot.gaming_mode == true,
            c.boot.auto_web_on_timeout == true,
            c.hardware.test_timeout_seconds == 30,
            c.hardware.display_test_enabled && c.hardware.input_test_enabled
                && c.hardware.network_test_enabled,
            c.network.connection_timeout_seconds == 3,
            c.network.auto_connect == true,
            c.network.ethernet_preferred == false,
            c.network.max_connection_attempts == 3,
            c.web.port == 8080,
            c.web.host@ == "0.0.0.0"@,
            c.web.enable_cors == true,
            c.system.config_persist_path@ == "/boot/dos_safar/"@,
            c.lcd.enabled == true,
            c.lcd.size_tenths_inch == 35,
    {
        Config {
            system: SystemConfig {
                device_type: String::from_str("auto"),
                log_level: String::from_str("info"),
                config_persist_path: String::from_str("/boot/dos_safar/"),
            },
            hardware: HardwareConfig {
                test_timeout_seconds: 30,
                display_test_enabled: true,
                input_test_enabled: true,
                network_test_enabled: true,
                auto_save_working_config: true,
            },
            network: NetworkConfig {
                wifi_ssid: Some(String::from_str("YourHomeWiFi")),
                wifi_password: Some(String::from_str("YourWiFiPassword")),
                connection_timeout_seconds: 3,
                auto_connect: true,
                ethernet_preferred: false,
                backup_networks: vec![
                    BackupNetwork {
                        ssid: String::from_str("YourPhoneHotspot"),
                        password: String::from_str("hotspot123"),
                    },
                    BackupNetwork {
                        ssid: String::from_str("GuestWiFi"),
                        password: String::from_str(""),
                    },
                ],
                auto_scan_open_networks: true,
                prefer_saved_networks: true,
                max_connection_attempts: 3,
            },
            web: WebConfig {
                port: 8080,
                host: String::from_str("0.0.0.0"),
                enable_cors: true,
                static_files_path: String::from_str("assets/web"),
                auto_launch_interface: true,
                show_qr_code: true,
            },
            boot: BootConfig {
                menu_timeout_seconds: 3,
                default_os: None,
                show_advanced_options: false,
                gaming_mode: true,
                auto_web_on_timeout: true,
                keyboard_interrupt_enabled: true,
                show_ip_on_screen: true,
            },
            lcd: LcdConfig {
                enabled: true,
                auto_detect: true,
                driver: String::from_str("auto"),
                interface: String::from_str("spi"),
                size_tenths_inch: 35,
                rotation: 0,
                spi_bus: 0,
                spi_device: 0,
                spi_speed_hz: 32000000,
                gpio_cs: Some(8),
                gpio_dc: Some(24),
                gpio_rst: Some(25),
                gpio_bl: Some(18),
                touch_enabled: true,
                touch_device: String::from_str("/dev/input/touchscreen"),
                calibration_matrix_millionths: vec![1000000i64, 0, 0, 0, 1000000, 0],
            },
        }
    }
}

impl Config {
    /// Where mutated configuration is persisted back to.
    pub fn get_persistent_config_path(&self) -> (r: &str)
        ensures
            r@ == self.system.config_persist_path@,
    {
        self.system.config_persist_path.as_str()
    }

    /// Whether the boot menu runs in gaming mode.
    pub fn is_gaming_mode(&self) -> (r: bool)
        ensures
            r == self.boot.gaming_mode,
    {
        self.boot.gaming_mode
    }

    /// The URL the web interface answers on. A wildcard host is reported as
    /// localhost.
    pub fn get_web_url(&self) -> (r: String)
        ensures
            self.web.host@ == "0.0.0.0"@ ==> r@ == "http://localhost:"@ + decimal_digits(
                self.web.port as nat,
            ),
            self.web.host@ != "0.0.0.0"@ ==> r@ == "http://"@ + self.web.host@ + ":"@
                + decimal_digits(self.web.port as nat),
    {
        let port = u16_to_string(self.web.port);
        if crate::text::str_eq(self.web.host.as_str(), "0.0.0.0") {
            String::from_str("http://localhost:").concat(port.as_str())
        } else {
            String::from_str("http://").concat(self.web.host.as_str()).concat(":").concat(
                port.as_str(),
            )
        }
    }
}

/// The decimal digit characters of a number, most significant first.
pub open spec fn decimal_digits(n: nat) -> Seq<char>
    decreases n,
{
    if n < 10 {
        seq![digit_char(n)]
    } else {
        decimal_digits(n / 10).push(digit_char(n % 10))
    }
}

/// The character for one decimal digit.
pub open spec fn digit_char(d: nat) -> char {
    if d == 0 {
        '0'
    } else if d == 1 {
        '1'
    } else if d == 2 {
        '2'
    } else if d == 3 {
        '3'
    } else if d == 4 {
        '4'
    } else if d == 5 {
        '5'
    } else if d == 6 {
        '6'
    } else if d == 7 {
        '7'
    } else if d == 8 {
        '8'
    } else {
        '9'
    }
}

fn digit_str(d: u16) -> (r: &'static str)
    requires
        d < 10,
    ensures
        r@ =~= seq![digit_char(d as nat)],
{
    proof {
        reveal_strlit("0");
        reveal_strlit("1");
        reveal_strlit("2");
        reveal_strlit("3");
        reveal_strlit("4");
        reveal_strlit("5");
        reveal_strlit("6");
        reveal_strlit("7");
        reveal_strlit("8");
        reveal_strlit("9");
    }
    if d == 0 {
        "0"
    } else if d == 1 {
        "1"
    } else if d == 2 {
        "2"
    } else if d == 3 {
        "3"
    } else if d == 4 {
        "4"
    } else if d == 5 {
        "5"
    } else if d == 6 {
        "6"
    } else if d == 7 {
        "7"
    } else if d == 8 {
        "8"
    } else {
        "9"
    }
}

/// Render a number in decimal.
pub fn u16_to_string(n: u16) -> (r: String)
    ensures
        r@ == decimal_digits(n as nat),
    decreases n,
{
    if n < 10 {
        let r = String::from_str(digit_str(n));
        assert(r@ =~= decimal_digits(n as nat));
        r
    } else {
        let front = u16_to_string(n / 10);
        let r = front.concat(digit_str(n % 10));
        assert(r@ =~= decimal_digits(n as nat));
        r
    }
}

} // verus!
