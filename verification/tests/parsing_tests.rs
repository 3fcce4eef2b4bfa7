//! The display and network parsers, and the configuration accessors.

use dos_safar::display::{DisplayProbe, DisplayTester, DrmConnector, parse_drm_mode_line,
    parse_resolution};
use dos_safar::device::{DeviceDetector, DeviceProbe, DeviceType};
use dos_safar::network::{InterfaceAddr, WiFiNetwork, connect_plan, ethernet_name,
    get_default_gateway, get_dns_servers, get_interface_ip, get_local_ip, is_interface_up,
    parse_iwlist_output, pick_best_open_network, wifi_name, ConnectionType};
use dos_safar::config::{Config, u16_to_string};

#[test]
fn resolution_parses_pair() {
    assert_eq!(parse_resolution("1920,1080\n"), Some((1920, 1080)));
    assert_eq!(parse_resolution("  480,320  "), Some((480, 320)));
    assert_eq!(parse_resolution("1920"), None);
    assert_eq!(parse_resolution("1920,1080,60"), None);
    assert_eq!(parse_resolution("a,b"), None);
    assert_eq!(parse_resolution(""), None);
}

#[test]
fn drm_mode_line_parses_triple() {
    assert_eq!(parse_drm_mode_line("1920x1080@60"), Some((1920, 1080, 60)));
    assert_eq!(parse_drm_mode_line("  640x480@75  "), Some((640, 480, 75)));
    assert_eq!(parse_drm_mode_line("1920x1080"), None);
    assert_eq!(parse_drm_mode_line("1920@60"), None);
    assert_eq!(parse_drm_mode_line("ax b@60"), None);
}

fn display_probe() -> DisplayProbe {
    DisplayProbe {
        framebuffer_present: false,
        virtual_size_text: String::new(),
        bits_per_pixel_text: String::new(),
        connectors: vec![],
        vcgencmd_ok: false,
        fb_write_ok: false,
        fb_node_present: false,
    }
}

fn profile_for(model: &str) -> dos_safar::device::DeviceInfo {
    let d = DeviceDetector::new();
    let mut p = DeviceProbe {
        model_text: model.to_string(),
        cpuinfo_text: String::new(),
        meminfo_text: String::new(),
        architecture: "aarch64".to_string(),
        anbernic_dir_present: false,
        gpio_node_present: false,
        video_device_present: false,
        camera_node_present: false,
        dsi_node_present: false,
        hdmi_connector_present: false,
        dsi_connector_present: false,
        input_device_names: vec![],
    };
    p.model_text = model.to_string();
    d.detect_device(&p)
}

#[test]
fn framebuffer_config_wins_on_raspberry_pi() {
    let info = profile_for("Raspberry Pi 4");
    let tester = DisplayTester::new(&info);
    let mut probe = display_probe();
    probe.framebuffer_present = true;
    probe.virtual_size_text = "1280,720".to_string();
    probe.bits_per_pixel_text = "16\n".to_string();
    let r = tester.test_display(&probe);
    let c = &r.config;
    assert_eq!((c.width, c.height, c.color_depth), (1280, 720, 16));
    assert_eq!(c.interface, "Framebuffer");
    assert!(c.is_working);
    assert!(!r.test_passed);
    assert!(r.error_message.is_some());
}

#[test]
fn connector_listing_backs_up_framebuffer() {
    let info = profile_for("Raspberry Pi 4");
    let tester = DisplayTester::new(&info);
    let mut probe = display_probe();
    probe.connectors = vec![
        DrmConnector {
            name: "card0-DP-1".to_string(),
            status_text: "connected\n".to_string(),
            modes_text: "800x600@60\n".to_string(),
        },
        DrmConnector {
            name: "card0-HDMI-A-1".to_string(),
            status_text: "connected\n".to_string(),
            modes_text: "1920x1080@60\n640x480@60\n".to_string(),
        },
    ];
    let c = tester.test_display(&probe).config;
    // the first connector is not an HDMI or DSI name, so the second decides
    assert_eq!((c.width, c.height, c.refresh_rate), (1920, 1080, 60));
    assert_eq!(c.interface, "DRM");
}

#[test]
fn handheld_panel_is_fixed() {
    let info = profile_for("Anbernic RG351");
    let tester = DisplayTester::new(&info);
    let r = tester.test_display(&display_probe());
    let c = &r.config;
    assert_eq!((c.width, c.height, c.color_depth), (480, 320, 16));
    assert_eq!(c.interface, "LCD");
    assert!(c.is_working);
    // a built-in panel is trusted
    assert!(r.test_passed);
}

#[test]
fn generic_fallback_config() {
    let info = profile_for("Some Box");
    let tester = DisplayTester::new(&info);
    let c = tester.test_display(&display_probe()).config;
    assert_eq!((c.width, c.height), (1024, 768));
    assert!(!c.is_working);
}

#[test]
fn interface_names_classify() {
    assert!(ethernet_name("eth0"));
    assert!(ethernet_name("enp3s0"));
    assert!(ethernet_name("eno1"));
    assert!(!ethernet_name("wlan0"));
    assert!(wifi_name("wlan0"));
    assert!(wifi_name("wlp2s0"));
    assert!(wifi_name("wlx00aabb"));
    assert!(!wifi_name("eth0"));
}

#[test]
fn operstate_reads_up() {
    assert!(is_interface_up("up\n"));
    assert!(!is_interface_up("down\n"));
    assert!(!is_interface_up(""));
}

#[test]
fn connection_plan_orders_media() {
    let p = connect_plan(true);
    assert_eq!(p, vec![ConnectionType::Ethernet, ConnectionType::WiFi]);
    let p = connect_plan(false);
    assert_eq!(p, vec![ConnectionType::WiFi, ConnectionType::Ethernet]);
}

#[test]
fn interface_ip_from_listing() {
    let out = "2: eth0: <BROADCAST>\n    link/ether aa:bb\n    inet 192.168.1.50/24 brd 192.168.1.255\n    inet6 fe80::1/64\n";
    assert_eq!(get_interface_ip(out).as_deref(), Some("192.168.1.50"));
    assert_eq!(get_interface_ip("nothing here"), None);
}

#[test]
fn default_gateway_from_route() {
    let out = "default via 192.168.1.1 dev eth0\n10.0.0.0/8 dev tun0\n";
    assert_eq!(get_default_gateway(out).as_deref(), Some("192.168.1.1"));
    assert_eq!(get_default_gateway("10.0.0.0/8 dev tun0\n"), None);
}

#[test]
fn dns_servers_from_resolver() {
    let text = "# comment\nnameserver 1.1.1.1\nsearch lan\nnameserver 8.8.8.8\n";
    assert_eq!(get_dns_servers(text), vec!["1.1.1.1".to_string(), "8.8.8.8".to_string()]);
}

#[test]
fn wireless_scan_parses_cells() {
    let out = "\
          Cell 01 - Address: AA:BB\n\
                    Quality=60/70  Signal level=-50 dBm\n\
                    Encryption key:off\n\
                    ESSID:\"OpenNet\"\n\
          Cell 02 - Address: CC:DD\n\
                    Quality=70/70  Signal level=-40 dBm\n\
                    Encryption key:on\n\
                    IE: IEEE 802.11i/WPA2 Version 1\n\
                    ESSID:\"HomeWiFi\"\n";
    let nets = parse_iwlist_output(out);
    assert_eq!(nets.len(), 2);
    assert_eq!(nets[0].ssid, "OpenNet");
    assert_eq!(nets[0].signal_strength, 60);
    assert_eq!(nets[0].security, "Open");
    assert_eq!(nets[1].ssid, "HomeWiFi");
    assert_eq!(nets[1].signal_strength, 70);
    assert_eq!(nets[1].security, "Secured");
}

#[test]
fn best_open_network_by_signal() {
    let nets = vec![
        WiFiNetwork { ssid: "a".into(), signal_strength: 10, security: "Open".into(), frequency: None },
        WiFiNetwork { ssid: "b".into(), signal_strength: 50, security: "Secured".into(), frequency: None },
        WiFiNetwork { ssid: "c".into(), signal_strength: 30, security: String::new(), frequency: None },
    ];
    assert_eq!(pick_best_open_network(&nets), Some(2));
    let closed = vec![WiFiNetwork {
        ssid: "b".into(),
        signal_strength: 50,
        security: "Secured".into(),
        frequency: None,
    }];
    assert_eq!(pick_best_open_network(&closed), None);
}

#[test]
fn local_ip_skips_loopback() {
    let rows = vec![
        InterfaceAddr { name: "lo".to_string(), ip: Some("127.0.0.1".to_string()) },
        InterfaceAddr { name: "eth0".to_string(), ip: Some("127.0.0.53".to_string()) },
        InterfaceAddr { name: "wlan0".to_string(), ip: Some("10.0.0.7".to_string()) },
    ];
    assert_eq!(get_local_ip(&rows).as_deref(), Some("10.0.0.7"));
    assert_eq!(get_local_ip(&[InterfaceAddr { name: "lo".to_string(), ip: None }].to_vec()), None);
}

#[test]
fn config_defaults_match_shipped_values() {
    let c = Config::default();
    assert_eq!(c.boot.menu_timeout_seconds, 3);
    assert!(c.boot.default_os.is_none());
    assert!(c.boot.gaming_mode);
    assert_eq!(c.web.port, 8080);
    assert_eq!(c.web.host, "0.0.0.0");
    assert_eq!(c.system.config_persist_path, "/boot/dos_safar/");
    assert_eq!(c.network.max_connection_attempts, 3);
    assert_eq!(c.lcd.size_tenths_inch, 35);
    assert!(c.is_gaming_mode());
    assert_eq!(c.get_persistent_config_path(), "/boot/dos_safar/");
}

#[test]
fn web_url_from_config() {
    let mut c = Config::default();
    assert_eq!(c.get_web_url(), "http://localhost:8080");
    c.web.host = "192.168.1.9".to_string();
    c.web.port = 81;
    assert_eq!(c.get_web_url(), "http://192.168.1.9:81");
}

#[test]
fn decimal_rendering() {
    assert_eq!(u16_to_string(0), "0");
    assert_eq!(u16_to_string(7), "7");
    assert_eq!(u16_to_string(8080), "8080");
    assert_eq!(u16_to_string(65535), "65535");
}
