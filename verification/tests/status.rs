use wole::status::{
    connection_type, connection_type_of, core_rows, first_address_with, format_mac, format_time, format_uptime,
    health_band, interface_is_up, live_indicator, mac_is_shown, network_rows, plan_screen,
    power_rows, primary_interface, process_rows, short_name, used_space, ConnectionKind,
    HealthBand, NetworkFacts, PowerFacts, ScreenPlan, Tone,
};
use wole::text::{contains_text, decimal_string, last_char, replace_char, starts_with};

fn addresses(list: &[&str]) -> Vec<String> {
    list.iter().map(|a| a.to_string()).collect()
}

#[test]
fn uptime_is_worded_in_days_hours_minutes() {
    assert_eq!(format_uptime(0), "0m");
    assert_eq!(format_uptime(59), "0m");
    assert_eq!(format_uptime(60), "1m");
    assert_eq!(format_uptime(3599), "59m");
    assert_eq!(format_uptime(3600), "1h 0m");
    assert_eq!(format_uptime(86399), "23h 59m");
    assert_eq!(format_uptime(86400), "1d 0h 0m");
    assert_eq!(format_uptime(90061), "1d 1h 1m");
    assert_eq!(format_uptime(u64::MAX), "213503982334601d 7h 0m");
}

#[test]
fn time_is_worded_in_hours_minutes() {
    assert_eq!(format_time(0), "0m");
    assert_eq!(format_time(119), "1m");
    assert_eq!(format_time(3600), "1h 0m");
    assert_eq!(format_time(7325), "2h 2m");
    assert_eq!(format_time(90000), "25h 0m");
}

#[test]
fn health_bands() {
    assert_eq!(health_band(100), HealthBand::Good);
    assert_eq!(health_band(80), HealthBand::Good);
    assert_eq!(health_band(79), HealthBand::Fair);
    assert_eq!(health_band(60), HealthBand::Fair);
    assert_eq!(health_band(59), HealthBand::Weak);
    assert_eq!(health_band(40), HealthBand::Weak);
    assert_eq!(health_band(39), HealthBand::Poor);
    assert_eq!(health_band(0), HealthBand::Poor);
    assert_eq!(health_band(101), HealthBand::Poor);
    assert_eq!(health_band(255), HealthBand::Poor);
    assert_eq!(HealthBand::Good.symbol(), "●");
    assert_eq!(HealthBand::Fair.symbol(), "○");
    assert_eq!(HealthBand::Weak.symbol(), "◐");
    assert_eq!(HealthBand::Poor.symbol(), "◯");
    assert_eq!(HealthBand::Good.tone(), Tone::Success);
    assert_eq!(HealthBand::Fair.tone(), Tone::Warning);
    assert_eq!(HealthBand::Weak.tone(), Tone::Error);
    assert_eq!(HealthBand::Poor.tone(), Tone::Error);
}

#[test]
fn live_for_three_seconds() {
    assert_eq!(live_indicator(0), "● Live");
    assert_eq!(live_indicator(2999), "● Live");
    assert_eq!(live_indicator(3000), "○ Updated");
}

#[test]
fn connection_kinds() {
    assert_eq!(connection_type("Wi-Fi"), Some(ConnectionKind::WiFi));
    assert_eq!(connection_type("wlan0"), Some(ConnectionKind::WiFi));
    assert_eq!(connection_type("Intel Wireless 802.11ac"), Some(ConnectionKind::WiFi));
    assert_eq!(connection_type("eth0"), Some(ConnectionKind::Ethernet));
    assert_eq!(connection_type("Local Area Connection"), Some(ConnectionKind::Ethernet));
    assert_eq!(connection_type("Ethernet 2"), Some(ConnectionKind::Ethernet));
    assert_eq!(connection_type("vEthernet (WSL)"), Some(ConnectionKind::Ethernet));
    assert_eq!(connection_type("veth12ab"), Some(ConnectionKind::Ethernet));
    assert_eq!(connection_type("lo"), None);
    assert_eq!(connection_type(""), None);
    assert_eq!(connection_type_of("wlan0"), Some(ConnectionKind::WiFi));
    assert_eq!(connection_type_of("WLAN0"), None);
    assert_eq!(connection_type_of("veth0"), Some(ConnectionKind::Ethernet));
    assert_eq!(ConnectionKind::WiFi.label(), "WiFi");
    assert_eq!(ConnectionKind::Ethernet.label(), "Ethernet");
    assert_eq!(ConnectionKind::Virtual.label(), "Virtual");
}

#[test]
fn interface_up_needs_address_and_traffic() {
    assert!(interface_is_up(1, 1, 0));
    assert!(interface_is_up(2, 0, 9));
    assert!(!interface_is_up(0, 5, 5));
    assert!(!interface_is_up(3, 0, 0));
}

#[test]
fn primary_interface_prefers_private_then_link_local() {
    let interfaces = vec![
        addresses(&[]),
        addresses(&["10.0.0.2"]),
        addresses(&["fe80::1"]),
        addresses(&["10.1.1.1", "192.168.1.5"]),
        addresses(&["192.168.1.9"]),
    ];
    assert_eq!(primary_interface(&interfaces), Some(3));
    assert_eq!(primary_interface(&interfaces[..3].to_vec()), Some(2));
    assert_eq!(primary_interface(&interfaces[..2].to_vec()), Some(1));
    assert_eq!(primary_interface(&interfaces[..1].to_vec()), Some(0));
    assert_eq!(primary_interface(&vec![]), None);
    assert_eq!(primary_interface(&vec![addresses(&[]), addresses(&[])]), Some(0));
}

#[test]
fn first_address_by_prefix() {
    let list = addresses(&["10.0.0.1", "192.168.0.2", "fe80::2", "192.168.0.3"]);
    assert_eq!(first_address_with(&list, "192."), Some(1));
    assert_eq!(first_address_with(&list, "fe80:"), Some(2));
    assert_eq!(first_address_with(&list, "172."), None);
    assert_eq!(first_address_with(&addresses(&[]), "192."), None);
}

#[test]
fn mac_addresses() {
    assert_eq!(format_mac(&[0x00, 0x1A, 0x2b, 0xFF, 0x09, 0xa0]), "00:1A:2B:FF:09:A0");
    assert_eq!(format_mac(&[0; 6]), "00:00:00:00:00:00");
    assert!(!mac_is_shown("00:00:00:00:00:00"));
    assert!(mac_is_shown("00:1A:2B:FF:09:A0"));
    assert!(mac_is_shown(""));
}

#[test]
fn screen_plans() {
    assert_eq!(
        plan_screen(80, 30, 7),
        Some(ScreenPlan { header: 7, content_min: 20, shortcuts: 3 })
    );
    assert_eq!(plan_screen(60, 30, 7), Some(ScreenPlan { header: 7, content_min: 20, shortcuts: 3 }));
    assert_eq!(plan_screen(59, 30, 7), None);
    assert_eq!(plan_screen(80, 29, 7), None);
    assert_eq!(plan_screen(80, 19, 0), None);
    assert_eq!(plan_screen(80, 23, 0), Some(ScreenPlan { header: 0, content_min: 20, shortcuts: 3 }));
    assert_eq!(plan_screen(u16::MAX, u16::MAX, u16::MAX), None);
}

#[test]
fn rows_shown() {
    assert_eq!(core_rows(1, 8), 1);
    assert_eq!(core_rows(10, 2), 2);
    assert_eq!(core_rows(10, 8), 3);
    assert_eq!(core_rows(0, 8), 0);
    assert_eq!(process_rows(0), 0);
    assert_eq!(process_rows(4), 4);
    assert_eq!(process_rows(5), 5);
    assert_eq!(process_rows(50), 5);
}

#[test]
fn panel_rows() {
    let none = PowerFacts {
        time_to_empty: false,
        time_to_full: false,
        voltage: false,
        energy_rate: false,
        design_capacity: false,
        full_charge_capacity: false,
    };
    assert_eq!(power_rows(&none), 4);
    assert_eq!(power_rows(&PowerFacts { time_to_empty: true, time_to_full: true, ..none }), 5);
    let all = PowerFacts {
        time_to_empty: false,
        time_to_full: true,
        voltage: true,
        energy_rate: true,
        design_capacity: true,
        full_charge_capacity: true,
    };
    assert_eq!(power_rows(&all), 9);
    let offline = NetworkFacts {
        has_interface: false,
        connected: true,
        proxy: false,
        mac: true,
        ipv4: true,
        ipv6: true,
    };
    assert_eq!(network_rows(&offline), 3);
    let online = NetworkFacts {
        has_interface: true,
        connected: true,
        proxy: true,
        mac: true,
        ipv4: true,
        ipv6: false,
    };
    assert_eq!(network_rows(&online), 6);
}

#[test]
fn used_space_never_underflows() {
    assert_eq!(used_space(100, 40), 60);
    assert_eq!(used_space(100, 100), 0);
    assert_eq!(used_space(100, 140), 0);
}

#[test]
fn long_process_names_are_cut() {
    assert_eq!(short_name("short"), Some("short".to_string()));
    assert_eq!(short_name("exactly14bytes"), Some("exactly14bytes".to_string()));
    assert_eq!(short_name("fifteen__bytes!"), Some("fifteen__byte…".to_string()));
    assert_eq!(short_name("a-very-long-process-name"), Some("a-very-long-p…".to_string()));
    // twelve bytes, then a two-byte character across the cut
    assert_eq!(short_name("abcdefghijklé-more"), None);
    assert_eq!(short_name("abcdefghijké-more"), Some("abcdefghijké…".to_string()));
}

#[test]
fn text_helpers() {
    assert!(starts_with("/a/b/x", "/a/b/"));
    assert!(starts_with("abc", ""));
    assert!(starts_with("abc", "abc"));
    assert!(!starts_with("ab", "abc"));
    assert!(!starts_with("/a/bc", "/a/b/"));
    assert!(starts_with("ñandú", "ñan"));
    assert_eq!(last_char(""), None);
    assert_eq!(last_char("a/"), Some('/'));
    assert_eq!(last_char("añ"), Some('ñ'));
    assert_eq!(replace_char("a\\b\\c", '\\', '/'), "a/b/c");
    assert_eq!(replace_char("", 'a', 'b'), "");
    assert!(contains_text("ethernet", "eth"));
    assert!(contains_text("abc", ""));
    assert!(contains_text("", ""));
    assert!(contains_text("xxabc", "abc"));
    assert!(!contains_text("ab", "abc"));
    assert!(!contains_text("abxabyabz", "abc"));
    assert_eq!(decimal_string(0), "0");
    assert_eq!(decimal_string(9), "9");
    assert_eq!(decimal_string(10), "10");
    assert_eq!(decimal_string(1234567890), "1234567890");
    assert_eq!(decimal_string(u64::MAX), "18446744073709551615");
}
