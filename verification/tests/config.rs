use patstrap::config::{
    vrc_parameter_for, Config, DeviceConfig, Haptic, Header, Mode, FULL_STRENGTH_BITS,
};

#[test]
fn header_titles_and_order() {
    assert_eq!(Header::all(), vec![Header::Welcome, Header::Devices, Header::Settings]);
    assert_eq!(Header::Welcome.to_string(), "Welcome");
    assert_eq!(Header::Devices.to_string(), "Device List");
    assert_eq!(Header::Settings.to_string(), "Settings");
}

#[test]
fn mode_titles_and_order() {
    assert_eq!(Mode::all(), vec![Mode::OSC, Mode::Unity]);
    assert_eq!(Mode::OSC.to_string(), "VRChat (OSC)");
    assert_eq!(Mode::Unity.to_string(), "Unity");
}

#[test]
fn haptic_new_lowercases_parameter() {
    let h = Haptic::new("Left Ear".to_string(), 5);
    assert_eq!(h.name, "Left Ear");
    assert_eq!(h.vrc_parameter, "/avatar/parameters/pat_left ear");
    assert_eq!(h.channel, 5);
    assert_eq!(h.strength_bits, FULL_STRENGTH_BITS);
    let h = Haptic::new("ÄB".to_string(), 0);
    assert_eq!(h.vrc_parameter, "/avatar/parameters/pat_äb");
}

#[test]
fn parameter_for_lower_name() {
    assert_eq!(vrc_parameter_for("left"), "/avatar/parameters/pat_left");
    assert_eq!(vrc_parameter_for(""), "/avatar/parameters/pat_");
}

#[test]
fn device_config_add_haptic() {
    let mut dc = DeviceConfig::default();
    assert!(!dc.auto_connect);
    dc.add_haptic(1, "Left".to_string());
    dc.add_haptic(1, "Right".to_string());
    assert_eq!(dc.haptics.len(), 1);
    assert_eq!(dc.haptics[&1].name, "Left");
    assert_eq!(dc.matching_haptics("/avatar/parameters/pat_left"), vec![(1, FULL_STRENGTH_BITS)]);
    assert!(dc.matching_haptics("/avatar/parameters/pat_right").is_empty());
}

#[test]
fn unity_port_is_read_as_u16() {
    let mut cfg = Config::default();
    assert!(cfg.submit_unity_port("8000"));
    assert_eq!(cfg.unity_osc_port, 8000);
    assert!(cfg.submit_unity_port("+42"));
    assert_eq!(cfg.unity_osc_port, 42);
    assert!(cfg.submit_unity_port("007"));
    assert_eq!(cfg.unity_osc_port, 7);
    assert!(cfg.submit_unity_port("65535"));
    assert_eq!(cfg.unity_osc_port, 65535);
    for bad in ["", "+", "-1", "65536", "12a", " 1", "99999999999", "1+", "٣"] {
        assert!(!cfg.submit_unity_port(bad), "{bad}");
        assert_eq!(cfg.unity_osc_port, 65535);
    }
}

#[test]
fn unity_port_agrees_with_std_parse() {
    for text in ["0", "1", "+0", "00000000000000000080", "65535", "65536", "", "+", "++1", "-0", "12 ", "70000"] {
        let mut cfg = Config::default();
        let accepted = cfg.submit_unity_port(text);
        match text.parse::<u16>() {
            Ok(p) => {
                assert!(accepted, "{text}");
                assert_eq!(cfg.unity_osc_port, p);
            }
            Err(_) => {
                assert!(!accepted, "{text}");
                assert_eq!(cfg.unity_osc_port, 5123);
            }
        }
    }
}
