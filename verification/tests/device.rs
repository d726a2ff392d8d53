use patstrap::config::{Config, Header, Mode, FULL_STRENGTH_BITS};
use patstrap::device::{any_connected, remove_device, ConnectionStatus, Device};
use patstrap::protocol::{CommandClient, CommandServer};

fn device(id: &str) -> Device<u32> {
    Device::new(id.to_string(), format!("name-{id}"), format!("addr-{id}"), 7)
}

#[test]
fn link_is_carried() {
    let mut d = device("a");
    assert_eq!(*d.link_ref(), 7);
    *d.link_mut() = 9;
    assert_eq!(*d.link_ref(), 9);
    assert_eq!(d.status(), ConnectionStatus::Disconnected);
}

#[test]
fn new_device_is_disconnected() {
    let d = device("a");
    assert_eq!(d.status(), ConnectionStatus::Disconnected);
    assert_eq!(d.id(), "a");
    assert_eq!(d.name(), "name-a");
    assert_eq!(d.addr(), "addr-a");
    assert_eq!(d.battery(), None);
}

#[test]
fn connect_then_confirm_then_disconnect() {
    let mut d = device("a");
    let mut cfg = Config::default();
    assert!(d.connect());
    assert_eq!(d.status(), ConnectionStatus::Connecting);
    d.update(&mut cfg, &[CommandClient::Connected, CommandClient::Battery { level: 80 }]);
    assert_eq!(d.status(), ConnectionStatus::Connected);
    assert_eq!(d.battery(), Some(80));
    assert!(!d.connect());
    assert!(d.disconnect());
    d.update(&mut cfg, &[CommandClient::Disconnect]);
    assert_eq!(d.status(), ConnectionStatus::Disconnected);
    assert_eq!(d.battery(), None);
    assert!(!d.disconnect());
}

#[test]
fn connecting_device_may_start_again() {
    let mut d = device("a");
    assert!(d.connect());
    assert!(d.connect());
    assert_eq!(d.status(), ConnectionStatus::Connecting);
}

#[test]
fn failed_connection_ends_session() {
    let mut d = device("a");
    assert!(d.connect());
    d.update(&mut Config::default(), &[CommandClient::Battery { level: 12 }]);
    assert_eq!(d.battery(), Some(12));
    d.connection_failed();
    assert_eq!(d.status(), ConnectionStatus::Disconnected);
    assert_eq!(d.battery(), None);
}

#[test]
fn exec_only_while_session_runs() {
    let mut d = device("a");
    let cmd = CommandServer::Haptic { channel: 0, strength: 9, duration: 50 };
    assert_eq!(d.exec(cmd), None);
    d.connect();
    assert_eq!(d.exec(cmd), Some(cmd));
}

#[test]
fn info_registers_haptic_once() {
    let mut d = device("a");
    let mut cfg = Config::default();
    d.connect();
    d.update(
        &mut cfg,
        &[
            CommandClient::Info { channel: 1, name: "Left".to_string() },
            CommandClient::Info { channel: 1, name: "Other".to_string() },
            CommandClient::Invalid,
        ],
    );
    assert_eq!(cfg.devices.len(), 1);
    assert_eq!(cfg.devices[0].0, "a");
    let h = &cfg.devices[0].1.haptics[&1];
    assert_eq!(h.name, "Left");
    assert_eq!(h.vrc_parameter, "/avatar/parameters/pat_left");
    assert_eq!(h.channel, 1);
    assert_eq!(h.strength_bits, FULL_STRENGTH_BITS);
    assert_eq!(f32::from_bits(h.strength_bits), 1.0);
    assert_eq!(d.status(), ConnectionStatus::Connecting);
}

#[test]
fn commands_without_session_are_ignored() {
    let mut d = device("a");
    let mut cfg = Config::default();
    d.update(
        &mut cfg,
        &[
            CommandClient::Connected,
            CommandClient::Battery { level: 3 },
            CommandClient::Info { channel: 1, name: "Left".to_string() },
        ],
    );
    assert_eq!(d.status(), ConnectionStatus::Disconnected);
    assert_eq!(d.battery(), None);
    assert!(cfg.devices.is_empty());

    d.connect();
    d.update(
        &mut cfg,
        &[
            CommandClient::Connected,
            CommandClient::Disconnect,
            CommandClient::Connected,
            CommandClient::Battery { level: 3 },
        ],
    );
    assert_eq!(d.status(), ConnectionStatus::Disconnected);
    assert_eq!(d.battery(), None);
}

#[test]
fn configured_haptic_keeps_user_settings() {
    let mut d = device("a");
    let mut cfg = Config::default();
    d.connect();
    d.update(&mut cfg, &[CommandClient::Info { channel: 3, name: "Right".to_string() }]);
    cfg.devices[0].1.haptics.get_mut(&3).unwrap().strength_bits = 0.5f32.to_bits();
    d.update(&mut cfg, &[CommandClient::Info { channel: 3, name: "Right".to_string() }]);
    assert_eq!(f32::from_bits(cfg.devices[0].1.haptics[&3].strength_bits), 0.5);
}

#[test]
fn announced_haptic_is_driven_by_its_parameter() {
    let mut d = device("a");
    let mut cfg = Config::default();
    d.connect();
    d.update(
        &mut cfg,
        &[
            CommandClient::Info { channel: 2, name: "Right".to_string() },
            CommandClient::Info { channel: 0, name: "LEFT".to_string() },
        ],
    );
    assert_eq!(d.haptic_osc(&mut cfg, "/avatar/parameters/pat_left"), vec![(0, FULL_STRENGTH_BITS)]);
    assert_eq!(d.haptic_osc(&mut cfg, "/avatar/parameters/pat_right"), vec![(2, FULL_STRENGTH_BITS)]);
    assert!(d.haptic_osc(&mut cfg, "/avatar/parameters/pat_other").is_empty());
}

#[test]
fn haptic_osc_adds_settings_of_unknown_device() {
    let d = device("b");
    let mut cfg = Config::default();
    assert!(d.haptic_osc(&mut cfg, "/avatar/parameters/pat_left").is_empty());
    assert_eq!(cfg.devices.len(), 1);
    assert_eq!(cfg.devices[0].0, "b");
    assert!(!cfg.devices[0].1.auto_connect);
    assert!(cfg.devices[0].1.haptics.is_empty());
}

#[test]
fn haptic_osc_lists_matches_by_channel() {
    let mut d = device("a");
    let mut cfg = Config::default();
    d.connect();
    d.update(
        &mut cfg,
        &[
            CommandClient::Info { channel: 9, name: "Pat".to_string() },
            CommandClient::Info { channel: 4, name: "pat".to_string() },
        ],
    );
    assert_eq!(
        d.haptic_osc(&mut cfg, "/avatar/parameters/pat_pat"),
        vec![(4, FULL_STRENGTH_BITS), (9, FULL_STRENGTH_BITS)]
    );
}

#[test]
fn get_cfg_finds_existing_entry() {
    let d = device("b");
    let e = device("c");
    let mut cfg = Config::default();
    assert_eq!(d.get_cfg(&mut cfg), 0);
    assert_eq!(e.get_cfg(&mut cfg), 1);
    assert_eq!(d.get_cfg(&mut cfg), 0);
    assert_eq!(cfg.devices.len(), 2);
}

#[test]
fn any_connected_reports_connected_device() {
    let mut cfg = Config::default();
    let mut a = device("a");
    let b = device("b");
    assert!(!any_connected::<u32>(&[]));
    a.connect();
    assert!(!any_connected(&[a, b]));
    let mut a = device("a");
    a.connect();
    a.update(&mut cfg, &[CommandClient::Connected]);
    assert!(any_connected(&[device("b"), a]));
}

#[test]
fn remove_device_keeps_others_in_order() {
    let mut v = vec![device("a"), device("b"), device("a"), device("c")];
    *v[1].link_mut() = 11;
    *v[3].link_mut() = 13;
    v[3].connect();
    remove_device(&mut v, "a");
    let ids: Vec<String> = v.iter().map(|d| d.id()).collect();
    assert_eq!(ids, vec!["b".to_string(), "c".to_string()]);
    assert_eq!(*v[0].link_ref(), 11);
    assert_eq!(*v[1].link_ref(), 13);
    assert_eq!(v[1].status(), ConnectionStatus::Connecting);
    remove_device(&mut v, "z");
    assert_eq!(v.len(), 2);
}

#[test]
fn default_config() {
    let cfg = Config::default();
    assert!(cfg.devices.is_empty());
    assert_eq!(cfg.mode, Mode::OSC);
    assert_eq!(cfg.header, Header::Welcome);
    assert!(!cfg.auto_start);
    assert_eq!(cfg.unity_osc_port, 5123);
}
