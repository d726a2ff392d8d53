use patstrap::discovery::{
    advertises_strap, find_characteristic, peripheral_name, WifiDiscovery, BLE_SERVICE_UUID,
    CHARACTERISTIC_UUID,
};
use patstrap::service::{is_pat_parameter, OSCUnity, OscArg, OscMessage};
use vrchat_osc::rosc::{encoder, OscBundle, OscMessage as RoscMessage, OscPacket, OscTime, OscType};

#[test]
fn pat_parameters_are_recognised() {
    assert!(is_pat_parameter("/avatar/parameters/pat_left"));
    assert!(is_pat_parameter("/avatar/parameters/pat_"));
    assert!(!is_pat_parameter("/avatar/parameters/pa"));
    assert!(!is_pat_parameter("/avatar/parameters/other"));
    assert!(!is_pat_parameter(""));
}

fn message(addr: &str, args: Vec<OscArg>) -> OscMessage {
    OscMessage { addr: addr.to_string(), args }
}

#[test]
fn unity_messages_are_read() {
    let r = OSCUnity::request(&message(
        "/haptic",
        vec![OscArg::Str("left".to_string()), OscArg::Float(0.5f32.to_bits()), OscArg::Float(2.0f32.to_bits())],
    ));
    assert!(r.app_connected);
    let h = r.haptic.unwrap();
    assert_eq!(h.name, "left");
    assert_eq!(f32::from_bits(h.strength_bits), 0.5);
    assert_eq!(f32::from_bits(h.duration_bits), 2.0);

    let r = OSCUnity::request(&message("/disconnect", vec![]));
    assert!(!r.app_connected && r.haptic.is_none());
    let r = OSCUnity::request(&message("/ping", vec![]));
    assert!(r.app_connected && r.haptic.is_none());
    let r = OSCUnity::request(&message(
        "/haptic",
        vec![OscArg::Str("left".to_string()), OscArg::Float(0), OscArg::Other],
    ));
    assert!(r.app_connected && r.haptic.is_none());
    let r = OSCUnity::request(&message("/haptic", vec![OscArg::Str("left".to_string()), OscArg::Float(0)]));
    assert!(r.haptic.is_none());
    let r = OSCUnity::request(&message(
        "/other",
        vec![OscArg::Str("left".to_string()), OscArg::Float(0), OscArg::Float(0)],
    ));
    assert!(r.haptic.is_none());
}

fn datagram(addr: &str, args: Vec<OscType>) -> Vec<u8> {
    encoder::encode(&OscPacket::Message(RoscMessage { addr: addr.to_string(), args })).unwrap()
}

#[test]
fn unity_datagrams_are_decoded() {
    let bytes = datagram(
        "/haptic",
        vec![OscType::String("right".to_string()), OscType::Float(1.0), OscType::Float(0.25), OscType::Int(3)],
    );
    let r = OSCUnity::on_datagram(&bytes).unwrap();
    assert!(r.app_connected);
    let h = r.haptic.unwrap();
    assert_eq!(h.name, "right");
    assert_eq!(f32::from_bits(h.strength_bits), 1.0);
    assert_eq!(f32::from_bits(h.duration_bits), 0.25);

    let bytes = datagram("/haptic", vec![OscType::String("right".to_string()), OscType::Int(1), OscType::Float(0.25)]);
    let r = OSCUnity::on_datagram(&bytes).unwrap();
    assert!(r.app_connected && r.haptic.is_none());

    let r = OSCUnity::on_datagram(&datagram("/disconnect", vec![])).unwrap();
    assert!(!r.app_connected && r.haptic.is_none());

    assert!(OSCUnity::on_datagram(&[]).is_none());
    assert!(OSCUnity::on_datagram(b"not osc").is_none());

    let bundle = encoder::encode(&OscPacket::Bundle(OscBundle {
        timetag: OscTime { seconds: 0, fractional: 1 },
        content: vec![OscPacket::Message(RoscMessage { addr: "/haptic".to_string(), args: vec![] })],
    }))
    .unwrap();
    assert!(OSCUnity::on_datagram(&bundle).is_none());
}

#[test]
fn strap_advertisement_is_recognised() {
    assert!(advertises_strap(&[1, BLE_SERVICE_UUID]));
    assert!(!advertises_strap(&[1, 2]));
    assert!(!advertises_strap(&[]));
    assert_eq!(BLE_SERVICE_UUID, 0x49535343_fe7d_4ae5_8fa9_9fafd205e455);
}

#[test]
fn characteristic_is_found() {
    assert_eq!(find_characteristic(&[3, CHARACTERISTIC_UUID, CHARACTERISTIC_UUID]), Some(1));
    assert_eq!(find_characteristic(&[3, 4]), None);
}

#[test]
fn peripheral_names() {
    assert_eq!(peripheral_name(Some("strap".to_string())), "strap");
    assert_eq!(peripheral_name(None), "???");
}

#[test]
fn wifi_services_are_added_once() {
    let mut w = WifiDiscovery::new();
    let a = "patstrap-1._http._tcp.local.".to_string();
    assert!(w.on_resolved(&a, "patstrap-1.local."));
    assert!(!w.on_resolved(&a, "patstrap-1.local."));
    let b = "printer._http._tcp.local.".to_string();
    assert!(!w.on_resolved(&b, "printer.local."));
    assert!(!w.on_resolved(&b, "patstrap.local."));
    let c = "c".to_string();
    assert!(w.on_resolved(&c, "my-patstrap"));
}
