//! The decisions of the two OSC listeners: VRChat's avatar parameters and
//! the messages of the Unity plugin. The listeners themselves, and the
//! arithmetic on the `f32` values that the messages carry, stay with the
//! application.
use vstd::prelude::*;

use crate::config::{parameter_for, pat_prefix};

verus! {

/// Whether `addr` is an avatar parameter that drives haptics.
pub open spec fn is_pat_address(addr: Seq<char>) -> bool {
    pat_prefix().len() <= addr.len() && addr.subrange(0, pat_prefix().len() as int) == pat_prefix()
}

/// Whether the VRChat message to `addr` concerns haptics; the service
/// tracks only such parameters.
pub fn is_pat_parameter(addr: &str) -> (r: bool)
    ensures
        r == is_pat_address(addr@),
{
    crate::text::str_starts_with(addr, "/avatar/parameters/pat_")
}

/// The avatar parameter of every announced haptic is one that the VRChat
/// service tracks.
pub proof fn lemma_haptic_parameters_are_tracked(name: Seq<char>)
    ensures
        is_pat_address(parameter_for(name)),
{
    assert(parameter_for(name).subrange(0, pat_prefix().len() as int) =~= pat_prefix());
}

/// An argument of an OSC message: a string, an `f32` (kept as its
/// IEEE-754 bits), or any other kind.
pub enum OscArg {
    Str(String),
    Float(u32),
    Other,
}

pub enum OscArgView {
    Str(Seq<char>),
    Float(u32),
    Other,
}

impl View for OscArg {
    type V = OscArgView;

    open spec fn view(&self) -> OscArgView {
        match self {
            OscArg::Str(s) => OscArgView::Str(s@),
            OscArg::Float(f) => OscArgView::Float(*f),
            OscArg::Other => OscArgView::Other,
        }
    }
}

/// An OSC message: its address and its arguments.
pub struct OscMessage {
    pub addr: String,
    pub args: Vec<OscArg>,
}

pub struct OscMessageView {
    pub addr: Seq<char>,
    pub args: Seq<OscArgView>,
}

impl View for OscMessage {
    type V = OscMessageView;

    open spec fn view(&self) -> OscMessageView {
        OscMessageView { addr: self.addr@, args: self.args@.map_values(|a: OscArg| a@) }
    }
}

/// The message that the UDP datagram with these bytes holds, as
/// `rosc::decoder::decode_udp` reads it; `None` when the bytes are no OSC
/// packet or hold a bundle.
pub uninterp spec fn osc_decoded(bytes: Seq<u8>) -> Option<OscMessageView>;

/// Calls `rosc::decoder::decode_udp`. Claimed: the result is
/// `osc_decoded` of the bytes, a function of the bytes alone; of a decoded
/// message, strings and `f32` arguments are kept (the latter by their
/// bits) and every other kind of argument becomes `Other`. Nothing more is
/// stated of the OSC format.
#[verifier::external_body]
fn decode_datagram(bytes: &[u8]) -> (r: Option<OscMessage>)
    ensures
        match r {
            Some(m) => osc_decoded(bytes@) == Some(m@),
            None => osc_decoded(bytes@) is None,
        },
{
    match vrchat_osc::rosc::decoder::decode_udp(bytes) {
        Ok((_, vrchat_osc::rosc::OscPacket::Message(m))) => Some(OscMessage {
            addr: m.addr,
            args: m.args.into_iter().map(|a| match a {
                vrchat_osc::rosc::OscType::String(s) => OscArg::Str(s),
                vrchat_osc::rosc::OscType::Float(f) => OscArg::Float(f.to_bits()),
                _ => OscArg::Other,
            }).collect(),
        }),
        _ => None,
    }
}

/// A haptic pulse asked for by the Unity plugin: the haptic's parameter
/// name, and the strength (0 to 1) and duration (seconds) as `f32` bits.
pub struct HapticRequest {
    pub name: String,
    pub strength_bits: u32,
    pub duration_bits: u32,
}

pub struct HapticRequestView {
    pub name: Seq<char>,
    pub strength_bits: u32,
    pub duration_bits: u32,
}

impl View for HapticRequest {
    type V = HapticRequestView;

    open spec fn view(&self) -> HapticRequestView {
        HapticRequestView {
            name: self.name@,
            strength_bits: self.strength_bits,
            duration_bits: self.duration_bits,
        }
    }
}

/// What a message from the Unity plugin asks for.
pub struct UnityRequest {
    /// The plugin is connected after this message.
    pub app_connected: bool,
    /// The pulse asked for, if the message is a well-formed haptic request.
    pub haptic: Option<HapticRequest>,
}

pub struct UnityRequestView {
    pub app_connected: bool,
    pub haptic: Option<HapticRequestView>,
}

impl View for UnityRequest {
    type V = UnityRequestView;

    open spec fn view(&self) -> UnityRequestView {
        UnityRequestView {
            app_connected: self.app_connected,
            haptic: match self.haptic {
                Some(h) => Some(h@),
                None => None,
            },
        }
    }
}

/// What the message `m` asks for: every message but `/disconnect` shows
/// the plugin connected; `/haptic` with a string, then two `f32`s, asks for
/// a pulse of the haptic so named.
pub open spec fn unity_request_of(m: OscMessageView) -> UnityRequestView {
    UnityRequestView {
        app_connected: m.addr != "/disconnect"@,
        haptic: if m.addr == "/haptic"@ && m.args.len() >= 3 {
            match (m.args[0], m.args[1], m.args[2]) {
                (OscArgView::Str(name), OscArgView::Float(s), OscArgView::Float(d)) => Some(
                    HapticRequestView { name, strength_bits: s, duration_bits: d },
                ),
                _ => None,
            }
        } else {
            None
        },
    }
}

/// What the plugin's messages ask for: `/disconnect` leaves the plugin
/// disconnected and asks for nothing; any other address shows it connected;
/// `/haptic` whose first three arguments are a string `n` and `f32`s `s`
/// and `d` asks for a pulse of haptic `n` at strength `s` for duration `d`,
/// whatever follows; `/haptic` with fewer arguments, or of other kinds, and
/// any other address ask for no pulse.
pub proof fn lemma_unity_requests(
    addr: Seq<char>,
    n: Seq<char>,
    s: u32,
    d: u32,
    rest: Seq<OscArgView>,
    args: Seq<OscArgView>,
)
    ensures
        unity_request_of(OscMessageView { addr: "/disconnect"@, args }) == (UnityRequestView {
            app_connected: false,
            haptic: None,
        }),
        addr != "/disconnect"@ ==> unity_request_of(OscMessageView { addr, args }).app_connected,
        unity_request_of(
            OscMessageView {
                addr: "/haptic"@,
                args: seq![OscArgView::Str(n), OscArgView::Float(s), OscArgView::Float(d)] + rest,
            },
        ).haptic == Some(HapticRequestView { name: n, strength_bits: s, duration_bits: d }),
        addr != "/haptic"@ ==> unity_request_of(OscMessageView { addr, args }).haptic is None,
        args.len() < 3 ==> unity_request_of(OscMessageView { addr, args }).haptic is None,
        (args.len() >= 3 && !(args[0] is Str && args[1] is Float && args[2] is Float))
            ==> unity_request_of(OscMessageView { addr, args }).haptic is None,
{
    reveal_strlit("/disconnect");
    reveal_strlit("/haptic");
    assert("/disconnect"@ != "/haptic"@) by {
        assert("/disconnect"@.len() != "/haptic"@.len());
    }
    let a = seq![OscArgView::Str(n), OscArgView::Float(s), OscArgView::Float(d)] + rest;
    assert(a[0] == OscArgView::Str(n));
    assert(a[1] == OscArgView::Float(s));
    assert(a[2] == OscArgView::Float(d));
}

/// The listener for the Unity plugin.
pub struct OSCUnity {}

impl OSCUnity {
    /// What the message `msg` from the plugin asks for.
    pub fn request(msg: &OscMessage) -> (r: UnityRequest)
        ensures
            r@ == unity_request_of(msg@),
    {
        let app_connected = !crate::text::str_eq(msg.addr.as_str(), "/disconnect");
        let mut haptic: Option<HapticRequest> = None;
        if crate::text::str_eq(msg.addr.as_str(), "/haptic") && msg.args.len() >= 3 {
            assert(msg@.args[0] == msg.args@[0]@);
            assert(msg@.args[1] == msg.args@[1]@);
            assert(msg@.args[2] == msg.args@[2]@);
            match (&msg.args[0], &msg.args[1], &msg.args[2]) {
                (OscArg::Str(name), OscArg::Float(s), OscArg::Float(d)) => {
                    haptic = Some(
                        HapticRequest { name: name.clone(), strength_bits: *s, duration_bits: *d },
                    );
                },
                _ => {},
            }
        }
        UnityRequest { app_connected, haptic }
    }

    /// What the UDP datagram `bytes` received from the plugin asks for;
    /// `None` when it holds no OSC message.
    pub fn on_datagram(bytes: &[u8]) -> (r: Option<UnityRequest>)
        ensures
            match osc_decoded(bytes@) {
                Some(m) => r matches Some(q) && q@ == unity_request_of(m),
                None => r is None,
            },
    {
        match decode_datagram(bytes) {
            Some(m) => Some(Self::request(&m)),
            None => None,
        }
    }
}

} // verus!
