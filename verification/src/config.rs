//! What the server keeps between runs: the selected page and mode, the
//! OSC port, and for each device the haptics it announced.
use std::collections::HashMap;
use vstd::prelude::*;
use vstd::string::*;

use crate::text::lowercase;

verus! {

/// The page that the window shows.
#[derive(Debug, PartialEq, Eq, Structural, Clone, Copy)]
pub enum Header {
    Welcome,
    Devices,
    Settings,
}

impl Header {
    /// Every page, in the order the window lists them.
    pub fn all() -> (r: Vec<Header>)
        ensures
            r@ == seq![Header::Welcome, Header::Devices, Header::Settings],
    {
        let mut v: Vec<Header> = Vec::new();
        v.push(Header::Welcome);
        v.push(Header::Devices);
        v.push(Header::Settings);
        assert(v@ =~= seq![Header::Welcome, Header::Devices, Header::Settings]);
        v
    }

    /// The page's title.
    pub fn to_string(&self) -> (r: String)
        ensures
            r@ == match self {
                Header::Welcome => "Welcome"@,
                Header::Devices => "Device List"@,
                Header::Settings => "Settings"@,
            },
    {
        match self {
            Header::Welcome => "Welcome".to_owned(),
            Header::Devices => "Device List".to_owned(),
            Header::Settings => "Settings".to_owned(),
        }
    }
}

/// Where the haptic requests come from.
#[derive(Debug, PartialEq, Eq, Structural, Clone, Copy)]
pub enum Mode {
    OSC,
    Unity,
}

impl Mode {
    /// Every mode, in the order the window lists them.
    pub fn all() -> (r: Vec<Mode>)
        ensures
            r@ == seq![Mode::OSC, Mode::Unity],
    {
        let mut v: Vec<Mode> = Vec::new();
        v.push(Mode::OSC);
        v.push(Mode::Unity);
        assert(v@ =~= seq![Mode::OSC, Mode::Unity]);
        v
    }

    /// The mode's title.
    pub fn to_string(&self) -> (r: String)
        ensures
            r@ == match self {
                Mode::OSC => "VRChat (OSC)"@,
                Mode::Unity => "Unity"@,
            },
    {
        match self {
            Mode::OSC => "VRChat (OSC)".to_owned(),
            Mode::Unity => "Unity".to_owned(),
        }
    }
}

/// The bits of the `f32` 1.0: a haptic's strength factor when it is first
/// announced.
pub const FULL_STRENGTH_BITS: u32 = 0x3f80_0000u32;

/// The OSC address prefix of the avatar parameters that drive haptics.
pub open spec fn pat_prefix() -> Seq<char> {
    "/avatar/parameters/pat_"@
}

/// The avatar parameter of a haptic called `name`.
pub open spec fn parameter_for(name: Seq<char>) -> Seq<char> {
    pat_prefix() + lowercase(name)
}

/// One haptic motor of a device. The strength factor, an `f32` between 0
/// and 1 that scales each request, is kept as its IEEE-754 bits.
pub struct Haptic {
    pub name: String,
    pub vrc_parameter: String,
    pub strength_bits: u32,
    pub channel: u8,
}

pub struct HapticView {
    pub name: Seq<char>,
    pub vrc_parameter: Seq<char>,
    pub strength_bits: u32,
    pub channel: u8,
}

impl View for Haptic {
    type V = HapticView;

    open spec fn view(&self) -> HapticView {
        HapticView {
            name: self.name@,
            vrc_parameter: self.vrc_parameter@,
            strength_bits: self.strength_bits,
            channel: self.channel,
        }
    }
}

/// The avatar parameter for a haptic whose name, in lower case, is
/// `lower_name`.
pub fn vrc_parameter_for(lower_name: &str) -> (r: String)
    ensures
        r@ == pat_prefix() + lower_name@,
{
    let mut p = "/avatar/parameters/pat_".to_owned();
    p.append(lower_name);
    p
}

impl Haptic {
    /// A newly announced haptic: full strength, driven by the avatar
    /// parameter named after it.
    pub fn new(name: String, channel: u8) -> (r: Self)
        ensures
            r@ == (HapticView {
                name: name@,
                vrc_parameter: parameter_for(name@),
                strength_bits: FULL_STRENGTH_BITS,
                channel,
            }),
    {
        let lower = crate::text::to_lowercase(name.as_str());
        let vrc_parameter = vrc_parameter_for(lower.as_str());
        Self { vrc_parameter, name, channel, strength_bits: FULL_STRENGTH_BITS }
    }
}

/// A device's saved settings: whether to connect on discovery, and its
/// haptics by channel.
pub struct DeviceConfig {
    pub auto_connect: bool,
    pub haptics: HashMap<u8, Haptic>,
}

pub struct DeviceConfigView {
    pub auto_connect: bool,
    pub haptics: Map<u8, HapticView>,
}

impl View for DeviceConfig {
    type V = DeviceConfigView;

    open spec fn view(&self) -> DeviceConfigView {
        DeviceConfigView {
            auto_connect: self.auto_connect,
            haptics: self.haptics@.map_values(|h: Haptic| h@),
        }
    }
}

/// The settings of a device seen for the first time.
pub open spec fn default_device_config() -> DeviceConfigView {
    DeviceConfigView { auto_connect: false, haptics: Map::empty() }
}

impl Default for DeviceConfig {
    fn default() -> (r: Self)
        ensures
            r@ == default_device_config(),
    {
        let haptics: HashMap<u8, Haptic> = HashMap::new();
        let r = DeviceConfig { auto_connect: false, haptics };
        assert(r@.haptics =~= Map::empty());
        r
    }
}

/// The haptic that a device announces on `channel` under `name`.
pub open spec fn announced_haptic(channel: u8, name: Seq<char>) -> HapticView {
    HapticView {
        name,
        vrc_parameter: parameter_for(name),
        strength_bits: FULL_STRENGTH_BITS,
        channel,
    }
}

/// `dc` once the haptic announced on `channel` is recorded; a channel that
/// is already configured keeps its settings.
pub open spec fn with_haptic(dc: DeviceConfigView, channel: u8, name: Seq<char>) -> DeviceConfigView {
    if dc.haptics.contains_key(channel) {
        dc
    } else {
        DeviceConfigView {
            auto_connect: dc.auto_connect,
            haptics: dc.haptics.insert(channel, announced_haptic(channel, name)),
        }
    }
}

impl DeviceConfig {
    /// Records the haptic announced on `channel` unless that channel is
    /// configured already.
    pub fn add_haptic(&mut self, channel: u8, name: String)
        ensures
            final(self)@ == with_haptic(old(self)@, channel, name@),
    {
        if !self.haptics.contains_key(&channel) {
            let h = Haptic::new(name, channel);
            self.haptics.insert(channel, h);
            assert(self@.haptics =~= old(self)@.haptics.insert(channel, h@));
        }
    }

    /// The channel and strength bits of each haptic driven by the avatar
    /// parameter `osc`, by ascending channel.
    pub fn matching_haptics(&self, osc: &str) -> (r: Vec<(u8, u32)>)
        ensures
            r@ == matching(self@.haptics, osc@, 256),
    {
        let mut r: Vec<(u8, u32)> = Vec::new();
        let mut c: u16 = 0;
        while c < 256
            invariant
                c <= 256,
                r@ == matching(self@.haptics, osc@, c as nat),
            decreases 256 - c,
        {
            let ch = c as u8;
            match self.haptics.get(&ch) {
                Some(h) => {
                    if crate::text::str_eq(h.vrc_parameter.as_str(), osc) {
                        r.push((h.channel, h.strength_bits));
                    }
                },
                None => {},
            }
            c = c + 1;
        }
        r
    }
}

/// The channel and strength bits of the haptics of `m` on channels below
/// `n` that the avatar parameter `osc` drives, by ascending channel.
pub open spec fn matching(m: Map<u8, HapticView>, osc: Seq<char>, n: nat) -> Seq<(u8, u32)>
    decreases n,
{
    if n == 0 {
        seq![]
    } else {
        let prev = matching(m, osc, (n - 1) as nat);
        let c = (n - 1) as u8;
        if m.contains_key(c) && m[c].vrc_parameter == osc {
            prev.push((m[c].channel, m[c].strength_bits))
        } else {
            prev
        }
    }
}



/// Everything the server saves. Each device's settings are kept under its
/// identifier; `devices` holds the pairs in the order they were added.
pub struct Config {
    pub devices: Vec<(String, DeviceConfig)>,
    pub mode: Mode,
    pub auto_start: bool,
    pub header: Header,
    pub unity_osc_port: u16,
}

pub struct ConfigView {
    pub devices: Seq<(Seq<char>, DeviceConfigView)>,
    pub mode: Mode,
    pub auto_start: bool,
    pub header: Header,
    pub unity_osc_port: u16,
}

impl View for Config {
    type V = ConfigView;

    open spec fn view(&self) -> ConfigView {
        ConfigView {
            devices: self.devices@.map_values(|p: (String, DeviceConfig)| (p.0@, p.1@)),
            mode: self.mode,
            auto_start: self.auto_start,
            header: self.header,
            unity_osc_port: self.unity_osc_port,
        }
    }
}

/// `i` is the first position of `devs` that holds the settings of `id`.
pub open spec fn is_first(devs: Seq<(Seq<char>, DeviceConfigView)>, id: Seq<char>, i: int) -> bool {
    &&& 0 <= i < devs.len()
    &&& devs[i].0 == id
    &&& forall|j: int| 0 <= j < i ==> devs[j].0 != id
}

/// Whether some position of `devs` holds the settings of `id`.
pub open spec fn has_device(devs: Seq<(Seq<char>, DeviceConfigView)>, id: Seq<char>) -> bool {
    exists|i: int| 0 <= i < devs.len() && devs[i].0 == id
}

/// The first position of `devs` that holds the settings of `id`.
pub open spec fn device_position(devs: Seq<(Seq<char>, DeviceConfigView)>, id: Seq<char>) -> int {
    choose|i: int| is_first(devs, id, i)
}

/// `c` with default settings added for `id` if it has none.
pub open spec fn with_device(c: ConfigView, id: Seq<char>) -> ConfigView {
    if has_device(c.devices, id) {
        c
    } else {
        ConfigView { devices: c.devices.push((id, default_device_config())), ..c }
    }
}

/// `c` once device `id` announced a haptic on `channel` under `name`.
pub open spec fn with_device_haptic(c: ConfigView, id: Seq<char>, channel: u8, name: Seq<char>) -> ConfigView {
    let c2 = with_device(c, id);
    let i = device_position(c2.devices, id);
    ConfigView {
        devices: c2.devices.update(i, (id, with_haptic(c2.devices[i].1, channel, name))),
        ..c2
    }
}

impl ConfigView {
    /// No identifier has two entries, and each haptic is filed under its
    /// own channel.
    pub open spec fn wf(self) -> bool {
        &&& forall|i: int, j: int|
            0 <= i < j < self.devices.len() ==> self.devices[i].0 != self.devices[j].0
        &&& forall|i: int, c: u8|
            0 <= i < self.devices.len() && #[trigger] self.devices[i].1.haptics.contains_key(c)
                ==> self.devices[i].1.haptics[c].channel == c
    }
}

/// The first position found is the only one.
pub proof fn lemma_first_unique(devs: Seq<(Seq<char>, DeviceConfigView)>, id: Seq<char>, i: int)
    requires
        is_first(devs, id, i),
    ensures
        device_position(devs, id) == i,
{
    let k = device_position(devs, id);
    assert(is_first(devs, id, k));
    if k < i {
        assert(devs[k].0 != id);
    }
    if i < k {
        assert(devs[i].0 != id);
    }
}

impl Default for Config {
    fn default() -> (r: Self)
        ensures
            r@ == (ConfigView {
                devices: seq![],
                mode: Mode::OSC,
                auto_start: false,
                header: Header::Welcome,
                unity_osc_port: 5123,
            }),
    {
        let r = Config {
            devices: Vec::new(),
            mode: Mode::OSC,
            header: Header::Welcome,
            auto_start: false,
            unity_osc_port: 5123,
        };
        assert(r@.devices =~= seq![]);
        r
    }
}

impl Config {
    /// The position of the settings of device `id`, added with defaults if
    /// the device has none.
    pub fn device_index(&mut self, id: &String) -> (i: usize)
        ensures
            final(self)@ == with_device(old(self)@, id@),
            is_first(final(self)@.devices, id@, i as int),
            old(self)@.wf() ==> final(self)@.wf(),
    {
        let mut i: usize = 0;
        while i < self.devices.len()
            invariant
                i <= self.devices@.len(),
                self@ == old(self)@,
                forall|j: int| 0 <= j < i ==> self@.devices[j].0 != id@,
            decreases self.devices@.len() - i,
        {
            if self.devices[i].0 == *id {
                assert(self@.devices[i as int].0 == id@);
                assert(has_device(self@.devices, id@));
                return i;
            }
            i = i + 1;
        }
        assert(!has_device(self@.devices, id@));
        let dc = DeviceConfig::default();
        self.devices.push((id.clone(), dc));
        assert(self@.devices =~= old(self)@.devices.push((id@, default_device_config())));
        proof {
            let d = self@.devices;
            let o = old(self)@.devices;
            if old(self)@.wf() {
                assert forall|a: int, b: int| 0 <= a < b < d.len() implies d[a].0 != d[b].0 by {
                    assert(d[a] == o[a]);
                    if b < o.len() {
                        assert(d[b] == o[b]);
                    }
                }
                assert forall|a: int, c: u8|
                    0 <= a < d.len() && #[trigger] d[a].1.haptics.contains_key(c) implies d[a].1.haptics[c].channel
                    == c by {
                    if a < o.len() {
                        assert(d[a] == o[a]);
                    }
                }
            }
        }
        i
    }

    /// Records that device `id` announced a haptic on `channel` under
    /// `name`, adding the device's settings if it has none.
    pub fn add_device_haptic(&mut self, id: &String, channel: u8, name: String)
        ensures
            final(self)@ == with_device_haptic(old(self)@, id@, channel, name@),
            old(self)@.wf() ==> final(self)@.wf(),
    {
        let i = self.device_index(id);
        let ghost mid = self@;
        proof {
            lemma_first_unique(mid.devices, id@, i as int);
        }
        self.devices[i].1.add_haptic(channel, name);
        assert(self@.devices =~= mid.devices.update(i as int, (id@, with_haptic(mid.devices[i as int].1, channel, name@))));
    }
}


/// A haptic below channel `n` that `osc` drives is among the matches.
pub proof fn lemma_matching_contains(m: Map<u8, HapticView>, osc: Seq<char>, n: nat, c: u8)
    requires
        c < n,
        m.contains_key(c),
        m[c].vrc_parameter == osc,
    ensures
        matching(m, osc, n).contains((m[c].channel, m[c].strength_bits)),
    decreases n,
{
    let prev = matching(m, osc, (n - 1) as nat);
    if c == n - 1 {
        assert(matching(m, osc, n) == prev.push((m[c].channel, m[c].strength_bits)));
        assert(matching(m, osc, n)[prev.len() as int] == (m[c].channel, m[c].strength_bits));
    } else {
        lemma_matching_contains(m, osc, (n - 1) as nat, c);
        let k = choose|k: int| 0 <= k < prev.len() && prev[k] == (m[c].channel, m[c].strength_bits);
        let c2 = (n - 1) as u8;
        if m.contains_key(c2) && m[c2].vrc_parameter == osc {
            assert(matching(m, osc, n)[k] == prev[k]);
        }
    }
}

/// `e` is the channel and strength of a haptic of `m` below channel `n`
/// that the avatar parameter `osc` drives.
pub open spec fn drives(m: Map<u8, HapticView>, osc: Seq<char>, n: nat, e: (u8, u32)) -> bool {
    exists|c: u8|
        c < n && #[trigger] m.contains_key(c) && m[c].vrc_parameter == osc && e == (
            m[c].channel,
            m[c].strength_bits,
        )
}

/// Only haptics that `osc` drives are among the matches, each once: every
/// match is the channel and strength of a haptic below channel `n` whose
/// avatar parameter is `osc`, and when each haptic is filed under its own
/// channel the matches come by strictly ascending channel.
pub proof fn lemma_matching_sound(m: Map<u8, HapticView>, osc: Seq<char>, n: nat)
    requires
        n <= 256,
    ensures
        forall|k: int|
            0 <= k < matching(m, osc, n).len() ==> drives(m, osc, n, #[trigger] matching(m, osc, n)[k]),
        (forall|c: u8| #[trigger] m.contains_key(c) ==> m[c].channel == c) ==> forall|j: int, k: int|
            0 <= j < k < matching(m, osc, n).len() ==> (#[trigger] matching(m, osc, n)[j]).0
                < (#[trigger] matching(m, osc, n)[k]).0,
        (forall|c: u8| #[trigger] m.contains_key(c) ==> m[c].channel == c) ==> forall|k: int|
            0 <= k < matching(m, osc, n).len() ==> (#[trigger] matching(m, osc, n)[k]).0 < n,
    decreases n,
{
    if n > 0 {
        lemma_matching_sound(m, osc, (n - 1) as nat);
        let prev = matching(m, osc, (n - 1) as nat);
        let r = matching(m, osc, n);
        let c2 = (n - 1) as u8;
        assert(c2 == n - 1);
        assert forall|k: int| 0 <= k < prev.len() implies drives(m, osc, n, #[trigger] prev[k]) by {
            assert(drives(m, osc, (n - 1) as nat, prev[k]));
            let c = choose|c: u8|
                c < n - 1 && #[trigger] m.contains_key(c) && m[c].vrc_parameter == osc && prev[k] == (
                    m[c].channel,
                    m[c].strength_bits,
                );
            assert(m.contains_key(c));
        }
        if m.contains_key(c2) && m[c2].vrc_parameter == osc {
            assert(r == prev.push((m[c2].channel, m[c2].strength_bits)));
            assert forall|k: int| 0 <= k < r.len() implies drives(m, osc, n, #[trigger] r[k]) by {
                if k < prev.len() {
                    assert(r[k] == prev[k]);
                } else {
                    assert(m.contains_key(c2));
                }
            }
            if forall|c: u8| #[trigger] m.contains_key(c) ==> m[c].channel == c {
                assert(m[c2].channel == c2);
                assert forall|k: int| 0 <= k < r.len() implies (#[trigger] r[k]).0 < n by {
                    if k < prev.len() {
                        assert(r[k] == prev[k]);
                    }
                }
                assert forall|j: int, k: int| 0 <= j < k < r.len() implies (#[trigger] r[j]).0 < (
                #[trigger] r[k]).0 by {
                    assert(r[j] == prev[j]);
                    if k < prev.len() {
                        assert(r[k] == prev[k]);
                    }
                }
            }
        } else {
            assert(r == prev);
        }
    } else {
        assert(matching(m, osc, n).len() == 0);
    }
}

/// After a device announces a haptic on a channel it had not configured,
/// the haptic's avatar parameter drives that channel at full strength.
pub proof fn lemma_announced_haptic_is_driven(c: ConfigView, id: Seq<char>, channel: u8, name: Seq<char>)
    requires
        !(has_device(c.devices, id) && c.devices[device_position(c.devices, id)].1.haptics.contains_key(
            channel,
        )),
    ensures
        ({
            let c2 = with_device_haptic(c, id, channel, name);
            &&& with_device(c2, id) == c2
            &&& matching(
                c2.devices[device_position(c2.devices, id)].1.haptics,
                parameter_for(name),
                256,
            ).contains((channel, FULL_STRENGTH_BITS))
        }),
{
    let c1 = with_device(c, id);
    if has_device(c.devices, id) {
        let w = choose|w: int| 0 <= w < c.devices.len() && c.devices[w].0 == id;
        lemma_first_exists(c.devices, id, w);
    } else {
        let w = c.devices.len() as int;
        assert(c1.devices[w].0 == id);
        lemma_first_exists(c1.devices, id, w);
    }
    let i = device_position(c1.devices, id);
    let c2 = with_device_haptic(c, id, channel, name);
    assert(is_first(c2.devices, id, i));
    lemma_first_unique(c2.devices, id, i);
    assert(has_device(c2.devices, id));
    let m = c2.devices[i].1.haptics;
    assert(m.contains_key(channel));
    assert(m[channel] == announced_haptic(channel, name));
    lemma_matching_contains(m, parameter_for(name), 256, channel);
}

/// Some entry of `devs` holds `id` at `w`: the first one exists.
pub proof fn lemma_first_exists(devs: Seq<(Seq<char>, DeviceConfigView)>, id: Seq<char>, w: int)
    requires
        0 <= w < devs.len(),
        devs[w].0 == id,
    ensures
        is_first(devs, id, device_position(devs, id)),
    decreases w,
{
    if forall|j: int| 0 <= j < w ==> devs[j].0 != id {
        assert(is_first(devs, id, w));
    } else {
        let j = choose|j: int| 0 <= j < w && devs[j].0 == id;
        lemma_first_exists(devs, id, j);
    }
}


/// The number written by the decimal digits `d`.
pub open spec fn digits_value(d: Seq<u8>) -> int
    decreases d.len(),
{
    if d.len() == 0 {
        0
    } else {
        digits_value(d.drop_last()) * 10 + (d.last() - 48)
    }
}

/// Every byte of `d` is an ASCII decimal digit.
pub open spec fn all_digits(d: Seq<u8>) -> bool {
    forall|i: int| 0 <= i < d.len() ==> 48 <= #[trigger] d[i] <= 57
}

/// The port that the text with bytes `b` gives, read as `u16` reads
/// decimal text: an optional `+`, then at least one digit, for a value
/// below 65536.
pub open spec fn port_from_text(b: Seq<u8>) -> Option<u16> {
    let d = if b.len() > 0 && b[0] == 43 {
        b.drop_first()
    } else {
        b
    };
    if d.len() > 0 && all_digits(d) && digits_value(d) < 65536 {
        Some(digits_value(d) as u16)
    } else {
        None
    }
}

/// Appending digits never makes the value smaller.
pub proof fn lemma_digits_value_grows(d: Seq<u8>, k: int)
    requires
        0 <= k <= d.len(),
        all_digits(d),
    ensures
        digits_value(d.take(k)) <= digits_value(d),
        digits_value(d) >= 0,
    decreases d.len(),
{
    if d.len() > 0 {
        assert(all_digits(d.drop_last()));
        if k < d.len() {
            assert(d.drop_last().take(k) =~= d.take(k));
            lemma_digits_value_grows(d.drop_last(), k);
        } else {
            assert(d.take(k) =~= d);
            lemma_digits_value_grows(d.drop_last(), 0);
        }
    }
}

/// The decimal text of `p`: its digits, most significant first, with no
/// leading zero.
pub open spec fn decimal(p: nat) -> Seq<u8>
    decreases p,
{
    if p < 10 {
        seq![(48 + p) as u8]
    } else {
        decimal(p / 10).push((48 + p % 10) as u8)
    }
}

/// The decimal text of `p` is made of digits and writes `p`.
proof fn lemma_decimal_digits(p: nat)
    ensures
        decimal(p).len() > 0,
        forall|i: int| 0 <= i < decimal(p).len() ==> 48 <= #[trigger] decimal(p)[i] <= 57,
        digits_value(decimal(p)) == p,
    decreases p,
{
    if p >= 10 {
        lemma_decimal_digits(p / 10);
        assert(decimal(p).drop_last() =~= decimal(p / 10));
        assert(decimal(p).last() == (48 + p % 10) as u8);
        assert(decimal(p).last() - 48 == p % 10);
        assert((p / 10) * 10 + p % 10 == p);
    } else {
        assert(decimal(p).drop_last() =~= Seq::<u8>::empty());
        assert(digits_value(decimal(p).drop_last()) == 0);
        assert(decimal(p).last() - 48 == p);
    }
}

/// Every port reads back from its decimal text, with or without a leading
/// `+`, as `u16` parses it; and a text with any byte other than a decimal
/// digit after the optional `+` (or with no digit at all) is no port.
pub proof fn lemma_port_text(p: u16, t: Seq<u8>)
    ensures
        port_from_text(decimal(p as nat)) == Some(p),
        port_from_text(seq![43u8] + decimal(p as nat)) == Some(p),
        ({
            let d = if t.len() > 0 && t[0] == 43 {
                t.drop_first()
            } else {
                t
            };
            (d.len() == 0 || exists|i: int| 0 <= i < d.len() && !(48 <= #[trigger] d[i] <= 57))
                ==> port_from_text(t) is None
        }),
{
    lemma_decimal_digits(p as nat);
    let d = decimal(p as nat);
    assert(d[0] != 43u8);
    assert((seq![43u8] + d).drop_first() =~= d);
    let dt = if t.len() > 0 && t[0] == 43 {
        t.drop_first()
    } else {
        t
    };
    if exists|i: int| 0 <= i < dt.len() && !(48 <= #[trigger] dt[i] <= 57) {
        let i = choose|i: int| 0 <= i < dt.len() && !(48 <= #[trigger] dt[i] <= 57);
        assert(!all_digits(dt));
    }
}

/// Zeros in front of digits do not change the number they write.
proof fn lemma_leading_zeros(z: Seq<u8>, d: Seq<u8>)
    requires
        forall|i: int| 0 <= i < z.len() ==> #[trigger] z[i] == 48,
    ensures
        digits_value(z + d) == digits_value(d),
    decreases z.len() + d.len(),
{
    if d.len() == 0 {
        assert(z + d =~= z);
        if z.len() > 0 {
            lemma_leading_zeros(z.drop_last(), d);
            assert(z.drop_last() + d =~= z.drop_last());
        }
    } else {
        lemma_leading_zeros(z, d.drop_last());
        assert((z + d).drop_last() =~= z + d.drop_last());
    }
}

/// A number past the `u16` range is no port, with or without a leading
/// `+`; leading zeros are read as `u16` reads them, so zeros in front of a
/// port's decimal text give the same port.
pub proof fn lemma_port_text_range(big: nat, p: u16, zeros: nat)
    requires
        big >= 65536,
    ensures
        port_from_text(decimal(big)) is None,
        port_from_text(seq![43u8] + decimal(big)) is None,
        port_from_text(Seq::new(zeros, |i: int| 48u8) + decimal(p as nat)) == Some(p),
{
    lemma_decimal_digits(big);
    lemma_decimal_digits(p as nat);
    assert(decimal(big)[0] != 43u8);
    assert((seq![43u8] + decimal(big)).drop_first() =~= decimal(big));
    let z = Seq::new(zeros, |i: int| 48u8);
    let t = z + decimal(p as nat);
    lemma_leading_zeros(z, decimal(p as nat));
    assert(t[0] != 43u8);
    assert forall|i: int| 0 <= i < t.len() implies 48 <= #[trigger] t[i] <= 57 by {
        if i >= z.len() {
            assert(t[i] == decimal(p as nat)[i - z.len()]);
        }
    }
}

impl Config {
    /// The Unity OSC port typed in the settings: set when `text` is a port,
    /// otherwise the port stays.
    pub fn submit_unity_port(&mut self, text: &str) -> (accepted: bool)
        ensures
            accepted == (port_from_text(text.spec_bytes()) is Some),
            final(self)@ == (match port_from_text(text.spec_bytes()) {
                Some(p) => ConfigView { unity_osc_port: p, ..old(self)@ },
                None => old(self)@,
            }),
    {
        let b = text.as_bytes();
        let ghost bs = b@;
        let mut i: usize = 0;
        if b.len() > 0 && b[0] == 43 {
            i = 1;
        }
        let start = i;
        let ghost d = if bs.len() > 0 && bs[0] == 43 {
            bs.drop_first()
        } else {
            bs
        };
        assert(d =~= bs.skip(start as int));
        if start == b.len() {
            return false;
        }
        let mut v: u32 = 0;
        while i < b.len()
            invariant
                start <= i <= b@.len(),
                b@ == bs,
                bs == text.spec_bytes(),
                d == (if bs.len() > 0 && bs[0] == 43 {
                    bs.drop_first()
                } else {
                    bs
                }),
                d =~= bs.skip(start as int),
                all_digits(bs.subrange(start as int, i as int)),
                v == digits_value(bs.subrange(start as int, i as int)),
                v < 65536,
            decreases b@.len() - i,
        {
            let c = b[i];
            if c < 48 || c > 57 {
                assert(d[i - start] == c);
                assert(!all_digits(d));
                return false;
            }
            let ghost prev = bs.subrange(start as int, i as int);
            let ghost next = bs.subrange(start as int, i + 1);
            assert(next.drop_last() =~= prev);
            assert(all_digits(next));
            let nv = v * 10 + (c - 48) as u32;
            if nv >= 65536 {
                proof {
                    if all_digits(d) {
                        assert(d.take(i + 1 - start) =~= next);
                        lemma_digits_value_grows(d, i + 1 - start);
                    }
                }
                return false;
            }
            v = nv;
            i = i + 1;
        }
        assert(bs.subrange(start as int, i as int) =~= d);
        self.unity_osc_port = v as u16;
        true
    }
}

} // verus!
