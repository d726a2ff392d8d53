//! The state of one discovered device: whether a connection task runs for
//! it, whether the strap confirmed the connection, and its battery level.
//!
//! The connection task itself (the socket or Bluetooth link, its channels
//! and its timer) runs outside the library; it hands the commands it reads
//! to `Device::update` and sends what `Device::exec` lets through.
use vstd::prelude::*;

use crate::config::{
    Config, ConfigView, device_position, matching, with_device, with_device_haptic, with_haptic,
};
use crate::protocol::{CommandClient, CommandClientView, CommandServer};

verus! {

/// What the window shows of a device's connection.
#[derive(Debug, PartialEq, Eq, Structural, Clone, Copy)]
pub enum ConnectionStatus {
    Disconnected,
    Connecting,
    Connected,
}

/// A discovered device. `link` is whatever the application keeps to reach
/// the device (its connection and the handles of its connection task); the
/// library only carries it.
pub struct Device<L> {
    id: String,
    name: String,
    addr: String,
    session: bool,
    connected: bool,
    battery: Option<u8>,
    link: L,
}

pub struct DeviceView {
    pub id: Seq<char>,
    pub name: Seq<char>,
    pub addr: Seq<char>,
    /// A connection task runs for the device.
    pub session: bool,
    /// The strap confirmed the connection.
    pub connected: bool,
    /// The last battery level the strap reported during this connection.
    pub battery: Option<u8>,
}

impl<L> View for Device<L> {
    type V = DeviceView;

    closed spec fn view(&self) -> DeviceView {
        DeviceView {
            id: self.id@,
            name: self.name@,
            addr: self.addr@,
            session: self.session,
            connected: self.connected,
            battery: self.battery,
        }
    }
}

/// The status shown for a device in state `d`.
pub open spec fn status_of(d: DeviceView) -> ConnectionStatus {
    if d.session && d.connected {
        ConnectionStatus::Connected
    } else if d.session {
        ConnectionStatus::Connecting
    } else {
        ConnectionStatus::Disconnected
    }
}

impl DeviceView {
    /// The connection is confirmed, and a battery level known, only while
    /// a session runs.
    pub open spec fn wf(self) -> bool {
        (self.connected || self.battery is Some) ==> self.session
    }
}

/// The device's state after the strap sent `c`. Commands are taken only
/// while a session runs; a device without one has no commands to take.
pub open spec fn device_after(d: DeviceView, c: CommandClientView) -> DeviceView {
    if !d.session {
        d
    } else {
        match c {
        CommandClientView::Connected => DeviceView { connected: true, ..d },
        CommandClientView::Disconnect => DeviceView {
            session: false,
            battery: None,
            connected: false,
            ..d
        },
        CommandClientView::Battery { level } => DeviceView { battery: Some(level), ..d },
        _ => d,
        }
    }
}

/// The settings after device `id` sent `c`.
pub open spec fn config_after(cfg: ConfigView, id: Seq<char>, c: CommandClientView) -> ConfigView {
    match c {
        CommandClientView::Info { channel, name } => with_device_haptic(cfg, id, channel, name),
        _ => cfg,
    }
}

/// The device's state after the strap sent `cmds`, in order.
pub open spec fn device_run(d: DeviceView, cmds: Seq<CommandClientView>) -> DeviceView
    decreases cmds.len(),
{
    if cmds.len() == 0 {
        d
    } else {
        device_after(device_run(d, cmds.drop_last()), cmds.last())
    }
}

/// The settings after a device in state `d` sent `cmds`, in order: each
/// command counts only if the device's session runs when it arrives.
pub open spec fn config_run(cfg: ConfigView, d: DeviceView, cmds: Seq<CommandClientView>) -> ConfigView
    decreases cmds.len(),
{
    if cmds.len() == 0 {
        cfg
    } else {
        let prev = config_run(cfg, d, cmds.drop_last());
        if device_run(d, cmds.drop_last()).session {
            config_after(prev, d.id, cmds.last())
        } else {
            prev
        }
    }
}

/// The commands' views.
pub open spec fn views(cmds: Seq<CommandClient>) -> Seq<CommandClientView> {
    cmds.map_values(|c: CommandClient| c@)
}

impl<L> Device<L> {
    /// A device that was just discovered: not connected, battery unknown.
    pub fn new(id: String, name: String, addr: String, link: L) -> (r: Self)
        ensures
            r@ == (DeviceView {
                id: id@,
                name: name@,
                addr: addr@,
                session: false,
                connected: false,
                battery: None,
            }),
            r@.wf(),
            r.link() == link,
    {
        Self { id, name, addr, session: false, connected: false, battery: None, link }
    }

    /// What the application keeps to reach the device.
    pub closed spec fn link(&self) -> L {
        self.link
    }

    pub fn link_ref(&self) -> (r: &L)
        ensures
            *r == self.link(),
    {
        &self.link
    }

    pub fn link_mut(&mut self) -> (r: &mut L)
        ensures
            *r == old(self).link(),
            final(self)@ == old(self)@,
            final(self).link() == *final(r),
    {
        &mut self.link
    }

    /// The connection status shown for the device.
    pub fn status(&self) -> (r: ConnectionStatus)
        ensures
            r == status_of(self@),
    {
        if self.session && self.connected {
            ConnectionStatus::Connected
        } else if self.session {
            ConnectionStatus::Connecting
        } else {
            ConnectionStatus::Disconnected
        }
    }

    pub fn id(&self) -> (r: String)
        ensures
            r@ == self@.id,
    {
        self.id.clone()
    }

    pub fn name(&self) -> (r: String)
        ensures
            r@ == self@.name,
    {
        self.name.clone()
    }

    pub fn addr(&self) -> (r: String)
        ensures
            r@ == self@.addr,
    {
        self.addr.clone()
    }

    /// The battery level (percent) last reported during this connection.
    pub fn battery(&self) -> (r: Option<u8>)
        ensures
            r == self@.battery,
    {
        self.battery
    }

    /// The position in `cfg` of this device's settings, added with defaults
    /// if it has none.
    pub fn get_cfg(&self, cfg: &mut Config) -> (i: usize)
        ensures
            final(cfg)@ == with_device(old(cfg)@, self@.id),
            i == device_position(final(cfg)@.devices, self@.id),
            i < final(cfg)@.devices.len(),
            old(cfg)@.wf() ==> final(cfg)@.wf(),
    {
        let i = cfg.device_index(&self.id);
        proof {
            crate::config::lemma_first_unique(cfg@.devices, self@.id, i as int);
        }
        i
    }

    /// Applies the commands that the connection task received, in order,
    /// while the session runs: `Connected` confirms the connection,
    /// `Disconnect` ends it and forgets the battery level, `Battery` records
    /// the level, and `Info` records the announced haptic in the device's
    /// settings.
    pub fn update(&mut self, cfg: &mut Config, cmds: &[CommandClient])
        ensures
            final(self)@ == device_run(old(self)@, views(cmds@)),
            final(cfg)@ == config_run(old(cfg)@, old(self)@, views(cmds@)),
            old(cfg)@.wf() ==> final(cfg)@.wf(),
            old(self)@.wf() ==> final(self)@.wf(),
    {
        let mut i: usize = 0;
        while i < cmds.len()
            invariant
                i <= cmds@.len(),
                self@ == device_run(old(self)@, views(cmds@.take(i as int))),
                cfg@ == config_run(old(cfg)@, old(self)@, views(cmds@.take(i as int))),
                self@.id == old(self)@.id,
                old(cfg)@.wf() ==> cfg@.wf(),
                old(self)@.wf() ==> self@.wf(),
            decreases cmds@.len() - i,
        {
            let ghost prev = views(cmds@.take(i as int));
            assert(views(cmds@.take(i + 1)).drop_last() =~= prev);
            assert(views(cmds@.take(i + 1)).last() == cmds@[i as int]@);
            if self.session {
                match &cmds[i] {
                    CommandClient::Connected => {
                        self.connected = true;
                    },
                    CommandClient::Disconnect => {
                        self.session = false;
                        self.battery = None;
                        self.connected = false;
                    },
                    CommandClient::Info { channel, name } => {
                        cfg.add_device_haptic(&self.id, *channel, name.clone());
                    },
                    CommandClient::Battery { level } => {
                        self.battery = Some(*level);
                    },
                    CommandClient::Invalid => {},
                }
            }
            i = i + 1;
        }
        assert(cmds@.take(cmds@.len() as int) =~= cmds@);
    }

    /// The channel and strength bits of each haptic of this device that
    /// the avatar parameter `osc` drives, by ascending channel; the
    /// device's settings are added with defaults if it has none.
    pub fn haptic_osc(&self, cfg: &mut Config, osc: &str) -> (r: Vec<(u8, u32)>)
        ensures
            final(cfg)@ == with_device(old(cfg)@, self@.id),
            r@ == matching(
                final(cfg)@.devices[device_position(final(cfg)@.devices, self@.id)].1.haptics,
                osc@,
                256,
            ),
            old(cfg)@.wf() ==> final(cfg)@.wf(),
    {
        let i = self.get_cfg(cfg);
        cfg.devices[i].1.matching_haptics(osc)
    }

    /// The command to hand to the connection task, which takes commands
    /// only while it runs.
    pub fn exec(&self, cmd: CommandServer) -> (r: Option<CommandServer>)
        ensures
            r == (if self@.session {
                Some(cmd)
            } else {
                None
            }),
    {
        if self.session {
            Some(cmd)
        } else {
            None
        }
    }

    /// Asked to connect: a new connection task is started unless the
    /// device is connected already.
    pub fn connect(&mut self) -> (started: bool)
        ensures
            started == (status_of(old(self)@) != ConnectionStatus::Connected),
            final(self)@ == (if started {
                DeviceView { session: true, ..old(self)@ }
            } else {
                old(self)@
            }),
            old(self)@.wf() ==> final(self)@.wf(),
    {
        if self.status() == ConnectionStatus::Connected {
            return false;
        }
        self.session = true;
        true
    }

    /// Asked to disconnect: whether there is a connection task to cancel.
    /// The task then reports `Disconnect`, which `update` applies.
    pub fn disconnect(&self) -> (cancel: bool)
        ensures
            cancel == self@.session,
    {
        self.session
    }

    /// The connection task could not open the connection and stopped: the
    /// session ends unconfirmed, with no battery level.
    pub fn connection_failed(&mut self)
        ensures
            final(self)@ == (DeviceView {
                session: false,
                connected: false,
                battery: None,
                ..old(self)@
            }),
            final(self)@.wf(),
    {
        self.session = false;
        self.connected = false;
        self.battery = None;
    }
}


/// Whether any device is connected: the window's device indicator.
pub fn any_connected<L>(devices: &[Device<L>]) -> (r: bool)
    ensures
        r == exists|i: int|
            0 <= i < devices@.len() && status_of(#[trigger] devices@[i]@)
                == ConnectionStatus::Connected,
{
    let mut i: usize = 0;
    while i < devices.len()
        invariant
            i <= devices@.len(),
            forall|j: int|
                0 <= j < i ==> status_of(#[trigger] devices@[j]@) != ConnectionStatus::Connected,
        decreases devices@.len() - i,
    {
        if devices[i].status() == ConnectionStatus::Connected {
            return true;
        }
        i = i + 1;
    }
    false
}

/// Each device's state together with what the application keeps for it.
pub open spec fn device_entries<L>(devices: Seq<Device<L>>) -> Seq<(DeviceView, L)> {
    devices.map_values(|d: Device<L>| (d@, d.link()))
}

/// The entries of `ds` whose identifier is not `id`, in order.
pub open spec fn without_id<L>(ds: Seq<(DeviceView, L)>, id: Seq<char>) -> Seq<(DeviceView, L)>
    decreases ds.len(),
{
    if ds.len() == 0 {
        seq![]
    } else {
        let rest = without_id(ds.drop_last(), id);
        if ds.last().0.id == id {
            rest
        } else {
            rest.push(ds.last())
        }
    }
}

/// A Bluetooth peripheral with identifier `id` disconnected: its devices
/// leave the list; the others keep their order, their state and what the
/// application keeps for them.
pub fn remove_device<L>(devices: &mut Vec<Device<L>>, id: &str)
    ensures
        device_entries(final(devices)@) == without_id(device_entries(old(devices)@), id@),
        device_entries(final(devices)@) == device_entries(old(devices)@).filter(
            |e: (DeviceView, L)| e.0.id != id@,
        ),
        forall|i: int| 0 <= i < final(devices)@.len() ==> (#[trigger] final(devices)@[i])@.id != id@,
{
    let ghost orig = device_entries(devices@);
    let mut i: usize = 0;
    let ghost mut k: int = 0;
    while i < devices.len()
        invariant
            0 <= i <= k <= orig.len(),
            i <= devices@.len(),
            devices@.len() - i == orig.len() - k,
            device_entries(devices@).take(i as int) == without_id(orig.take(k), id@),
            device_entries(devices@).skip(i as int) == orig.skip(k),
        decreases devices@.len() - i,
    {
        let ghost before = device_entries(devices@);
        assert(k < orig.len());
        assert(orig.take(k + 1).drop_last() =~= orig.take(k));
        assert(before[i as int] == orig[k]) by {
            assert(before.skip(i as int)[0] == orig.skip(k)[0]);
        }
        if crate::text::str_eq(devices[i].id.as_str(), id) {
            devices.remove(i);
            assert(device_entries(devices@) =~= before.remove(i as int));
            assert(device_entries(devices@).take(i as int) =~= before.take(i as int));
            assert(device_entries(devices@).skip(i as int) =~= before.skip(i as int).skip(1));
            assert(orig.skip(k + 1) =~= orig.skip(k).skip(1));
        } else {
            assert(device_entries(devices@).take(i + 1) =~= before.take(i as int).push(before[i as int]));
            assert(before.skip(i + 1) =~= before.skip(i as int).skip(1));
            assert(orig.skip(k + 1) =~= orig.skip(k).skip(1));
            i = i + 1;
        }
        proof {
            k = k + 1;
        }
    }
    assert(orig.skip(k).len() == 0);
    assert(orig.take(k) =~= orig);
    assert(device_entries(devices@).take(i as int) =~= device_entries(devices@));
    proof {
        lemma_without_id_is_filter(orig, id@);
        assert forall|j: int| 0 <= j < devices@.len() implies (#[trigger] devices@[j])@.id != id@ by {
            assert(device_entries(devices@)[j].0 == devices@[j]@);
        }
    }
}


/// Commands keep a device well-formed.
pub proof fn lemma_run_keeps_wf(d: DeviceView, cmds: Seq<CommandClientView>)
    requires
        d.wf(),
    ensures
        device_run(d, cmds).wf(),
    decreases cmds.len(),
{
    if cmds.len() > 0 {
        lemma_run_keeps_wf(d, cmds.drop_last());
    }
}

/// Whatever the strap sent before, a `Disconnect` leaves the device
/// disconnected with its battery level unknown.
pub proof fn lemma_disconnect_resets(d: DeviceView, cmds: Seq<CommandClientView>)
    requires
        d.wf(),
    ensures
        status_of(device_run(d, cmds.push(CommandClientView::Disconnect)))
            == ConnectionStatus::Disconnected,
        device_run(d, cmds.push(CommandClientView::Disconnect)).battery is None,
{
    assert(cmds.push(CommandClientView::Disconnect).drop_last() =~= cmds);
    lemma_run_keeps_wf(d, cmds);
}

/// Commands never change a device's identity or name and address.
pub proof fn lemma_run_keeps_identity(d: DeviceView, cmds: Seq<CommandClientView>)
    ensures
        device_run(d, cmds).id == d.id,
        device_run(d, cmds).name == d.name,
        device_run(d, cmds).addr == d.addr,
    decreases cmds.len(),
{
    if cmds.len() > 0 {
        lemma_run_keeps_identity(d, cmds.drop_last());
    }
}

/// Announcements never change a haptic that is configured already: the
/// user's settings of a channel survive every later `update`.
pub proof fn lemma_update_keeps_configured_haptics(
    cfg: ConfigView,
    d: DeviceView,
    cmds: Seq<CommandClientView>,
    i: int,
    c: u8,
)
    requires
        0 <= i < cfg.devices.len(),
        cfg.devices[i].1.haptics.contains_key(c),
    ensures
        ({
            let r = config_run(cfg, d, cmds);
            &&& i < r.devices.len()
            &&& r.devices[i].0 == cfg.devices[i].0
            &&& r.devices[i].1.haptics.contains_key(c)
            &&& r.devices[i].1.haptics[c] == cfg.devices[i].1.haptics[c]
        }),
    decreases cmds.len(),
{
    if cmds.len() > 0 {
        lemma_update_keeps_configured_haptics(cfg, d, cmds.drop_last(), i, c);
        let prev = config_run(cfg, d, cmds.drop_last());
        let id = d.id;
        let h = cfg.devices[i].1.haptics[c];
        if !device_run(d, cmds.drop_last()).session {
            assert(config_run(cfg, d, cmds) == prev);
        } else {
        match cmds.last() {
            CommandClientView::Info { channel, name } => {
                let c1 = with_device(prev, id);
                assert(i < c1.devices.len() && c1.devices[i] == prev.devices[i]);
                let p = device_position(c1.devices, id);
                let r = with_device_haptic(prev, id, channel, name);
                if crate::config::has_device(prev.devices, id) {
                    let w = choose|w: int| 0 <= w < prev.devices.len() && prev.devices[w].0 == id;
                    crate::config::lemma_first_exists(prev.devices, id, w);
                } else {
                    assert(c1.devices[prev.devices.len() as int].0 == id);
                    crate::config::lemma_first_exists(c1.devices, id, prev.devices.len() as int);
                }
                assert(0 <= p < c1.devices.len() && c1.devices[p].0 == id);
                if p == i {
                    let dc = c1.devices[i].1;
                    assert(dc.haptics.contains_key(c) && dc.haptics[c] == h);
                    let dc2 = with_haptic(dc, channel, name);
                    if !dc.haptics.contains_key(channel) {
                        assert(channel != c);
                        assert(dc2.haptics[c] == h);
                    }
                    assert(dc2.haptics.contains_key(c) && dc2.haptics[c] == h);
                    assert(r.devices[i] == (id, dc2));
                } else {
                    assert(r.devices[i] == c1.devices[i]);
                }
                assert(config_run(cfg, d, cmds) == r);
            },
            _ => {
                assert(config_run(cfg, d, cmds) == prev);
            },
        }
    }
    }
}

/// The session and confirmation flags after the strap sent `cmds`: the
/// session ends at the first `Disconnect` and never restarts by a command;
/// without a `Disconnect`, the connection is confirmed once a `Connected`
/// arrived.
pub proof fn lemma_flags_over_history(d: DeviceView, cmds: Seq<CommandClientView>)
    ensures
        device_run(d, cmds).session == (d.session && !cmds.contains(CommandClientView::Disconnect)),
        !cmds.contains(CommandClientView::Disconnect) ==> device_run(d, cmds).connected == (
        d.connected || (d.session && cmds.contains(CommandClientView::Connected))),
    decreases cmds.len(),
{
    if cmds.len() > 0 {
        let prev = cmds.drop_last();
        lemma_flags_over_history(d, prev);
        assert forall|c: CommandClientView| cmds.contains(c) <==> (prev.contains(c) || cmds.last() == c) by {
            if cmds.contains(c) {
                let k = choose|k: int| 0 <= k < cmds.len() && cmds[k] == c;
                if k < prev.len() {
                    assert(prev[k] == c);
                }
            }
            if prev.contains(c) {
                let k = choose|k: int| 0 <= k < prev.len() && prev[k] == c;
                assert(cmds[k] == c);
            }
            if cmds.last() == c {
                assert(cmds[cmds.len() - 1] == c);
            }
        }
    }
}

/// The status over a history: starting from `d` (for a session that was
/// just started, `d` has a session and no confirmation), after the strap
/// sent `cmds` the device shows Disconnected once a `Disconnect` arrived
/// or without a session, Connected when the session was confirmed before
/// or by a `Connected` among `cmds`, and Connecting otherwise.
pub proof fn lemma_status_over_history(d: DeviceView, cmds: Seq<CommandClientView>)
    ensures
        status_of(device_run(d, cmds)) == (if cmds.contains(CommandClientView::Disconnect)
            || !d.session {
            ConnectionStatus::Disconnected
        } else if d.connected || cmds.contains(CommandClientView::Connected) {
            ConnectionStatus::Connected
        } else {
            ConnectionStatus::Connecting
        }),
{
    lemma_flags_over_history(d, cmds);
}


/// Every battery report during a session replaces the level: after a
/// `Battery { level }` that arrives while the session runs, the device
/// shows exactly `level`, whatever it showed before, and the session and
/// its confirmation are as they were.
pub proof fn lemma_battery_report_replaces_level(d: DeviceView, cmds: Seq<CommandClientView>, level: u8)
    requires
        device_run(d, cmds).session,
    ensures
        device_run(d, cmds.push(CommandClientView::Battery { level })).battery == Some(level),
        device_run(d, cmds.push(CommandClientView::Battery { level })).session,
        device_run(d, cmds.push(CommandClientView::Battery { level })).connected == device_run(
            d,
            cmds,
        ).connected,
{
    assert(cmds.push(CommandClientView::Battery { level }).drop_last() =~= cmds);
}

/// A haptic announced while the session runs is recorded, confirmed or
/// not: unless the channel is configured already, the device's settings
/// then hold, on that channel, a haptic with the announced name, driven by
/// the avatar parameter `/avatar/parameters/pat_` followed by the name in
/// lower case, at full strength (the `f32` 1.0).
pub proof fn lemma_announcement_is_recorded(
    cfg: ConfigView,
    d: DeviceView,
    cmds: Seq<CommandClientView>,
    channel: u8,
    name: Seq<char>,
)
    requires
        device_run(d, cmds).session,
    ensures
        config_run(cfg, d, cmds.push(CommandClientView::Info { channel, name })) == with_device_haptic(
            config_run(cfg, d, cmds),
            d.id,
            channel,
            name,
        ),
        ({
            let before = config_run(cfg, d, cmds);
            let after = config_run(cfg, d, cmds.push(CommandClientView::Info { channel, name }));
            !(crate::config::has_device(before.devices, d.id) && before.devices[device_position(
                before.devices,
                d.id,
            )].1.haptics.contains_key(channel)) ==> exists|i: int|
                0 <= i < after.devices.len() && after.devices[i].0 == d.id
                    && #[trigger] after.devices[i].1.haptics.contains_key(channel)
                    && after.devices[i].1.haptics[channel] == (crate::config::HapticView {
                    name,
                    vrc_parameter: "/avatar/parameters/pat_"@ + crate::text::lowercase(name),
                    strength_bits: 0x3f80_0000u32,
                    channel,
                })
        }),
{
    let c = cmds.push(CommandClientView::Info { channel, name });
    assert(c.drop_last() =~= cmds);
    let before = config_run(cfg, d, cmds);
    let after = config_run(cfg, d, c);
    if !(crate::config::has_device(before.devices, d.id) && before.devices[device_position(
        before.devices,
        d.id,
    )].1.haptics.contains_key(channel)) {
        let c2 = with_device(before, d.id);
        if crate::config::has_device(before.devices, d.id) {
            let w = choose|w: int| 0 <= w < before.devices.len() && before.devices[w].0 == d.id;
            crate::config::lemma_first_exists(before.devices, d.id, w);
        } else {
            let w = before.devices.len() as int;
            assert(c2.devices[w].0 == d.id);
            crate::config::lemma_first_exists(c2.devices, d.id, w);
        }
        let i = device_position(c2.devices, d.id);
        assert(!c2.devices[i].1.haptics.contains_key(channel));
        assert(after.devices[i].0 == d.id);
        assert(after.devices[i].1.haptics.contains_key(channel));
        assert(after.devices[i].1.haptics[channel] == crate::config::announced_haptic(channel, name));
    }
}

/// Removing a peripheral's devices keeps exactly the others: the result is
/// the list filtered by "another identifier", and no device with the
/// removed identifier is left.
pub proof fn lemma_without_id_is_filter<L>(ds: Seq<(DeviceView, L)>, id: Seq<char>)
    ensures
        without_id(ds, id) == ds.filter(|e: (DeviceView, L)| e.0.id != id),
        forall|i: int| 0 <= i < without_id(ds, id).len() ==> (#[trigger] without_id(ds, id)[i]).0.id != id,
    decreases ds.len(),
{
    let pred = |e: (DeviceView, L)| e.0.id != id;
    reveal(Seq::filter);
    if ds.len() > 0 {
        lemma_without_id_is_filter(ds.drop_last(), id);
    }
    assert(without_id(ds, id) == ds.filter(pred));
    let r = ds.filter(pred);
    assert forall|i: int| 0 <= i < r.len() implies (#[trigger] r[i]).0.id != id by {
        ds.lemma_filter_pred(pred, i);
    }
}

} // verus!
