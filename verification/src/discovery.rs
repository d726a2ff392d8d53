//! The decisions of device discovery: which mDNS services are straps, and
//! which Bluetooth peripherals offer the strap's service.
use vstd::prelude::*;

verus! {

/// The Bluetooth service that a strap advertises
/// (`49535343-fe7d-4ae5-8fa9-9fafd205e455`).
pub const BLE_SERVICE_UUID: u128 = 0x49535343_fe7d_4ae5_8fa9_9fafd205e455u128;

/// The Bluetooth characteristic that carries the strap's frames
/// (`49535343-1e4d-4bd9-ba61-23c647249616`).
pub const CHARACTERISTIC_UUID: u128 = 0x49535343_1e4d_4bd9_ba61_23c647249616u128;

/// Whether an advertisement that lists `services` comes from a strap.
pub fn advertises_strap(services: &[u128]) -> (r: bool)
    ensures
        r == services@.contains(BLE_SERVICE_UUID),
{
    let mut i: usize = 0;
    while i < services.len()
        invariant
            i <= services@.len(),
            forall|j: int| 0 <= j < i ==> services@[j] != BLE_SERVICE_UUID,
        decreases services@.len() - i,
    {
        if services[i] == BLE_SERVICE_UUID {
            return true;
        }
        i = i + 1;
    }
    false
}

/// The position of the first characteristic with the strap's UUID among
/// the `uuids` of a peripheral's characteristics.
pub fn find_characteristic(uuids: &[u128]) -> (r: Option<usize>)
    ensures
        match r {
            Some(i) => i < uuids@.len() && uuids@[i as int] == CHARACTERISTIC_UUID && forall|j: int|
                0 <= j < i ==> uuids@[j] != CHARACTERISTIC_UUID,
            None => !uuids@.contains(CHARACTERISTIC_UUID),
        },
{
    let mut i: usize = 0;
    while i < uuids.len()
        invariant
            i <= uuids@.len(),
            forall|j: int| 0 <= j < i ==> uuids@[j] != CHARACTERISTIC_UUID,
        decreases uuids@.len() - i,
    {
        if uuids[i] == CHARACTERISTIC_UUID {
            return Some(i);
        }
        i = i + 1;
    }
    None
}

/// The name shown for a Bluetooth peripheral: its local name, or `???`.
pub fn peripheral_name(local_name: Option<String>) -> (r: String)
    ensures
        r@ == match local_name {
            Some(n) => n@,
            None => "???"@,
        },
{
    match local_name {
        Some(n) => n,
        None => "???".to_owned(),
    }
}

/// The text that the host name of a strap's mDNS service contains.
pub open spec fn strap_marker() -> Seq<char> {
    "patstrap"@
}

/// Whether `host` contains `strap_marker()`.
pub open spec fn names_strap(host: Seq<char>) -> bool {
    exists|i: int|
        0 <= i && i + strap_marker().len() <= host.len() && #[trigger] host.subrange(
            i,
            i + strap_marker().len(),
        ) == strap_marker()
}

/// The mDNS services seen so far, by full name.
pub struct WifiDiscovery {
    seen: Vec<String>,
}

impl View for WifiDiscovery {
    type V = Set<Seq<char>>;

    closed spec fn view(&self) -> Set<Seq<char>> {
        self.seen@.map_values(|s: String| s@).to_set()
    }
}

impl WifiDiscovery {
    /// Nothing seen yet.
    pub fn new() -> (r: Self)
        ensures
            r@ == Set::<Seq<char>>::empty(),
    {
        let r = WifiDiscovery { seen: Vec::new() };
        assert(r@ =~= Set::<Seq<char>>::empty());
        r
    }

    /// A service called `fullname` on host `hostname` was resolved: it is
    /// added as a device when it was not seen before and its host names a
    /// strap. Either way it counts as seen afterwards.
    pub fn on_resolved(&mut self, fullname: &String, hostname: &str) -> (add: bool)
        ensures
            final(self)@ == old(self)@.insert(fullname@),
            add == (!old(self)@.contains(fullname@) && names_strap(hostname@)),
    {
        let mut i: usize = 0;
        while i < self.seen.len()
            invariant
                i <= self.seen@.len(),
                self@ == old(self)@,
                forall|j: int| 0 <= j < i ==> self.seen@[j]@ != fullname@,
            decreases self.seen@.len() - i,
        {
            if self.seen[i] == *fullname {
                assert(self.seen@.map_values(|s: String| s@)[i as int] == fullname@);
                assert(old(self)@.insert(fullname@) =~= old(self)@);
                return false;
            }
            i = i + 1;
        }
        let ghost before = self.seen@;
        let ghost m = before.map_values(|s: String| s@);
        assert(!old(self)@.contains(fullname@)) by {
            if m.to_set().contains(fullname@) {
                assert(m.contains(fullname@));
                let k = choose|k: int| 0 <= k < m.len() && #[trigger] m[k] == fullname@;
                assert(before[k]@ == fullname@);
            }
        }
        self.seen.push(fullname.clone());
        assert(self.seen@.map_values(|s: String| s@) =~= before.map_values(|s: String| s@).push(
            fullname@,
        ));
        proof {
            before.map_values(|s: String| s@).lemma_push_to_set_commute(fullname@);
        }
        let found = crate::text::str_contains(hostname, "patstrap");
        proof {
            let h = hostname@;
            let p = strap_marker();
            if found {
                let i = choose|i: int|
                    0 <= i && i + p.len() <= h.len() && #[trigger] h.subrange(i, i + p.len()) == p;
                assert(h.subrange(i, i + p.len()) == p);
            }
            if names_strap(h) {
                let i = choose|i: int|
                    0 <= i && i + p.len() <= h.len() && #[trigger] h.subrange(i, i + p.len()) == p;
                assert(h.subrange(i, i + p.len()) == p);
            }
        }
        found
    }
}


/// A service is added at most once: after it was resolved, resolving it
/// again, on any host, adds nothing.
pub proof fn lemma_service_added_once(seen: Set<Seq<char>>, fullname: Seq<char>, host1: Seq<char>, host2: Seq<char>)
    ensures
        !((!seen.contains(fullname) && names_strap(host1)) && (!seen.insert(fullname).contains(fullname)
            && names_strap(host2))),
{
}

} // verus!
