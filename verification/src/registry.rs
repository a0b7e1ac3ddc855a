use vstd::prelude::*;
use crate::address::SocketAddress;
use crate::properties::{PropSeq, Properties};
use crate::text::str_eq;

verus! {

/// A discovered device with its properties.
///
/// A device has both a service ID and a unique ID; devices are deduplicated by that
/// pair.
#[derive(Debug)]
pub struct DiscoveredDevice {
    /// Device address
    pub from: SocketAddress,
    /// Service ID
    pub service_id: String,
    /// Unique device ID
    pub unique_id: String,
    /// All device properties
    pub properties: Properties,
}

/// A device as a mathematical value: address, service ID, unique ID, properties.
pub type DeviceModel = (SocketAddress, Seq<char>, Seq<char>, PropSeq);

impl DiscoveredDevice {
    /// The device as a mathematical value.
    pub open spec fn model(&self) -> DeviceModel {
        (self.from, self.service_id@, self.unique_id@, self.properties@)
    }
}

impl Clone for DiscoveredDevice {
    /// A copy of the device.
    fn clone(&self) -> (r: Self)
        ensures
            r.model() == self.model(),
    {
        DiscoveredDevice {
            from: self.from,
            service_id: self.service_id.clone(),
            unique_id: self.unique_id.clone(),
            properties: self.properties.clone(),
        }
    }
}

/// Whether a device with this service ID and unique ID is among `devices`.
pub open spec fn knows_device(devices: Seq<DeviceModel>, sid: Seq<char>, uid: Seq<char>) -> bool {
    exists|i: int| 0 <= i < devices.len() && (#[trigger] devices[i]).1 == sid && devices[i].2 == uid
}

/// No (service ID, unique ID) pair occurs twice.
pub open spec fn devices_distinct(devices: Seq<DeviceModel>) -> bool {
    forall|i: int, j: int|
        0 <= i < j < devices.len() ==> !((#[trigger] devices[i]).1 == (#[trigger] devices[j]).1
            && devices[i].2 == devices[j].2)
}

/// The models of a list of devices.
pub open spec fn device_models(v: Seq<DiscoveredDevice>) -> Seq<DeviceModel> {
    v.map_values(|d: DiscoveredDevice| d.model())
}

/// The devices found so far, in the order found, each pair once.
pub(crate) struct DeviceList {
    devices: Vec<DiscoveredDevice>,
}

impl View for DeviceList {
    type V = Seq<DeviceModel>;

    closed spec fn view(&self) -> Seq<DeviceModel> {
        device_models(self.devices@)
    }
}

impl DeviceList {
    #[verifier::type_invariant]
    pub(crate) open spec fn well_formed(self) -> bool {
        devices_distinct(self@)
    }

    /// An empty list.
    pub(crate) fn new() -> (r: Self)
        ensures
            r@ == Seq::<DeviceModel>::empty(),
    {
        let r = DeviceList { devices: Vec::new() };
        assert(r@ =~= Seq::<DeviceModel>::empty());
        r
    }

    /// Whether a device with this service ID and unique ID is known.
    pub(crate) fn knows(&self, sid: &str, uid: &str) -> (r: bool)
        ensures
            r == knows_device(self@, sid@, uid@),
            devices_distinct(self@),
    {
        proof {
            use_type_invariant(self);
        }
        let ghost devs = self@;
        let mut i: usize = 0;
        while i < self.devices.len()
            invariant
                i <= self.devices@.len(),
                devs == device_models(self.devices@),
                devs == self@,
                devices_distinct(devs),
                forall|j: int| 0 <= j < i ==> !(devs[j].1 == sid@ && devs[j].2 == uid@),
            decreases self.devices@.len() - i,
        {
            let d = &self.devices[i];
            if str_eq(d.service_id.as_str(), sid) && str_eq(d.unique_id.as_str(), uid) {
                assert(devs[i as int].1 == sid@ && devs[i as int].2 == uid@);
                return true;
            }
            i = i + 1;
        }
        false
    }

    /// Adds a device not yet known.
    pub(crate) fn push(&mut self, d: DiscoveredDevice)
        requires
            !knows_device(old(self)@, d.service_id@, d.unique_id@),
        ensures
            final(self)@ == old(self)@.push(d.model()),
            devices_distinct(final(self)@),
    {
        proof {
            use_type_invariant(&*self);
        }
        let ghost before = self@;
        let mut devices: Vec<DiscoveredDevice> = Vec::new();
        assert(device_models(devices@) =~= Seq::<DeviceModel>::empty());
        std::mem::swap(&mut devices, &mut self.devices);
        devices.push(d);
        assert(device_models(devices@) =~= before.push(d.model()));
        assert forall|i: int, j: int| 0 <= i < j < devices@.len() implies !((#[trigger] device_models(devices@)[i]).1 == (#[trigger] device_models(devices@)[j]).1
            && device_models(devices@)[i].2 == device_models(devices@)[j].2) by {
            if j == before.len() {
                assert(device_models(devices@)[i] == before[i]);
            }
        }
        self.devices = devices;
    }

    /// Copies of all devices, in order.
    pub(crate) fn snapshot(&self) -> (r: Vec<DiscoveredDevice>)
        ensures
            device_models(r@) == self@,
            devices_distinct(self@),
    {
        proof {
            use_type_invariant(self);
        }
        let mut out: Vec<DiscoveredDevice> = Vec::new();
        let mut i: usize = 0;
        while i < self.devices.len()
            invariant
                i <= self.devices@.len(),
                out@.len() == i,
                forall|j: int| 0 <= j < i ==> (#[trigger] out@[j]).model() == self.devices@[j].model(),
            decreases self.devices@.len() - i,
        {
            let d = self.devices[i].clone();
            out.push(d);
            i = i + 1;
        }
        assert(device_models(out@) =~= self@);
        out
    }
}

/// A set of ids, each held once, in the order added.
pub(crate) struct IdSet {
    ids: Vec<u128>,
}

impl View for IdSet {
    type V = Seq<u128>;

    closed spec fn view(&self) -> Seq<u128> {
        self.ids@
    }
}

impl IdSet {
    #[verifier::type_invariant]
    spec fn well_formed(self) -> bool {
        self.ids@.no_duplicates()
    }

    /// An empty set.
    pub(crate) fn new() -> (r: Self)
        ensures
            r@ == Seq::<u128>::empty(),
    {
        IdSet { ids: Vec::new() }
    }

    /// Whether `t` is held.
    pub(crate) fn contains(&self, t: u128) -> (r: bool)
        ensures
            r == self@.contains(t),
    {
        let mut i: usize = 0;
        while i < self.ids.len()
            invariant
                i <= self.ids@.len(),
                forall|j: int| 0 <= j < i ==> self.ids@[j] != t,
            decreases self.ids@.len() - i,
        {
            if self.ids[i] == t {
                return true;
            }
            i = i + 1;
        }
        false
    }

    /// Adds `t` where it is not held yet.
    pub(crate) fn insert(&mut self, t: u128)
        ensures
            final(self)@ == if old(self)@.contains(t) {
                old(self)@
            } else {
                old(self)@.push(t)
            },
            final(self)@.no_duplicates(),
    {
        proof {
            use_type_invariant(&*self);
        }
        if self.contains(t) {
            return;
        }
        let mut ids: Vec<u128> = Vec::new();
        std::mem::swap(&mut ids, &mut self.ids);
        let ghost before = ids@;
        ids.push(t);
        assert forall|a: int, b: int| 0 <= a < b < ids@.len() implies ids@[a] != ids@[b] by {
            if b == before.len() {
                assert(before[a] == ids@[a]);
            }
        }
        self.ids = ids;
    }

    /// Removes `t` where it is held.
    pub(crate) fn remove(&mut self, t: u128)
        ensures
            final(self)@ == old(self)@.remove_value(t),
            final(self)@.no_duplicates(),
    {
        proof {
            use_type_invariant(&*self);
            self.ids@.index_of_first_ensures(t);
        }
        let ghost orig = self.ids@;
        let mut i: usize = 0;
        while i < self.ids.len()
            invariant
                i <= self.ids@.len(),
                self.ids@ == orig,
                orig == old(self)@,
                orig.no_duplicates(),
                forall|j: int| 0 <= j < i ==> self.ids@[j] != t,
            decreases self.ids@.len() - i,
        {
            if self.ids[i] == t {
                let ghost before = self.ids@;
                let mut ids: Vec<u128> = Vec::new();
                std::mem::swap(&mut ids, &mut self.ids);
                ids.remove(i);
                proof {
                    before.index_of_first_ensures(t);
                    assert(before.index_of_first(t) == Some(i as int));
                    assert(before.remove_value(t) =~= ids@);
                    assert forall|a: int, b: int| 0 <= a < b < ids@.len() implies ids@[a]
                        != ids@[b] by {
                        let a2 = if a < i { a } else { a + 1 };
                        let b2 = if b < i { b } else { b + 1 };
                        assert(ids@[a] == before[a2]);
                        assert(ids@[b] == before[b2]);
                    }
                }
                self.ids = ids;
                return;
            }
            i = i + 1;
        }
        assert(!self.ids@.contains(t));
        proof {
            orig.index_of_first_ensures(t);
        }
    }
}

/// The characters of each name.
pub open spec fn name_models(v: Seq<String>) -> Seq<Seq<char>> {
    v.map_values(|n: String| n@)
}

/// A set of names, each held once, in the order added.
pub(crate) struct NameSet {
    names: Vec<String>,
}

impl View for NameSet {
    type V = Seq<Seq<char>>;

    closed spec fn view(&self) -> Seq<Seq<char>> {
        name_models(self.names@)
    }
}

impl NameSet {
    #[verifier::type_invariant]
    spec fn well_formed(self) -> bool {
        self@.no_duplicates()
    }

    /// An empty set.
    pub(crate) fn new() -> (r: Self)
        ensures
            r@ == Seq::<Seq<char>>::empty(),
    {
        let r = NameSet { names: Vec::new() };
        assert(r@ =~= Seq::<Seq<char>>::empty());
        r
    }

    /// Whether `name` is held.
    pub(crate) fn contains(&self, name: &str) -> (r: bool)
        ensures
            r == self@.contains(name@),
    {
        let mut i: usize = 0;
        while i < self.names.len()
            invariant
                i <= self.names@.len(),
                forall|j: int| 0 <= j < i ==> self.names@[j]@ != name@,
            decreases self.names@.len() - i,
        {
            if str_eq(self.names[i].as_str(), name) {
                assert(self@[i as int] == name@);
                return true;
            }
            i = i + 1;
        }
        assert forall|j: int| 0 <= j < self@.len() implies self@[j] != name@ by {
            assert(self@[j] == self.names@[j]@);
        }
        false
    }

    /// Adds `name` where it is not held yet.
    pub(crate) fn insert(&mut self, name: String)
        ensures
            final(self)@ == if old(self)@.contains(name@) {
                old(self)@
            } else {
                old(self)@.push(name@)
            },
            final(self)@.no_duplicates(),
    {
        proof {
            use_type_invariant(&*self);
        }
        if self.contains(name.as_str()) {
            return;
        }
        let ghost before = self@;
        let mut names: Vec<String> = Vec::new();
        assert(name_models(names@) =~= Seq::<Seq<char>>::empty());
        std::mem::swap(&mut names, &mut self.names);
        names.push(name);
        assert(name_models(names@) =~= before.push(name@));
        assert forall|a: int, b: int| 0 <= a < b < name_models(names@).len() implies name_models(
            names@,
        )[a] != name_models(names@)[b] by {
            if b == before.len() {
                assert(before[a] == name_models(names@)[a]);
            }
        }
        self.names = names;
    }

    /// Keeps the names that `keep` holds and gives back the others, both in order.
    pub(crate) fn retain(&mut self, keep: &Vec<String>) -> (r: Vec<String>)
        ensures
            final(self)@ == old(self)@.filter(|n: Seq<char>| name_models(keep@).contains(n)),
            final(self)@.no_duplicates(),
            name_models(r@) == old(self)@.filter(|n: Seq<char>| !name_models(keep@).contains(n)),
    {
        proof {
            use_type_invariant(&*self);
        }
        let ghost before = self@;
        let ghost ks = name_models(keep@);
        let mut names: Vec<String> = Vec::new();
        assert(name_models(names@) =~= Seq::<Seq<char>>::empty());
        std::mem::swap(&mut names, &mut self.names);
        let mut kept: Vec<String> = Vec::new();
        let mut dropped: Vec<String> = Vec::new();
        let mut rest = names;
        let n = rest.len();
        let mut i: usize = 0;
        assert(before == name_models(rest@));
        while i < n
            invariant
                n == rest@.len(),
                i <= n,
                before == name_models(rest@),
                ks == name_models(keep@),
                before.no_duplicates(),
                name_models(kept@) == before.take(i as int).filter(|n: Seq<char>| ks.contains(n)),
                name_models(dropped@) == before.take(i as int).filter(|n: Seq<char>| !ks.contains(n)),
                name_models(kept@).no_duplicates(),
                forall|x: Seq<char>| name_models(kept@).contains(x) ==> before.take(i as int).contains(x),
            decreases n - i,
        {
            let name = rest[i].clone();
            let mut found = false;
            let mut j: usize = 0;
            while j < keep.len()
                invariant
                    j <= keep@.len(),
                    ks == name_models(keep@),
                    found == ks.take(j as int).contains(name@),
                decreases keep@.len() - j,
            {
                let eq = str_eq(keep[j].as_str(), name.as_str());
                proof {
                    let t0 = ks.take(j as int);
                    let t1 = ks.take(j + 1);
                    assert(t1 =~= t0.push(ks[j as int]));
                    assert(ks[j as int] == keep@[j as int]@);
                    if t0.contains(name@) {
                        let k = choose|k: int| 0 <= k < t0.len() && t0[k] == name@;
                        assert(t1[k] == name@);
                    }
                    if eq {
                        assert(t1[j as int] == name@);
                    }
                    if t1.contains(name@) && !eq {
                        let k = choose|k: int| 0 <= k < t1.len() && t1[k] == name@;
                        assert(k < j);
                        assert(t0[k] == name@);
                    }
                }
                if eq {
                    found = true;
                }
                j = j + 1;
            }
            assert(ks.take(j as int) =~= ks);
            proof {
                reveal_with_fuel(Seq::<_>::filter, 1);
                assert(before.take(i + 1).drop_last() =~= before.take(i as int));
            }
            if found {
                let ghost km = name_models(kept@);
                assert(!km.contains(before[i as int])) by {
                    if km.contains(before[i as int]) {
                        let k = choose|k: int| 0 <= k < i && before.take(i as int)[k] == before[i as int];
                        assert(before[k] == before[i as int]);
                    }
                }
                kept.push(name);
                assert(name_models(kept@) =~= km.push(before[i as int]));
                assert forall|x: Seq<char>| name_models(kept@).contains(x) implies before.take(i + 1).contains(x) by {
                    if x == before[i as int] {
                        assert(before.take(i + 1)[i as int] == x);
                    } else {
                        let k = choose|k: int| 0 <= k < name_models(kept@).len() && name_models(kept@)[k] == x;
                        assert(km.contains(x)) by { assert(km[k] == x); }
                        let m = choose|m: int| 0 <= m < i && before.take(i as int)[m] == x;
                        assert(before.take(i + 1)[m] == x);
                    }
                }
                assert forall|a: int, b: int| 0 <= a < b < name_models(kept@).len() implies name_models(kept@)[a] != name_models(kept@)[b] by {
                    if b == km.len() {
                        assert(name_models(kept@)[a] == km[a]);
                        assert(km.contains(km[a]));
                    } else {
                        assert(name_models(kept@)[a] == km[a]);
                        assert(name_models(kept@)[b] == km[b]);
                    }
                }
                assert(name_models(kept@) =~= before.take(i + 1).filter(|n: Seq<char>| ks.contains(n)));
                assert(name_models(dropped@) =~= before.take(i + 1).filter(|n: Seq<char>| !ks.contains(n)));
            } else {
                assert forall|x: Seq<char>| name_models(kept@).contains(x) implies before.take(i + 1).contains(x) by {
                    let m = choose|m: int| 0 <= m < i && before.take(i as int)[m] == x;
                    assert(before.take(i + 1)[m] == x);
                }
                dropped.push(name);
                assert(name_models(kept@) =~= before.take(i + 1).filter(|n: Seq<char>| ks.contains(n)));
                assert(name_models(dropped@) =~= before.take(i + 1).filter(|n: Seq<char>| !ks.contains(n)));
            }
            i = i + 1;
        }
        assert(before.take(n as int) =~= before);
        self.names = kept;
        dropped
    }

    /// Removes every name and gives them back in order.
    pub(crate) fn take_all(&mut self) -> (r: Vec<String>)
        ensures
            final(self)@ == Seq::<Seq<char>>::empty(),
            name_models(r@) == old(self)@,
    {
        let mut names: Vec<String> = Vec::new();
        assert(name_models(names@) =~= Seq::<Seq<char>>::empty());
        std::mem::swap(&mut names, &mut self.names);
        names
    }
}

} // verus!
