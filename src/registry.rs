//! The device registry: the transport handle of each peripheral seen by the
//! current discovery pass, keyed by address.
use std::collections::HashMap;
use vstd::prelude::*;

use crate::address::BleAddress;

verus! {

broadcast use vstd::std_specs::hash::group_hash_axioms;

/// Transport handles of discovered peripherals, one per address.
pub struct DeviceRegistry<P> {
    devices: HashMap<u64, P>,
}

impl<P> DeviceRegistry<P> {
    /// The handle registered for each address key.
    pub closed spec fn view(&self) -> Map<int, P> {
        Map::new(|k: int| self.devices@.contains_key(k as u64) && 0 <= k < 0x1_0000_0000_0000,
            |k: int| self.devices@[k as u64])
    }

    pub closed spec fn wf(&self) -> bool {
        forall|k: u64| #[trigger] self.devices@.contains_key(k) ==> k < 0x1_0000_0000_0000
    }

    /// An empty registry.
    pub fn new() -> (r: Self)
        ensures
            r.wf(),
            r.view() == Map::<int, P>::empty(),
    {
        let r = DeviceRegistry { devices: HashMap::new() };
        assert(r.view() =~= Map::<int, P>::empty());
        r
    }

    /// Forgets every handle.
    pub fn clear(&mut self)
        ensures
            final(self).wf(),
            final(self).view() == Map::<int, P>::empty(),
    {
        self.devices.clear();
        assert(self.view() =~= Map::<int, P>::empty());
    }

    /// Registers `peripheral` for `address`, replacing an earlier handle.
    pub fn insert(&mut self, address: &BleAddress, peripheral: P)
        requires
            old(self).wf(),
        ensures
            final(self).wf(),
            final(self).view() == old(self).view().insert(address.key(), peripheral),
    {
        let key = address.key_u64();
        self.devices.insert(key, peripheral);
        assert(self.view() =~= old(self).view().insert(address.key(), peripheral));
    }

    /// The handle registered for `address`.
    pub fn get(&self, address: &BleAddress) -> (r: Option<&P>)
        requires
            self.wf(),
        ensures
            match r {
                Some(p) => self.view().contains_key(address.key()) && *p == self.view()[address.key()],
                None => !self.view().contains_key(address.key()),
            },
    {
        let key = address.key_u64();
        self.devices.get(&key)
    }

    /// Whether no handle is registered.
    pub fn is_empty(&self) -> (r: bool)
        requires
            self.wf(),
        ensures
            r == (self.view().dom() == Set::<int>::empty()),
    {
        let r = self.devices.is_empty();
        proof {
            if !r {
                let k = choose|k: u64| self.devices@.contains_key(k);
                assert(self.view().contains_key(k as int));
            } else {
                assert(self.view().dom() =~= Set::<int>::empty());
            }
        }
        r
    }
}

} // verus!
