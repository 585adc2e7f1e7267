//! Device snapshots and the sorted, address-unique discovery listing.
use vstd::prelude::*;

use crate::address::BleAddress;

verus! {

/// A snapshot of a peripheral: its address, advertised name and whether it
/// was connected when the snapshot was taken. Identity is the address alone.
#[derive(Debug, Clone, Eq)]
pub struct BleDevice {
    pub address: BleAddress,
    pub name: String,
    pub is_connected: bool,
}

impl BleDevice {
    /// The identity of the device: its address as a number.
    pub open spec fn key(self) -> int {
        self.address.key()
    }

    /// A copy of this snapshot, field by field.
    pub fn duplicate(&self) -> (r: BleDevice)
        ensures
            r == *self,
    {
        BleDevice { address: self.address, name: self.name.clone(), is_connected: self.is_connected }
    }
}

impl PartialEq for BleDevice {
    fn eq(&self, other: &BleDevice) -> (r: bool) {
        self.address.same_as(&other.address)
    }
}

impl vstd::std_specs::cmp::PartialEqSpecImpl for BleDevice {
    open spec fn obeys_eq_spec() -> bool {
        true
    }

    open spec fn eq_spec(&self, other: &BleDevice) -> bool {
        self.key() == other.key()
    }
}

/// The ordering of two keys.
pub open spec fn key_order(a: int, b: int) -> std::cmp::Ordering {
    if a < b {
        std::cmp::Ordering::Less
    } else if a == b {
        std::cmp::Ordering::Equal
    } else {
        std::cmp::Ordering::Greater
    }
}

impl PartialOrd for BleDevice {
    fn partial_cmp(&self, other: &BleDevice) -> (r: Option<std::cmp::Ordering>) {
        let a = self.address.key_u64();
        let b = other.address.key_u64();
        if a < b {
            Some(std::cmp::Ordering::Less)
        } else if a == b {
            Some(std::cmp::Ordering::Equal)
        } else {
            Some(std::cmp::Ordering::Greater)
        }
    }
}

impl vstd::std_specs::cmp::PartialOrdSpecImpl for BleDevice {
    open spec fn obeys_partial_cmp_spec() -> bool {
        true
    }

    open spec fn partial_cmp_spec(&self, other: &BleDevice) -> Option<std::cmp::Ordering> {
        Some(key_order(self.key(), other.key()))
    }
}

/// Devices in strictly ascending order of address.
pub open spec fn sorted_by_address(s: Seq<BleDevice>) -> bool {
    forall|i: int, j: int| 0 <= i < j < s.len() ==> s[i].key() < s[j].key()
}

/// The device at `i` is the last one in `ds` with its address.
pub open spec fn last_with_address(ds: Seq<BleDevice>, i: int) -> bool {
    &&& 0 <= i < ds.len()
    &&& forall|j: int| i < j < ds.len() ==> ds[j].key() != ds[i].key()
}

/// `snap` lists the devices of `ds` sorted by address, one per address: for
/// each address the device that came last in `ds`.
pub open spec fn is_snapshot(snap: Seq<BleDevice>, ds: Seq<BleDevice>) -> bool {
    &&& sorted_by_address(snap)
    &&& forall|x: BleDevice| #[trigger]
        snap.contains(x) ==> exists|i: int| last_with_address(ds, i) && ds[i] == x
    &&& forall|i: int| #[trigger] last_with_address(ds, i) ==> snap.contains(ds[i])
}

/// Adding one more device to a snapshot keeps it a snapshot of the longer
/// sequence.
pub(crate) proof fn lemma_snapshot_push(
    snap: Seq<BleDevice>,
    snap2: Seq<BleDevice>,
    ds: Seq<BleDevice>,
    d: BleDevice,
)
    requires
        is_snapshot(snap, ds),
        sorted_by_address(snap2),
        snap2.contains(d),
        forall|x: BleDevice| #[trigger]
            snap2.contains(x) ==> x == d || (snap.contains(x) && x.key() != d.key()),
        forall|x: BleDevice| #[trigger]
            snap.contains(x) && x.key() != d.key() ==> snap2.contains(x),
    ensures
        is_snapshot(snap2, ds.push(d)),
{
    let ds2 = ds.push(d);
    assert(last_with_address(ds2, ds.len() as int));
    assert forall|i: int| #[trigger] last_with_address(ds2, i) implies snap2.contains(ds2[i]) by {
        if i < ds.len() {
            assert(ds2[ds.len() as int] == d);
            assert(ds2[i].key() != d.key());
            assert forall|j: int| i < j < ds.len() implies ds[j].key() != ds[i].key() by {
                assert(ds2[j] == ds[j]);
            }
            assert(last_with_address(ds, i));
            assert(snap.contains(ds[i]));
        }
    }
    assert forall|x: BleDevice| #[trigger] snap2.contains(x) implies exists|i: int|
        last_with_address(ds2, i) && ds2[i] == x by {
        if x == d {
            assert(last_with_address(ds2, ds.len() as int) && ds2[ds.len() as int] == x);
        } else {
            assert(snap.contains(x));
            let i = choose|i: int| last_with_address(ds, i) && ds[i] == x;
            assert forall|j: int| i < j < ds2.len() implies ds2[j].key() != ds2[i].key() by {
                if j < ds.len() {
                    assert(ds2[j] == ds[j]);
                }
            }
            assert(last_with_address(ds2, i) && ds2[i] == x);
        }
    }
}

/// Puts `d` into a snapshot: in its place by address, replacing the device
/// listed at the same address if there is one.
pub fn insert_by_address(snap: &mut Vec<BleDevice>, d: BleDevice)
    requires
        sorted_by_address(old(snap)@),
    ensures
        sorted_by_address(final(snap)@),
        final(snap)@.contains(d),
        forall|x: BleDevice| #[trigger]
            final(snap)@.contains(x) ==> x == d || (old(snap)@.contains(x) && x.key()
                != d.key()),
        forall|x: BleDevice| #[trigger]
            old(snap)@.contains(x) && x.key() != d.key() ==> final(snap)@.contains(x),
{
    let key = d.address.key_u64();
    let mut p: usize = 0;
    while p < snap.len() && snap[p].address.key_u64() < key
        invariant
            p <= snap@.len(),
            key == d.key(),
            forall|i: int| 0 <= i < p ==> #[trigger] snap@[i].key() < d.key(),
        decreases snap@.len() - p,
    {
        p = p + 1;
    }
    let ghost s0 = snap@;
    if p < snap.len() && snap[p].address.key_u64() == key {
        snap.set(p, d);
        assert forall|x: BleDevice| #[trigger] snap@.contains(x) implies x == d || (
        s0.contains(x) && x.key() != d.key()) by {
            let i = choose|i: int| 0 <= i < snap@.len() && snap@[i] == x;
            if i != p {
                assert(s0[i] == x);
                assert(s0.contains(x));
            }
        }
        assert forall|x: BleDevice| #[trigger] s0.contains(x) && x.key() != d.key() implies snap@.contains(
            x,
        ) by {
            let i = choose|i: int| 0 <= i < s0.len() && s0[i] == x;
            assert(i != p);
            assert(snap@[i] == x);
        }
        assert(snap@[p as int] == d);
    } else {
        snap.insert(p, d);
        assert(snap@ =~= s0.subrange(0, p as int).push(d) + s0.subrange(p as int, s0.len() as int));
        assert forall|i: int| 0 <= i < snap@.len() implies #[trigger] snap@[i] == (if i < p {
            s0[i]
        } else if i == p {
            d
        } else {
            s0[i - 1]
        }) by {}
        assert forall|x: BleDevice| #[trigger] snap@.contains(x) implies x == d || (
        s0.contains(x) && x.key() != d.key()) by {
            let i = choose|i: int| 0 <= i < snap@.len() && snap@[i] == x;
            if i < p {
                assert(s0[i] == x);
            } else if i > p {
                assert(s0[i - 1] == x);
            }
        }
        assert forall|x: BleDevice| #[trigger] s0.contains(x) && x.key() != d.key() implies snap@.contains(
            x,
        ) by {
            let i = choose|i: int| 0 <= i < s0.len() && s0[i] == x;
            if i < p {
                assert(snap@[i] == x);
            } else {
                assert(snap@[i + 1] == x);
            }
        }
        assert(snap@[p as int] == d);
    }
}

/// The snapshot of a sequence of devices: sorted by address, and for each
/// address the device that came last.
pub fn snapshot(devices: &Vec<BleDevice>) -> (r: Vec<BleDevice>)
    ensures
        is_snapshot(r@, devices@),
{
    let mut snap: Vec<BleDevice> = Vec::new();
    let mut i: usize = 0;
    while i < devices.len()
        invariant
            i <= devices@.len(),
            is_snapshot(snap@, devices@.subrange(0, i as int)),
        decreases devices@.len() - i,
    {
        let ghost before = snap@;
        let d = devices[i].duplicate();
        insert_by_address(&mut snap, d);
        proof {
            lemma_snapshot_push(before, snap@, devices@.subrange(0, i as int), devices@[i as int]);
            assert(devices@.subrange(0, i as int).push(devices@[i as int]) =~= devices@.subrange(
                0,
                i + 1,
            ));
        }
        i = i + 1;
    }
    assert(devices@.subrange(0, devices@.len() as int) =~= devices@);
    snap
}

/// Two sequences sorted by address that hold the same devices are equal.
proof fn lemma_sorted_same_devices(a: Seq<BleDevice>, b: Seq<BleDevice>)
    requires
        sorted_by_address(a),
        sorted_by_address(b),
        forall|x: BleDevice| a.contains(x) <==> b.contains(x),
    ensures
        a == b,
    decreases a.len(),
{
    if a.len() == 0 {
        if b.len() > 0 {
            assert(b.contains(b[0]));
        }
        assert(a =~= b);
    } else {
        assert(a.contains(a[0]));
        let j = choose|j: int| 0 <= j < b.len() && b[j] == a[0];
        assert(b.contains(b[0]));
        let k = choose|k: int| 0 <= k < a.len() && a[k] == b[0];
        if j > 0 {
            assert(b[0].key() < b[j].key());
            if k > 0 {
                assert(a[0].key() < a[k].key());
            }
        }
        assert(b[0] == a[0]);
        let a1 = a.drop_first();
        let b1 = b.drop_first();
        assert forall|x: BleDevice| a1.contains(x) implies b1.contains(x) by {
            let i = choose|i: int| 0 <= i < a1.len() && a1[i] == x;
            assert(a[i + 1] == x);
            assert(a.contains(x));
            let m = choose|m: int| 0 <= m < b.len() && b[m] == x;
            assert(a[0].key() < a[i + 1].key());
            assert(m != 0);
            assert(b1[m - 1] == x);
        }
        assert forall|x: BleDevice| b1.contains(x) implies a1.contains(x) by {
            let i = choose|i: int| 0 <= i < b1.len() && b1[i] == x;
            assert(b[i + 1] == x);
            assert(b.contains(x));
            let m = choose|m: int| 0 <= m < a.len() && a[m] == x;
            assert(b[0].key() < b[i + 1].key());
            assert(m != 0);
            assert(a1[m - 1] == x);
        }
        lemma_sorted_same_devices(a1, b1);
        assert(a =~= seq![a[0]] + a1);
        assert(b =~= seq![b[0]] + b1);
    }
}

/// Discovery is deterministic: the snapshot of a sequence of devices is
/// unique, so the same poll results always give the same listing.
pub proof fn lemma_snapshot_deterministic(a: Seq<BleDevice>, b: Seq<BleDevice>, ds: Seq<BleDevice>)
    requires
        is_snapshot(a, ds),
        is_snapshot(b, ds),
    ensures
        a == b,
{
    assert forall|x: BleDevice| a.contains(x) implies b.contains(x) by {
        let i = choose|i: int| last_with_address(ds, i) && ds[i] == x;
    }
    assert forall|x: BleDevice| b.contains(x) implies a.contains(x) by {
        let i = choose|i: int| last_with_address(ds, i) && ds[i] == x;
    }
    lemma_sorted_same_devices(a, b);
}

} // verus!
