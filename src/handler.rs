//! The connection state machine. It decides; the runtime around it performs
//! the transport calls, hands their outcomes back, and carries out what a
//! finished connection leaves behind (stopping its dispatcher, closing the
//! link, calling its disconnect callback).
use vstd::prelude::*;

use crate::address::BleAddress;
use crate::device::{insert_by_address, is_snapshot, sorted_by_address, BleDevice};
use crate::error::BleError;
use crate::registry::DeviceRegistry;

verus! {

/// Milliseconds between two discovery polls.
pub const POLL_INTERVAL_MS: u64 = 200;

/// The discovery window, in milliseconds, that `connect` runs first when no
/// peripheral is registered.
pub const BOOTSTRAP_DISCOVERY_MS: u64 = 1000;

/// The number of polls in a discovery window of `timeout` milliseconds: the
/// window divided by the poll interval, rounded half up, and at least one
/// where the window is not empty.
pub open spec fn poll_count(timeout: u64) -> int {
    if timeout == 0 {
        0
    } else if (timeout + 100) / 200 == 0 {
        1
    } else {
        (timeout + 100) / 200
    }
}

/// One peripheral seen by a discovery poll: its snapshot, absent where the
/// peripheral gave no usable name, and its transport handle.
pub struct Found<P> {
    pub device: Option<BleDevice>,
    pub peripheral: P,
}

/// The snapshots of a poll's peripherals, leaving out those without one.
pub open spec fn present<P>(f: Seq<Found<P>>) -> Seq<BleDevice>
    decreases f.len(),
{
    if f.len() == 0 {
        Seq::empty()
    } else {
        match f.last().device {
            Some(d) => present(f.drop_last()).push(d),
            None => present(f.drop_last()),
        }
    }
}

/// `m` after registering, in order, the handle of each peripheral of `f`
/// that has a snapshot.
pub open spec fn registered<P>(m: Map<int, P>, f: Seq<Found<P>>) -> Map<int, P>
    decreases f.len(),
{
    if f.len() == 0 {
        m
    } else {
        match f.last().device {
            Some(d) => registered(m, f.drop_last()).insert(d.key(), f.last().peripheral),
            None => registered(m, f.drop_last()),
        }
    }
}

/// A service of the connected peripheral and its characteristics.
pub struct ServiceInfo {
    pub uuid: u128,
    pub characteristics: Vec<u128>,
}

/// `i` is the first service in `s` with identifier `id`.
pub open spec fn first_service(s: Seq<ServiceInfo>, id: u128, i: int) -> bool {
    &&& 0 <= i < s.len()
    &&& s[i].uuid == id
    &&& forall|j: int| 0 <= j < i ==> s[j].uuid != id
}

/// The characteristics of `chars` that were requested, in their order.
pub open spec fn kept(chars: Seq<u128>, requested: Seq<u128>) -> Seq<u128>
    decreases chars.len(),
{
    if chars.len() == 0 {
        Seq::empty()
    } else if requested.contains(chars.last()) {
        kept(chars.drop_last(), requested).push(chars.last())
    } else {
        kept(chars.drop_last(), requested)
    }
}

/// An established connection: the peripheral, its characteristic
/// whitelist, the callback to run once when it ends, and its notification
/// dispatcher.
pub struct Connection<P, D, S> {
    pub address: BleAddress,
    pub peripheral: P,
    pub characs: Vec<u128>,
    pub on_disconnect: Option<D>,
    pub dispatcher: S,
}

/// The events of the transport's central-level stream, as far as the
/// engine tells them apart.
pub enum CentralEventKind {
    DeviceDisconnected,
    Other,
}

/// What `connect` resolves `address` to: refused where that address is
/// connected already, else its registered handle.
pub open spec fn connect_target<P, D, S>(
    conn: Option<Connection<P, D, S>>,
    registry: Map<int, P>,
    address: BleAddress,
) -> Result<P, BleError> {
    if conn is Some && conn.unwrap().address.key() == address.key() {
        Err(BleError::AlreadyConnected)
    } else if registry.contains_key(address.key()) {
        Ok(registry[address.key()])
    } else {
        Err(BleError::UnknownPeripheral(address))
    }
}

/// Whether a read, write or subscription on `c` may go ahead.
pub open spec fn charac_access<P, D, S>(conn: Option<Connection<P, D, S>>, c: u128) -> Result<
    (),
    BleError,
> {
    match conn {
        None => Err(BleError::NoDeviceConnected),
        Some(k) => if k.characs@.contains(c) {
            Ok(())
        } else {
            Err(BleError::CharacNotAvailable(c))
        },
    }
}

/// The number of polls for a discovery window of `timeout` milliseconds.
pub fn polls_for(timeout: u64) -> (r: u64)
    ensures
        r == poll_count(timeout),
{
    if timeout == 0 {
        0
    } else {
        let whole = timeout / POLL_INTERVAL_MS;
        let rounded = if timeout % POLL_INTERVAL_MS >= POLL_INTERVAL_MS / 2 {
            whole + 1
        } else {
            whole
        };
        assert(rounded == (timeout + 100) / 200);
        if rounded == 0 {
            1
        } else {
            rounded
        }
    }
}

/// Whether a poll's snapshot goes to the progress sink: only where there is
/// one and the snapshot is not empty.
pub fn report_due(snapshot: &Vec<BleDevice>, has_sink: bool) -> (r: bool)
    ensures
        r == (has_sink && snapshot@.len() > 0),
{
    has_sink && snapshot.len() > 0
}

/// Whether `characs` holds `c`.
fn requested(characs: &Vec<u128>, c: u128) -> (r: bool)
    ensures
        r == characs@.contains(c),
{
    let mut i: usize = 0;
    while i < characs.len()
        invariant
            i <= characs@.len(),
            forall|j: int| 0 <= j < i ==> characs@[j] != c,
        decreases characs@.len() - i,
    {
        if characs[i] == c {
            return true;
        }
        i = i + 1;
    }
    false
}

/// Keeps only the characteristics of a service that were requested.
fn keep_requested(chars: &Vec<u128>, characs: &Vec<u128>) -> (r: Vec<u128>)
    ensures
        r@ == kept(chars@, characs@),
{
    let mut r: Vec<u128> = Vec::new();
    let mut i: usize = 0;
    while i < chars.len()
        invariant
            i <= chars@.len(),
            r@ == kept(chars@.subrange(0, i as int), characs@),
        decreases chars@.len() - i,
    {
        assert(chars@.subrange(0, i + 1).drop_last() =~= chars@.subrange(0, i as int));
        if requested(characs, chars[i]) {
            r.push(chars[i]);
        }
        i = i + 1;
    }
    assert(chars@.subrange(0, chars@.len() as int) =~= chars@);
    r
}

/// Resolves a service and its whitelist: the first service with identifier
/// `service`, and of its characteristics those in `characs`.
pub fn connect_service(services: &Vec<ServiceInfo>, service: u128, characs: &Vec<u128>) -> (r:
    Result<Vec<u128>, BleError>)
    ensures
        (forall|j: int| 0 <= j < services@.len() ==> services@[j].uuid != service) ==> r
            == Err::<Vec<u128>, BleError>(BleError::ServiceNotFound),
        forall|i: int|
            first_service(services@, service, i) ==> (r is Ok && r->Ok_0@ == kept(
                services@[i].characteristics@,
                characs@,
            )),
{
    let mut i: usize = 0;
    while i < services.len()
        invariant
            i <= services@.len(),
            forall|j: int| 0 <= j < i ==> services@[j].uuid != service,
        decreases services@.len() - i,
    {
        if services[i].uuid == service {
            let w = keep_requested(&services[i].characteristics, characs);
            assert forall|k: int| first_service(services@, service, k) implies k == i by {
                if k < i {
                } else if k > i {
                    assert(services@[i as int].uuid == service);
                }
            }
            return Ok(w);
        }
        i = i + 1;
    }
    Err(BleError::ServiceNotFound)
}

/// Every characteristic kept was requested.
pub proof fn lemma_kept_requested(chars: Seq<u128>, requested: Seq<u128>, c: u128)
    requires
        kept(chars, requested).contains(c),
    ensures
        requested.contains(c),
    decreases chars.len(),
{
    if chars.len() > 0 {
        if requested.contains(chars.last()) && c == chars.last() {
        } else if requested.contains(chars.last()) {
            let k = kept(chars.drop_last(), requested);
            let i = choose|i: int| 0 <= i < k.push(chars.last()).len() && k.push(chars.last())[i]
                == c;
            assert(k[i] == c);
            lemma_kept_requested(chars.drop_last(), requested, c);
        } else {
            lemma_kept_requested(chars.drop_last(), requested, c);
        }
    }
}

/// The connection state machine: the connection, if any, and the device
/// registry of the latest discovery pass.
pub struct BleHandler<P, D, S> {
    connected: Option<Connection<P, D, S>>,
    devices: DeviceRegistry<P>,
}

impl<P, D, S> BleHandler<P, D, S> {
    /// The current connection.
    pub closed spec fn connection(&self) -> Option<Connection<P, D, S>> {
        self.connected
    }

    /// The registered transport handles, by address key.
    pub closed spec fn registry(&self) -> Map<int, P> {
        self.devices.view()
    }

    pub closed spec fn wf(&self) -> bool {
        self.devices.wf()
    }

    /// `post` and `r` are what disconnecting leaves of `pre`: no connection,
    /// an empty registry, and the connection that ended handed out.
    pub open spec fn ends_connection(pre: Self, post: Self, r: Option<Connection<P, D, S>>) -> bool {
        &&& r == pre.connection()
        &&& post.connection() is None
        &&& post.registry() == Map::<int, P>::empty()
        &&& post.wf()
    }

    /// A disconnected engine with an empty registry.
    pub fn new() -> (r: Self)
        ensures
            r.wf(),
            r.connection() is None,
            r.registry() == Map::<int, P>::empty(),
    {
        BleHandler { connected: None, devices: DeviceRegistry::new() }
    }

    /// Whether `connect` has to run a discovery first: no peripheral is
    /// registered.
    pub fn needs_discovery(&self) -> (r: bool)
        requires
            self.wf(),
        ensures
            r == (self.registry().dom() == Set::<int>::empty()),
    {
        self.devices.is_empty()
    }

    /// Starts a discovery pass of `timeout` milliseconds: the registry is
    /// cleared, and the number of polls is returned.
    pub fn begin_discover(&mut self, timeout: u64) -> (r: u64)
        ensures
            final(self).wf(),
            final(self).registry() == Map::<int, P>::empty(),
            final(self).connection() == old(self).connection(),
            r == poll_count(timeout),
    {
        self.devices.clear();
        polls_for(timeout)
    }

    /// Takes in one poll: registers the handle of each peripheral that has a
    /// snapshot, a later one replacing an earlier one at the same address,
    /// and returns the poll's snapshots sorted by address, one per address.
    pub fn add_devices(&mut self, found: Vec<Found<P>>) -> (r: Vec<BleDevice>)
        requires
            old(self).wf(),
        ensures
            final(self).wf(),
            is_snapshot(r@, present(found@)),
            final(self).registry() == registered(old(self).registry(), found@),
            final(self).connection() == old(self).connection(),
    {
        let ghost all = found@;
        let ghost start = self.registry();
        let mut found = found;
        let n = found.len();
        let mut snap: Vec<BleDevice> = Vec::new();
        let mut i: usize = 0;
        while found.len() > 0
            invariant
                i <= all.len(),
                all.len() == n,
                found@ == all.subrange(i as int, all.len() as int),
                self.wf(),
                self.connection() == old(self).connection(),
                sorted_by_address(snap@),
                is_snapshot(snap@, present(all.subrange(0, i as int))),
                self.registry() == registered(start, all.subrange(0, i as int)),
            decreases found@.len(),
        {
            let item = found.remove(0);
            let ghost prefix = all.subrange(0, i as int);
            proof {
                assert(item == all[i as int]);
                assert(all.subrange(0, i + 1).drop_last() =~= prefix);
                assert(all.subrange(0, i + 1).last() == item);
            }
            let Found { device, peripheral } = item;
            match device {
                Some(d) => {
                    let ghost before = snap@;
                    self.devices.insert(&d.address, peripheral);
                    insert_by_address(&mut snap, d);
                    proof {
                        crate::device::lemma_snapshot_push(before, snap@, present(prefix), d);
                    }
                },
                None => {},
            }
            i = i + 1;
            assert(found@ =~= all.subrange(i as int, all.len() as int));
        }
        assert(all.subrange(0, i as int) =~= all);
        snap
    }

    /// The handle to connect to `address`: refused where that address is
    /// connected already or was not seen by the latest discovery.
    pub fn connect_device(&self, address: &BleAddress) -> (r: Result<&P, BleError>)
        requires
            self.wf(),
        ensures
            match r {
                Ok(p) => connect_target(self.connection(), self.registry(), *address) == Ok::<
                    P,
                    BleError,
                >(*p),
                Err(e) => connect_target(self.connection(), self.registry(), *address) == Err::<
                    P,
                    BleError,
                >(e),
            },
    {
        if let Some(k) = &self.connected {
            if k.address.same_as(address) {
                return Err(BleError::AlreadyConnected);
            }
        }
        match self.devices.get(address) {
            Some(p) => Ok(p),
            None => Err(BleError::UnknownPeripheral(*address)),
        }
    }

    /// Makes the engine connected to `peripheral` with whitelist `characs`;
    /// a connection that was there already is superseded and returned.
    pub fn establish(
        &mut self,
        address: BleAddress,
        peripheral: P,
        characs: Vec<u128>,
        on_disconnect: Option<D>,
        dispatcher: S,
    ) -> (r: Option<Connection<P, D, S>>)
        requires
            old(self).wf(),
        ensures
            final(self).wf(),
            final(self).connection() == Some(
                (Connection { address, peripheral, characs, on_disconnect, dispatcher }),
            ),
            final(self).registry() == old(self).registry(),
            r == old(self).connection(),
    {
        let previous = self.connected.take();
        self.connected = Some(Connection { address, peripheral, characs, on_disconnect, dispatcher });
        previous
    }

    /// Ends the connection, if any: the engine is left disconnected with an
    /// empty registry, and the connection that ended is returned so that its
    /// dispatcher is stopped, its link closed and its callback run, once.
    /// Calling it again changes nothing and returns nothing.
    pub fn disconnect(&mut self) -> (r: Option<Connection<P, D, S>>)
        ensures
            Self::ends_connection(*old(self), *final(self), r),
    {
        let ended = self.connected.take();
        self.devices.clear();
        ended
    }

    /// Whether a connection is established.
    pub fn has_connection(&self) -> (r: bool)
        ensures
            r == self.connection() is Some,
    {
        self.connected.is_some()
    }

    /// The address of the connected peripheral.
    pub fn connected_address(&self) -> (r: Result<BleAddress, BleError>)
        ensures
            match self.connection() {
                Some(k) => r == Ok::<BleAddress, BleError>(k.address),
                None => r == Err::<BleAddress, BleError>(BleError::NoDeviceConnected),
            },
    {
        match &self.connected {
            Some(k) => Ok(k.address),
            None => Err(BleError::NoDeviceConnected),
        }
    }

    /// The handle of the connected peripheral.
    pub fn connected_peripheral(&self) -> (r: Result<&P, BleError>)
        ensures
            match self.connection() {
                Some(k) => r is Ok && *r->Ok_0 == k.peripheral,
                None => r is Err && r->Err_0 == BleError::NoDeviceConnected,
            },
    {
        match &self.connected {
            Some(k) => Ok(&k.peripheral),
            None => Err(BleError::NoDeviceConnected),
        }
    }

    /// The dispatcher of the connection, if any.
    pub fn dispatcher(&self) -> (r: Option<&S>)
        ensures
            match self.connection() {
                Some(k) => r is Some && *r->Some_0 == k.dispatcher,
                None => r is None,
            },
    {
        match &self.connected {
            Some(k) => Some(&k.dispatcher),
            None => None,
        }
    }

    /// Takes in whether the transport still reports the connected peripheral
    /// as connected: where it does not, the connection ends as by
    /// `disconnect`.
    pub fn confirm_link(&mut self, alive: bool) -> (r: Option<Connection<P, D, S>>)
        requires
            old(self).wf(),
        ensures
            alive ==> r is None && *final(self) == *old(self),
            !alive ==> Self::ends_connection(*old(self), *final(self), r),
    {
        if alive {
            None
        } else {
            self.disconnect()
        }
    }

    /// Whether an operation on characteristic `c` may go ahead: refused
    /// where nothing is connected, or `c` was not requested at connect time.
    pub fn get_charac(&self, c: u128) -> (r: Result<(), BleError>)
        ensures
            r == charac_access(self.connection(), c),
    {
        match &self.connected {
            None => Err(BleError::NoDeviceConnected),
            Some(k) => if requested(&k.characs, c) {
                Ok(())
            } else {
                Err(BleError::CharacNotAvailable(c))
            },
        }
    }

    /// Takes in one event of the central-level stream: a disconnect ends the
    /// connection as `disconnect` does, whoever asked for it; other events
    /// change nothing.
    pub fn handle_event(&mut self, event: CentralEventKind) -> (r: Option<Connection<P, D, S>>)
        requires
            old(self).wf(),
        ensures
            event is DeviceDisconnected ==> Self::ends_connection(*old(self), *final(self), r),
            event is Other ==> r is None && *final(self) == *old(self),
    {
        match event {
            CentralEventKind::DeviceDisconnected => self.disconnect(),
            CentralEventKind::Other => None,
        }
    }
}

/// One connection at a time: while connected, `connect` is refused for the
/// connected address and for no other; an address of the registry resolves
/// to its handle, and establishing it supersedes the connection that was
/// there, leaving exactly one.
pub proof fn lemma_single_connection<P, D, S>(
    h: BleHandler<P, D, S>,
    address: BleAddress,
    peripheral: P,
    characs: Vec<u128>,
    on_disconnect: Option<D>,
    dispatcher: S,
    post: BleHandler<P, D, S>,
)
    requires
        h.connection() is Some,
        post.connection() == Some(
            (Connection { address, peripheral, characs, on_disconnect, dispatcher }),
        ),
    ensures
        (connect_target(h.connection(), h.registry(), address) == Err::<P, BleError>(
            BleError::AlreadyConnected,
        )) <==> h.connection().unwrap().address.key() == address.key(),
        h.connection().unwrap().address.key() != address.key() && h.registry().contains_key(
            address.key(),
        ) ==> connect_target(h.connection(), h.registry(), address) == Ok::<P, BleError>(
            h.registry()[address.key()],
        ),
        post.connection().unwrap().address == address,
{
}

/// Disconnecting twice: the second call hands out nothing and leaves the
/// state as the first left it, disconnected with an empty registry.
pub proof fn lemma_disconnect_idempotent<P, D, S>(
    h0: BleHandler<P, D, S>,
    h1: BleHandler<P, D, S>,
    h2: BleHandler<P, D, S>,
    r1: Option<Connection<P, D, S>>,
    r2: Option<Connection<P, D, S>>,
)
    requires
        BleHandler::ends_connection(h0, h1, r1),
        BleHandler::ends_connection(h1, h2, r2),
    ensures
        r2 is None,
        h2.connection() == h1.connection(),
        h2.registry() == h1.registry(),
        h2.connection() is None,
        h2.registry() == Map::<int, P>::empty(),
{
}

/// The whitelist is enforced: once connected with the characteristics that
/// `connect_service` kept of a service for `requested`, a characteristic
/// outside `requested` is refused as not available, even where the service
/// has it.
pub proof fn lemma_whitelist_enforced<P, D, S>(
    h: BleHandler<P, D, S>,
    chars: Seq<u128>,
    requested: Seq<u128>,
    c: u128,
)
    requires
        h.connection() is Some,
        h.connection().unwrap().characs@ == kept(chars, requested),
        !requested.contains(c),
    ensures
        charac_access(h.connection(), c) == Err::<(), BleError>(BleError::CharacNotAvailable(c)),
{
    if kept(chars, requested).contains(c) {
        lemma_kept_requested(chars, requested, c);
    }
}

/// A disconnect reported by the transport ends the connection without a
/// local `disconnect`: afterwards nothing is connected, and the connection
/// with its callback is handed out by that event and by no later one.
pub proof fn lemma_remote_disconnect<P, D, S>(
    h0: BleHandler<P, D, S>,
    h1: BleHandler<P, D, S>,
    h2: BleHandler<P, D, S>,
    r1: Option<Connection<P, D, S>>,
    r2: Option<Connection<P, D, S>>,
    callback: D,
)
    requires
        h0.connection() is Some,
        h0.connection().unwrap().on_disconnect == Some(callback),
        BleHandler::ends_connection(h0, h1, r1),
        BleHandler::ends_connection(h1, h2, r2),
    ensures
        h1.connection() is None,
        r1 is Some && r1.unwrap().on_disconnect == Some(callback),
        r2 is None,
{
}

} // verus!
