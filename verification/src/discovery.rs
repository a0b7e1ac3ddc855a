use vstd::prelude::*;
use crate::network::NetworkInterface;
use crate::properties::{has_key, lemma_key_pos, prop_get, PropSeq, Properties};
use crate::registry::{
    device_models, devices_distinct, knows_device, name_models, DeviceList, DeviceModel,
    DiscoveredDevice, IdSet, NameSet,
};
use crate::protocol::{
    serialize_query, spec_serialize, transaction_key, Message, MessageModel, MessageType,
};
use crate::service_ids;
use crate::text::str_eq;
use crate::transaction::{is_v4_uuid, parse_uuid, uuid_from_text, uuid_text};

verus! {

/// The key of the service ID property.
pub open spec fn service_id_key() -> Seq<char> {
    "service_id"@
}

/// The key of the unique ID property.
pub open spec fn unique_id_key() -> Seq<char> {
    "unique_id"@
}

/// The key of the serial number property, which Roon OS devices use as their unique ID.
pub open spec fn serial_number_key() -> Seq<char> {
    "serial_number"@
}

/// The key that holds a device's unique ID: `serial_number` for the Roon OS service,
/// `unique_id` for any other.
pub open spec fn unique_key_for(service_id: Seq<char>) -> Seq<char> {
    if service_id == service_ids::ROON_OS@ {
        serial_number_key()
    } else {
        unique_id_key()
    }
}

/// The (service ID, unique ID) pair that a message announces, if it holds both as
/// non-null values.
pub open spec fn announced_device(ps: PropSeq) -> Option<(Seq<char>, Seq<char>)> {
    match prop_get(ps, service_id_key()) {
        Some(Some(sid)) => match prop_get(ps, unique_key_for(sid)) {
            Some(Some(uid)) => Some((sid, uid)),
            _ => None,
        },
        _ => None,
    }
}

/// The transaction a response answers: the UUID its `_tid` property writes.
pub open spec fn response_transaction(m: MessageModel) -> Option<u128> {
    if m.1 == MessageType::Response {
        match prop_get(m.2, transaction_key()) {
            Some(Some(t)) => uuid_from_text(t),
            _ => None,
        }
    } else {
        None
    }
}

/// What the client keeps: the devices found so far (in the order found), the
/// transaction ids of the queries still open, and the interfaces it listens on.
pub struct SoodState {
    /// The devices found, in the order found.
    pub devices: Seq<DeviceModel>,
    /// The transaction ids of the open queries.
    pub queries: Seq<u128>,
    /// The names of the interfaces in use.
    pub interfaces: Seq<Seq<char>>,
}

/// What becomes of a received message: the open query it answers (to be handed to
/// that query's listeners), whether it goes to the listeners of all responses, and the
/// device it newly announces.
pub type DeliveryModel = (Option<u128>, bool, Option<DeviceModel>);

/// The decision on a received message and the state after it. A response goes to
/// every listener of responses and to the open query whose id its `_tid` writes; a
/// message of either type that announces a device not yet known adds it and hands it
/// out.
pub open spec fn spec_deliver(s: SoodState, m: MessageModel) -> (SoodState, DeliveryModel) {
    let query = match response_transaction(m) {
        Some(t) => if s.queries.contains(t) {
            Some(t)
        } else {
            None
        },
        None => None,
    };
    let publish = m.1 == MessageType::Response;
    match announced_device(m.2) {
        Some((sid, uid)) => if knows_device(s.devices, sid, uid) {
            (s, (query, publish, None))
        } else {
            let d = (m.0, sid, uid, m.2);
            (SoodState { devices: s.devices.push(d), ..s }, (query, publish, Some(d)))
        },
        None => (s, (query, publish, None)),
    }
}

/// What becomes of a received message, for the caller to carry out.
#[derive(Debug)]
pub struct Delivery {
    /// The open query whose listeners get the message.
    pub query: Option<u128>,
    /// Whether the listeners of all responses get the message.
    pub publish: bool,
    /// The device that the message newly announces.
    pub device: Option<DiscoveredDevice>,
}

impl Delivery {
    /// The decision as a mathematical value.
    pub open spec fn model(&self) -> DeliveryModel {
        (
            self.query,
            self.publish,
            match self.device {
                Some(d) => Some(d.model()),
                None => None,
            },
        )
    }
}

/// Why a query cannot be sent.
#[derive(Debug, Clone, Copy, PartialEq, Eq, Structural)]
pub enum QueryError {
    /// `_tid` is present with a null value.
    MissingTransactionId,
    /// `_tid` does not hold a UUID.
    InvalidTransactionId,
}

/// A query ready to be sent: the packet and the transaction id that responses to it
/// carry.
#[derive(Debug)]
pub struct PreparedQuery {
    /// The serialized query.
    pub packet: Vec<u8>,
    /// The query's transaction id.
    pub transaction_id: u128,
}

/// The open queries after one with id `t` is opened: a known id is kept once.
pub open spec fn open_query(qs: Seq<u128>, t: u128) -> Seq<u128> {
    if qs.contains(t) {
        qs
    } else {
        qs.push(t)
    }
}

/// The open queries after the one with id `t` is closed.
pub open spec fn close_query(qs: Seq<u128>, t: u128) -> Seq<u128> {
    qs.remove_value(t)
}

/// The interface names that are among the given interfaces' names.
pub open spec fn kept_interfaces(names: Seq<Seq<char>>, current: Seq<Seq<char>>) -> Seq<Seq<char>> {
    names.filter(|n: Seq<char>| current.contains(n))
}

/// The interface names that are not among the given interfaces' names.
pub open spec fn dropped_interfaces(names: Seq<Seq<char>>, current: Seq<Seq<char>>) -> Seq<Seq<char>> {
    names.filter(|n: Seq<char>| !current.contains(n))
}

/// A prepared query as a mathematical value: packet and transaction id.
pub open spec fn prepared_model(r: Result<PreparedQuery, QueryError>) -> Result<(Seq<u8>, u128), QueryError> {
    match r {
        Ok(q) => Ok((q.packet@, q.transaction_id)),
        Err(e) => Err(e),
    }
}

/// What preparing a query with properties `ps` in state `s` may answer (`r`) and leave
/// (`s2`). With a null `_tid` it fails as missing, with one that writes no UUID as
/// invalid, and leaves the state alone. With a UUID it serializes `ps` and opens that
/// id. Without `_tid` it adds the hyphenated text of a fresh version-4 id, serializes,
/// and opens that id.
pub open spec fn prepared(
    s: SoodState,
    ps: PropSeq,
    r: Result<(Seq<u8>, u128), QueryError>,
    s2: SoodState,
) -> bool {
    match prop_get(ps, transaction_key()) {
        Some(None) => r == Err::<(Seq<u8>, u128), QueryError>(QueryError::MissingTransactionId)
            && s2 == s,
        Some(Some(t)) => match uuid_from_text(t) {
            None => r == Err::<(Seq<u8>, u128), QueryError>(QueryError::InvalidTransactionId) && s2
                == s,
            Some(id) => r == Ok::<(Seq<u8>, u128), QueryError>(
                (spec_serialize(MessageType::Query, ps), id),
            ) && s2 == SoodState { queries: open_query(s.queries, id), ..s },
        },
        None => match r {
            Ok((packet, id)) => packet == spec_serialize(
                MessageType::Query,
                ps.push((transaction_key(), Some(uuid_text(id)))),
            ) && is_v4_uuid(id) && s2 == SoodState { queries: open_query(s.queries, id), ..s },
            Err(_) => false,
        },
    }
}

/// The key under which a query names the service it looks for.
pub open spec fn query_service_key() -> Seq<char> {
    "query_service_id"@
}

/// The properties of a query for devices of one service: `query_service_id` set to
/// the service ID.
pub fn service_query(service_id: String) -> (r: Properties)
    ensures
        r@ == seq![(query_service_key(), Some(service_id@))],
{
    let mut props = Properties::new();
    let key = "query_service_id".to_string();
    props.insert(key, Some(service_id));
    proof {
        crate::properties::lemma_key_pos(Seq::<(Seq<char>, Option<Seq<char>>)>::empty(), query_service_key());
    }
    assert(props@ =~= seq![(query_service_key(), Some(service_id@))]);
    props
}

/// std's `io::Error`, the error a client reports.
#[verifier::external_type_specification]
#[verifier::external_body]
pub struct ExIoError(std::io::Error);

/// SOOD discovery state: the devices found, the open queries and the interfaces in
/// use. A client feeds it every message it receives and every query it sends, and
/// carries out what it answers.
pub struct Sood {
    devices: DeviceList,
    queries: IdSet,
    interfaces: NameSet,
}

impl View for Sood {
    type V = SoodState;

    closed spec fn view(&self) -> SoodState {
        SoodState { devices: self.devices@, queries: self.queries@, interfaces: self.interfaces@ }
    }
}

impl Sood {
    /// A new discovery state: no device, no open query, no interface.
    pub fn new() -> (r: std::io::Result<Self>)
        ensures
            (r matches Ok(s) && s@ == SoodState {
                devices: Seq::empty(),
                queries: Seq::empty(),
                interfaces: Seq::empty(),
            }),
    {
        Ok(Sood { devices: DeviceList::new(), queries: IdSet::new(), interfaces: NameSet::new() })
    }

    /// The open query that a message answers, if any.
    fn answered_query(&self, msg: &Message) -> (r: Option<u128>)
        ensures
            r == spec_deliver(self@, msg.model()).1.0,
    {
        if msg.msg_type != MessageType::Response {
            return None;
        }
        match msg.properties.get("_tid") {
            Some(Some(tid)) => match parse_uuid(tid.as_str()) {
                Some(t) => if self.queries.contains(t) {
                    Some(t)
                } else {
                    None
                },
                None => None,
            },
            _ => None,
        }
    }

    /// Takes in a received message and answers what to do with it: which open query
    /// and whether the listeners of all responses get it, and which device it newly
    /// announces, now known. No (service ID, unique ID) pair is ever known twice.
    pub fn handle_message(&mut self, msg: &Message) -> (r: Delivery)
        ensures
            (final(self)@, r.model()) == spec_deliver(old(self)@, msg.model()),
            devices_distinct(final(self)@.devices),
    {
        proof {
            use_type_invariant(&self.devices);
        }
        let query = self.answered_query(msg);
        let publish = msg.msg_type == MessageType::Response;
        let service_id = match msg.properties.get("service_id") {
            Some(Some(sid)) => sid,
            _ => {
                return Delivery { query, publish, device: None };
            },
        };
        let unique = if str_eq(service_id.as_str(), service_ids::ROON_OS) {
            msg.properties.get("serial_number")
        } else {
            msg.properties.get("unique_id")
        };
        let unique_id = match unique {
            Some(Some(uid)) => uid,
            _ => {
                return Delivery { query, publish, device: None };
            },
        };
        if self.devices.knows(service_id.as_str(), unique_id.as_str()) {
            return Delivery { query, publish, device: None };
        }
        let device = DiscoveredDevice {
            from: msg.from,
            service_id: service_id.clone(),
            unique_id: unique_id.clone(),
            properties: msg.properties.clone(),
        };
        let copy = device.clone();
        self.devices.push(copy);
        Delivery { query, publish, device: Some(device) }
    }

    /// Serializes a query (adding a fresh `_tid` where the properties hold none) and
    /// opens it under its transaction id, so that responses carrying that id are
    /// handed to it until it is closed.
    ///
    /// Fails, and changes nothing, where `_tid` is null or does not hold a UUID.
    pub fn prepare_query(&mut self, properties: Properties) -> (r: Result<PreparedQuery, QueryError>)
        ensures
            prepared(old(self)@, properties@, prepared_model(r), final(self)@),
            r is Ok ==> final(self)@.queries.no_duplicates(),
    {
        let mut props = properties;
        let packet = serialize_query(&mut props);
        let id = match props.get("_tid") {
            Some(Some(text)) => match parse_uuid(text.as_str()) {
                Some(id) => id,
                None => {
                    return Err(QueryError::InvalidTransactionId);
                },
            },
            _ => {
                return Err(QueryError::MissingTransactionId);
            },
        };
        proof {
            if !has_key(properties@, transaction_key()) {
                let v = choose|v: u128|
                    props@ == properties@.push((transaction_key(), Some(uuid_text(v))))
                        && uuid_from_text(#[trigger] uuid_text(v)) == Some(v) && is_v4_uuid(v);
                lemma_key_pos(props@, transaction_key());
                assert(props@[properties@.len() as int] == (transaction_key(), Some(uuid_text(v))));
            }
        }
        self.queries.insert(id);
        Ok(PreparedQuery { packet, transaction_id: id })
    }

    /// Closes the query with id `t`: later responses carrying it go to no query.
    pub fn expire_query(&mut self, t: u128)
        ensures
            final(self)@ == (SoodState { queries: close_query(old(self)@.queries, t), ..old(self)@ }),
            final(self)@.queries.no_duplicates(),
    {
        self.queries.remove(t);
    }

    /// The devices found so far, in the order they were found; no (service ID,
    /// unique ID) pair occurs twice.
    pub fn discovered_devices(&self) -> (r: Vec<DiscoveredDevice>)
        ensures
            device_models(r@) == self@.devices,
            devices_distinct(self@.devices),
    {
        self.devices.snapshot()
    }

    /// Whether the interface called `name` still needs its sockets set up.
    pub fn needs_interface(&self, name: &str) -> (r: bool)
        ensures
            r == !self@.interfaces.contains(name@),
    {
        !self.interfaces.contains(name)
    }

    /// Records that the sockets of the interface called `name` are set up.
    pub fn add_interface(&mut self, name: String)
        ensures
            final(self)@ == (SoodState {
                interfaces: if old(self)@.interfaces.contains(name@) {
                    old(self)@.interfaces
                } else {
                    old(self)@.interfaces.push(name@)
                },
                ..old(self)@
            }),
    {
        self.interfaces.insert(name);
    }

    /// Forgets the interfaces that are no longer among `current`, and gives back
    /// their names, in order, so that their sockets can be closed.
    pub fn retain_interfaces(&mut self, current: &Vec<NetworkInterface>) -> (r: Vec<String>)
        ensures
            final(self)@ == (SoodState {
                interfaces: kept_interfaces(old(self)@.interfaces, interface_names(current@)),
                ..old(self)@
            }),
            name_models(r@) == dropped_interfaces(old(self)@.interfaces, interface_names(current@)),
    {
        let mut names: Vec<String> = Vec::new();
        let mut i: usize = 0;
        while i < current.len()
            invariant
                i <= current@.len(),
                name_models(names@) == interface_names(current@.take(i as int)),
            decreases current@.len() - i,
        {
            let ghost before = names@;
            let name = current[i].name.clone();
            names.push(name);
            assert(current@.take(i + 1) =~= current@.take(i as int).push(current@[i as int]));
            assert(names@ =~= before.push(name));
            assert(name_models(names@) =~= name_models(before).push(name@));
            assert(interface_names(current@.take(i + 1)) =~= interface_names(current@.take(i as int)).push(current@[i as int].name@));
            i = i + 1;
        }
        assert(current@.take(i as int) =~= current@);
        self.interfaces.retain(&names)
    }

    /// Forgets every interface and gives back their names, in order.
    pub fn take_interfaces(&mut self) -> (r: Vec<String>)
        ensures
            final(self)@ == (SoodState { interfaces: Seq::empty(), ..old(self)@ }),
            name_models(r@) == old(self)@.interfaces,
    {
        self.interfaces.take_all()
    }
}

/// The names of a list of interfaces.
pub open spec fn interface_names(v: Seq<NetworkInterface>) -> Seq<Seq<char>> {
    v.map_values(|n: NetworkInterface| n.name@)
}

impl Default for Sood {
    /// A new discovery state: no device, no open query, no interface.
    fn default() -> (r: Self)
        ensures
            r@ == (SoodState { devices: Seq::empty(), queries: Seq::empty(), interfaces: Seq::empty() }),
    {
        Sood { devices: DeviceList::new(), queries: IdSet::new(), interfaces: NameSet::new() }
    }
}

/// A builder for creating a `Sood` instance.
pub struct SoodBuilder {
    _private: (),
}

impl SoodBuilder {
    /// Create a new builder
    pub fn new() -> (r: Self) {
        SoodBuilder { _private: () }
    }

    /// Build the `Sood` instance: a new discovery state.
    pub fn build(self) -> (r: std::io::Result<Sood>)
        ensures
            (r matches Ok(s) && s@ == SoodState {
                devices: Seq::empty(),
                queries: Seq::empty(),
                interfaces: Seq::empty(),
            }),
    {
        Sood::new()
    }
}

impl Default for SoodBuilder {
    /// A new builder.
    fn default() -> (r: Self) {
        SoodBuilder::new()
    }
}


/// Once a device has been announced, a later message announcing the same (service
/// ID, unique ID) pair hands out no device: each device is handed out once.
pub proof fn lemma_device_handed_out_once(s: SoodState, m1: MessageModel, m2: MessageModel)
    requires
        announced_device(m1.2) is Some,
        announced_device(m2.2) == announced_device(m1.2),
    ensures
        spec_deliver(spec_deliver(s, m1).0, m2).1.2 is None,
{
    let (sid, uid) = announced_device(m1.2).unwrap();
    let s1 = spec_deliver(s, m1).0;
    if !knows_device(s.devices, sid, uid) {
        let n = s.devices.len() as int;
        assert(s1.devices[n].1 == sid && s1.devices[n].2 == uid);
        assert(knows_device(s1.devices, sid, uid));
    } else {
        assert(s1 == s);
    }
}

/// Handling a message keeps every device known before, in place, and the open queries
/// and interfaces unchanged.
pub proof fn lemma_delivery_keeps_state(s: SoodState, m: MessageModel)
    ensures
        s.devices.is_prefix_of(spec_deliver(s, m).0.devices),
        spec_deliver(s, m).0.devices.len() <= s.devices.len() + 1,
        spec_deliver(s, m).0.queries == s.queries,
        spec_deliver(s, m).0.interfaces == s.interfaces,
{
    assert(s.devices.is_prefix_of(s.devices));
    assert(s.devices.is_prefix_of(s.devices.push(
        (m.0, announced_device(m.2).unwrap().0, announced_device(m.2).unwrap().1, m.2),
    )));
}

/// A query message is never handed to a query, nor to the listeners of responses.
pub proof fn lemma_queries_not_delivered(s: SoodState, m: MessageModel)
    requires
        m.1 == MessageType::Query,
    ensures
        spec_deliver(s, m).1.0 is None,
        !spec_deliver(s, m).1.1,
{
}

/// After a query is prepared, a response carrying its transaction id is handed to it.
pub proof fn lemma_response_reaches_query(
    s: SoodState,
    ps: PropSeq,
    packet: Seq<u8>,
    id: u128,
    s2: SoodState,
    m: MessageModel,
)
    requires
        prepared(s, ps, Ok((packet, id)), s2),
        m.1 == MessageType::Response,
        prop_get(m.2, transaction_key()) matches Some(Some(t)) && uuid_from_text(t) == Some(id),
    ensures
        spec_deliver(s2, m).1.0 == Some(id),
        spec_deliver(s2, m).1.1,
{
    assert(s2.queries == open_query(s.queries, id));
    if !s.queries.contains(id) {
        assert(s2.queries[s.queries.len() as int] == id);
    }
}

/// After a query is closed, no response is handed to it any more.
pub proof fn lemma_closed_query_unreached(s: SoodState, id: u128, m: MessageModel)
    requires
        s.queries.no_duplicates(),
    ensures
        spec_deliver(SoodState { queries: close_query(s.queries, id), ..s }, m).1.0 != Some(id),
{
    let qs = s.queries;
    qs.index_of_first_ensures(id);
    let r = close_query(qs, id);
    if let Some(i) = qs.index_of_first(id) {
        if r.contains(id) {
            let k = choose|k: int| 0 <= k < r.len() && r[k] == id;
            let k2 = if k < i { k } else { k + 1 };
            assert(r[k] == qs[k2]);
        }
    }
}

/// After the interfaces are compared with the current ones, every interface kept is
/// among them and every one dropped is not.
pub proof fn lemma_retained_interfaces(names: Seq<Seq<char>>, current: Seq<Seq<char>>)
    ensures
        forall|i: int|
            0 <= i < kept_interfaces(names, current).len() ==> current.contains(
                #[trigger] kept_interfaces(names, current)[i],
            ),
        forall|i: int|
            0 <= i < dropped_interfaces(names, current).len() ==> !current.contains(
                #[trigger] dropped_interfaces(names, current)[i],
            ),
        kept_interfaces(names, current).len() + dropped_interfaces(names, current).len()
            == names.len(),
    decreases names.len(),
{
    broadcast use vstd::seq_lib::group_filter_ensures;

    reveal_with_fuel(Seq::<_>::filter, 1);
    if names.len() > 0 {
        lemma_retained_interfaces(names.drop_last(), current);
    }
}

/// The devices discovered before a listener came, handed out one after the other.
pub struct DeviceHistory {
    past: Vec<DiscoveredDevice>,
    next: usize,
}

impl View for DeviceHistory {
    type V = (Seq<DeviceModel>, int);

    closed spec fn view(&self) -> (Seq<DeviceModel>, int) {
        (device_models(self.past@), self.next as int)
    }
}

/// The history after one more device is asked of it, and the device it hands out.
pub open spec fn spec_history_next(h: (Seq<DeviceModel>, int)) -> ((Seq<DeviceModel>, int), Option<DeviceModel>) {
    if h.1 < h.0.len() {
        ((h.0, h.1 + 1), Some(h.0[h.1]))
    } else {
        (h, None)
    }
}

impl DeviceHistory {
    #[verifier::type_invariant]
    spec fn well_formed(self) -> bool {
        self.next <= self.past@.len()
    }

    /// A history that hands out `past` in order.
    pub fn new(past: Vec<DiscoveredDevice>) -> (r: Self)
        ensures
            r@ == (device_models(past@), 0int),
    {
        DeviceHistory { past, next: 0 }
    }

    /// The next past device, or `None` once all of them have been handed out.
    pub fn next_device(&mut self) -> (r: Option<DiscoveredDevice>)
        ensures
            (final(self)@, match r {
                Some(d) => Some(d.model()),
                None => None,
            }) == spec_history_next(old(self)@),
    {
        proof {
            use_type_invariant(&*self);
        }
        if self.next < self.past.len() {
            let d = self.past[self.next].clone();
            self.next = self.next + 1;
            Some(d)
        } else {
            None
        }
    }
}

/// The state of a history after `k` devices were asked of it.
pub open spec fn history_after(past: Seq<DeviceModel>, k: nat) -> (Seq<DeviceModel>, int) {
    (past, if k < past.len() { k as int } else { past.len() as int })
}

/// A history hands out every past device once, in order, and then nothing.
pub proof fn lemma_history_in_order(past: Seq<DeviceModel>, k: nat)
    ensures
        spec_history_next(history_after(past, k)) == (
            history_after(past, k + 1),
            if k < past.len() {
                Some(past[k as int])
            } else {
                None::<DeviceModel>
            },
        ),
{
}


/// A message announcing a (service ID, unique ID) pair that no known device has, both
/// IDs together, hands out a device with that pair, the sender and the message's
/// properties, and adds it after the devices known before. A known device of another
/// service with the same unique ID does not hide it.
pub proof fn lemma_new_pair_handed_out(s: SoodState, m: MessageModel, sid: Seq<char>, uid: Seq<char>)
    requires
        prop_get(m.2, "service_id"@) == Some(Some(sid)),
        prop_get(m.2, if sid == service_ids::ROON_OS@ { "serial_number"@ } else { "unique_id"@ })
            == Some(Some(uid)),
        !(exists|i: int| 0 <= i < s.devices.len() && s.devices[i].1 == sid && s.devices[i].2 == uid),
    ensures
        spec_deliver(s, m).1.2 == Some((m.0, sid, uid, m.2)),
        spec_deliver(s, m).0.devices == s.devices.push((m.0, sid, uid, m.2)),
{
}

/// A message announcing a pair that a known device has hands out nothing and adds
/// nothing.
pub proof fn lemma_known_pair_not_handed_out(s: SoodState, m: MessageModel, sid: Seq<char>, uid: Seq<char>, i: int)
    requires
        prop_get(m.2, "service_id"@) == Some(Some(sid)),
        prop_get(m.2, if sid == service_ids::ROON_OS@ { "serial_number"@ } else { "unique_id"@ })
            == Some(Some(uid)),
        0 <= i < s.devices.len(),
        s.devices[i].1 == sid,
        s.devices[i].2 == uid,
    ensures
        spec_deliver(s, m).1.2 is None,
        spec_deliver(s, m).0 == s,
{
}

/// Preparing a query keeps every query already open, opens the new one when it
/// succeeds, and touches neither the devices nor the interfaces.
pub proof fn lemma_prepare_keeps_open_queries(
    s: SoodState,
    ps: PropSeq,
    r: Result<(Seq<u8>, u128), QueryError>,
    s2: SoodState,
    u: u128,
)
    requires
        prepared(s, ps, r, s2),
    ensures
        s.queries.contains(u) ==> s2.queries.contains(u),
        r matches Ok((_, id)) ==> s2.queries.contains(id),
        s2.devices == s.devices,
        s2.interfaces == s.interfaces,
{
    if let Ok((_, id)) = r {
        assert(s2.queries == open_query(s.queries, id));
        if s.queries.contains(u) {
            let k = choose|k: int| 0 <= k < s.queries.len() && s.queries[k] == u;
            assert(s2.queries[k] == u);
        }
        if !s.queries.contains(id) {
            assert(s2.queries[s.queries.len() as int] == id);
        }
    }
}

/// After another query is prepared, a response carrying the id of a query that was
/// open still reaches that query.
pub proof fn lemma_open_query_still_reached(
    s: SoodState,
    ps: PropSeq,
    r: Result<(Seq<u8>, u128), QueryError>,
    s2: SoodState,
    u: u128,
    m: MessageModel,
)
    requires
        prepared(s, ps, r, s2),
        s.queries.contains(u),
        m.1 == MessageType::Response,
        prop_get(m.2, "_tid"@) matches Some(Some(t)) && uuid_from_text(t) == Some(u),
    ensures
        spec_deliver(s2, m).1.0 == Some(u),
{
    lemma_prepare_keeps_open_queries(s, ps, r, s2, u);
}

/// Closing query `t` leaves every other open query open, and (ids being held once)
/// `t` closed; no query is opened by it.
pub proof fn lemma_close_keeps_other_queries(qs: Seq<u128>, t: u128, u: u128)
    ensures
        u != t && qs.contains(u) ==> close_query(qs, t).contains(u),
        close_query(qs, t).contains(u) ==> qs.contains(u),
        qs.no_duplicates() ==> !close_query(qs, t).contains(t),
{
    qs.index_of_first_ensures(t);
    let r = close_query(qs, t);
    match qs.index_of_first(t) {
        Some(i) => {
            if u != t && qs.contains(u) {
                let k = choose|k: int| 0 <= k < qs.len() && qs[k] == u;
                assert(k != i);
                let k1 = if k < i { k } else { k - 1 };
                assert(r[k1] == u);
            }
            if r.contains(u) {
                let k = choose|k: int| 0 <= k < r.len() && r[k] == u;
                let k2 = if k < i { k } else { k + 1 };
                assert(qs[k2] == u);
            }
            if qs.no_duplicates() && r.contains(t) {
                let k = choose|k: int| 0 <= k < r.len() && r[k] == t;
                let k2 = if k < i { k } else { k + 1 };
                assert(r[k] == qs[k2]);
            }
        },
        None => {},
    }
}

/// After query `t` is closed, a response carrying the id of another open query still
/// reaches that query.
pub proof fn lemma_other_query_still_reached(s: SoodState, t: u128, u: u128, m: MessageModel)
    requires
        s.queries.contains(u),
        u != t,
        m.1 == MessageType::Response,
        prop_get(m.2, "_tid"@) matches Some(Some(x)) && uuid_from_text(x) == Some(u),
    ensures
        spec_deliver(SoodState { queries: close_query(s.queries, t), ..s }, m).1.0 == Some(u),
{
    lemma_close_keeps_other_queries(s.queries, t, u);
}

/// Comparing the interfaces in use with the current ones keeps exactly those whose
/// name some current interface has, and reports exactly the others as removed.
pub proof fn lemma_interfaces_kept_by_name(names: Seq<Seq<char>>, current: Seq<NetworkInterface>, n: Seq<char>)
    ensures
        names.contains(n) && (exists|k: int| 0 <= k < current.len() && current[k].name@ == n)
            ==> kept_interfaces(names, interface_names(current)).contains(n) && !dropped_interfaces(
            names,
            interface_names(current),
        ).contains(n),
        names.contains(n) && !(exists|k: int| 0 <= k < current.len() && current[k].name@ == n)
            ==> !kept_interfaces(names, interface_names(current)).contains(n) && dropped_interfaces(
            names,
            interface_names(current),
        ).contains(n),
        kept_interfaces(names, interface_names(current)).contains(n) ==> names.contains(n),
        dropped_interfaces(names, interface_names(current)).contains(n) ==> names.contains(n),
{
    broadcast use vstd::seq_lib::group_filter_ensures;

    let cn = interface_names(current);
    let inc = |x: Seq<char>| cn.contains(x);
    let out = |x: Seq<char>| !cn.contains(x);
    let present = exists|k: int| 0 <= k < current.len() && current[k].name@ == n;
    if present {
        let k = choose|k: int| 0 <= k < current.len() && current[k].name@ == n;
        assert(cn[k] == n);
        assert(cn.contains(n));
    } else {
        if cn.contains(n) {
            let k = choose|k: int| 0 <= k < cn.len() && cn[k] == n;
            assert(current[k].name@ == n);
        }
    }
    if names.contains(n) {
        let i = choose|i: int| 0 <= i < names.len() && names[i] == n;
        if cn.contains(n) {
            names.lemma_filter_contains(inc, i);
        } else {
            names.lemma_filter_contains(out, i);
        }
    }
    if names.filter(inc).contains(n) {
        names.lemma_filter_contains_rev(inc, n);
        let k = choose|k: int| 0 <= k < names.filter(inc).len() && names.filter(inc)[k] == n;
        names.lemma_filter_pred(inc, k);
    }
    if names.filter(out).contains(n) {
        names.lemma_filter_contains_rev(out, n);
        let k = choose|k: int| 0 <= k < names.filter(out).len() && names.filter(out)[k] == n;
        names.lemma_filter_pred(out, k);
    }
    assert(kept_interfaces(names, cn) == names.filter(inc));
    assert(dropped_interfaces(names, cn) == names.filter(out));
}

} // verus!
