//! Binary framing of generic events and of entity synchronisation messages.
use vstd::prelude::*;

verus! {

/// Upper bound on the component tuples one entity message may carry.
pub const MAX_COMPONENTS_PER_ENTITY: usize = 16;

/// Tag of every message on the wire. The numeric codes are part of the wire
/// contract and are only ever appended to.
#[derive(Clone, Copy, Debug, PartialEq, Eq, Structural)]
pub enum EventType {
    EntityCreate,
    EntityDelete,
    EntityUpdate,
    PlayerJoin,
    PlayerLeave,
    Event,
}

/// Why a received buffer could not be decoded.
#[derive(Clone, Copy, Debug, PartialEq, Eq, Structural)]
pub enum DecodeError {
    /// The leading byte names no `EventType`.
    UnknownEventType(u8),
    /// The buffer ends before the frame it announces.
    Truncated,
    /// An entity message carries more than `MAX_COMPONENTS_PER_ENTITY` tuples.
    TooManyComponents,
    /// A create message announces a component count that its tuples do not have.
    CountMismatch,
    /// The leading byte is a valid tag, but not one this decoder handles.
    UnexpectedKind(u8),
}

impl EventType {
    pub open spec fn code(self) -> u8 {
        match self {
            EventType::EntityCreate => 0,
            EventType::EntityDelete => 1,
            EventType::EntityUpdate => 2,
            EventType::PlayerJoin => 3,
            EventType::PlayerLeave => 4,
            EventType::Event => 5,
        }
    }

    pub open spec fn from_code(b: u8) -> Option<EventType> {
        if b == 0 {
            Some(EventType::EntityCreate)
        } else if b == 1 {
            Some(EventType::EntityDelete)
        } else if b == 2 {
            Some(EventType::EntityUpdate)
        } else if b == 3 {
            Some(EventType::PlayerJoin)
        } else if b == 4 {
            Some(EventType::PlayerLeave)
        } else if b == 5 {
            Some(EventType::Event)
        } else {
            None
        }
    }

    /// Number of tags; codes run from 0 to one less than this.
    pub fn num_variants() -> (r: u8)
        ensures
            r == 6,
    {
        6
    }

    pub fn to_u8(self) -> (r: u8)
        ensures
            r == self.code(),
            r < 6,
            EventType::from_code(r) == Some(self),
    {
        match self {
            EventType::EntityCreate => 0,
            EventType::EntityDelete => 1,
            EventType::EntityUpdate => 2,
            EventType::PlayerJoin => 3,
            EventType::PlayerLeave => 4,
            EventType::Event => 5,
        }
    }

    /// Reads a tag; a byte that names none is reported, never fatal.
    pub fn from_u8(value: u8) -> (r: Result<EventType, DecodeError>)
        ensures
            match r {
                Ok(t) => value < 6 && t.code() == value && EventType::from_code(value) == Some(t),
                Err(e) => value >= 6 && e == DecodeError::UnknownEventType(value)
                    && EventType::from_code(value) is None,
            },
    {
        match value {
            0 => Ok(EventType::EntityCreate),
            1 => Ok(EventType::EntityDelete),
            2 => Ok(EventType::EntityUpdate),
            3 => Ok(EventType::PlayerJoin),
            4 => Ok(EventType::PlayerLeave),
            5 => Ok(EventType::Event),
            _ => Err(DecodeError::UnknownEventType(value)),
        }
    }
}

/// The two little-endian bytes of `v`.
pub open spec fn le_bytes(v: u16) -> Seq<u8> {
    seq![(v % 256) as u8, (v / 256) as u8]
}

/// The `u16` whose little-endian bytes are `lo`, `hi`.
pub open spec fn le_value(lo: u8, hi: u8) -> u16 {
    (lo as int + hi as int * 256) as u16
}

pub fn u16_to_le(v: u16) -> (r: (u8, u8))
    ensures
        seq![r.0, r.1] == le_bytes(v),
        le_value(r.0, r.1) == v,
{
    ((v % 256) as u8, (v / 256) as u8)
}

pub fn u16_from_le(lo: u8, hi: u8) -> (r: u16)
    ensures
        r == le_value(lo, hi),
        le_bytes(r) == seq![lo, hi],
{
    let r = lo as u16 + hi as u16 * 256;
    assert(le_bytes(r) =~= seq![lo, hi]);
    r
}

/// A tagged application event with an opaque payload.
#[derive(Clone, Debug)]
pub struct NetworkingEvent {
    pub event_type: EventType,
    pub data: Vec<u8>,
}

/// Frame of a generic event: tag, payload length (two bytes, little endian),
/// payload.
pub open spec fn event_frame(t: EventType, payload: Seq<u8>) -> Seq<u8> {
    seq![t.code()] + le_bytes(payload.len() as u16) + payload
}

/// What decoding `b` as a generic event frame gives: the tag and the payload,
/// or the first error met. Bytes after the announced payload are ignored.
pub open spec fn decode_event_spec(b: Seq<u8>) -> Result<(EventType, Seq<u8>), DecodeError> {
    if b.len() == 0 {
        Err(DecodeError::Truncated)
    } else {
        match EventType::from_code(b[0]) {
            None => Err(DecodeError::UnknownEventType(b[0])),
            Some(t) => if b.len() < 3 {
                Err(DecodeError::Truncated)
            } else {
                let n = le_value(b[1], b[2]) as int;
                if b.len() < 3 + n {
                    Err(DecodeError::Truncated)
                } else {
                    Ok((t, b.subrange(3, 3 + n)))
                }
            },
        }
    }
}

/// Copies `b[start..end]` into a new vector.
pub fn copy_range(b: &[u8], start: usize, end: usize) -> (r: Vec<u8>)
    requires
        start <= end <= b@.len(),
    ensures
        r@ == b@.subrange(start as int, end as int),
{
    let mut r: Vec<u8> = Vec::new();
    let mut i: usize = start;
    while i < end
        invariant
            start <= i <= end <= b@.len(),
            r@ == b@.subrange(start as int, i as int),
        decreases end - i,
    {
        r.push(b[i]);
        i = i + 1;
    }
    r
}

/// Appends all of `src` to `dst`.
pub fn append_bytes(dst: &mut Vec<u8>, src: &[u8])
    ensures
        final(dst)@ == old(dst)@ + src@,
{
    let mut i: usize = 0;
    while i < src.len()
        invariant
            i <= src@.len(),
            dst@ == old(dst)@ + src@.subrange(0, i as int),
        decreases src@.len() - i,
    {
        dst.push(src[i]);
        i = i + 1;
        assert(src@.subrange(0, i as int) =~= src@.subrange(0, i - 1) + seq![src@[i - 1]]);
    }
    assert(src@.subrange(0, src@.len() as int) =~= src@);
}

impl NetworkingEvent {
    /// Payloads must fit the 16-bit length field.
    pub open spec fn wf(&self) -> bool {
        self.data@.len() <= u16::MAX
    }

    pub fn new(event_type: EventType, data: Vec<u8>) -> (r: NetworkingEvent)
        requires
            data@.len() <= u16::MAX,
        ensures
            r.event_type == event_type,
            r.data@ == data@,
            r.wf(),
    {
        NetworkingEvent { event_type, data }
    }

    /// Payload length as carried in the frame.
    pub fn length(&self) -> (r: u16)
        requires
            self.wf(),
        ensures
            r == self.data@.len(),
    {
        self.data.len() as u16
    }

    pub fn to_bytes(&self) -> (r: Vec<u8>)
        requires
            self.wf(),
        ensures
            r@ == event_frame(self.event_type, self.data@),
    {
        let mut bytes: Vec<u8> = Vec::new();
        bytes.push(self.event_type.to_u8());
        let (lo, hi) = u16_to_le(self.length());
        bytes.push(lo);
        bytes.push(hi);
        append_bytes(&mut bytes, self.data.as_slice());
        assert(bytes@ =~= event_frame(self.event_type, self.data@));
        bytes
    }

    /// Decodes a generic event frame; malformed input gives an error value.
    pub fn from_bytes(bytes: &[u8]) -> (r: Result<NetworkingEvent, DecodeError>)
        ensures
            match r {
                Ok(e) => decode_event_spec(bytes@) == Ok::<(EventType, Seq<u8>), DecodeError>(
                    (e.event_type, e.data@),
                ) && e.wf(),
                Err(err) => decode_event_spec(bytes@) == Err::<(EventType, Seq<u8>), DecodeError>(
                    err,
                ),
            },
    {
        if bytes.len() == 0 {
            return Err(DecodeError::Truncated);
        }
        let event_type = match EventType::from_u8(bytes[0]) {
            Ok(t) => t,
            Err(e) => return Err(e),
        };
        if bytes.len() < 3 {
            return Err(DecodeError::Truncated);
        }
        let length = u16_from_le(bytes[1], bytes[2]) as usize;
        if bytes.len() - 3 < length {
            return Err(DecodeError::Truncated);
        }
        let data = copy_range(bytes, 3, 3 + length);
        Ok(NetworkingEvent { event_type, data })
    }
}

/// One replicated component on the wire: its stable type id and its bytes.
#[derive(Clone, Debug)]
pub struct ComponentData {
    pub id: u16,
    pub payload: Vec<u8>,
}

impl ComponentData {
    pub open spec fn view(&self) -> (u16, Seq<u8>) {
        (self.id, self.payload@)
    }
}

/// The abstract content of a list of components.
pub open spec fn comps_view(v: Seq<ComponentData>) -> Seq<(u16, Seq<u8>)> {
    v.map_values(|c: ComponentData| c.view())
}

/// Every payload fits the one-byte length field.
pub open spec fn payloads_fit(cs: Seq<(u16, Seq<u8>)>) -> bool {
    forall|k: int| 0 <= k < cs.len() ==> (#[trigger] cs[k]).1.len() <= 255
}

/// One tuple: type id (little endian), payload length, payload.
pub open spec fn component_bytes(c: (u16, Seq<u8>)) -> Seq<u8> {
    le_bytes(c.0) + seq![c.1.len() as u8] + c.1
}

/// The tuple stream of `cs`, in order.
pub open spec fn components_bytes(cs: Seq<(u16, Seq<u8>)>) -> Seq<u8>
    decreases cs.len(),
{
    if cs.len() == 0 {
        Seq::<u8>::empty()
    } else {
        components_bytes(cs.drop_last()) + component_bytes(cs.last())
    }
}

/// Reads a tuple stream up to its end, taking at most `budget` tuples: an
/// error where a tuple is cut short, or where a tuple begins once the budget
/// is spent.
pub open spec fn parse_components(b: Seq<u8>, budget: nat) -> Result<Seq<(u16, Seq<u8>)>, DecodeError>
    decreases b.len(),
{
    if b.len() == 0 {
        Ok(Seq::<(u16, Seq<u8>)>::empty())
    } else if budget == 0 {
        Err(DecodeError::TooManyComponents)
    } else if b.len() < 3 {
        Err(DecodeError::Truncated)
    } else {
        let n = b[2] as int;
        if b.len() < 3 + n {
            Err(DecodeError::Truncated)
        } else {
            match parse_components(b.subrange(3 + n, b.len() as int), (budget - 1) as nat) {
                Ok(rest) => Ok(seq![(le_value(b[0], b[1]), b.subrange(3, 3 + n))] + rest),
                Err(e) => Err(e),
            }
        }
    }
}

/// `acc` in front of what reading the rest of a stream gives.
pub open spec fn prepend(acc: Seq<(u16, Seq<u8>)>, r: Result<Seq<(u16, Seq<u8>)>, DecodeError>) -> Result<
    Seq<(u16, Seq<u8>)>,
    DecodeError,
> {
    match r {
        Ok(rest) => Ok(acc + rest),
        Err(e) => Err(e),
    }
}

/// Writes the tuple stream of `cs` after what `bytes` holds.
pub fn push_components(bytes: &mut Vec<u8>, cs: &Vec<ComponentData>)
    requires
        payloads_fit(comps_view(cs@)),
    ensures
        final(bytes)@ == old(bytes)@ + components_bytes(comps_view(cs@)),
{
    let mut i: usize = 0;
    while i < cs.len()
        invariant
            i <= cs@.len(),
            payloads_fit(comps_view(cs@)),
            bytes@ == old(bytes)@ + components_bytes(comps_view(cs@.subrange(0, i as int))),
        decreases cs@.len() - i,
    {
        let c = &cs[i];
        assert(comps_view(cs@)[i as int] == c.view());
        let (lo, hi) = u16_to_le(c.id);
        bytes.push(lo);
        bytes.push(hi);
        bytes.push(c.payload.len() as u8);
        append_bytes(bytes, c.payload.as_slice());
        let ghost pre = comps_view(cs@.subrange(0, i as int));
        let ghost post = comps_view(cs@.subrange(0, i + 1));
        assert(post.drop_last() =~= pre);
        assert(post.last() == c.view());
        assert(component_bytes(c.view()) =~= seq![lo, hi, c.payload@.len() as u8] + c.payload@);
        i = i + 1;
    }
    assert(cs@.subrange(0, cs@.len() as int) =~= cs@);
}

/// The stream of a non-empty list is its first tuple followed by the stream
/// of the rest.
pub proof fn lemma_components_bytes_front(cs: Seq<(u16, Seq<u8>)>)
    requires
        cs.len() > 0,
    ensures
        components_bytes(cs) == component_bytes(cs[0]) + components_bytes(cs.drop_first()),
    decreases cs.len(),
{
    if cs.len() == 1 {
        assert(cs.drop_last() =~= Seq::<(u16, Seq<u8>)>::empty());
        assert(cs.drop_first() =~= Seq::<(u16, Seq<u8>)>::empty());
        assert(components_bytes(cs.drop_last()) == Seq::<u8>::empty());
        assert(components_bytes(cs.drop_first()) == Seq::<u8>::empty());
        assert(components_bytes(cs) =~= component_bytes(cs[0]));
    } else {
        lemma_components_bytes_front(cs.drop_last());
        assert(cs.drop_last().drop_first() =~= cs.drop_first().drop_last());
        assert(cs.drop_first().last() == cs.last());
        assert(cs.drop_last()[0] == cs[0]);
    }
}

/// Reading a stream that starts with one whole tuple.
pub proof fn lemma_parse_one(c: (u16, Seq<u8>), tail: Seq<u8>, budget: nat)
    requires
        c.1.len() <= 255,
        budget > 0,
    ensures
        parse_components(component_bytes(c) + tail, budget) == prepend(
            seq![c],
            parse_components(tail, (budget - 1) as nat),
        ),
{
    let b = component_bytes(c) + tail;
    let n = c.1.len() as int;
    assert(b[2] == c.1.len() as u8);
    assert(b[2] as int == n);
    assert(b.subrange(3 + n, b.len() as int) =~= tail);
    assert(b.subrange(3, 3 + n) =~= c.1);
    assert(le_value(b[0], b[1]) == c.0);
}

/// Reading back the stream of at most `budget` tuples gives them back.
pub proof fn lemma_components_round_trip(cs: Seq<(u16, Seq<u8>)>, budget: nat)
    requires
        payloads_fit(cs),
        cs.len() <= budget,
    ensures
        parse_components(components_bytes(cs), budget) == Ok::<Seq<(u16, Seq<u8>)>, DecodeError>(cs),
    decreases cs.len(),
{
    if cs.len() == 0 {
        assert(components_bytes(cs) =~= Seq::<u8>::empty());
        assert(cs =~= Seq::<(u16, Seq<u8>)>::empty());
    } else {
        lemma_components_bytes_front(cs);
        let rest = cs.drop_first();
        assert(payloads_fit(rest)) by {
            assert forall|k: int| 0 <= k < rest.len() implies (#[trigger] rest[k]).1.len() <= 255 by {
                assert(rest[k] == cs[k + 1]);
            }
        }
        lemma_components_round_trip(rest, (budget - 1) as nat);
        assert(cs[0].1.len() <= 255);
        lemma_parse_one(cs[0], components_bytes(rest), budget);
        assert(seq![cs[0]] + rest =~= cs);
        assert(prepend(seq![cs[0]], parse_components(components_bytes(rest), (budget - 1) as nat))
            == Ok::<Seq<(u16, Seq<u8>)>, DecodeError>(seq![cs[0]] + rest));
    }
}

/// Reads the tuple stream that fills `b[start..]`, stopping at the first
/// tuple past `MAX_COMPONENTS_PER_ENTITY`.
pub fn read_components(b: &[u8], start: usize) -> (r: Result<Vec<ComponentData>, DecodeError>)
    requires
        start <= b@.len(),
    ensures
        match r {
            Ok(v) => parse_components(
                b@.subrange(start as int, b@.len() as int),
                MAX_COMPONENTS_PER_ENTITY as nat,
            ) == Ok::<Seq<(u16, Seq<u8>)>, DecodeError>(comps_view(v@)),
            Err(e) => parse_components(
                b@.subrange(start as int, b@.len() as int),
                MAX_COMPONENTS_PER_ENTITY as nat,
            ) == Err::<Seq<(u16, Seq<u8>)>, DecodeError>(e),
        },
{
    let ghost whole = b@.subrange(start as int, b@.len() as int);
    let mut acc: Vec<ComponentData> = Vec::new();
    let mut i: usize = start;
    while i < b.len()
        invariant
            start <= i <= b@.len(),
            acc@.len() <= MAX_COMPONENTS_PER_ENTITY,
            whole == b@.subrange(start as int, b@.len() as int),
            parse_components(whole, MAX_COMPONENTS_PER_ENTITY as nat) == prepend(
                comps_view(acc@),
                parse_components(
                    b@.subrange(i as int, b@.len() as int),
                    (MAX_COMPONENTS_PER_ENTITY - acc@.len()) as nat,
                ),
            ),
        decreases b@.len() - i,
    {
        let ghost cur = b@.subrange(i as int, b@.len() as int);
        if acc.len() == MAX_COMPONENTS_PER_ENTITY {
            return Err(DecodeError::TooManyComponents);
        }
        if b.len() - i < 3 {
            return Err(DecodeError::Truncated);
        }
        let n = b[i + 2] as usize;
        if b.len() - i - 3 < n {
            return Err(DecodeError::Truncated);
        }
        let id = u16_from_le(b[i], b[i + 1]);
        let payload = copy_range(b, i + 3, i + 3 + n);
        let ghost next = b@.subrange((i + 3 + n) as int, b@.len() as int);
        assert(cur.subrange(3 + n, cur.len() as int) =~= next);
        assert(cur.subrange(3, 3 + n) =~= payload@);
        assert(cur[0] == b@[i as int] && cur[1] == b@[i + 1] && cur[2] == b@[i + 2]);
        let ghost old_acc = acc@;
        let c = ComponentData { id, payload };
        acc.push(c);
        assert(comps_view(acc@) =~= comps_view(old_acc).push((id, payload@)));
        proof {
            match parse_components(next, (MAX_COMPONENTS_PER_ENTITY - acc@.len()) as nat) {
                Ok(rest) => {
                    assert(comps_view(old_acc) + (seq![(id, payload@)] + rest) =~= comps_view(
                        acc@,
                    ) + rest);
                },
                Err(_) => {},
            }
        }
        i = i + 3 + n;
    }
    assert(b@.subrange(i as int, b@.len() as int) =~= Seq::<u8>::empty());
    assert(comps_view(acc@) + Seq::<(u16, Seq<u8>)>::empty() =~= comps_view(acc@));
    Ok(acc)
}

/// Per-entity replication flags.
#[derive(Clone, Copy, Debug, PartialEq, Eq, Structural)]
pub struct ReplicationInfo {
    /// The entity is to be despawned at the next collection.
    pub pending_delete: bool,
    /// The entity's full state is re-broadcast every tick.
    pub periodic_sync: bool,
}

/// Wire byte of the flags: bit 7 is `pending_delete`, bit 6 `periodic_sync`.
pub open spec fn info_byte(i: ReplicationInfo) -> u8 {
    ((if i.pending_delete { 128int } else { 0int }) + (if i.periodic_sync { 64int } else { 0int })) as u8
}

pub open spec fn info_of_byte(b: u8) -> ReplicationInfo {
    ReplicationInfo { pending_delete: b >= 128, periodic_sync: b % 128 >= 64 }
}

impl ReplicationInfo {
    pub fn to_byte(&self) -> (r: u8)
        ensures
            r == info_byte(*self),
            info_of_byte(r) == *self,
    {
        let mut b: u8 = 0;
        if self.pending_delete {
            b = b + 128;
        }
        if self.periodic_sync {
            b = b + 64;
        }
        b
    }

    pub fn from_byte(b: u8) -> (r: ReplicationInfo)
        ensures
            r == info_of_byte(b),
    {
        ReplicationInfo { pending_delete: b >= 128, periodic_sync: b % 128 >= 64 }
    }
}

/// A decoded entity synchronisation message.
#[derive(Clone, Debug)]
pub enum EntityMessage {
    Create { static_id: u16, info: ReplicationInfo, components: Vec<ComponentData> },
    Update { static_id: u16, components: Vec<ComponentData> },
    Delete { static_id: u16 },
}

/// The abstract content of an entity message.
pub enum EntityMsg {
    Create(u16, ReplicationInfo, Seq<(u16, Seq<u8>)>),
    Update(u16, Seq<(u16, Seq<u8>)>),
    Delete(u16),
}

impl EntityMessage {
    pub open spec fn view(&self) -> EntityMsg {
        match self {
            EntityMessage::Create { static_id, info, components } => EntityMsg::Create(
                *static_id,
                *info,
                comps_view(components@),
            ),
            EntityMessage::Update { static_id, components } => EntityMsg::Update(
                *static_id,
                comps_view(components@),
            ),
            EntityMessage::Delete { static_id } => EntityMsg::Delete(*static_id),
        }
    }
}

/// Frame of an update: tag, static id, tuple stream up to the end.
pub open spec fn update_frame(static_id: u16, cs: Seq<(u16, Seq<u8>)>) -> Seq<u8> {
    seq![EventType::EntityUpdate.code()] + le_bytes(static_id) + components_bytes(cs)
}

/// Frame of a create: tag, static id, flags, count, tuple stream.
pub open spec fn create_frame(static_id: u16, info: ReplicationInfo, cs: Seq<(u16, Seq<u8>)>) -> Seq<u8> {
    seq![EventType::EntityCreate.code()] + le_bytes(static_id) + seq![info_byte(info), cs.len() as u8]
        + components_bytes(cs)
}

/// Frame of a delete: tag and static id.
pub open spec fn delete_frame(static_id: u16) -> Seq<u8> {
    seq![EventType::EntityDelete.code()] + le_bytes(static_id)
}

/// What decoding `b` as an entity message gives, or the first error met.
pub open spec fn decode_entity_spec(b: Seq<u8>) -> Result<EntityMsg, DecodeError> {
    if b.len() == 0 {
        Err(DecodeError::Truncated)
    } else {
        match EventType::from_code(b[0]) {
            None => Err(DecodeError::UnknownEventType(b[0])),
            Some(t) => if t != EventType::EntityCreate && t != EventType::EntityUpdate && t
                != EventType::EntityDelete {
                Err(DecodeError::UnexpectedKind(b[0]))
            } else if b.len() < 3 {
                Err(DecodeError::Truncated)
            } else {
                let sid = le_value(b[1], b[2]);
                if t == EventType::EntityDelete {
                    Ok(EntityMsg::Delete(sid))
                } else if t == EventType::EntityUpdate {
                    match parse_components(b.subrange(3, b.len() as int), MAX_COMPONENTS_PER_ENTITY as nat) {
                        Err(e) => Err(e),
                        Ok(cs) => Ok(EntityMsg::Update(sid, cs)),
                    }
                } else if b.len() < 5 {
                    Err(DecodeError::Truncated)
                } else {
                    match parse_components(b.subrange(5, b.len() as int), MAX_COMPONENTS_PER_ENTITY as nat) {
                        Err(e) => Err(e),
                        Ok(cs) => if cs.len() != b[4] as int {
                            Err(DecodeError::CountMismatch)
                        } else {
                            Ok(EntityMsg::Create(sid, info_of_byte(b[3]), cs))
                        },
                    }
                }
            },
        }
    }
}

pub fn encode_update(static_id: u16, components: &Vec<ComponentData>) -> (r: Vec<u8>)
    requires
        payloads_fit(comps_view(components@)),
    ensures
        r@ == update_frame(static_id, comps_view(components@)),
{
    let mut bytes: Vec<u8> = Vec::new();
    bytes.push(EventType::EntityUpdate.to_u8());
    let (lo, hi) = u16_to_le(static_id);
    bytes.push(lo);
    bytes.push(hi);
    push_components(&mut bytes, components);
    assert(bytes@ =~= update_frame(static_id, comps_view(components@)));
    bytes
}

pub fn encode_create(static_id: u16, info: ReplicationInfo, components: &Vec<ComponentData>) -> (r: Vec<u8>)
    requires
        components@.len() <= 255,
        payloads_fit(comps_view(components@)),
    ensures
        r@ == create_frame(static_id, info, comps_view(components@)),
{
    let mut bytes: Vec<u8> = Vec::new();
    bytes.push(EventType::EntityCreate.to_u8());
    let (lo, hi) = u16_to_le(static_id);
    bytes.push(lo);
    bytes.push(hi);
    bytes.push(info.to_byte());
    bytes.push(components.len() as u8);
    push_components(&mut bytes, components);
    assert(bytes@ =~= create_frame(static_id, info, comps_view(components@)));
    bytes
}

pub fn encode_delete(static_id: u16) -> (r: Vec<u8>)
    ensures
        r@ == delete_frame(static_id),
{
    let mut bytes: Vec<u8> = Vec::new();
    bytes.push(EventType::EntityDelete.to_u8());
    let (lo, hi) = u16_to_le(static_id);
    bytes.push(lo);
    bytes.push(hi);
    assert(bytes@ =~= delete_frame(static_id));
    bytes
}

/// Decodes an entity message; malformed or hostile input gives an error value.
pub fn decode_entity_message(b: &[u8]) -> (r: Result<EntityMessage, DecodeError>)
    ensures
        match r {
            Ok(m) => decode_entity_spec(b@) == Ok::<EntityMsg, DecodeError>(m.view()),
            Err(e) => decode_entity_spec(b@) == Err::<EntityMsg, DecodeError>(e),
        },
{
    if b.len() == 0 {
        return Err(DecodeError::Truncated);
    }
    let t = match EventType::from_u8(b[0]) {
        Ok(t) => t,
        Err(e) => return Err(e),
    };
    match t {
        EventType::EntityCreate | EventType::EntityUpdate | EventType::EntityDelete => {},
        _ => return Err(DecodeError::UnexpectedKind(b[0])),
    }
    if b.len() < 3 {
        return Err(DecodeError::Truncated);
    }
    let static_id = u16_from_le(b[1], b[2]);
    match t {
        EventType::EntityDelete => Ok(EntityMessage::Delete { static_id }),
        EventType::EntityUpdate => match read_components(b, 3) {
            Err(e) => Err(e),
            Ok(components) => Ok(EntityMessage::Update { static_id, components }),
        },
        _ => {
            if b.len() < 5 {
                return Err(DecodeError::Truncated);
            }
            match read_components(b, 5) {
                Err(e) => Err(e),
                Ok(components) => {
                    if components.len() != b[4] as usize {
                        Err(DecodeError::CountMismatch)
                    } else {
                        Ok(
                            EntityMessage::Create {
                                static_id,
                                info: ReplicationInfo::from_byte(b[3]),
                                components,
                            },
                        )
                    }
                },
            }
        },
    }
}

} // verus!
