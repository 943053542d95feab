//! What a shard's events do to what is kept of the shard, and which of them
//! go out to the clients.
//!
//! A guild event reaches the shard twice: as the frame that upstream sent, and
//! as the event that was read from it. The frame is held back until the guilds
//! have taken the event in, so that a client that is sent the frame finds the
//! guilds as they are after it.

use vstd::prelude::*;
use crate::event::{parsed_event, GatewayEvent, SequenceInfo};
use crate::guilds::{
    as_map, created, deleted, distinct, ids_of, lemma_create_inserts,
    lemma_ready_lists_the_tracked, tracks, updated, GuildEntry, GuildTracker, GUILD_CREATE,
    GUILD_DELETE, GUILD_UPDATE,
};
use crate::protocol::DISPATCH;
use crate::ready::{members_of, not_guilds, JsonMember, Member, ReadySnapshot, READY};

verus! {

/// The name of the event that answers a resumed session: `RESUMED`.
pub const RESUMED: [u8; 7] = [
    'R' as u8,
    'E' as u8,
    'S' as u8,
    'U' as u8,
    'M' as u8,
    'E' as u8,
    'D' as u8,
];

/// What a frame from upstream is to the engine.
#[derive(Clone, Copy, Debug, PartialEq, Eq)]
pub enum PayloadKind {
    /// The shard's READY.
    Ready,
    /// A guild event, which goes to the clients once the guilds have taken it
    /// in, with the place of its sequence number where it has one.
    Guild(Option<SequenceInfo>),
    /// Another event for the clients, with the place of its sequence number
    /// where it has one.
    Relay(Option<SequenceInfo>),
    /// Nothing that the clients get.
    Drop,
}

/// One event of a shard.
#[derive(Clone, Debug, PartialEq, Eq)]
pub enum UpstreamEvent {
    /// A frame as the shard received it.
    Payload(Vec<u8>),
    /// The members of the data of the READY that was to be decoded; nothing
    /// where it could not be.
    ReadyData(Option<Vec<JsonMember>>),
    /// A GUILD_CREATE, with the guild's data.
    GuildCreate { id: u64, snapshot: Vec<u8> },
    /// A GUILD_UPDATE, with the guild's data.
    GuildUpdate { id: u64, snapshot: Vec<u8> },
    /// A GUILD_DELETE.
    GuildDelete { id: u64, unavailable: bool },
    /// Any other event.
    Other,
}

/// One thing that is to be done after an event was taken in.
#[derive(Clone, Debug, PartialEq, Eq)]
pub enum IngestAction {
    /// Decode the data of this frame, a READY, and hand its members in as
    /// `ReadyData`.
    DecodeReady { payload: Vec<u8> },
    /// The shard's READY is kept now: wake those who wait for it.
    SignalReady,
    /// Send this to every client that is subscribed now.
    Broadcast { payload: Vec<u8>, sequence: Option<SequenceInfo> },
}

/// An `IngestAction` with the text it carries.
pub ghost enum Outcome {
    DecodeReady { payload: Seq<u8> },
    SignalReady,
    Broadcast { payload: Seq<u8>, sequence: Option<SequenceInfo> },
}

impl View for IngestAction {
    type V = Outcome;

    open spec fn view(&self) -> Outcome {
        match *self {
            IngestAction::DecodeReady { payload } => Outcome::DecodeReady { payload: payload@ },
            IngestAction::SignalReady => Outcome::SignalReady,
            IngestAction::Broadcast { payload, sequence } => Outcome::Broadcast {
                payload: payload@,
                sequence,
            },
        }
    }
}

/// What a list of actions comes to.
pub open spec fn outcomes_of(actions: Seq<IngestAction>) -> Seq<Outcome> {
    actions.map_values(|action: IngestAction| action@)
}

/// A frame that is held back, with the place of its sequence number.
struct Pending {
    payload: Vec<u8>,
    sequence: Option<SequenceInfo>,
}

/// A frame that is held back, as text.
pub ghost struct Held {
    pub payload: Seq<u8>,
    pub sequence: Option<SequenceInfo>,
}

/// What is kept of a shard.
pub ghost struct ShardView {
    pub ready: Option<Seq<Member>>,
    pub guilds: Seq<GuildEntry>,
    pub pending: Option<Held>,
}

/// What is kept of a shard: its READY, once it came, its guilds, and the frame
/// of a guild event that the guilds have not taken in yet.
pub struct ShardState {
    ready: Option<ReadySnapshot>,
    guilds: GuildTracker,
    pending: Option<Pending>,
}

impl View for ShardState {
    type V = ShardView;

    closed spec fn view(&self) -> ShardView {
        ShardView {
            ready: match self.ready {
                Some(snapshot) => Some(snapshot@),
                None => None,
            },
            guilds: self.guilds@,
            pending: match self.pending {
                Some(pending) => Some(Held { payload: pending.payload@, sequence: pending.sequence }),
                None => None,
            },
        }
    }
}

impl ShardView {
    /// No guild has two entries, and the place of the sequence number of a
    /// frame that is held back lies in the frame.
    pub open spec fn wf(self) -> bool {
        &&& distinct(self.guilds)
        &&& self.pending matches Some(Held { payload, sequence: Some(at) }) ==> at.start <= at.end
            <= payload.len()
    }
}

/// What a frame from upstream is: nothing for the clients unless it is a
/// dispatch; of the dispatches, the READY by its name, nothing for the clients
/// if it is RESUMED, a guild event if it is GUILD_CREATE, GUILD_UPDATE or
/// GUILD_DELETE, and another event for the clients otherwise.
pub open spec fn payload_kind(payload: Seq<u8>) -> PayloadKind {
    match parsed_event(payload) {
        None => PayloadKind::Drop,
        Some(event) => if event.op != DISPATCH {
            PayloadKind::Drop
        } else if event.names(payload, READY@) {
            PayloadKind::Ready
        } else if event.names(payload, RESUMED@) {
            PayloadKind::Drop
        } else if event.names(payload, GUILD_CREATE@) || event.names(payload, GUILD_UPDATE@)
            || event.names(payload, GUILD_DELETE@) {
            PayloadKind::Guild(event.sequence)
        } else {
            PayloadKind::Relay(event.sequence)
        },
    }
}

/// The frame that an event leaves held back: the frame of a guild event, and
/// no other.
pub open spec fn held_after(event: UpstreamEvent) -> Option<Held> {
    match event {
        UpstreamEvent::Payload(payload) => match payload_kind(payload@) {
            PayloadKind::Guild(sequence) => Some(Held { payload: payload@, sequence }),
            _ => None,
        },
        _ => None,
    }
}

/// The guilds after an event: the guild events change them, no other does.
pub open spec fn guilds_after(guilds: Seq<GuildEntry>, event: UpstreamEvent) -> Seq<GuildEntry> {
    match event {
        UpstreamEvent::GuildCreate { id, snapshot } => created(guilds, id, snapshot@),
        UpstreamEvent::GuildUpdate { id, snapshot } => updated(guilds, id, snapshot@),
        UpstreamEvent::GuildDelete { id, unavailable } => deleted(guilds, id, unavailable),
        _ => guilds,
    }
}

/// What is kept of the shard after an event. The first READY that was decoded
/// is kept, without its guilds, and none after it; the guild events change the
/// guilds; the frame of a guild event is held back, and only until the next
/// event.
pub open spec fn ingested(state: ShardView, event: UpstreamEvent) -> ShardView {
    ShardView {
        ready: match event {
            UpstreamEvent::ReadyData(Some(members)) => if state.ready is None {
                Some(members_of(members@).filter(not_guilds()))
            } else {
                state.ready
            },
            _ => state.ready,
        },
        guilds: guilds_after(state.guilds, event),
        pending: held_after(event),
    }
}

/// The frame that was held back goes out with the next event, whatever that
/// is.
pub open spec fn released(state: ShardView) -> Seq<Outcome> {
    match state.pending {
        Some(held) => seq![Outcome::Broadcast { payload: held.payload, sequence: held.sequence }],
        None => Seq::empty(),
    }
}

/// What an event itself asks for. A READY is to be decoded while none is kept;
/// when the first one is kept those who wait are woken. An event for the
/// clients that is no guild event goes out as it came, with the place of its
/// sequence number.
pub open spec fn asked(state: ShardView, event: UpstreamEvent) -> Seq<Outcome> {
    match event {
        UpstreamEvent::Payload(payload) => match payload_kind(payload@) {
            PayloadKind::Ready => if state.ready is None {
                seq![Outcome::DecodeReady { payload: payload@ }]
            } else {
                Seq::empty()
            },
            PayloadKind::Relay(sequence) => seq![Outcome::Broadcast { payload: payload@, sequence }],
            _ => Seq::empty(),
        },
        UpstreamEvent::ReadyData(Some(_)) => if state.ready is None {
            seq![Outcome::SignalReady]
        } else {
            Seq::empty()
        },
        _ => Seq::empty(),
    }
}

/// What is to be done after an event, in this order: the frame that was held
/// back goes out, then what the event itself asks for.
pub open spec fn outcome(state: ShardView, event: UpstreamEvent) -> Seq<Outcome> {
    released(state) + asked(state, event)
}

/// Says what a frame from upstream is.
pub fn classify(payload: &[u8]) -> (kind: PayloadKind)
    ensures
        kind == payload_kind(payload@),
        kind matches PayloadKind::Relay(Some(at)) ==> at.start <= at.end <= payload@.len(),
        kind matches PayloadKind::Guild(Some(at)) ==> at.start <= at.end <= payload@.len(),
{
    let event = match GatewayEvent::from_json(payload) {
        Some(event) => event,
        None => {
            return PayloadKind::Drop;
        },
    };
    if event.op() != DISPATCH {
        return PayloadKind::Drop;
    }
    let ready = READY;
    let resumed = RESUMED;
    let create = GUILD_CREATE;
    let update = GUILD_UPDATE;
    let delete = GUILD_DELETE;
    if event.is_named(payload, ready.as_slice()) {
        PayloadKind::Ready
    } else if event.is_named(payload, resumed.as_slice()) {
        PayloadKind::Drop
    } else if event.is_named(payload, create.as_slice()) || event.is_named(
        payload,
        update.as_slice(),
    ) || event.is_named(payload, delete.as_slice()) {
        PayloadKind::Guild(event.sequence)
    } else {
        PayloadKind::Relay(event.sequence)
    }
}

impl ShardState {
    /// No guild has two entries, and the place of the sequence number of a
    /// frame that is held back lies in the frame.
    pub open spec fn wf(&self) -> bool {
        self@.wf()
    }

    /// A shard of which nothing is known yet.
    pub fn new() -> (r: ShardState)
        ensures
            r@ == (ShardView { ready: None, guilds: Seq::empty(), pending: None }),
            r.wf(),
    {
        ShardState { ready: None, guilds: GuildTracker::new(), pending: None }
    }

    /// The shard's READY, once it is kept.
    pub fn ready(&self) -> (r: Option<&ReadySnapshot>)
        ensures
            match r {
                Some(snapshot) => self@.ready == Some(snapshot@),
                None => self@.ready is None,
            },
    {
        self.ready.as_ref()
    }

    /// The shard's guilds.
    pub fn guilds(&self) -> (r: &GuildTracker)
        ensures
            r@ == self@.guilds,
    {
        &self.guilds
    }

    /// Whether the frame of a guild event is held back.
    pub fn holds_back(&self) -> (r: bool)
        ensures
            r == self@.pending is Some,
    {
        self.pending.is_some()
    }

    /// Takes in one event of the shard and says what is to be done, in the
    /// order in which it is to be done.
    pub fn ingest(&mut self, event: UpstreamEvent) -> (actions: Vec<IngestAction>)
        requires
            old(self).wf(),
        ensures
            final(self)@ == ingested(old(self)@, event),
            outcomes_of(actions@) == outcome(old(self)@, event),
            final(self).wf(),
            forall|i: int|
                0 <= i < actions@.len() ==> (#[trigger] actions@[i] matches IngestAction::Broadcast {
                    payload,
                    sequence: Some(at),
                } ==> at.start <= at.end <= payload@.len()),
    {
        let mut actions: Vec<IngestAction> = Vec::new();
        match self.pending.take() {
            Some(held) => {
                actions.push(
                    IngestAction::Broadcast { payload: held.payload, sequence: held.sequence },
                );
            },
            None => {},
        }
        assert(outcomes_of(actions@) =~= released(old(self)@));
        let ghost before = actions@;
        match event {
            UpstreamEvent::Payload(payload) => match classify(payload.as_slice()) {
                PayloadKind::Ready => {
                    if self.ready.is_none() {
                        actions.push(IngestAction::DecodeReady { payload });
                    }
                },
                PayloadKind::Guild(sequence) => {
                    self.pending = Some(Pending { payload, sequence });
                },
                PayloadKind::Relay(sequence) => {
                    actions.push(IngestAction::Broadcast { payload, sequence });
                },
                PayloadKind::Drop => {},
            },
            UpstreamEvent::ReadyData(Some(members)) => {
                if self.ready.is_none() {
                    self.ready = Some(ReadySnapshot::new(members));
                    actions.push(IngestAction::SignalReady);
                }
            },
            UpstreamEvent::ReadyData(None) => {},
            UpstreamEvent::GuildCreate { id, snapshot } => {
                self.guilds.insert(id, snapshot);
            },
            UpstreamEvent::GuildUpdate { id, snapshot } => {
                self.guilds.update(id, snapshot);
            },
            UpstreamEvent::GuildDelete { id, unavailable } => {
                self.guilds.remove(id, unavailable);
            },
            UpstreamEvent::Other => {},
        }
        assert(outcomes_of(actions@) =~= outcomes_of(before) + asked(old(self)@, event));
        actions
    }
}

/// A shard keeps one READY: once one is kept, no event changes it, none has it
/// decoded again, and those who wait are not woken again.
pub proof fn lemma_ready_kept_once(state: ShardView, event: UpstreamEvent)
    requires
        state.ready is Some,
    ensures
        ingested(state, event).ready == state.ready,
        forall|i: int|
            0 <= i < outcome(state, event).len() ==> #[trigger] outcome(state, event)[i] is Broadcast,
{
}

/// What goes out to the clients is a frame as it came from upstream: the frame
/// that was held back, or the frame that was just handed in. And a frame is
/// held back as it came.
pub proof fn lemma_broadcast_as_it_came(state: ShardView, event: UpstreamEvent, i: int)
    requires
        0 <= i < outcome(state, event).len(),
        outcome(state, event)[i] is Broadcast,
    ensures
        ({
            let sent = outcome(state, event)[i]->Broadcast_payload;
            ||| state.pending matches Some(held) && sent == held.payload && i == 0
            ||| event matches UpstreamEvent::Payload(payload) && sent == payload@
        }),
        ingested(state, event).pending matches Some(held) ==> event matches UpstreamEvent::Payload(
            payload,
        ) && held.payload == payload@,
{
}

/// The frame of a guild event does not go out when it is handed in: it is held
/// back.
pub proof fn lemma_guild_frame_is_held_back(state: ShardView, payload: Vec<u8>)
    requires
        payload_kind(payload@) is Guild,
    ensures
        outcome(state, UpstreamEvent::Payload(payload)) == released(state),
        ingested(state, UpstreamEvent::Payload(payload)).pending == Some(
            Held { payload: payload@, sequence: payload_kind(payload@)->Guild_0 },
        ),
        ingested(state, UpstreamEvent::Payload(payload)).guilds == state.guilds,
{
    assert(released(state) + Seq::<Outcome>::empty() =~= released(state));
}

/// The guilds take a guild event in before its frame goes out: when the frame
/// of a guild event is handed in and the guild event after it, the frame goes
/// out after the second, which is the one that changes the guilds, and it goes
/// out as it came.
pub proof fn lemma_guilds_first(state: ShardView, payload: Vec<u8>, event: UpstreamEvent)
    requires
        payload_kind(payload@) is Guild,
        event is GuildCreate || event is GuildUpdate || event is GuildDelete,
    ensures
        ({
            let held = ingested(state, UpstreamEvent::Payload(payload));
            &&& outcome(held, event) == seq![
                Outcome::Broadcast {
                    payload: payload@,
                    sequence: payload_kind(payload@)->Guild_0,
                },
            ]
            &&& ingested(held, event).guilds == guilds_after(state.guilds, event)
            &&& ingested(held, event).pending is None
        }),
{
    let held = ingested(state, UpstreamEvent::Payload(payload));
    assert(released(held) + Seq::<Outcome>::empty() =~= released(held));
}

/// A frame is held back until the next event and no longer: whatever comes
/// next, the frame goes out first, and it is held back no more unless it is
/// handed in again.
pub proof fn lemma_held_until_next(state: ShardView, event: UpstreamEvent)
    requires
        state.pending is Some,
    ensures
        outcome(state, event).len() >= 1,
        outcome(state, event)[0] == (Outcome::Broadcast {
            payload: state.pending->0.payload,
            sequence: state.pending->0.sequence,
        }),
        ingested(state, event).pending == held_after(event),
{
}

/// A client that is sent the frame of a GUILD_CREATE finds the guild listed:
/// by the time the frame goes out, the READY of a client that is bound then
/// lists the guild.
pub proof fn lemma_created_guild_is_listed(
    state: ShardView,
    payload: Vec<u8>,
    id: u64,
    snapshot: Vec<u8>,
)
    requires
        state.wf(),
        payload_kind(payload@) is Guild,
    ensures
        ({
            let held = ingested(state, UpstreamEvent::Payload(payload));
            let event = UpstreamEvent::GuildCreate { id, snapshot };
            &&& outcome(state, UpstreamEvent::Payload(payload)) == released(state)
            &&& outcome(held, event).len() == 1
            &&& outcome(held, event)[0] matches Outcome::Broadcast { payload: sent, .. } && sent
                == payload@
            &&& ids_of(ingested(held, event).guilds).contains(id)
        }),
{
    let held = ingested(state, UpstreamEvent::Payload(payload));
    let event = UpstreamEvent::GuildCreate { id, snapshot };
    lemma_guild_frame_is_held_back(state, payload);
    lemma_guilds_first(state, payload, event);
    lemma_create_inserts(state.guilds, id, snapshot@);
    let after = created(state.guilds, id, snapshot@);
    assert(as_map(after).dom().contains(id));
    assert(tracks(after, id));
    lemma_ready_lists_the_tracked(after);
}

} // verus!
