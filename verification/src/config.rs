//! Which parts of the guilds' state are cached, and which events and
//! resources that asks of the shards.

use vstd::prelude::*;

verus! {

/// What is cached besides the guilds themselves.
#[derive(Clone, Copy, Debug, PartialEq, Eq)]
pub struct Cache {
    pub channels: bool,
    pub presences: bool,
    pub emojis: bool,
    pub current_member: bool,
    pub members: bool,
    pub roles: bool,
    pub stage_instances: bool,
    pub stickers: bool,
    pub users: bool,
    pub voice_states: bool,
}

/// An event that a shard can be asked to deliver.
#[derive(Clone, Copy, Debug, PartialEq, Eq)]
pub enum EventType {
    GuildCreate,
    GuildDelete,
    GuildUpdate,
    Ready,
    GatewayInvalidateSession,
    MemberAdd,
    MemberRemove,
    MemberUpdate,
    RoleCreate,
    RoleDelete,
    RoleUpdate,
    ChannelCreate,
    ChannelDelete,
    ChannelUpdate,
    ThreadCreate,
    ThreadDelete,
    ThreadListSync,
    ThreadUpdate,
    PresenceUpdate,
    GuildEmojisUpdate,
    StageInstanceCreate,
    StageInstanceDelete,
    StageInstanceUpdate,
    VoiceStateUpdate,
    VoiceServerUpdate,
    UserUpdate,
}

/// A kind of resource that the cache can hold.
#[derive(Clone, Copy, Debug, PartialEq, Eq)]
pub enum ResourceType {
    Guild,
    UserCurrent,
    Channel,
    Emoji,
    MemberCurrent,
    Member,
    Presence,
    Role,
    StageInstance,
    Sticker,
    User,
    VoiceState,
}

impl Default for Cache {
    /// Channels, roles and the proxy's own member are cached; nothing else is.
    fn default() -> (r: Cache)
        ensures
            r == (Cache {
                channels: true,
                presences: false,
                emojis: false,
                current_member: true,
                members: false,
                roles: true,
                stage_instances: false,
                stickers: false,
                users: false,
                voice_states: false,
            }),
    {
        Cache {
            channels: true,
            presences: false,
            current_member: true,
            emojis: false,
            members: false,
            roles: true,
            stage_instances: false,
            stickers: false,
            users: false,
            voice_states: false,
        }
    }
}

/// Appends `item`, which `list` does not hold yet, if `wanted`.
fn put<T>(list: &mut Vec<T>, wanted: bool, item: T)
    requires
        !old(list)@.contains(item),
        old(list)@.no_duplicates(),
    ensures
        final(list)@.no_duplicates(),
        forall|x: T| final(list)@.contains(x) <==> old(list)@.contains(x) || (wanted && x == item),
{
    if wanted {
        list.push(item);
        assert forall|x: T| list@.contains(x) <==> old(list)@.contains(x) || x == item by {
            if old(list)@.contains(x) {
                let i = choose|i: int| 0 <= i < old(list)@.len() && old(list)@[i] == x;
                assert(list@[i] == x);
            }
            if x == item {
                assert(list@[list@.len() - 1] == x);
            }
        }
    }
}

impl Cache {
    /// Whether the shards are asked for the event. The guilds' own events,
    /// READY and the invalidation of a session are always asked for; the
    /// others with the part of the cache that they feed.
    pub open spec fn wants_event(self, event: EventType) -> bool {
        match event {
            EventType::GuildCreate
            | EventType::GuildDelete
            | EventType::GuildUpdate
            | EventType::Ready
            | EventType::GatewayInvalidateSession => true,
            EventType::MemberAdd | EventType::MemberRemove | EventType::MemberUpdate => self.members
                || self.current_member,
            EventType::RoleCreate | EventType::RoleDelete | EventType::RoleUpdate => self.roles,
            EventType::ChannelCreate
            | EventType::ChannelDelete
            | EventType::ChannelUpdate
            | EventType::ThreadCreate
            | EventType::ThreadDelete
            | EventType::ThreadListSync
            | EventType::ThreadUpdate => self.channels,
            EventType::PresenceUpdate => self.presences,
            EventType::GuildEmojisUpdate => self.emojis,
            EventType::StageInstanceCreate
            | EventType::StageInstanceDelete
            | EventType::StageInstanceUpdate => self.stage_instances,
            EventType::VoiceStateUpdate | EventType::VoiceServerUpdate => self.voice_states,
            EventType::UserUpdate => self.users,
        }
    }

    /// Whether the cache holds the resource. Guilds and the proxy's own user
    /// are always held; the others as the options say.
    pub open spec fn wants_resource(self, resource: ResourceType) -> bool {
        match resource {
            ResourceType::Guild | ResourceType::UserCurrent => true,
            ResourceType::Channel => self.channels,
            ResourceType::Emoji => self.emojis,
            ResourceType::MemberCurrent => self.current_member,
            ResourceType::Member => self.members,
            ResourceType::Presence => self.presences,
            ResourceType::Role => self.roles,
            ResourceType::StageInstance => self.stage_instances,
            ResourceType::Sticker => self.stickers,
            ResourceType::User => self.users,
            ResourceType::VoiceState => self.voice_states,
        }
    }

    /// The events that the shards are asked for, each once.
    pub fn event_types(&self) -> (r: Vec<EventType>)
        ensures
            forall|event: EventType| r@.contains(event) <==> self.wants_event(event),
            r@.no_duplicates(),
    {
        let mut flags: Vec<EventType> = Vec::new();
        put(&mut flags, true, EventType::GuildCreate);
        put(&mut flags, true, EventType::GuildDelete);
        put(&mut flags, true, EventType::GuildUpdate);
        put(&mut flags, true, EventType::Ready);
        put(&mut flags, true, EventType::GatewayInvalidateSession);
        put(&mut flags, self.members || self.current_member, EventType::MemberAdd);
        put(&mut flags, self.members || self.current_member, EventType::MemberRemove);
        put(&mut flags, self.members || self.current_member, EventType::MemberUpdate);
        put(&mut flags, self.roles, EventType::RoleCreate);
        put(&mut flags, self.roles, EventType::RoleDelete);
        put(&mut flags, self.roles, EventType::RoleUpdate);
        put(&mut flags, self.channels, EventType::ChannelCreate);
        put(&mut flags, self.channels, EventType::ChannelDelete);
        put(&mut flags, self.channels, EventType::ChannelUpdate);
        put(&mut flags, self.channels, EventType::ThreadCreate);
        put(&mut flags, self.channels, EventType::ThreadDelete);
        put(&mut flags, self.channels, EventType::ThreadListSync);
        put(&mut flags, self.channels, EventType::ThreadUpdate);
        put(&mut flags, self.presences, EventType::PresenceUpdate);
        put(&mut flags, self.emojis, EventType::GuildEmojisUpdate);
        put(&mut flags, self.stage_instances, EventType::StageInstanceCreate);
        put(&mut flags, self.stage_instances, EventType::StageInstanceDelete);
        put(&mut flags, self.stage_instances, EventType::StageInstanceUpdate);
        put(&mut flags, self.voice_states, EventType::VoiceStateUpdate);
        put(&mut flags, self.voice_states, EventType::VoiceServerUpdate);
        put(&mut flags, self.users, EventType::UserUpdate);
        flags
    }

    /// The kinds of resource that the cache holds, each once.
    pub fn resource_types(&self) -> (r: Vec<ResourceType>)
        ensures
            forall|resource: ResourceType| r@.contains(resource) <==> self.wants_resource(resource),
            r@.no_duplicates(),
    {
        let mut resource_types: Vec<ResourceType> = Vec::new();
        put(&mut resource_types, true, ResourceType::Guild);
        put(&mut resource_types, true, ResourceType::UserCurrent);
        put(&mut resource_types, self.channels, ResourceType::Channel);
        put(&mut resource_types, self.emojis, ResourceType::Emoji);
        put(&mut resource_types, self.current_member, ResourceType::MemberCurrent);
        put(&mut resource_types, self.members, ResourceType::Member);
        put(&mut resource_types, self.presences, ResourceType::Presence);
        put(&mut resource_types, self.roles, ResourceType::Role);
        put(&mut resource_types, self.stage_instances, ResourceType::StageInstance);
        put(&mut resource_types, self.stickers, ResourceType::Sticker);
        put(&mut resource_types, self.users, ResourceType::User);
        put(&mut resource_types, self.voice_states, ResourceType::VoiceState);
        resource_types
    }
}

/// The log level where none is configured: `info`.
pub fn default_log_level() -> (r: String)
    ensures
        r@ == "info"@,
{
    "info".to_owned()
}

/// The port where none is configured.
pub fn default_port() -> (r: u16)
    ensures
        r == 7878,
{
    7878
}

/// How many events a shard holds for clients that fall behind, where nothing
/// is configured.
pub fn default_backpressure() -> (r: usize)
    ensures
        r == 100,
{
    100
}

} // verus!
