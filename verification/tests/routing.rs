use gateway_proxy::config::{
    default_backpressure, default_log_level, default_port, Cache, EventType, ResourceType,
};
use gateway_proxy::router::{compression_hint, route, Route};

#[test]
fn metrics_path_goes_to_the_metrics() {
    assert_eq!(route(b"/metrics", None), Route::Metrics);
    assert_eq!(route(b"/metrics", Some(b"compress=zlib-stream")), Route::Metrics);
}

#[test]
fn any_other_path_is_upgraded() {
    assert_eq!(route(b"/", None), Route::Upgrade { use_zlib: false });
    assert_eq!(route(b"", None), Route::Upgrade { use_zlib: false });
    assert_eq!(route(b"/metrics/", None), Route::Upgrade { use_zlib: false });
    assert_eq!(route(b"/metric", None), Route::Upgrade { use_zlib: false });
    assert_eq!(route(b"/Metrics", None), Route::Upgrade { use_zlib: false });
    assert_eq!(route(b"/", Some(b"v=10&encoding=json")), Route::Upgrade { use_zlib: false });
}

#[test]
fn the_query_can_ask_for_compression() {
    assert_eq!(route(b"/", Some(b"compress=zlib-stream")), Route::Upgrade { use_zlib: true });
    assert_eq!(
        route(b"/gateway", Some(b"v=10&encoding=json&compress=zlib-stream")),
        Route::Upgrade { use_zlib: true }
    );
}

#[test]
fn the_hint_is_a_whole_parameter() {
    assert!(compression_hint(b"compress=zlib-stream"));
    assert!(compression_hint(b"compress=zlib-stream&v=10"));
    assert!(compression_hint(b"v=10&compress=zlib-stream"));
    assert!(compression_hint(b"v=10&compress=zlib-stream&encoding=json"));
    assert!(compression_hint(b"xcompress=zlib-stream&compress=zlib-stream"));
    assert!(!compression_hint(b""));
    assert!(!compression_hint(b"compress=zlib"));
    assert!(!compression_hint(b"compress=zlib-streams"));
    assert!(!compression_hint(b"xcompress=zlib-stream"));
    assert!(!compression_hint(b"v=10&compress=zlib-stream2&encoding=json"));
    assert!(!compression_hint(b"Compress=zlib-stream"));
    assert!(!compression_hint(b"compress=false"));
}

fn all_off() -> Cache {
    Cache {
        channels: false,
        presences: false,
        emojis: false,
        current_member: false,
        members: false,
        roles: false,
        stage_instances: false,
        stickers: false,
        users: false,
        voice_states: false,
    }
}

fn all_on() -> Cache {
    Cache {
        channels: true,
        presences: true,
        emojis: true,
        current_member: true,
        members: true,
        roles: true,
        stage_instances: true,
        stickers: true,
        users: true,
        voice_states: true,
    }
}

#[test]
fn the_default_cache_holds_channels_roles_and_the_own_member() {
    assert_eq!(Cache::default(), Cache { channels: true, current_member: true, roles: true, ..all_off() });
}

#[test]
fn the_guild_events_are_always_asked_for() {
    assert_eq!(
        all_off().event_types(),
        vec![
            EventType::GuildCreate,
            EventType::GuildDelete,
            EventType::GuildUpdate,
            EventType::Ready,
            EventType::GatewayInvalidateSession,
        ]
    );
}

#[test]
fn the_default_cache_asks_for_member_role_and_channel_events() {
    assert_eq!(
        Cache::default().event_types(),
        vec![
            EventType::GuildCreate,
            EventType::GuildDelete,
            EventType::GuildUpdate,
            EventType::Ready,
            EventType::GatewayInvalidateSession,
            EventType::MemberAdd,
            EventType::MemberRemove,
            EventType::MemberUpdate,
            EventType::RoleCreate,
            EventType::RoleDelete,
            EventType::RoleUpdate,
            EventType::ChannelCreate,
            EventType::ChannelDelete,
            EventType::ChannelUpdate,
            EventType::ThreadCreate,
            EventType::ThreadDelete,
            EventType::ThreadListSync,
            EventType::ThreadUpdate,
        ]
    );
}

#[test]
fn each_option_asks_for_its_events() {
    let base = all_off().event_types().len();
    let with = |cache: Cache| cache.event_types()[base..].to_vec();
    assert_eq!(
        with(Cache { members: true, ..all_off() }),
        vec![EventType::MemberAdd, EventType::MemberRemove, EventType::MemberUpdate]
    );
    assert_eq!(
        with(Cache { current_member: true, ..all_off() }),
        vec![EventType::MemberAdd, EventType::MemberRemove, EventType::MemberUpdate]
    );
    assert_eq!(with(Cache { presences: true, ..all_off() }), vec![EventType::PresenceUpdate]);
    assert_eq!(with(Cache { emojis: true, ..all_off() }), vec![EventType::GuildEmojisUpdate]);
    assert_eq!(
        with(Cache { stage_instances: true, ..all_off() }),
        vec![
            EventType::StageInstanceCreate,
            EventType::StageInstanceDelete,
            EventType::StageInstanceUpdate,
        ]
    );
    assert_eq!(
        with(Cache { voice_states: true, ..all_off() }),
        vec![EventType::VoiceStateUpdate, EventType::VoiceServerUpdate]
    );
    assert_eq!(with(Cache { users: true, ..all_off() }), vec![EventType::UserUpdate]);
    assert_eq!(with(Cache { stickers: true, ..all_off() }), Vec::new());
    assert_eq!(all_on().event_types().len(), 26);
}

#[test]
fn each_option_holds_its_resource() {
    assert_eq!(all_off().resource_types(), vec![ResourceType::Guild, ResourceType::UserCurrent]);
    assert_eq!(
        Cache::default().resource_types(),
        vec![
            ResourceType::Guild,
            ResourceType::UserCurrent,
            ResourceType::Channel,
            ResourceType::MemberCurrent,
            ResourceType::Role,
        ]
    );
    assert_eq!(
        all_on().resource_types(),
        vec![
            ResourceType::Guild,
            ResourceType::UserCurrent,
            ResourceType::Channel,
            ResourceType::Emoji,
            ResourceType::MemberCurrent,
            ResourceType::Member,
            ResourceType::Presence,
            ResourceType::Role,
            ResourceType::StageInstance,
            ResourceType::Sticker,
            ResourceType::User,
            ResourceType::VoiceState,
        ]
    );
    assert_eq!(
        Cache { stickers: true, ..all_off() }.resource_types(),
        vec![ResourceType::Guild, ResourceType::UserCurrent, ResourceType::Sticker]
    );
}

#[test]
fn the_defaults_of_the_configuration() {
    assert_eq!(default_log_level(), "info");
    assert_eq!(default_port(), 7878);
    assert_eq!(default_backpressure(), 100);
}
