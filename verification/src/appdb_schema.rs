//! Durable schema manifest of the application database, its migrations, and
//! validation of an observed schema inventory.
use vstd::prelude::*;
use crate::text::{decimal, decimal_spec, str_equal, text};

verus! {

/// Current application database schema version.
pub const APP_DB_SCHEMA_VERSION: u32 = 1;

/// The first schema version supported by this crate.
pub const MIN_SUPPORTED_APP_DB_SCHEMA_VERSION: u32 = 0;

/// Durable database tables required by schema version 1.
pub const REQUIRED_TABLES: [&'static str; 11] = [
    "profiles",
    "devices",
    "groups",
    "channels",
    "invites",
    "governance_events",
    "message_envelopes",
    "retention_state",
    "delivery_queue",
    "voice_preferences",
    "event_cursors",
];

/// A required column in a schema table.
#[derive(Clone, Copy, Debug, Eq, PartialEq)]
pub struct AppDbColumn {
    /// Column name.
    pub name: &'static str,
    /// Stable SQL type or affinity used by the migration contract.
    pub sql_type: &'static str,
    /// Whether the field may contain secret material and must be keychain-wrapped/encrypted by writers.
    pub sensitive: bool,
}

/// A column by value: name, SQL type, sensitivity.
pub type ColumnView = (Seq<char>, Seq<char>, bool);

pub open spec fn colview(c: AppDbColumn) -> ColumnView {
    (c.name@, c.sql_type@, c.sensitive)
}

pub open spec fn colviews(s: Seq<AppDbColumn>) -> Seq<ColumnView> {
    s.map_values(|c: AppDbColumn| colview(c))
}

/// A required table in a schema version.
#[derive(Clone, Debug, Eq, PartialEq)]
pub struct AppDbTable {
    /// Table name.
    pub name: &'static str,
    /// Required columns for corruption/migration verification.
    pub columns: Vec<AppDbColumn>,
}

/// A table by value: name and columns.
pub type TableView = (Seq<char>, Seq<ColumnView>);

pub open spec fn tabview(t: AppDbTable) -> TableView {
    (t.name@, colviews(t.columns@))
}

pub open spec fn tabviews(s: Seq<AppDbTable>) -> Seq<TableView> {
    s.map_values(|t: AppDbTable| tabview(t))
}

pub open spec fn strviews(s: Seq<&'static str>) -> Seq<Seq<char>> {
    s.map_values(|x: &'static str| x@)
}

/// Durable schema manifest for the current application database.
#[derive(Clone, Debug, Eq, PartialEq)]
pub struct AppDbSchema {
    /// Schema version represented by this manifest.
    pub version: u32,
    /// Required tables.
    pub tables: Vec<AppDbTable>,
}

pub open spec fn profile_columns_spec() -> Seq<ColumnView> {
    seq![
        ("profile_id"@, "TEXT"@, false),
        ("user_id"@, "TEXT"@, false),
        ("display_name"@, "TEXT"@, false),
        ("friend_code"@, "TEXT"@, false),
        ("safety_number"@, "TEXT"@, false),
        ("safety_verified"@, "INTEGER"@, false),
        ("created_at_ms"@, "INTEGER"@, false),
        ("updated_at_ms"@, "INTEGER"@, false),
    ]
}

fn profile_columns() -> (r: Vec<AppDbColumn>)
    ensures
        colviews(r@) == profile_columns_spec(),
{
    let r = vec![
        AppDbColumn { name: "profile_id", sql_type: "TEXT", sensitive: false },
        AppDbColumn { name: "user_id", sql_type: "TEXT", sensitive: false },
        AppDbColumn { name: "display_name", sql_type: "TEXT", sensitive: false },
        AppDbColumn { name: "friend_code", sql_type: "TEXT", sensitive: false },
        AppDbColumn { name: "safety_number", sql_type: "TEXT", sensitive: false },
        AppDbColumn { name: "safety_verified", sql_type: "INTEGER", sensitive: false },
        AppDbColumn { name: "created_at_ms", sql_type: "INTEGER", sensitive: false },
        AppDbColumn { name: "updated_at_ms", sql_type: "INTEGER", sensitive: false },
    ];
    assert(colviews(r@) =~= profile_columns_spec());
    r
}

pub open spec fn device_columns_spec() -> Seq<ColumnView> {
    seq![
        ("device_id"@, "TEXT"@, false),
        ("profile_id"@, "TEXT"@, false),
        ("mls_leaf"@, "INTEGER"@, false),
        ("credential_hash"@, "BLOB"@, false),
        ("identity_key_ref"@, "TEXT"@, true),
        ("status"@, "TEXT"@, false),
        ("added_at_ms"@, "INTEGER"@, false),
        ("removed_at_ms"@, "INTEGER"@, false),
    ]
}

fn device_columns() -> (r: Vec<AppDbColumn>)
    ensures
        colviews(r@) == device_columns_spec(),
{
    let r = vec![
        AppDbColumn { name: "device_id", sql_type: "TEXT", sensitive: false },
        AppDbColumn { name: "profile_id", sql_type: "TEXT", sensitive: false },
        AppDbColumn { name: "mls_leaf", sql_type: "INTEGER", sensitive: false },
        AppDbColumn { name: "credential_hash", sql_type: "BLOB", sensitive: false },
        AppDbColumn { name: "identity_key_ref", sql_type: "TEXT", sensitive: true },
        AppDbColumn { name: "status", sql_type: "TEXT", sensitive: false },
        AppDbColumn { name: "added_at_ms", sql_type: "INTEGER", sensitive: false },
        AppDbColumn { name: "removed_at_ms", sql_type: "INTEGER", sensitive: false },
    ];
    assert(colviews(r@) =~= device_columns_spec());
    r
}

pub open spec fn group_columns_spec() -> Seq<ColumnView> {
    seq![
        ("group_id"@, "TEXT"@, false),
        ("profile_id"@, "TEXT"@, false),
        ("name"@, "TEXT"@, false),
        ("role"@, "TEXT"@, false),
        ("mls_epoch"@, "INTEGER"@, false),
        ("created_at_ms"@, "INTEGER"@, false),
        ("updated_at_ms"@, "INTEGER"@, false),
    ]
}

fn group_columns() -> (r: Vec<AppDbColumn>)
    ensures
        colviews(r@) == group_columns_spec(),
{
    let r = vec![
        AppDbColumn { name: "group_id", sql_type: "TEXT", sensitive: false },
        AppDbColumn { name: "profile_id", sql_type: "TEXT", sensitive: false },
        AppDbColumn { name: "name", sql_type: "TEXT", sensitive: false },
        AppDbColumn { name: "role", sql_type: "TEXT", sensitive: false },
        AppDbColumn { name: "mls_epoch", sql_type: "INTEGER", sensitive: false },
        AppDbColumn { name: "created_at_ms", sql_type: "INTEGER", sensitive: false },
        AppDbColumn { name: "updated_at_ms", sql_type: "INTEGER", sensitive: false },
    ];
    assert(colviews(r@) =~= group_columns_spec());
    r
}

pub open spec fn channel_columns_spec() -> Seq<ColumnView> {
    seq![
        ("channel_id"@, "TEXT"@, false),
        ("group_id"@, "TEXT"@, false),
        ("name"@, "TEXT"@, false),
        ("kind"@, "TEXT"@, false),
        ("retention_preset"@, "TEXT"@, false),
        ("created_at_ms"@, "INTEGER"@, false),
        ("updated_at_ms"@, "INTEGER"@, false),
    ]
}

fn channel_columns() -> (r: Vec<AppDbColumn>)
    ensures
        colviews(r@) == channel_columns_spec(),
{
    let r = vec![
        AppDbColumn { name: "channel_id", sql_type: "TEXT", sensitive: false },
        AppDbColumn { name: "group_id", sql_type: "TEXT", sensitive: false },
        AppDbColumn { name: "name", sql_type: "TEXT", sensitive: false },
        AppDbColumn { name: "kind", sql_type: "TEXT", sensitive: false },
        AppDbColumn { name: "retention_preset", sql_type: "TEXT", sensitive: false },
        AppDbColumn { name: "created_at_ms", sql_type: "INTEGER", sensitive: false },
        AppDbColumn { name: "updated_at_ms", sql_type: "INTEGER", sensitive: false },
    ];
    assert(colviews(r@) =~= channel_columns_spec());
    r
}

pub open spec fn invite_columns_spec() -> Seq<ColumnView> {
    seq![
        ("invite_id"@, "TEXT"@, false),
        ("group_id"@, "TEXT"@, false),
        ("expires_at_ms"@, "INTEGER"@, false),
        ("max_uses"@, "INTEGER"@, false),
        ("password_gate"@, "TEXT"@, true),
        ("revoked"@, "INTEGER"@, false),
        ("created_at_ms"@, "INTEGER"@, false),
    ]
}

fn invite_columns() -> (r: Vec<AppDbColumn>)
    ensures
        colviews(r@) == invite_columns_spec(),
{
    let r = vec![
        AppDbColumn { name: "invite_id", sql_type: "TEXT", sensitive: false },
        AppDbColumn { name: "group_id", sql_type: "TEXT", sensitive: false },
        AppDbColumn { name: "expires_at_ms", sql_type: "INTEGER", sensitive: false },
        AppDbColumn { name: "max_uses", sql_type: "INTEGER", sensitive: false },
        AppDbColumn { name: "password_gate", sql_type: "TEXT", sensitive: true },
        AppDbColumn { name: "revoked", sql_type: "INTEGER", sensitive: false },
        AppDbColumn { name: "created_at_ms", sql_type: "INTEGER", sensitive: false },
    ];
    assert(colviews(r@) =~= invite_columns_spec());
    r
}

pub open spec fn governance_columns_spec() -> Seq<ColumnView> {
    seq![
        ("event_id"@, "TEXT"@, false),
        ("group_id"@, "TEXT"@, false),
        ("sequence"@, "INTEGER"@, false),
        ("event_type"@, "TEXT"@, false),
        ("signed_payload"@, "BLOB"@, false),
        ("author_device_id"@, "TEXT"@, false),
        ("observed_at_ms"@, "INTEGER"@, false),
    ]
}

fn governance_columns() -> (r: Vec<AppDbColumn>)
    ensures
        colviews(r@) == governance_columns_spec(),
{
    let r = vec![
        AppDbColumn { name: "event_id", sql_type: "TEXT", sensitive: false },
        AppDbColumn { name: "group_id", sql_type: "TEXT", sensitive: false },
        AppDbColumn { name: "sequence", sql_type: "INTEGER", sensitive: false },
        AppDbColumn { name: "event_type", sql_type: "TEXT", sensitive: false },
        AppDbColumn { name: "signed_payload", sql_type: "BLOB", sensitive: false },
        AppDbColumn { name: "author_device_id", sql_type: "TEXT", sensitive: false },
        AppDbColumn { name: "observed_at_ms", sql_type: "INTEGER", sensitive: false },
    ];
    assert(colviews(r@) =~= governance_columns_spec());
    r
}

pub open spec fn message_columns_spec() -> Seq<ColumnView> {
    seq![
        ("message_id"@, "TEXT"@, false),
        ("group_id"@, "TEXT"@, false),
        ("channel_id"@, "TEXT"@, false),
        ("author_device_id"@, "TEXT"@, false),
        ("author_sequence"@, "INTEGER"@, false),
        ("mls_epoch"@, "INTEGER"@, false),
        ("ciphertext"@, "BLOB"@, true),
        ("envelope_hash"@, "BLOB"@, false),
        ("sent_at_ms"@, "INTEGER"@, false),
        ("received_at_ms"@, "INTEGER"@, false),
    ]
}

fn message_columns() -> (r: Vec<AppDbColumn>)
    ensures
        colviews(r@) == message_columns_spec(),
{
    let r = vec![
        AppDbColumn { name: "message_id", sql_type: "TEXT", sensitive: false },
        AppDbColumn { name: "group_id", sql_type: "TEXT", sensitive: false },
        AppDbColumn { name: "channel_id", sql_type: "TEXT", sensitive: false },
        AppDbColumn { name: "author_device_id", sql_type: "TEXT", sensitive: false },
        AppDbColumn { name: "author_sequence", sql_type: "INTEGER", sensitive: false },
        AppDbColumn { name: "mls_epoch", sql_type: "INTEGER", sensitive: false },
        AppDbColumn { name: "ciphertext", sql_type: "BLOB", sensitive: true },
        AppDbColumn { name: "envelope_hash", sql_type: "BLOB", sensitive: false },
        AppDbColumn { name: "sent_at_ms", sql_type: "INTEGER", sensitive: false },
        AppDbColumn { name: "received_at_ms", sql_type: "INTEGER", sensitive: false },
    ];
    assert(colviews(r@) =~= message_columns_spec());
    r
}

pub open spec fn retention_columns_spec() -> Seq<ColumnView> {
    seq![
        ("retention_id"@, "TEXT"@, false),
        ("group_id"@, "TEXT"@, false),
        ("channel_id"@, "TEXT"@, false),
        ("message_id"@, "TEXT"@, false),
        ("state"@, "TEXT"@, false),
        ("key_ref"@, "TEXT"@, true),
        ("shred_after_ms"@, "INTEGER"@, false),
        ("updated_at_ms"@, "INTEGER"@, false),
    ]
}

fn retention_columns() -> (r: Vec<AppDbColumn>)
    ensures
        colviews(r@) == retention_columns_spec(),
{
    let r = vec![
        AppDbColumn { name: "retention_id", sql_type: "TEXT", sensitive: false },
        AppDbColumn { name: "group_id", sql_type: "TEXT", sensitive: false },
        AppDbColumn { name: "channel_id", sql_type: "TEXT", sensitive: false },
        AppDbColumn { name: "message_id", sql_type: "TEXT", sensitive: false },
        AppDbColumn { name: "state", sql_type: "TEXT", sensitive: false },
        AppDbColumn { name: "key_ref", sql_type: "TEXT", sensitive: true },
        AppDbColumn { name: "shred_after_ms", sql_type: "INTEGER", sensitive: false },
        AppDbColumn { name: "updated_at_ms", sql_type: "INTEGER", sensitive: false },
    ];
    assert(colviews(r@) =~= retention_columns_spec());
    r
}

pub open spec fn delivery_columns_spec() -> Seq<ColumnView> {
    seq![
        ("queue_id"@, "TEXT"@, false),
        ("message_id"@, "TEXT"@, false),
        ("destination"@, "TEXT"@, false),
        ("status"@, "TEXT"@, false),
        ("attempts"@, "INTEGER"@, false),
        ("next_attempt_ms"@, "INTEGER"@, false),
        ("last_error"@, "TEXT"@, false),
        ("updated_at_ms"@, "INTEGER"@, false),
    ]
}

fn delivery_columns() -> (r: Vec<AppDbColumn>)
    ensures
        colviews(r@) == delivery_columns_spec(),
{
    let r = vec![
        AppDbColumn { name: "queue_id", sql_type: "TEXT", sensitive: false },
        AppDbColumn { name: "message_id", sql_type: "TEXT", sensitive: false },
        AppDbColumn { name: "destination", sql_type: "TEXT", sensitive: false },
        AppDbColumn { name: "status", sql_type: "TEXT", sensitive: false },
        AppDbColumn { name: "attempts", sql_type: "INTEGER", sensitive: false },
        AppDbColumn { name: "next_attempt_ms", sql_type: "INTEGER", sensitive: false },
        AppDbColumn { name: "last_error", sql_type: "TEXT", sensitive: false },
        AppDbColumn { name: "updated_at_ms", sql_type: "INTEGER", sensitive: false },
    ];
    assert(colviews(r@) =~= delivery_columns_spec());
    r
}

pub open spec fn voice_columns_spec() -> Seq<ColumnView> {
    seq![
        ("profile_id"@, "TEXT"@, false),
        ("group_id"@, "TEXT"@, false),
        ("channel_id"@, "TEXT"@, false),
        ("muted"@, "INTEGER"@, false),
        ("speaker_volume"@, "INTEGER"@, false),
        ("route"@, "TEXT"@, false),
        ("updated_at_ms"@, "INTEGER"@, false),
    ]
}

fn voice_columns() -> (r: Vec<AppDbColumn>)
    ensures
        colviews(r@) == voice_columns_spec(),
{
    let r = vec![
        AppDbColumn { name: "profile_id", sql_type: "TEXT", sensitive: false },
        AppDbColumn { name: "group_id", sql_type: "TEXT", sensitive: false },
        AppDbColumn { name: "channel_id", sql_type: "TEXT", sensitive: false },
        AppDbColumn { name: "muted", sql_type: "INTEGER", sensitive: false },
        AppDbColumn { name: "speaker_volume", sql_type: "INTEGER", sensitive: false },
        AppDbColumn { name: "route", sql_type: "TEXT", sensitive: false },
        AppDbColumn { name: "updated_at_ms", sql_type: "INTEGER", sensitive: false },
    ];
    assert(colviews(r@) =~= voice_columns_spec());
    r
}

pub open spec fn cursor_columns_spec() -> Seq<ColumnView> {
    seq![
        ("cursor_id"@, "TEXT"@, false),
        ("profile_id"@, "TEXT"@, false),
        ("source"@, "TEXT"@, false),
        ("position"@, "TEXT"@, false),
        ("updated_at_ms"@, "INTEGER"@, false),
    ]
}

fn cursor_columns() -> (r: Vec<AppDbColumn>)
    ensures
        colviews(r@) == cursor_columns_spec(),
{
    let r = vec![
        AppDbColumn { name: "cursor_id", sql_type: "TEXT", sensitive: false },
        AppDbColumn { name: "profile_id", sql_type: "TEXT", sensitive: false },
        AppDbColumn { name: "source", sql_type: "TEXT", sensitive: false },
        AppDbColumn { name: "position", sql_type: "TEXT", sensitive: false },
        AppDbColumn { name: "updated_at_ms", sql_type: "INTEGER", sensitive: false },
    ];
    assert(colviews(r@) =~= cursor_columns_spec());
    r
}

/// The tables and columns of schema version 1.
pub open spec fn schema_tables_spec() -> Seq<TableView> {
    seq![
        ("profiles"@, profile_columns_spec()),
        ("devices"@, device_columns_spec()),
        ("groups"@, group_columns_spec()),
        ("channels"@, channel_columns_spec()),
        ("invites"@, invite_columns_spec()),
        ("governance_events"@, governance_columns_spec()),
        ("message_envelopes"@, message_columns_spec()),
        ("retention_state"@, retention_columns_spec()),
        ("delivery_queue"@, delivery_columns_spec()),
        ("voice_preferences"@, voice_columns_spec()),
        ("event_cursors"@, cursor_columns_spec()),
    ]
}

fn schema_tables() -> (r: Vec<AppDbTable>)
    ensures
        tabviews(r@) == schema_tables_spec(),
{
    let r = vec![
        AppDbTable { name: "profiles", columns: profile_columns() },
        AppDbTable { name: "devices", columns: device_columns() },
        AppDbTable { name: "groups", columns: group_columns() },
        AppDbTable { name: "channels", columns: channel_columns() },
        AppDbTable { name: "invites", columns: invite_columns() },
        AppDbTable { name: "governance_events", columns: governance_columns() },
        AppDbTable { name: "message_envelopes", columns: message_columns() },
        AppDbTable { name: "retention_state", columns: retention_columns() },
        AppDbTable { name: "delivery_queue", columns: delivery_columns() },
        AppDbTable { name: "voice_preferences", columns: voice_columns() },
        AppDbTable { name: "event_cursors", columns: cursor_columns() },
    ];
    assert(tabviews(r@) =~= schema_tables_spec());
    r
}

/// Schema statement.
pub const PRAGMA_FOREIGN_KEYS: &'static str = "PRAGMA foreign_keys = ON";
/// Schema statement.
pub const CREATE_PROFILES: &'static str = "CREATE TABLE IF NOT EXISTS profiles (profile_id TEXT PRIMARY KEY NOT NULL, user_id TEXT NOT NULL UNIQUE, display_name TEXT NOT NULL, friend_code TEXT NOT NULL, safety_number TEXT NOT NULL, safety_verified INTEGER NOT NULL DEFAULT 0, created_at_ms INTEGER NOT NULL, updated_at_ms INTEGER NOT NULL)";
/// Schema statement.
pub const CREATE_DEVICES: &'static str = "CREATE TABLE IF NOT EXISTS devices (device_id TEXT PRIMARY KEY NOT NULL, profile_id TEXT NOT NULL REFERENCES profiles(profile_id) ON DELETE CASCADE, mls_leaf INTEGER NOT NULL, credential_hash BLOB NOT NULL, identity_key_ref TEXT NOT NULL, status TEXT NOT NULL, added_at_ms INTEGER NOT NULL, removed_at_ms INTEGER)";
/// Schema statement.
pub const CREATE_GROUPS: &'static str = "CREATE TABLE IF NOT EXISTS groups (group_id TEXT PRIMARY KEY NOT NULL, profile_id TEXT NOT NULL REFERENCES profiles(profile_id) ON DELETE CASCADE, name TEXT NOT NULL, role TEXT NOT NULL, mls_epoch INTEGER NOT NULL, created_at_ms INTEGER NOT NULL, updated_at_ms INTEGER NOT NULL)";
/// Schema statement.
pub const CREATE_CHANNELS: &'static str = "CREATE TABLE IF NOT EXISTS channels (channel_id TEXT PRIMARY KEY NOT NULL, group_id TEXT NOT NULL REFERENCES groups(group_id) ON DELETE CASCADE, name TEXT NOT NULL, kind TEXT NOT NULL, retention_preset TEXT NOT NULL, created_at_ms INTEGER NOT NULL, updated_at_ms INTEGER NOT NULL)";
/// Schema statement.
pub const CREATE_INVITES: &'static str = "CREATE TABLE IF NOT EXISTS invites (invite_id TEXT PRIMARY KEY NOT NULL, group_id TEXT NOT NULL REFERENCES groups(group_id) ON DELETE CASCADE, expires_at_ms INTEGER NOT NULL, max_uses INTEGER NOT NULL, password_gate TEXT NOT NULL, revoked INTEGER NOT NULL DEFAULT 0, created_at_ms INTEGER NOT NULL)";
/// Schema statement.
pub const CREATE_GOVERNANCE_EVENTS: &'static str = "CREATE TABLE IF NOT EXISTS governance_events (event_id TEXT PRIMARY KEY NOT NULL, group_id TEXT NOT NULL REFERENCES groups(group_id) ON DELETE CASCADE, sequence INTEGER NOT NULL, event_type TEXT NOT NULL, signed_payload BLOB NOT NULL, author_device_id TEXT NOT NULL, observed_at_ms INTEGER NOT NULL, UNIQUE(group_id, sequence))";
/// Schema statement.
pub const CREATE_MESSAGE_ENVELOPES: &'static str = "CREATE TABLE IF NOT EXISTS message_envelopes (message_id TEXT PRIMARY KEY NOT NULL, group_id TEXT NOT NULL REFERENCES groups(group_id) ON DELETE CASCADE, channel_id TEXT NOT NULL REFERENCES channels(channel_id) ON DELETE CASCADE, author_device_id TEXT NOT NULL, author_sequence INTEGER NOT NULL, mls_epoch INTEGER NOT NULL, ciphertext BLOB NOT NULL, envelope_hash BLOB NOT NULL, sent_at_ms INTEGER NOT NULL, received_at_ms INTEGER, UNIQUE(group_id, author_device_id, author_sequence))";
/// Schema statement.
pub const CREATE_RETENTION_STATE: &'static str = "CREATE TABLE IF NOT EXISTS retention_state (retention_id TEXT PRIMARY KEY NOT NULL, group_id TEXT NOT NULL REFERENCES groups(group_id) ON DELETE CASCADE, channel_id TEXT REFERENCES channels(channel_id) ON DELETE CASCADE, message_id TEXT REFERENCES message_envelopes(message_id) ON DELETE CASCADE, state TEXT NOT NULL, key_ref TEXT, shred_after_ms INTEGER, updated_at_ms INTEGER NOT NULL)";
/// Schema statement.
pub const CREATE_DELIVERY_QUEUE: &'static str = "CREATE TABLE IF NOT EXISTS delivery_queue (queue_id TEXT PRIMARY KEY NOT NULL, message_id TEXT NOT NULL REFERENCES message_envelopes(message_id) ON DELETE CASCADE, destination TEXT NOT NULL, status TEXT NOT NULL, attempts INTEGER NOT NULL DEFAULT 0, next_attempt_ms INTEGER NOT NULL, last_error TEXT, updated_at_ms INTEGER NOT NULL)";
/// Schema statement.
pub const CREATE_VOICE_PREFERENCES: &'static str = "CREATE TABLE IF NOT EXISTS voice_preferences (profile_id TEXT NOT NULL REFERENCES profiles(profile_id) ON DELETE CASCADE, group_id TEXT NOT NULL REFERENCES groups(group_id) ON DELETE CASCADE, channel_id TEXT NOT NULL REFERENCES channels(channel_id) ON DELETE CASCADE, muted INTEGER NOT NULL DEFAULT 0, speaker_volume INTEGER NOT NULL DEFAULT 100, route TEXT NOT NULL, updated_at_ms INTEGER NOT NULL, PRIMARY KEY(profile_id, group_id, channel_id))";
/// Schema statement.
pub const CREATE_EVENT_CURSORS: &'static str = "CREATE TABLE IF NOT EXISTS event_cursors (cursor_id TEXT PRIMARY KEY NOT NULL, profile_id TEXT NOT NULL REFERENCES profiles(profile_id) ON DELETE CASCADE, source TEXT NOT NULL, position TEXT NOT NULL, updated_at_ms INTEGER NOT NULL, UNIQUE(profile_id, source))";
/// Schema statement.
pub const CREATE_INDEX_0: &'static str = "CREATE INDEX IF NOT EXISTS idx_devices_profile ON devices(profile_id)";
/// Schema statement.
pub const CREATE_INDEX_1: &'static str = "CREATE INDEX IF NOT EXISTS idx_channels_group ON channels(group_id)";
/// Schema statement.
pub const CREATE_INDEX_2: &'static str = "CREATE INDEX IF NOT EXISTS idx_messages_channel_time ON message_envelopes(channel_id, sent_at_ms)";
/// Schema statement.
pub const CREATE_INDEX_3: &'static str = "CREATE INDEX IF NOT EXISTS idx_delivery_status_attempt ON delivery_queue(status, next_attempt_ms)";
/// Schema statement.
pub const CREATE_INDEX_4: &'static str = "CREATE INDEX IF NOT EXISTS idx_retention_message ON retention_state(message_id)";
/// Schema statement.
pub const CREATE_INDEX_5: &'static str = "CREATE INDEX IF NOT EXISTS idx_governance_group_sequence ON governance_events(group_id, sequence)";
/// Schema statement.
pub const PRAGMA_USER_VERSION_1: &'static str = "PRAGMA user_version = 1";
/// Schema statement.
pub const ROLLBACK_0: &'static str = "DROP TABLE IF EXISTS event_cursors";
/// Schema statement.
pub const ROLLBACK_1: &'static str = "DROP TABLE IF EXISTS voice_preferences";
/// Schema statement.
pub const ROLLBACK_2: &'static str = "DROP TABLE IF EXISTS delivery_queue";
/// Schema statement.
pub const ROLLBACK_3: &'static str = "DROP TABLE IF EXISTS retention_state";
/// Schema statement.
pub const ROLLBACK_4: &'static str = "DROP TABLE IF EXISTS message_envelopes";
/// Schema statement.
pub const ROLLBACK_5: &'static str = "DROP TABLE IF EXISTS governance_events";
/// Schema statement.
pub const ROLLBACK_6: &'static str = "DROP TABLE IF EXISTS invites";
/// Schema statement.
pub const ROLLBACK_7: &'static str = "DROP TABLE IF EXISTS channels";
/// Schema statement.
pub const ROLLBACK_8: &'static str = "DROP TABLE IF EXISTS groups";
/// Schema statement.
pub const ROLLBACK_9: &'static str = "DROP TABLE IF EXISTS devices";
/// Schema statement.
pub const ROLLBACK_10: &'static str = "DROP TABLE IF EXISTS profiles";
/// Schema statement.
pub const ROLLBACK_11: &'static str = "PRAGMA user_version = 0";

/// Statements that create schema version 1 from an empty store.
pub open spec fn version_1_ddl_spec() -> Seq<Seq<char>> {
    seq![
        PRAGMA_FOREIGN_KEYS@,
        CREATE_PROFILES@,
        CREATE_DEVICES@,
        CREATE_GROUPS@,
        CREATE_CHANNELS@,
        CREATE_INVITES@,
        CREATE_GOVERNANCE_EVENTS@,
        CREATE_MESSAGE_ENVELOPES@,
        CREATE_RETENTION_STATE@,
        CREATE_DELIVERY_QUEUE@,
        CREATE_VOICE_PREFERENCES@,
        CREATE_EVENT_CURSORS@,
        CREATE_INDEX_0@,
        CREATE_INDEX_1@,
        CREATE_INDEX_2@,
        CREATE_INDEX_3@,
        CREATE_INDEX_4@,
        CREATE_INDEX_5@,
        PRAGMA_USER_VERSION_1@,
    ]
}

fn version_1_ddl() -> (r: Vec<&'static str>)
    ensures
        strviews(r@) == version_1_ddl_spec(),
{
    let r = vec![
        PRAGMA_FOREIGN_KEYS,
        CREATE_PROFILES,
        CREATE_DEVICES,
        CREATE_GROUPS,
        CREATE_CHANNELS,
        CREATE_INVITES,
        CREATE_GOVERNANCE_EVENTS,
        CREATE_MESSAGE_ENVELOPES,
        CREATE_RETENTION_STATE,
        CREATE_DELIVERY_QUEUE,
        CREATE_VOICE_PREFERENCES,
        CREATE_EVENT_CURSORS,
        CREATE_INDEX_0,
        CREATE_INDEX_1,
        CREATE_INDEX_2,
        CREATE_INDEX_3,
        CREATE_INDEX_4,
        CREATE_INDEX_5,
        PRAGMA_USER_VERSION_1,
    ];
    assert(strviews(r@) =~= version_1_ddl_spec());
    r
}

/// Statements that drop schema version 1 back to an empty store.
pub open spec fn version_1_rollback_spec() -> Seq<Seq<char>> {
    seq![
        ROLLBACK_0@,
        ROLLBACK_1@,
        ROLLBACK_2@,
        ROLLBACK_3@,
        ROLLBACK_4@,
        ROLLBACK_5@,
        ROLLBACK_6@,
        ROLLBACK_7@,
        ROLLBACK_8@,
        ROLLBACK_9@,
        ROLLBACK_10@,
        ROLLBACK_11@,
    ]
}

fn version_1_rollback() -> (r: Vec<&'static str>)
    ensures
        strviews(r@) == version_1_rollback_spec(),
{
    let r = vec![
        ROLLBACK_0,
        ROLLBACK_1,
        ROLLBACK_2,
        ROLLBACK_3,
        ROLLBACK_4,
        ROLLBACK_5,
        ROLLBACK_6,
        ROLLBACK_7,
        ROLLBACK_8,
        ROLLBACK_9,
        ROLLBACK_10,
        ROLLBACK_11,
    ];
    assert(strviews(r@) =~= version_1_rollback_spec());
    r
}

/// Sensitive columns of one table, paired with the table's name.
pub open spec fn sensitive_in(table: Seq<char>, cs: Seq<ColumnView>) -> Seq<(Seq<char>, ColumnView)>
    decreases cs.len(),
{
    if cs.len() == 0 {
        Seq::empty()
    } else {
        let p = sensitive_in(table, cs.drop_last());
        if cs.last().2 {
            p.push((table, cs.last()))
        } else {
            p
        }
    }
}

/// Sensitive columns of all tables, in table then column order.
pub open spec fn sensitive_spec(ts: Seq<TableView>) -> Seq<(Seq<char>, ColumnView)>
    decreases ts.len(),
{
    if ts.len() == 0 {
        Seq::empty()
    } else {
        sensitive_spec(ts.drop_last()) + sensitive_in(ts.last().0, ts.last().1)
    }
}

/// Index of the first table named `name`, or the length when none is.
pub open spec fn table_index(ts: Seq<TableView>, name: Seq<char>) -> int
    decreases ts.len(),
{
    if ts.len() == 0 {
        0
    } else if ts[0].0 == name {
        0
    } else {
        1 + table_index(ts.drop_first(), name)
    }
}

impl AppDbSchema {
    /// Return the current durable schema manifest.
    pub fn current() -> (r: Self)
        ensures
            r.version == APP_DB_SCHEMA_VERSION,
            tabviews(r.tables@) == schema_tables_spec(),
    {
        AppDbSchema { version: APP_DB_SCHEMA_VERSION, tables: schema_tables() }
    }

    /// Find a required table by name: the first one that carries it.
    pub fn table(&self, name: &str) -> (r: Option<&AppDbTable>)
        ensures
            table_index(tabviews(self.tables@), name@) < self.tables@.len() ==> (r matches Some(t) && tabview(*t)
                == tabviews(self.tables@)[table_index(tabviews(self.tables@), name@)]),
            table_index(tabviews(self.tables@), name@) >= self.tables@.len() ==> r is None,
    {
        let ghost ts = tabviews(self.tables@);
        let n = self.tables.len();
        let mut i: usize = 0;
        assert(ts.skip(0) =~= ts);
        while i < n
            invariant
                n == self.tables@.len(),
                ts == tabviews(self.tables@),
                i <= n,
                table_index(ts, name@) == i + table_index(ts.skip(i as int), name@),
            decreases n - i,
        {
            proof {
                assert(ts.skip(i as int)[0] == ts[i as int]);
                assert(ts[i as int] == tabview(self.tables@[i as int]));
            }
            if str_equal(self.tables[i].name, name) {
                return Some(&self.tables[i]);
            }
            proof {
                assert(ts.skip(i as int).drop_first() =~= ts.skip(i + 1));
            }
            i = i + 1;
        }
        None
    }

    /// All columns that carry sensitive material or key references, with their tables.
    pub fn sensitive_columns(&self) -> (r: Vec<(&'static str, AppDbColumn)>)
        ensures
            r@.map_values(|p: (&'static str, AppDbColumn)| (p.0@, colview(p.1))) == sensitive_spec(tabviews(self.tables@)),
    {
        let ghost ts = tabviews(self.tables@);
        let ghost f = |p: (&'static str, AppDbColumn)| (p.0@, colview(p.1));
        let mut out: Vec<(&'static str, AppDbColumn)> = Vec::new();
        let n = self.tables.len();
        let mut i: usize = 0;
        while i < n
            invariant
                n == self.tables@.len(),
                ts == tabviews(self.tables@),
                f == (|p: (&'static str, AppDbColumn)| (p.0@, colview(p.1))),
                i <= n,
                out@.map_values(f) == sensitive_spec(ts.take(i as int)),
            decreases n - i,
        {
            let table = &self.tables[i];
            let ghost tv = ts[i as int];
            let ghost start = out@.map_values(f);
            proof {
                assert(tv == tabview(*table));
            }
            let m = table.columns.len();
            let mut j: usize = 0;
            assert(tv.1.take(0) =~= Seq::<ColumnView>::empty());
            while j < m
                invariant
                    m == table.columns@.len(),
                    tv == tabview(*table),
                    f == (|p: (&'static str, AppDbColumn)| (p.0@, colview(p.1))),
                    j <= m,
                    out@.map_values(f) == start + sensitive_in(tv.0, tv.1.take(j as int)),
                decreases m - j,
            {
                let c = table.columns[j];
                proof {
                    assert(tv.1.take(j + 1).drop_last() =~= tv.1.take(j as int));
                    assert(tv.1.take(j + 1).last() == colview(c));
                }
                if c.sensitive {
                    let ghost before = out@;
                    out.push((table.name, c));
                    proof {
                        assert(out@ == before.push((table.name, c)));
                        assert(f((table.name, c)) == (tv.0, colview(c)));
                        assert(out@.map_values(f) =~= before.map_values(f).push((tv.0, colview(c))));
                        assert(sensitive_in(tv.0, tv.1.take(j + 1)) == sensitive_in(tv.0, tv.1.take(j as int)).push(
                            (tv.0, colview(c)),
                        ));
                        assert(out@.map_values(f) =~= start + sensitive_in(tv.0, tv.1.take(j + 1)));
                    }
                } else {
                    proof {
                        assert(sensitive_in(tv.0, tv.1.take(j + 1)) == sensitive_in(tv.0, tv.1.take(j as int)));
                    }
                }
                j = j + 1;
            }
            proof {
                assert(tv.1.take(m as int) =~= tv.1);
                assert(ts.take(i + 1).drop_last() =~= ts.take(i as int));
                assert(ts.take(i + 1).last() == tv);
            }
            i = i + 1;
        }
        assert(ts.take(n as int) =~= ts);
        out
    }
}

/// Direction for a schema migration plan.
#[derive(Clone, Copy, Debug, Eq, PartialEq, Structural)]
pub enum MigrationDirection {
    /// Upgrade from an older supported schema.
    Forward,
    /// Roll back to an older supported schema for tests/recovery validation.
    Backward,
    /// No schema changes are required.
    Noop,
}

/// SQL migration plan between two supported versions.
#[derive(Clone, Debug, Eq, PartialEq)]
pub struct AppDbMigrationPlan {
    /// Source schema version.
    pub from_version: u32,
    /// Target schema version.
    pub to_version: u32,
    /// Migration direction.
    pub direction: MigrationDirection,
    /// Ordered SQL statements to execute transactionally.
    pub statements: Vec<&'static str>,
}

/// Application database schema and migration errors.
#[derive(Debug)]
pub enum AppDbError {
    /// A requested migration version is newer than this crate understands.
    UnsupportedFutureVersion { version: u32, current: u32 },
    /// A requested migration version is older than the supported floor.
    UnsupportedLegacyVersion { version: u32, minimum: u32 },
    /// The observed store is missing a required table.
    MissingRequiredTable { table: &'static str },
    /// The observed store is missing a required column.
    MissingRequiredColumn { table: &'static str, column: &'static str },
    /// Corruption quarantine failed at the filesystem boundary.
    QuarantineIo(std::io::Error),
}

impl AppDbMigrationPlan {
    /// Build a supported migration plan between schema versions.
    pub fn plan(from_version: u32, to_version: u32) -> (r: Result<Self, AppDbError>)
        ensures
            from_version > APP_DB_SCHEMA_VERSION ==> (r matches Err(AppDbError::UnsupportedFutureVersion { version, current })
                && version == from_version && current == APP_DB_SCHEMA_VERSION),
            from_version <= APP_DB_SCHEMA_VERSION && to_version > APP_DB_SCHEMA_VERSION ==> (r matches Err(
                AppDbError::UnsupportedFutureVersion { version, current },
            ) && version == to_version && current == APP_DB_SCHEMA_VERSION),
            from_version <= APP_DB_SCHEMA_VERSION && to_version <= APP_DB_SCHEMA_VERSION ==> (r matches Ok(p)
                && p.from_version == from_version && p.to_version == to_version && (if from_version == to_version {
                p.direction == MigrationDirection::Noop && p.statements@.len() == 0
            } else if from_version == 0 {
                p.direction == MigrationDirection::Forward && strviews(p.statements@) == version_1_ddl_spec()
            } else {
                p.direction == MigrationDirection::Backward && strviews(p.statements@) == version_1_rollback_spec()
            })),
    {
        if from_version > APP_DB_SCHEMA_VERSION {
            return Err(AppDbError::UnsupportedFutureVersion { version: from_version, current: APP_DB_SCHEMA_VERSION });
        }
        if to_version > APP_DB_SCHEMA_VERSION {
            return Err(AppDbError::UnsupportedFutureVersion { version: to_version, current: APP_DB_SCHEMA_VERSION });
        }
        if from_version == to_version {
            return Ok(AppDbMigrationPlan {
                from_version,
                to_version,
                direction: MigrationDirection::Noop,
                statements: Vec::new(),
            });
        }
        if from_version == 0 && to_version == 1 {
            return Ok(AppDbMigrationPlan {
                from_version,
                to_version,
                direction: MigrationDirection::Forward,
                statements: version_1_ddl(),
            });
        }
        if from_version == 1 && to_version == 0 {
            return Ok(AppDbMigrationPlan {
                from_version,
                to_version,
                direction: MigrationDirection::Backward,
                statements: version_1_rollback(),
            });
        }
        Err(AppDbError::UnsupportedFutureVersion { version: to_version, current: APP_DB_SCHEMA_VERSION })
    }

    /// True when the plan has no statements to execute.
    pub fn is_empty(&self) -> (b: bool)
        ensures
            b == (self.statements@.len() == 0),
    {
        self.statements.len() == 0
    }

    /// One-line description: versions, direction and statement count.
    pub fn describe(&self) -> (r: String)
        ensures
            r@ == "app DB migration "@ + decimal_spec(self.from_version as nat) + " -> "@ + decimal_spec(
                self.to_version as nat,
            ) + " ("@ + direction_name(self.direction) + ", "@ + decimal_spec(self.statements@.len()) + " statements)"@,
    {
        let mut r = text("app DB migration ");
        r.append(decimal(self.from_version as u64).as_str());
        r.append(" -> ");
        r.append(decimal(self.to_version as u64).as_str());
        r.append(" (");
        let d = match self.direction {
            MigrationDirection::Forward => "Forward",
            MigrationDirection::Backward => "Backward",
            MigrationDirection::Noop => "Noop",
        };
        r.append(d);
        r.append(", ");
        r.append(decimal(self.statements.len() as u64).as_str());
        r.append(" statements)");
        r
    }
}

/// Name of a migration direction.
pub open spec fn direction_name(d: MigrationDirection) -> Seq<char> {
    match d {
        MigrationDirection::Forward => "Forward"@,
        MigrationDirection::Backward => "Backward"@,
        MigrationDirection::Noop => "Noop"@,
    }
}

/// An observed table by value: name and column names.
pub type ObservedView = (Seq<char>, Seq<Seq<char>>);

pub open spec fn observed_views(s: Seq<(&str, Vec<&str>)>) -> Seq<ObservedView> {
    s.map_values(|o: (&str, Vec<&str>)| (o.0@, o.1@.map_values(|c: &str| c@)))
}

/// Index of the first observed table named `name`, or the length when none is.
pub open spec fn observed_index(obs: Seq<ObservedView>, name: Seq<char>) -> int
    decreases obs.len(),
{
    if obs.len() == 0 {
        0
    } else if obs[0].0 == name {
        0
    } else {
        1 + observed_index(obs.drop_first(), name)
    }
}

/// The first required column missing from `observed`, if any.
pub open spec fn missing_column(required: Seq<ColumnView>, observed: Seq<Seq<char>>) -> Option<Seq<char>>
    decreases required.len(),
{
    if required.len() == 0 {
        None
    } else if !observed.contains(required[0].0) {
        Some(required[0].0)
    } else {
        missing_column(required.drop_first(), observed)
    }
}

/// The first gap of an observed inventory against required tables: a missing
/// table, or a table with a missing column.
pub open spec fn schema_gap(required: Seq<TableView>, obs: Seq<ObservedView>) -> Option<(Seq<char>, Option<Seq<char>>)>
    decreases required.len(),
{
    if required.len() == 0 {
        None
    } else {
        let t = required[0];
        let k = observed_index(obs, t.0);
        if k >= obs.len() {
            Some((t.0, None))
        } else {
            match missing_column(t.1, obs[k].1) {
                Some(c) => Some((t.0, Some(c))),
                None => schema_gap(required.drop_first(), obs),
            }
        }
    }
}

fn find_observed<'a>(tables: &'a [(&str, Vec<&str>)], name: &str) -> (r: Option<&'a Vec<&'a str>>)
    ensures
        observed_index(observed_views(tables@), name@) < tables@.len() ==> (r matches Some(cs) && cs@.map_values(
            |c: &str| c@,
        ) == observed_views(tables@)[observed_index(observed_views(tables@), name@)].1),
        observed_index(observed_views(tables@), name@) >= tables@.len() ==> r is None,
{
    let ghost obs = observed_views(tables@);
    let n = tables.len();
    let mut i: usize = 0;
    assert(obs.skip(0) =~= obs);
    while i < n
        invariant
            n == tables@.len(),
            obs == observed_views(tables@),
            i <= n,
            observed_index(obs, name@) == i + observed_index(obs.skip(i as int), name@),
        decreases n - i,
    {
        proof {
            assert(obs.skip(i as int)[0] == obs[i as int]);
        }
        if str_equal(tables[i].0, name) {
            return Some(&tables[i].1);
        }
        proof {
            assert(obs.skip(i as int).drop_first() =~= obs.skip(i + 1));
        }
        i = i + 1;
    }
    None
}

fn contains_name(names: &Vec<&str>, name: &str) -> (b: bool)
    ensures
        b == names@.map_values(|c: &str| c@).contains(name@),
{
    let n = names.len();
    let mut i: usize = 0;
    while i < n
        invariant
            n == names@.len(),
            i <= n,
            forall|k: int| 0 <= k < i ==> #[trigger] names@[k]@ != name@,
        decreases n - i,
    {
        if str_equal(names[i], name) {
            proof {
                assert(names@.map_values(|c: &str| c@)[i as int] == name@);
            }
            return true;
        }
        i = i + 1;
    }
    proof {
        let vs = names@.map_values(|c: &str| c@);
        if vs.contains(name@) {
            let k = choose|k: int| 0 <= k < vs.len() && vs[k] == name@;
            assert(names@[k]@ == name@);
        }
    }
    false
}

/// Validate an observed schema inventory against the current manifest.
///
/// Tables are checked in manifest order; the first missing table, or the first
/// missing column of the first table that has one, is reported.
pub fn validate_observed_schema(tables: &[(&str, Vec<&str>)]) -> (r: Result<(), AppDbError>)
    ensures
        match schema_gap(schema_tables_spec(), observed_views(tables@)) {
            None => r is Ok,
            Some((t, None)) => r matches Err(AppDbError::MissingRequiredTable { table }) && table@ == t,
            Some((t, Some(c))) => r matches Err(AppDbError::MissingRequiredColumn { table, column }) && table@ == t
                && column@ == c,
        },
{
    let schema = AppDbSchema::current();
    let ghost req = schema_tables_spec();
    let ghost obs = observed_views(tables@);
    let n = schema.tables.len();
    let mut i: usize = 0;
    assert(req.skip(0) =~= req);
    while i < n
        invariant
            n == schema.tables@.len(),
            tabviews(schema.tables@) == req,
            req == schema_tables_spec(),
            obs == observed_views(tables@),
            i <= n,
            schema_gap(req, obs) == schema_gap(req.skip(i as int), obs),
        decreases n - i,
    {
        let required = &schema.tables[i];
        proof {
            assert(req.skip(i as int)[0] == req[i as int]);
            assert(req[i as int] == tabview(*required));
            assert(req.skip(i as int).drop_first() =~= req.skip(i + 1));
        }
        let columns = match find_observed(tables, required.name) {
            Some(cs) => cs,
            None => {
                return Err(AppDbError::MissingRequiredTable { table: required.name });
            },
        };
        let ghost cols = colviews(required.columns@);
        let ghost seen = columns@.map_values(|c: &str| c@);
        let m = required.columns.len();
        let mut j: usize = 0;
        assert(cols.skip(0) =~= cols);
        while j < m
            invariant
                m == required.columns@.len(),
                cols == colviews(required.columns@),
                seen == columns@.map_values(|c: &str| c@),
                j <= m,
                req == schema_tables_spec(),
                obs == observed_views(tables@),
                schema_gap(req, obs) == schema_gap(req.skip(i as int), obs),
                req.skip(i as int)[0] == tabview(*required),
                req.skip(i as int).len() > 0,
                observed_index(obs, required.name@) < tables@.len(),
                seen == obs[observed_index(obs, required.name@)].1,
                missing_column(cols, seen) == missing_column(cols.skip(j as int), seen),
            decreases m - j,
        {
            let column = required.columns[j];
            proof {
                assert(cols.skip(j as int)[0] == cols[j as int]);
                assert(cols[j as int] == colview(column));
                assert(cols.skip(j as int).drop_first() =~= cols.skip(j + 1));
            }
            if !contains_name(columns, column.name) {
                return Err(AppDbError::MissingRequiredColumn { table: required.name, column: column.name });
            }
            j = j + 1;
        }
        i = i + 1;
    }
    Ok(())
}

} // verus!
