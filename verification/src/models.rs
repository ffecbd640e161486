//! Domain model: tasks, reminders, settings, stickies, knowledge items and the
//! run-time state, with the local-wall-time text conventions of `datetime`.
use vstd::prelude::*;
use vstd::string::*;
use crate::text::{is_blank, blank, trim, trim_seq, same_text, owned};
use crate::datetime::{
    Clock, Day, normalize_datetime, normalize_spec, parse_clock, parse_clock_spec, split_seq,
};
use chrono::Datelike;

verus! {

broadcast use vstd::string::group_string_axioms;

pub const DEFAULT_HOTKEY: &'static str = "Alt+Shift+A";
pub const DEFAULT_MAIN_HOTKEY: &'static str = "Alt+Shift+O";
pub const DEFAULT_STICKY_HOTKEY: &'static str = "Alt+Shift+S";
pub const DEFAULT_TODO_HOTKEY: &'static str = "Alt+Shift+T";
pub const DEFAULT_DND_FROM: &'static str = "23:00";
pub const DEFAULT_DND_TO: &'static str = "07:30";
pub const REMINDER_CAP_DEFAULT: u32 = 3;
/// Soft-deleted tasks are purged after this many days.
pub const TRASH_RETENTION_DAYS: i64 = 30;
/// Reminders missed by more than this many hours are settled without a notification.
pub const MISSED_GRACE_HOURS: i64 = 24;
/// Upper bound on the number of stickies.
pub const STICKY_CAP: usize = 6;

// ---------------------------------------------------------------- choices

/// 工作 | 学习 | 生活
pub open spec fn is_category(s: Seq<char>) -> bool {
    s == "工作"@ || s == "学习"@ || s == "生活"@
}

pub fn is_category_text(s: &str) -> (r: bool)
    ensures
        r == is_category(s@),
{
    same_text(s, "工作") || same_text(s, "学习") || same_text(s, "生活")
}

/// high | med | low
pub open spec fn is_priority(s: Seq<char>) -> bool {
    s == "high"@ || s == "med"@ || s == "low"@
}

pub fn is_priority_text(s: &str) -> (r: bool)
    ensures
        r == is_priority(s@),
{
    same_text(s, "high") || same_text(s, "med") || same_text(s, "low")
}

/// warm | kraft | cyan | ink
pub open spec fn is_sticky_paper(s: Seq<char>) -> bool {
    s == "warm"@ || s == "kraft"@ || s == "cyan"@ || s == "ink"@
}

pub fn is_sticky_paper_text(s: &str) -> (r: bool)
    ensures
        r == is_sticky_paper(s@),
{
    same_text(s, "warm") || same_text(s, "kraft") || same_text(s, "cyan") || same_text(s, "ink")
}

/// none | bamboo | mountain
pub open spec fn is_sticky_pattern(s: Seq<char>) -> bool {
    s == "none"@ || s == "bamboo"@ || s == "mountain"@
}

pub fn is_sticky_pattern_text(s: &str) -> (r: bool)
    ensures
        r == is_sticky_pattern(s@),
{
    same_text(s, "none") || same_text(s, "bamboo") || same_text(s, "mountain")
}

/// Whether the trimmed `value` is one of `allowed`.
pub fn is_valid_choice(allowed: &[&str], value: &str) -> (r: bool)
    ensures
        r == exists|i: int| 0 <= i < allowed@.len() && allowed@[i]@ == trim_seq(value@),
{
    let t = trim(value);
    let mut i: usize = 0;
    while i < allowed.len()
        invariant
            i <= allowed@.len(),
            t@ == trim_seq(value@),
            forall|k: int| 0 <= k < i ==> allowed@[k]@ != t@,
        decreases allowed@.len() - i,
    {
        if same_text(allowed[i], t.as_str()) {
            return true;
        }
        i = i + 1;
    }
    false
}

// ---------------------------------------------------------------- basic types

#[derive(Debug, Clone, PartialEq, Eq)]
pub struct Subtask {
    pub id: String,
    pub title: String,
    pub done: bool,
}

#[derive(Debug, Clone, PartialEq, Eq)]
pub struct Note {
    pub id: String,
    pub author: String,
    pub content: String,
    pub created_at: String,
}

#[derive(Debug, Clone, Copy, PartialEq, Eq, Structural)]
pub enum Source {
    Capture,
    Manual,
    Seed,
}

#[derive(Debug, Clone, Copy, PartialEq, Eq, Structural)]
pub enum Repeat {
    /// One-shot (serialised as `none`).
    Never,
    Daily,
    Workdays,
    Weekly,
}

#[derive(Debug, Clone, PartialEq)]
pub struct Task {
    pub id: String,
    pub title: String,
    /// Free-text note on the task (v1's description).
    pub note: String,
    /// 工作 | 学习 | 生活
    pub category: String,
    /// high | med | low
    pub priority: String,
    pub due_at: Option<String>,
    pub remind_at: Option<String>,
    /// Day the task was put on "today" (`YYYY-MM-DD`).
    pub planned_date: Option<String>,
    /// Days the task has been carried while overdue.
    pub carried_from: u32,
    pub done: bool,
    pub done_at: Option<String>,
    /// Soft-delete stamp; set means the task is in the trash.
    pub deleted_at: Option<String>,
    /// Migrated from v1 without a real completion stamp.
    pub legacy: bool,
    /// Knowledge items the task refers to (one-way).
    pub kb_refs: Vec<String>,
    /// Manual order inside a list.
    pub sort_order: Option<i64>,
    pub subtasks: Vec<Subtask>,
    pub notes: Vec<Note>,
    pub source: Source,
    pub created_at: String,
    pub updated_at: String,
}

#[derive(Debug, Clone, PartialEq)]
pub struct Reminder {
    pub id: String,
    pub title: String,
    /// `HH:MM` / `HH:MM/HH:MM` (recurring) or `YYYY-MM-DDTHH:mm` (one-shot).
    pub time: String,
    pub category: String,
    pub enabled: bool,
    pub completed: bool,
    pub repeat: Repeat,
    pub last_fired: Option<String>,
    pub snoozed_until: Option<String>,
    pub legacy: bool,
}

#[derive(Debug, Clone, PartialEq)]
pub struct Dnd {
    pub enabled: bool,
    pub from: String,
    pub to: String,
}

#[derive(Debug, Clone, PartialEq)]
pub struct Settings {
    pub theme: String,
    /// warm | kraft | cyan | ink
    pub sticky_paper: String,
    pub sticky_fade: bool,
    /// Opacity percentage (10–100) of a faded sticky.
    pub sticky_fade_opacity: u32,
    /// none | bamboo | mountain
    pub sticky_pattern: String,
    pub capture_hotkey: String,
    /// `None` = not bound.
    pub main_hotkey: Option<String>,
    pub sticky_hotkey: Option<String>,
    /// Hotkey of the floating to-do window; `None` = not bound.
    pub todo_hotkey: Option<String>,
    /// Floating to-do window stays on top.
    pub todo_float_pinned: bool,
    pub dnd: Dnd,
    pub remind_cap_per_hour: u32,
    pub onboarded: bool,
    pub export_dir: Option<String>,
    /// Local metrics (never leave the machine).
    pub telemetry_enabled: bool,
}

/// A free sticky note (plain text, at most 500 characters).
#[derive(Debug, Clone, PartialEq)]
pub struct StickyNote {
    pub id: String,
    pub content: String,
    /// Shrunk to a one-line bar.
    pub mini: bool,
    pub created_at: String,
    pub updated_at: String,
}

/// The root of the user-data document.
#[derive(Debug, Clone, PartialEq)]
pub struct AppData {
    pub tasks: Vec<Task>,
    pub reminders: Vec<Reminder>,
    pub settings: Settings,
    pub stickies: Vec<StickyNote>,
}

/// Payload of add/update of a knowledge item.
#[derive(Debug, Clone, Default)]
pub struct KbPayload {
    pub title: Option<String>,
    pub body_md: Option<String>,
    pub tags: Option<Vec<String>>,
}

/// A knowledge item: title, Markdown body and tags.
#[derive(Debug, Clone, PartialEq)]
pub struct KbItem {
    pub id: String,
    pub title: String,
    pub body_md: String,
    pub tags: Vec<String>,
    pub created_at: String,
    pub updated_at: String,
}

/// Run-time state, kept apart from user data.
#[derive(Debug, Clone, PartialEq)]
pub struct RuntimeState {
    /// Keys of handled reminders (`t|id|stamp`, `r|id|stamp`), at most 400.
    pub fired: Vec<String>,
    pub capture_pos: Option<[i32; 2]>,
    /// Sticky positions by note id; no id occurs twice.
    pub note_pos: Vec<(String, [i32; 2])>,
    /// v1 migration report, cleared once read.
    pub migration: Option<MigrationReport>,
}

/// Whatever settings were read, coercing them gives usable settings.
pub proof fn law_coerced_settings_usable(old: Settings, new: Settings)
    requires
        coerced(old, new),
    ensures
        settings_usable(new),
{
    reveal_strlit("float");
    reveal_strlit("Alt+Shift+A");
    crate::text::lemma_trim_shape("float"@);
    crate::text::lemma_trim_shape("Alt+Shift+A"@);
    assert(!crate::text::is_ws("float"@[0]));
    assert(!crate::text::is_ws("Alt+Shift+A"@[0]));
}

/// Coercing settings a second time changes nothing.
pub proof fn law_coerce_idempotent(s0: Settings, s1: Settings, s2: Settings)
    requires
        coerced(s0, s1),
        coerced(s1, s2),
    ensures
        s2@ == s1@,
{
    law_coerced_settings_usable(s0, s1);
}

// ---------------------------------------------------------------- patch values

/// A JSON value handed in a patch, as the patch rules read it: null, a string,
/// or any other value by its JSON text.
#[derive(Debug, Clone, PartialEq)]
pub enum PatchValue {
    Null,
    Text(String),
    Other(String),
}

#[derive(Debug, Clone, Default)]
pub struct TaskPayload {
    pub title: Option<String>,
    pub note: Option<String>,
    pub category: Option<String>,
    pub priority: Option<String>,
    pub due_at: Option<PatchValue>,
    pub remind_at: Option<PatchValue>,
    pub planned_date: Option<PatchValue>,
    pub carried_from: Option<u32>,
    pub done: Option<bool>,
    pub done_at: Option<PatchValue>,
    pub deleted_at: Option<PatchValue>,
    pub legacy: Option<bool>,
    pub subtasks: Option<Vec<Subtask>>,
    pub notes: Option<Vec<Note>>,
    pub kb_refs: Option<Vec<String>>,
    pub sticky_paper: Option<String>,
    pub source: Option<Source>,
    pub created_at: Option<String>,
}

#[derive(Debug, Clone, Default)]
pub struct SubtaskPayload {
    pub title: Option<String>,
    pub done: Option<bool>,
}

#[derive(Debug, Clone, Default)]
pub struct NotePayload {
    pub author: Option<String>,
    pub content: Option<String>,
    pub created_at: Option<String>,
}

#[derive(Debug, Clone, Default)]
pub struct ReminderPayload {
    pub title: Option<String>,
    pub time: Option<String>,
    pub category: Option<String>,
    pub enabled: Option<bool>,
    pub completed: Option<bool>,
    pub repeat: Option<Repeat>,
    pub snoozed_until: Option<String>,
}

#[derive(Debug, Clone, Default)]
pub struct DndPayload {
    pub enabled: Option<bool>,
    pub from: Option<String>,
    pub to: Option<String>,
}

#[derive(Debug, Clone, Default)]
pub struct SettingsPayload {
    pub theme: Option<String>,
    pub sticky_paper: Option<String>,
    pub sticky_fade: Option<bool>,
    pub sticky_fade_opacity: Option<u32>,
    pub sticky_pattern: Option<String>,
    pub telemetry_enabled: Option<bool>,
    pub capture_hotkey: Option<String>,
    pub main_hotkey: Option<String>,
    pub sticky_hotkey: Option<String>,
    pub todo_hotkey: Option<String>,
    pub todo_float_pinned: Option<bool>,
    pub dnd: Option<DndPayload>,
    pub remind_cap_per_hour: Option<u32>,
    pub onboarded: Option<bool>,
    pub export_dir: Option<String>,
}

// ---------------------------------------------------------------- health / backups / migration

#[derive(Debug, Clone, PartialEq)]
pub struct BackupInfo {
    /// "1".."5"
    pub slot: String,
    pub name: String,
    pub created_at: String,
    pub size_kb: u64,
    pub task_count: u32,
    pub readable: bool,
    pub error: Option<String>,
}

#[derive(Debug, Clone, PartialEq)]
pub struct MigrationIssue {
    pub collection: String,
    pub id: String,
    pub field: String,
    pub raw: String,
    pub action: String,
}

#[derive(Debug, Clone, PartialEq)]
pub struct MigrationReport {
    pub task_count: u32,
    pub reminder_count: u32,
    /// Entries whose unreadable time was cleared.
    pub invalid_dates: u32,
    /// Done entries without a completion stamp.
    pub legacy_done: u32,
    pub archived_to: String,
    pub issues: Vec<MigrationIssue>,
}

#[derive(Debug, Clone, PartialEq)]
pub struct DataHealthV2 {
    /// ok | corrupt | writeFailed
    pub health: String,
    pub backups: Vec<BackupInfo>,
    pub corrupt_file: Option<String>,
    pub last_error: Option<String>,
    pub writable: bool,
}

/// The hotkeys actually registered right now.
#[derive(Debug, Clone, PartialEq)]
pub struct HotkeyStatus {
    pub capture: Option<String>,
    pub main: Option<String>,
    pub sticky: Option<String>,
    pub todo: Option<String>,
}

#[derive(Debug, Clone, PartialEq)]
pub struct RestoreResult {
    /// Tasks not in the trash after the restore.
    pub restored: usize,
    pub health: DataHealthV2,
}

#[derive(Debug, Clone, PartialEq)]
pub struct Bootstrap {
    pub tasks: Vec<Task>,
    pub reminders: Vec<Reminder>,
    pub settings: Settings,
    pub health: DataHealthV2,
    pub migration: Option<MigrationReport>,
    pub version: String,
}

/// Payload of the `store-changed` event.
#[derive(Debug, Clone, PartialEq)]
pub struct StoreEvent {
    pub id: String,
    /// changed | fired | missed
    pub kind: String,
}

impl StoreEvent {
    pub fn changed(id: &str) -> (e: Self)
        ensures
            e.id@ == id@,
            e.kind@ == "changed"@,
    {
        StoreEvent { id: owned(id), kind: owned("changed") }
    }

    pub fn fired(id: &str) -> (e: Self)
        ensures
            e.id@ == id@,
            e.kind@ == "fired"@,
    {
        StoreEvent { id: owned(id), kind: owned("fired") }
    }

    pub fn missed(id: &str) -> (e: Self)
        ensures
            e.id@ == id@,
            e.kind@ == "missed"@,
    {
        StoreEvent { id: owned(id), kind: owned("missed") }
    }
}

// ---------------------------------------------------------------- clock of the machine

/// The local time in milliseconds since the Unix epoch (chrono's
/// `Local::now().timestamp_millis()`). It depends on the time of the call,
/// so nothing is stated of it.
#[verifier::external_body]
fn millis_now() -> i64 {
    chrono::Local::now().timestamp_millis()
}

/// A lowercase hexadecimal digit.
pub open spec fn hex_digit(c: char) -> bool {
    ('0' <= c && c <= '9') || ('a' <= c && c <= 'f')
}

/// The 32 hex digits of a random UUID (uuid's `Uuid::new_v4()`, written
/// `simple`). Which one is left to chance; the claim is the shape uuid's
/// `simple` formatting gives: 32 lowercase hex digits.
#[verifier::external_body]
fn uuid_hex() -> (r: String)
    ensures
        r@.len() == 32,
        forall|i: int| 0 <= i < 32 ==> hex_digit(#[trigger] r@[i]),
{
    uuid::Uuid::new_v4().simple().to_string()
}

/// A whole number in decimal, with `-` before a negative one.
pub open spec fn signed_text(n: int) -> Seq<char> {
    if n < 0 { seq!['-'] + crate::text::dec_seq((-n) as nat) } else { crate::text::dec_seq(n as nat) }
}

/// The shape of a fresh id: the prefix, a time in milliseconds in decimal,
/// and 32 hex digits.
pub open spec fn id_shape(id: Seq<char>, prefix: Seq<char>) -> bool {
    exists|ms: int, hex: Seq<char>| #![trigger signed_text(ms), hex.len()]
        id == prefix + signed_text(ms) + hex && hex.len() == 32
            && forall|i: int| 0 <= i < 32 ==> hex_digit(#[trigger] hex[i])
}

/// A fresh id: `prefix`, the local time in milliseconds, then the 32 hex
/// digits of a random UUID, so that ids made within one millisecond differ
/// too. Which time and which digits depend on the call and on chance.
pub fn new_id(prefix: &str) -> (id: String)
    ensures
        id_shape(id@, prefix@),
        id@.len() > prefix@.len(),
        id@.subrange(0, prefix@.len() as int) == prefix@,
{
    let ms = millis_now();
    let digits = if ms >= 0 {
        crate::text::decimal(ms as u64)
    } else {
        let magnitude: u64 = ((-(ms + 1)) as u64) + 1;
        crate::text::concat("-", crate::text::decimal(magnitude).as_str())
    };
    proof {
        reveal_strlit("-");
        assert(digits@ == signed_text(ms as int));
    }
    let hex = uuid_hex();
    let head = crate::text::concat(prefix, digits.as_str());
    let id = crate::text::concat(head.as_str(), hex.as_str());
    proof {
        assert(id@ == prefix@ + signed_text(ms as int) + hex@);
        assert(id@.subrange(0, prefix@.len() as int) =~= prefix@);
    }
    id
}

pub open spec fn ascii_digit(c: char) -> bool {
    '0' <= c && c <= '9'
}

/// `YYYY-MM-DDTHH:mm` as chrono's `%Y-%m-%dT%H:%M` writes it: a year of four
/// digits or more (signed outside 0 to 9999), then `-MM-DDTHH:mm` with
/// two-digit month, day, hour and minute.
pub open spec fn minute_stamp_shape(s: Seq<char>) -> bool {
    let n = s.len() as int;
    &&& n >= 16
    &&& s[n - 12] == '-' && s[n - 9] == '-' && s[n - 6] == 'T' && s[n - 3] == ':'
    &&& forall|i: int| n - 11 <= i < n && i != n - 9 && i != n - 6 && i != n - 3 ==> ascii_digit(#[trigger] s[i])
}

/// The local time as `YYYY-MM-DDTHH:mm` (chrono's `Local::now` formatted with
/// `%Y-%m-%dT%H:%M`). Which time depends on the call; the claim is the
/// shape chrono's formatting gives.
#[verifier::external_body]
pub fn now_text() -> (r: String)
    ensures
        minute_stamp_shape(r@),
{
    chrono::Local::now().format("%Y-%m-%dT%H:%M").to_string()
}

/// Today's local date (chrono's `Local::now().date_naive()`); depends on the
/// time of the call. The claim: it is a real calendar date.
#[verifier::external_body]
pub fn today() -> (d: Day)
    ensures
        d.valid(),
{
    let d = chrono::Local::now().date_naive();
    Day { year: d.year(), month: d.month(), day: d.day() }
}

// ---------------------------------------------------------------- constructors

impl Task {
    pub open spec fn spec_in_trash(&self) -> bool {
        self.deleted_at is Some
    }

    pub fn in_trash(&self) -> (r: bool)
        ensures
            r == self.spec_in_trash(),
    {
        self.deleted_at.is_some()
    }

    /// A new task with default fields, a fresh `t…` id and creation stamps.
    pub fn blank(title: &str) -> (t: Self)
        ensures
            t.title@ == title@,
            t.id@.len() > 1 && t.id@[0] == 't',
            t.created_at == t.updated_at,
            minute_stamp_shape(t.created_at@),
            t.note@.len() == 0,
            t.category@ == "生活"@,
            t.priority@ == "med"@,
            t.due_at is None && t.remind_at is None && t.planned_date is None,
            t.carried_from == 0 && !t.done && t.done_at is None && t.deleted_at is None,
            !t.legacy && t.kb_refs@.len() == 0 && t.sort_order is None,
            t.subtasks@.len() == 0 && t.notes@.len() == 0,
            t.source == Source::Manual,
    {
        let stamp = now_text();
        let id = new_id("t");
        proof {
            reveal_strlit("t");
            assert(id@[0] == id@.subrange(0, 1)[0]);
        }
        Task {
            id,
            title: owned(title),
            note: String::new(),
            category: owned("生活"),
            priority: owned("med"),
            due_at: None,
            remind_at: None,
            planned_date: None,
            carried_from: 0,
            done: false,
            done_at: None,
            deleted_at: None,
            legacy: false,
            kb_refs: Vec::new(),
            sort_order: None,
            subtasks: Vec::new(),
            notes: Vec::new(),
            source: Source::Manual,
            created_at: stamp.clone(),
            updated_at: stamp,
        }
    }
}

impl Default for Task {
    fn default() -> (t: Self)
        ensures
            t.id@.len() == 0 && t.title@.len() == 0 && t.note@.len() == 0,
            t.category@ == "生活"@ && t.priority@ == "med"@,
            t.due_at is None && t.remind_at is None && t.planned_date is None,
            t.carried_from == 0 && !t.done && t.done_at is None && t.deleted_at is None,
            !t.legacy && t.kb_refs@.len() == 0 && t.sort_order is None,
            t.subtasks@.len() == 0 && t.notes@.len() == 0,
            t.source == Source::Manual,
            t.created_at@.len() == 0 && t.updated_at@.len() == 0,
    {
        Task {
            id: String::new(),
            title: String::new(),
            note: String::new(),
            category: owned("生活"),
            priority: owned("med"),
            due_at: None,
            remind_at: None,
            planned_date: None,
            carried_from: 0,
            done: false,
            done_at: None,
            deleted_at: None,
            legacy: false,
            kb_refs: Vec::new(),
            sort_order: None,
            subtasks: Vec::new(),
            notes: Vec::new(),
            source: Source::Manual,
            created_at: String::new(),
            updated_at: String::new(),
        }
    }
}

impl Reminder {
    /// A new enabled one-shot-or-recurring reminder with a fresh `r…` id.
    pub fn blank(title: &str, time: &str) -> (r: Self)
        ensures
            r.title@ == title@,
            r.time@ == time@,
            r.id@.len() > 1 && r.id@[0] == 'r',
            r.category@ == "生活"@,
            r.enabled && !r.completed && r.repeat == Repeat::Never,
            r.last_fired is None && r.snoozed_until is None && !r.legacy,
    {
        let id = new_id("r");
        proof {
            reveal_strlit("r");
            assert(id@[0] == id@.subrange(0, 1)[0]);
        }
        Reminder {
            id,
            title: owned(title),
            time: owned(time),
            category: owned("生活"),
            enabled: true,
            completed: false,
            repeat: Repeat::Never,
            last_fired: None,
            snoozed_until: None,
            legacy: false,
        }
    }
}

impl Default for Reminder {
    fn default() -> (r: Self)
        ensures
            r.id@.len() == 0 && r.title@.len() == 0 && r.time@.len() == 0,
            r.category@ == "生活"@,
            r.enabled && !r.completed && r.repeat == Repeat::Never,
            r.last_fired is None && r.snoozed_until is None && !r.legacy,
    {
        Reminder {
            id: String::new(),
            title: String::new(),
            time: String::new(),
            category: owned("生活"),
            enabled: true,
            completed: false,
            repeat: Repeat::Never,
            last_fired: None,
            snoozed_until: None,
            legacy: false,
        }
    }
}

impl Default for Dnd {
    fn default() -> (d: Self)
        ensures
            d.enabled && d.from@ == "23:00"@ && d.to@ == "07:30"@,
    {
        Dnd { enabled: true, from: owned(DEFAULT_DND_FROM), to: owned(DEFAULT_DND_TO) }
    }
}

impl Default for Settings {
    fn default() -> (s: Self)
        ensures
            s.theme@ == "float"@,
            s.sticky_paper@ == "warm"@,
            s.sticky_fade,
            s.sticky_fade_opacity == 38,
            s.sticky_pattern@ == "none"@,
            s.capture_hotkey@ == "Alt+Shift+A"@,
            s.main_hotkey matches Some(k) && k@ == "Alt+Shift+O"@,
            s.sticky_hotkey matches Some(k) && k@ == "Alt+Shift+S"@,
            s.todo_hotkey matches Some(k) && k@ == "Alt+Shift+T"@,
            !s.todo_float_pinned,
            s.dnd.enabled && s.dnd.from@ == "23:00"@ && s.dnd.to@ == "07:30"@,
            s.remind_cap_per_hour == 3,
            !s.onboarded,
            s.export_dir is None,
            s.telemetry_enabled,
    {
        Settings {
            theme: owned("float"),
            sticky_paper: owned("warm"),
            sticky_fade: true,
            sticky_fade_opacity: 38,
            sticky_pattern: owned("none"),
            capture_hotkey: owned(DEFAULT_HOTKEY),
            main_hotkey: Some(owned(DEFAULT_MAIN_HOTKEY)),
            sticky_hotkey: Some(owned(DEFAULT_STICKY_HOTKEY)),
            todo_hotkey: Some(owned(DEFAULT_TODO_HOTKEY)),
            todo_float_pinned: false,
            dnd: Dnd::default(),
            remind_cap_per_hour: REMINDER_CAP_DEFAULT,
            onboarded: false,
            export_dir: None,
            telemetry_enabled: true,
        }
    }
}

impl Default for StickyNote {
    fn default() -> (n: Self)
        ensures
            n.id@.len() == 0 && n.content@.len() == 0 && !n.mini,
            n.created_at == n.updated_at,
            minute_stamp_shape(n.created_at@),
    {
        let stamp = now_text();
        StickyNote {
            id: String::new(),
            content: String::new(),
            mini: false,
            created_at: stamp.clone(),
            updated_at: stamp,
        }
    }
}

impl Default for AppData {
    fn default() -> (d: Self)
        ensures
            d.tasks@.len() == 0 && d.reminders@.len() == 0 && d.stickies@.len() == 0,
            d.settings.theme@ == "float"@,
            d.settings.remind_cap_per_hour == 3,
    {
        AppData {
            tasks: Vec::new(),
            reminders: Vec::new(),
            settings: Settings::default(),
            stickies: Vec::new(),
        }
    }
}

impl Default for KbItem {
    fn default() -> (k: Self)
        ensures
            k.id@.len() == 0 && k.title@.len() == 0 && k.body_md@.len() == 0,
            k.tags@.len() == 0 && k.created_at@.len() == 0 && k.updated_at@.len() == 0,
    {
        KbItem {
            id: String::new(),
            title: String::new(),
            body_md: String::new(),
            tags: Vec::new(),
            created_at: String::new(),
            updated_at: String::new(),
        }
    }
}

impl Default for RuntimeState {
    fn default() -> (r: Self)
        ensures
            r.fired@.len() == 0 && r.capture_pos is None && r.note_pos@.len() == 0,
            r.migration is None,
    {
        RuntimeState { fired: Vec::new(), capture_pos: None, note_pos: Vec::new(), migration: None }
    }
}

impl Default for MigrationReport {
    fn default() -> (r: Self)
        ensures
            r.task_count == 0 && r.reminder_count == 0 && r.invalid_dates == 0,
            r.legacy_done == 0 && r.archived_to@.len() == 0 && r.issues@.len() == 0,
    {
        MigrationReport {
            task_count: 0,
            reminder_count: 0,
            invalid_dates: 0,
            legacy_done: 0,
            archived_to: String::new(),
            issues: Vec::new(),
        }
    }
}

// ---------------------------------------------------------------- settings coercion

/// Whether `value` is set and blank.
pub open spec fn blank_some(value: Option<String>) -> bool {
    value matches Some(v) && blank(v@)
}

/// Settings the scheduler and the window layer can always use: nothing
/// blank where a value is needed, choices among the known ones, numbers in
/// range, and quiet-hour clocks that read (or are the defaults).
pub open spec fn settings_usable(s: Settings) -> bool {
    &&& !blank(s.theme@)
    &&& !blank(s.capture_hotkey@)
    &&& is_sticky_paper(s.sticky_paper@)
    &&& is_sticky_pattern(s.sticky_pattern@)
    &&& 10 <= s.sticky_fade_opacity <= 100
    &&& !blank_some(s.main_hotkey)
    &&& !blank_some(s.sticky_hotkey)
    &&& 1 <= s.remind_cap_per_hour <= 60
    &&& (parse_clock_spec(s.dnd.from@) is Some || s.dnd.from@ == "23:00"@)
    &&& (parse_clock_spec(s.dnd.to@) is Some || s.dnd.to@ == "07:30"@)
}

/// Field by field, what `Settings::coerce` leaves.
pub open spec fn coerced(old: Settings, new: Settings) -> bool {
    &&& new.theme@ == (if blank(old.theme@) { "float"@ } else { old.theme@ })
    &&& new.capture_hotkey@ == (if blank(old.capture_hotkey@) { "Alt+Shift+A"@ } else { old.capture_hotkey@ })
    &&& new.sticky_paper@ == (if is_sticky_paper(old.sticky_paper@) { old.sticky_paper@ } else { "warm"@ })
    &&& new.sticky_pattern@ == (if is_sticky_pattern(old.sticky_pattern@) { old.sticky_pattern@ } else { "none"@ })
    &&& new.sticky_fade_opacity == (if 10 <= old.sticky_fade_opacity <= 100 { old.sticky_fade_opacity } else { 38 })
    &&& new.main_hotkey == (if blank_some(old.main_hotkey) { None } else { old.main_hotkey })
    &&& new.sticky_hotkey == (if blank_some(old.sticky_hotkey) { None } else { old.sticky_hotkey })
    &&& new.remind_cap_per_hour == (if old.remind_cap_per_hour == 0 || old.remind_cap_per_hour > 60 { 3 } else { old.remind_cap_per_hour })
    &&& new.dnd.from@ == (if parse_clock_spec(old.dnd.from@) is Some { old.dnd.from@ } else { "23:00"@ })
    &&& new.dnd.to@ == (if parse_clock_spec(old.dnd.to@) is Some { old.dnd.to@ } else { "07:30"@ })
    &&& new.dnd.enabled == old.dnd.enabled
    &&& new.sticky_fade == old.sticky_fade
    &&& new.todo_hotkey == old.todo_hotkey
    &&& new.todo_float_pinned == old.todo_float_pinned
    &&& new.onboarded == old.onboarded
    &&& new.export_dir == old.export_dir
    &&& new.telemetry_enabled == old.telemetry_enabled
}

impl Settings {
    /// Corrects unusable values so that the scheduler and the window layer
    /// always get a usable configuration.
    #[verifier::rlimit(60)]
    pub fn coerce(&mut self)
        ensures
            coerced(*old(self), *final(self)),
    {
        if is_blank(self.theme.as_str()) {
            self.theme = owned("float");
        }
        if is_blank(self.capture_hotkey.as_str()) {
            self.capture_hotkey = owned(DEFAULT_HOTKEY);
        }
        if !is_sticky_paper_text(self.sticky_paper.as_str()) {
            self.sticky_paper = owned("warm");
        }
        if !is_sticky_pattern_text(self.sticky_pattern.as_str()) {
            self.sticky_pattern = owned("none");
        }
        if !(10 <= self.sticky_fade_opacity && self.sticky_fade_opacity <= 100) {
            self.sticky_fade_opacity = 38;
        }
        let main_blank = match &self.main_hotkey {
            Some(value) => is_blank(value.as_str()),
            None => false,
        };
        if main_blank {
            self.main_hotkey = None;
        }
        let sticky_blank = match &self.sticky_hotkey {
            Some(value) => is_blank(value.as_str()),
            None => false,
        };
        if sticky_blank {
            self.sticky_hotkey = None;
        }
        if self.remind_cap_per_hour == 0 || self.remind_cap_per_hour > 60 {
            self.remind_cap_per_hour = REMINDER_CAP_DEFAULT;
        }
        if parse_clock(self.dnd.from.as_str()).is_none() {
            self.dnd.from = owned(DEFAULT_DND_FROM);
        }
        if parse_clock(self.dnd.to.as_str()).is_none() {
            self.dnd.to = owned(DEFAULT_DND_TO);
        }
    }
}

// ---------------------------------------------------------------- patch values

/// A patched text field: null, blank and nullish text clear it; other values
/// by their JSON text.
pub open spec fn patch_text_spec(v: PatchValue) -> Option<Seq<char>> {
    match v {
        PatchValue::Null => None,
        PatchValue::Text(t) => if blank(t@) || crate::datetime::nullish(t@) { None } else { Some(trim_seq(t@)) },
        PatchValue::Other(j) => Some(j@),
    }
}

pub fn patch_text(value: &PatchValue) -> (r: Option<String>)
    ensures
        match r {
            Some(s) => patch_text_spec(*value) == Some(s@),
            None => patch_text_spec(*value) is None,
        },
{
    match value {
        PatchValue::Null => None,
        PatchValue::Text(text) => {
            if is_blank(text.as_str()) || crate::datetime::is_nullish(text.as_str()) {
                None
            } else {
                Some(trim(text.as_str()))
            }
        },
        PatchValue::Other(json) => Some(owned(json.as_str())),
    }
}

/// A patched time field: null and unreadable values clear it.
pub open spec fn patch_datetime_spec(v: PatchValue) -> Option<Seq<char>> {
    match v {
        PatchValue::Null => None,
        PatchValue::Text(t) => normalize_spec(t@),
        PatchValue::Other(j) => normalize_spec(j@),
    }
}

pub fn patch_datetime(value: &PatchValue) -> (r: Option<String>)
    ensures
        match r {
            Some(s) => patch_datetime_spec(*value) == Some(s@),
            None => patch_datetime_spec(*value) is None,
        },
{
    match value {
        PatchValue::Null => None,
        PatchValue::Text(text) => normalize_datetime(text.as_str()),
        PatchValue::Other(json) => normalize_datetime(json.as_str()),
    }
}

// ---------------------------------------------------------------- reminder kinds

/// A reminder is recurring when it repeats, or when its time holds bare
/// clock times (`HH:MM`, several joined by `/`); a time that carries a date
/// (`YYYY-MM-DDTHH:mm`) is a one-shot.
pub open spec fn is_recurring_spec(r: Reminder) -> bool {
    ||| r.repeat != Repeat::Never
    ||| exists|i: int| 0 <= i < split_seq(r.time@, '/').len() && crate::datetime::pure_clock(#[trigger] split_seq(r.time@, '/')[i])
}

pub fn is_recurring(reminder: &Reminder) -> (b: bool)
    ensures
        b == is_recurring_spec(*reminder),
{
    if !matches!(reminder.repeat, Repeat::Never) {
        return true;
    }
    let parts = crate::datetime::split_on(reminder.time.as_str(), '/');
    let ghost ps = split_seq(reminder.time@, '/');
    let mut i: usize = 0;
    while i < parts.len()
        invariant
            i <= parts@.len(),
            ps == split_seq(reminder.time@, '/'),
            parts@.len() == ps.len(),
            forall|j: int| 0 <= j < parts@.len() ==> #[trigger] parts@[j]@ == ps[j],
            forall|j: int| 0 <= j < i ==> !crate::datetime::pure_clock(#[trigger] ps[j]),
        decreases parts@.len() - i,
    {
        if crate::datetime::is_pure_clock(parts[i].as_str()) {
            assert(parts@[i as int]@ == ps[i as int]);
            assert(crate::datetime::pure_clock(split_seq(reminder.time@, '/')[i as int]));
            return true;
        }
        i = i + 1;
    }
    false
}

/// Overdue days of a due text on the machine's today (see `carry_days_from`).
pub fn carry_days(due_at: &Option<String>) -> (r: u32)
    ensures
        r <= 9999,
        exists|d: Day| #![auto] d.valid() && r == crate::datetime::carry_days_spec(opt_view(*due_at), d),
{
    let d = today();
    let r = crate::datetime::carry_days_from(due_at, d);
    assert(r == crate::datetime::carry_days_spec(opt_view(*due_at), d));
    r
}

} // verus!

verus! {

// ---------------------------------------------------------------- views and copies

/// The text of an optional string.
pub open spec fn opt_view(o: Option<String>) -> Option<Seq<char>> {
    match o {
        Some(s) => Some(s@),
        None => None,
    }
}

/// Texts of a list of strings.
pub open spec fn texts_view(v: Seq<String>) -> Seq<Seq<char>> {
    v.map_values(|s: String| s@)
}

pub struct SubtaskView {
    pub id: Seq<char>,
    pub title: Seq<char>,
    pub done: bool,
}

impl View for Subtask {
    type V = SubtaskView;

    open spec fn view(&self) -> SubtaskView {
        SubtaskView { id: self.id@, title: self.title@, done: self.done }
    }
}

pub struct NoteView {
    pub id: Seq<char>,
    pub author: Seq<char>,
    pub content: Seq<char>,
    pub created_at: Seq<char>,
}

impl View for Note {
    type V = NoteView;

    open spec fn view(&self) -> NoteView {
        NoteView {
            id: self.id@,
            author: self.author@,
            content: self.content@,
            created_at: self.created_at@,
        }
    }
}

/// A task as a mathematical value.
pub struct TaskView {
    pub id: Seq<char>,
    pub title: Seq<char>,
    pub note: Seq<char>,
    pub category: Seq<char>,
    pub priority: Seq<char>,
    pub due_at: Option<Seq<char>>,
    pub remind_at: Option<Seq<char>>,
    pub planned_date: Option<Seq<char>>,
    pub carried_from: u32,
    pub done: bool,
    pub done_at: Option<Seq<char>>,
    pub deleted_at: Option<Seq<char>>,
    pub legacy: bool,
    pub kb_refs: Seq<Seq<char>>,
    pub sort_order: Option<i64>,
    pub subtasks: Seq<SubtaskView>,
    pub notes: Seq<NoteView>,
    pub source: Source,
    pub created_at: Seq<char>,
    pub updated_at: Seq<char>,
}

impl View for Task {
    type V = TaskView;

    open spec fn view(&self) -> TaskView {
        TaskView {
            id: self.id@,
            title: self.title@,
            note: self.note@,
            category: self.category@,
            priority: self.priority@,
            due_at: opt_view(self.due_at),
            remind_at: opt_view(self.remind_at),
            planned_date: opt_view(self.planned_date),
            carried_from: self.carried_from,
            done: self.done,
            done_at: opt_view(self.done_at),
            deleted_at: opt_view(self.deleted_at),
            legacy: self.legacy,
            kb_refs: texts_view(self.kb_refs@),
            sort_order: self.sort_order,
            subtasks: self.subtasks@.map_values(|x: Subtask| x@),
            notes: self.notes@.map_values(|x: Note| x@),
            source: self.source,
            created_at: self.created_at@,
            updated_at: self.updated_at@,
        }
    }
}

/// Views of a list of tasks.
pub open spec fn task_views(ts: Seq<Task>) -> Seq<TaskView> {
    ts.map_values(|t: Task| t@)
}

pub struct ReminderView {
    pub id: Seq<char>,
    pub title: Seq<char>,
    pub time: Seq<char>,
    pub category: Seq<char>,
    pub enabled: bool,
    pub completed: bool,
    pub repeat: Repeat,
    pub last_fired: Option<Seq<char>>,
    pub snoozed_until: Option<Seq<char>>,
    pub legacy: bool,
}

impl View for Reminder {
    type V = ReminderView;

    open spec fn view(&self) -> ReminderView {
        ReminderView {
            id: self.id@,
            title: self.title@,
            time: self.time@,
            category: self.category@,
            enabled: self.enabled,
            completed: self.completed,
            repeat: self.repeat,
            last_fired: opt_view(self.last_fired),
            snoozed_until: opt_view(self.snoozed_until),
            legacy: self.legacy,
        }
    }
}

pub open spec fn reminder_views(rs: Seq<Reminder>) -> Seq<ReminderView> {
    rs.map_values(|r: Reminder| r@)
}

pub struct StickyView {
    pub id: Seq<char>,
    pub content: Seq<char>,
    pub mini: bool,
    pub created_at: Seq<char>,
    pub updated_at: Seq<char>,
}

impl View for StickyNote {
    type V = StickyView;

    open spec fn view(&self) -> StickyView {
        StickyView {
            id: self.id@,
            content: self.content@,
            mini: self.mini,
            created_at: self.created_at@,
            updated_at: self.updated_at@,
        }
    }
}

pub open spec fn sticky_views(ss: Seq<StickyNote>) -> Seq<StickyView> {
    ss.map_values(|s: StickyNote| s@)
}

/// A knowledge item as a mathematical value.
pub struct KbItemView {
    pub id: Seq<char>,
    pub title: Seq<char>,
    pub body_md: Seq<char>,
    pub tags: Seq<Seq<char>>,
    pub created_at: Seq<char>,
    pub updated_at: Seq<char>,
}

impl View for KbItem {
    type V = KbItemView;

    open spec fn view(&self) -> KbItemView {
        KbItemView {
            id: self.id@,
            title: self.title@,
            body_md: self.body_md@,
            tags: texts_view(self.tags@),
            created_at: self.created_at@,
            updated_at: self.updated_at@,
        }
    }
}

pub open spec fn kb_views(ks: Seq<KbItem>) -> Seq<KbItemView> {
    ks.map_values(|k: KbItem| k@)
}

/// Settings as a mathematical value.
pub struct SettingsView {
    pub theme: Seq<char>,
    pub sticky_paper: Seq<char>,
    pub sticky_fade: bool,
    pub sticky_fade_opacity: u32,
    pub sticky_pattern: Seq<char>,
    pub capture_hotkey: Seq<char>,
    pub main_hotkey: Option<Seq<char>>,
    pub sticky_hotkey: Option<Seq<char>>,
    pub todo_hotkey: Option<Seq<char>>,
    pub todo_float_pinned: bool,
    pub dnd_enabled: bool,
    pub dnd_from: Seq<char>,
    pub dnd_to: Seq<char>,
    pub remind_cap_per_hour: u32,
    pub onboarded: bool,
    pub export_dir: Option<Seq<char>>,
    pub telemetry_enabled: bool,
}

impl View for Settings {
    type V = SettingsView;

    open spec fn view(&self) -> SettingsView {
        SettingsView {
            theme: self.theme@,
            sticky_paper: self.sticky_paper@,
            sticky_fade: self.sticky_fade,
            sticky_fade_opacity: self.sticky_fade_opacity,
            sticky_pattern: self.sticky_pattern@,
            capture_hotkey: self.capture_hotkey@,
            main_hotkey: opt_view(self.main_hotkey),
            sticky_hotkey: opt_view(self.sticky_hotkey),
            todo_hotkey: opt_view(self.todo_hotkey),
            todo_float_pinned: self.todo_float_pinned,
            dnd_enabled: self.dnd.enabled,
            dnd_from: self.dnd.from@,
            dnd_to: self.dnd.to@,
            remind_cap_per_hour: self.remind_cap_per_hour,
            onboarded: self.onboarded,
            export_dir: opt_view(self.export_dir),
            telemetry_enabled: self.telemetry_enabled,
        }
    }
}

pub fn dup_text(s: &String) -> (r: String)
    ensures
        r == *s,
{
    s.clone()
}

pub fn dup_opt_text(s: &Option<String>) -> (r: Option<String>)
    ensures
        r == *s,
{
    match s {
        Some(v) => Some(v.clone()),
        None => None,
    }
}

pub fn dup_texts(v: &Vec<String>) -> (r: Vec<String>)
    ensures
        r@ == v@,
{
    let mut r: Vec<String> = Vec::new();
    let mut i: usize = 0;
    while i < v.len()
        invariant
            i <= v@.len(),
            r@ == v@.take(i as int),
        decreases v@.len() - i,
    {
        r.push(v[i].clone());
        i = i + 1;
        assert(r@ =~= v@.take(i as int));
    }
    assert(v@.take(v@.len() as int) =~= v@);
    r
}

impl Subtask {
    pub fn duplicate(&self) -> (r: Subtask)
        ensures
            r == *self,
    {
        Subtask { id: self.id.clone(), title: self.title.clone(), done: self.done }
    }
}

impl Note {
    pub fn duplicate(&self) -> (r: Note)
        ensures
            r == *self,
    {
        Note {
            id: self.id.clone(),
            author: self.author.clone(),
            content: self.content.clone(),
            created_at: self.created_at.clone(),
        }
    }
}

pub fn dup_subtasks(v: &Vec<Subtask>) -> (r: Vec<Subtask>)
    ensures
        r@ == v@,
{
    let mut r: Vec<Subtask> = Vec::new();
    let mut i: usize = 0;
    while i < v.len()
        invariant
            i <= v@.len(),
            r@ == v@.take(i as int),
        decreases v@.len() - i,
    {
        r.push(v[i].duplicate());
        i = i + 1;
        assert(r@ =~= v@.take(i as int));
    }
    assert(v@.take(v@.len() as int) =~= v@);
    r
}

pub fn dup_notes(v: &Vec<Note>) -> (r: Vec<Note>)
    ensures
        r@ == v@,
{
    let mut r: Vec<Note> = Vec::new();
    let mut i: usize = 0;
    while i < v.len()
        invariant
            i <= v@.len(),
            r@ == v@.take(i as int),
        decreases v@.len() - i,
    {
        r.push(v[i].duplicate());
        i = i + 1;
        assert(r@ =~= v@.take(i as int));
    }
    assert(v@.take(v@.len() as int) =~= v@);
    r
}

impl Task {
    /// An equal copy of the task.
    pub fn duplicate(&self) -> (r: Task)
        ensures
            r@ == self@,
    {
        Task {
            id: self.id.clone(),
            title: self.title.clone(),
            note: self.note.clone(),
            category: self.category.clone(),
            priority: self.priority.clone(),
            due_at: dup_opt_text(&self.due_at),
            remind_at: dup_opt_text(&self.remind_at),
            planned_date: dup_opt_text(&self.planned_date),
            carried_from: self.carried_from,
            done: self.done,
            done_at: dup_opt_text(&self.done_at),
            deleted_at: dup_opt_text(&self.deleted_at),
            legacy: self.legacy,
            kb_refs: dup_texts(&self.kb_refs),
            sort_order: self.sort_order,
            subtasks: dup_subtasks(&self.subtasks),
            notes: dup_notes(&self.notes),
            source: self.source,
            created_at: self.created_at.clone(),
            updated_at: self.updated_at.clone(),
        }
    }
}

impl Reminder {
    /// An equal copy of the reminder.
    pub fn duplicate(&self) -> (r: Reminder)
        ensures
            r == *self,
    {
        Reminder {
            id: self.id.clone(),
            title: self.title.clone(),
            time: self.time.clone(),
            category: self.category.clone(),
            enabled: self.enabled,
            completed: self.completed,
            repeat: self.repeat,
            last_fired: dup_opt_text(&self.last_fired),
            snoozed_until: dup_opt_text(&self.snoozed_until),
            legacy: self.legacy,
        }
    }
}

impl KbItem {
    /// An equal copy of the item.
    pub fn duplicate(&self) -> (r: KbItem)
        ensures
            r@ == self@,
    {
        KbItem {
            id: self.id.clone(),
            title: self.title.clone(),
            body_md: self.body_md.clone(),
            tags: dup_texts(&self.tags),
            created_at: self.created_at.clone(),
            updated_at: self.updated_at.clone(),
        }
    }
}

impl StickyNote {
    /// An equal copy of the sticky.
    pub fn duplicate(&self) -> (r: StickyNote)
        ensures
            r == *self,
    {
        StickyNote {
            id: self.id.clone(),
            content: self.content.clone(),
            mini: self.mini,
            created_at: self.created_at.clone(),
            updated_at: self.updated_at.clone(),
        }
    }
}

impl Dnd {
    pub fn duplicate(&self) -> (r: Dnd)
        ensures
            r == *self,
    {
        Dnd { enabled: self.enabled, from: self.from.clone(), to: self.to.clone() }
    }
}

impl Settings {
    /// An equal copy of the settings.
    pub fn duplicate(&self) -> (r: Settings)
        ensures
            r == *self,
    {
        Settings {
            theme: self.theme.clone(),
            sticky_paper: self.sticky_paper.clone(),
            sticky_fade: self.sticky_fade,
            sticky_fade_opacity: self.sticky_fade_opacity,
            sticky_pattern: self.sticky_pattern.clone(),
            capture_hotkey: self.capture_hotkey.clone(),
            main_hotkey: dup_opt_text(&self.main_hotkey),
            sticky_hotkey: dup_opt_text(&self.sticky_hotkey),
            todo_hotkey: dup_opt_text(&self.todo_hotkey),
            todo_float_pinned: self.todo_float_pinned,
            dnd: self.dnd.duplicate(),
            remind_cap_per_hour: self.remind_cap_per_hour,
            onboarded: self.onboarded,
            export_dir: dup_opt_text(&self.export_dir),
            telemetry_enabled: self.telemetry_enabled,
        }
    }
}

} // verus!
