//! The decisions of loading the store, between reading the files and reading
//! JSON as typed data (both the caller's): what kind of document was found,
//! how it is rewritten before typing, and what the store holds afterwards.
use vstd::prelude::*;
use vstd::string::*;
use crate::text::{owned, same_text};
use crate::datetime::{carry_days_from, carry_days_spec, Day};
use crate::json::{json_parse, parse_document, parse_failure_message, Json};
use crate::migration::{IssueView, ReportView};
use crate::models::{
    coerced, opt_view, task_views, texts_view, AppData, MigrationIssue, MigrationReport, RuntimeState, Task,
    TaskView,
};
use crate::schema::{
    is_legacy_schema, items_of, legacy_schema_spec, looks_like_v1, looks_like_v1_spec, normalize_stickies_v3,
    same_fields, split_data, stickies_cleaned, split_runtime, split_schema, stickies_of, strings_in, union_into, list_normalized,
};
use crate::store::Store;

verus! {

broadcast use vstd::string::group_string_axioms;

/// What a stored document is.
#[derive(Debug, Clone, Copy, PartialEq, Eq, Structural)]
pub enum DocKind {
    /// A first-generation document, to be migrated.
    V1,
    /// A document that still holds run-time state, to be split.
    LegacySchema,
    /// A document of today's shape.
    Current,
}

pub open spec fn doc_kind_spec(raw: Json) -> DocKind {
    if looks_like_v1_spec(raw) {
        DocKind::V1
    } else if legacy_schema_spec(raw) {
        DocKind::LegacySchema
    } else {
        DocKind::Current
    }
}

/// What kind of document was read.
pub fn doc_kind(raw: &Json) -> (k: DocKind)
    ensures
        k == doc_kind_spec(*raw),
{
    if looks_like_v1(raw) {
        DocKind::V1
    } else if is_legacy_schema(raw) {
        DocKind::LegacySchema
    } else {
        DocKind::Current
    }
}

/// A document of today's shape made ready to be read as typed data.
pub struct Prepared {
    /// The document.
    pub data: Json,
    /// The run-time document.
    pub runtime: Json,
    /// Run-time state was split out of the document (to be written back).
    pub split: bool,
    /// The sticky-note clean-up changed something.
    pub stickies_changed: bool,
}

/// The document `d0` and run-time document `rt` before the sticky-note
/// clean-up: split when the document still holds run-time state, else as
/// read (the run-time document empty when there is none).
pub open spec fn before_cleanup(raw: Json, existing: Option<Json>, d0: Json, rt: Json) -> bool {
    if legacy_schema_spec(raw) {
        split_data(raw, d0) && split_runtime(raw, existing, rt)
    } else {
        d0 == raw && match existing {
            Some(e) => rt == e,
            None => rt is Object && forall|k: Seq<char>| #[trigger] rt.get_spec(k) is None,
        }
    }
}

/// Prepare a non-v1 document: split out run-time state when it still holds
/// some (merging with the run-time document already there), else take the
/// run-time document as it is (empty when there is none); then clean up the
/// sticky notes.
pub fn prepare(raw: Json, existing_runtime: Option<Json>) -> (p: Prepared)
    ensures
        p.split == legacy_schema_spec(raw),
        exists|d0: Json| #[trigger] before_cleanup(raw, existing_runtime, d0, p.runtime) && stickies_cleaned(d0, p.data, p.stickies_changed),
{
    let ghost raw0 = raw;
    let ghost ex0 = existing_runtime;
    let split = is_legacy_schema(&raw);
    let (mut data, runtime) = if split {
        split_schema(raw, existing_runtime)
    } else {
        let rt = match existing_runtime {
            Some(e) => e,
            None => {
                let empty = Json::Object(Vec::new());
                assert forall|k: Seq<char>| #[trigger] empty.get_spec(k) is None by {
                    reveal_with_fuel(crate::json::field_of, 1);
                }
                empty
            },
        };
        (raw, rt)
    };
    let ghost d0 = data;
    assert(before_cleanup(raw0, ex0, d0, runtime));
    let changed = normalize_stickies_v3(&mut data);
    Prepared { data, runtime, split, stickies_changed: changed }
}


// ---------------------------------------------------------------- the store after loading

/// A task as loading leaves it: an open task not in the trash is carried at
/// least as many days as it is overdue on `today`.
pub open spec fn carried_on_load(t: TaskView, today: Day) -> TaskView {
    if !t.done && t.deleted_at is None {
        let days = carry_days_spec(t.due_at, today);
        TaskView { carried_from: if t.carried_from >= days { t.carried_from } else { days }, ..t }
    } else {
        t
    }
}

/// The report written when the sticky-note clean-up changed something.
pub open spec fn sticky_report() -> ReportView {
    ReportView {
        task_count: 0,
        reminder_count: 0,
        invalid_dates: 0,
        legacy_done: 0,
        archived_to: Seq::empty(),
        issues: seq![
            IssueView {
                collection: "stickies"@,
                id: "*"@,
                field: "kind/hidden/pinned"@,
                raw: "v2"@,
                action: "便签分离迁移：待办镜像便签已丢弃；收起态升格为缩小态；置顶改为常驻无开关"@,
            },
        ],
    }
}

impl Store {
    /// Take migrated v1 data: settings corrected, the report kept in the
    /// run-time state, and v1's fired keys (strings only) added to the
    /// run-time ones that are not there yet. Writing it out is the caller's.
    pub fn adopt_v1(&mut self, data: AppData, report: MigrationReport, raw: &Json)
        ensures
            final(self).data.tasks == data.tasks,
            final(self).data.reminders == data.reminders,
            final(self).data.stickies == data.stickies,
            coerced(data.settings, final(self).data.settings),
            final(self).runtime.migration == Some(report),
            final(self).fired_v() == union_into(old(self).fired_v(), strings_in(items_of(raw.get_spec("fired"@)))),
            final(self).runtime.capture_pos == old(self).runtime.capture_pos,
            final(self).runtime.note_pos == old(self).runtime.note_pos,
            final(self).kb == old(self).kb,
            final(self).undo == old(self).undo,
            final(self).health == old(self).health,
            final(self).corrupt_file == old(self).corrupt_file,
            final(self).last_error == old(self).last_error,
    {
        let mut data = data;
        data.settings.coerce();
        self.runtime.migration = Some(report);
        if let Some(Json::Array(items)) = raw.get("fired") {
            let ghost acc = self.fired_v();
            let ghost add = strings_in(items@);
            let mut i: usize = 0;
            assert(add.take(0) =~= Seq::<Seq<char>>::empty());
            while i < items.len()
                invariant
                    i <= items@.len(),
                    add == strings_in(items@),
                    self.fired_v() == union_into(acc, strings_in(items@.take(i as int))),
                    self.runtime.migration == Some(report),
                    self.runtime.capture_pos == old(self).runtime.capture_pos,
                    self.runtime.note_pos == old(self).runtime.note_pos,
                    self.kb == old(self).kb,
                    self.undo == old(self).undo,
                    self.health == old(self).health,
                    self.corrupt_file == old(self).corrupt_file,
                    self.last_error == old(self).last_error,
                decreases items@.len() - i,
            {
                proof {
                    assert(items@.take(i + 1).drop_last() =~= items@.take(i as int));
                    assert(items@.take(i + 1).last() == items@[i as int]);
                }
                let ghost prev = union_into(acc, strings_in(items@.take(i as int)));
                if let Json::Str(key) = &items[i] {
                    proof {
                        assert(strings_in(items@.take(i + 1)) =~= strings_in(items@.take(i as int)).push(key@));
                        assert(strings_in(items@.take(i + 1)).drop_last() =~= strings_in(items@.take(i as int)));
                    }
                    if !self.has_fired(key.as_str()) {
                        let ghost before = self.runtime.fired@;
                        self.runtime.fired.push(key.clone());
                        assert(self.fired_v() =~= prev.push(key@));
                    }
                } else {
                    assert(strings_in(items@.take(i + 1)) =~= strings_in(items@.take(i as int)));
                }
                i = i + 1;
            }
            assert(items@.take(items@.len() as int) =~= items@);
        } else {
            assert(strings_in(items_of(raw.get_spec("fired"@))) =~= Seq::<Seq<char>>::empty());
        }
        self.data = data;
    }

    /// Take data read from a document of today's shape: settings corrected,
    /// open live tasks carried at least as many days as they are overdue on
    /// `today`, the run-time state read (empty when it did not read), and a
    /// report when the sticky-note clean-up changed something. Returns
    /// whether the store should be written back.
    pub fn adopt_loaded(&mut self, data: AppData, runtime: Option<RuntimeState>, stickies_changed: bool, today: &Day) -> (save: bool)
        requires
            today.valid(),
        ensures
            save == stickies_changed,
            final(self).tasks_v() == task_views(data.tasks@).map_values(|t: TaskView| carried_on_load(t, *today)),
            final(self).data.reminders == data.reminders,
            final(self).data.stickies == data.stickies,
            coerced(data.settings, final(self).data.settings),
            match runtime {
                Some(rt) => final(self).runtime.fired == rt.fired && final(self).runtime.capture_pos == rt.capture_pos
                    && final(self).runtime.note_pos == rt.note_pos,
                None => final(self).runtime.fired@.len() == 0 && final(self).runtime.capture_pos is None
                    && final(self).runtime.note_pos@.len() == 0,
            },
            stickies_changed ==> (final(self).runtime.migration matches Some(m) && m@ == sticky_report()),
            !stickies_changed ==> final(self).runtime.migration == match runtime {
                Some(rt) => rt.migration,
                None => None,
            },
            final(self).kb == old(self).kb,
            final(self).undo == old(self).undo,
            final(self).health == old(self).health,
            final(self).corrupt_file == old(self).corrupt_file,
            final(self).last_error == old(self).last_error,
    {
        let mut data = data;
        data.settings.coerce();
        let ghost orig = task_views(data.tasks@);
        let mut tasks = data.tasks;
        let mut out: Vec<Task> = Vec::new();
        let ghost mut k: int = 0;
        let ghost src = tasks@;
        while tasks.len() > 0
            invariant
                0 <= k <= src.len(),
                tasks@ == src.skip(k),
                orig == task_views(src),
                today.valid(),
                task_views(out@) == orig.take(k).map_values(|t: TaskView| carried_on_load(t, *today)),
            decreases tasks@.len(),
        {
            let mut t = tasks.remove(0);
            proof {
                assert(t == src[k]);
                assert(tasks@ =~= src.skip(k + 1));
            }
            let ghost tv = t@;
            if !t.done && !t.in_trash() {
                let days = carry_days_from(&t.due_at, *today);
                if t.carried_from < days {
                    t.carried_from = days;
                }
            }
            let ghost before = out@;
            out.push(t);
            proof {
                assert(orig[k] == tv);
                assert(orig.take(k + 1).map_values(|t: TaskView| carried_on_load(t, *today)) =~= orig.take(k).map_values(
                    |t: TaskView| carried_on_load(t, *today),
                ).push(carried_on_load(tv, *today)));
                assert(task_views(out@) =~= task_views(before).push(t@));
                k = k + 1;
            }
        }
        proof {
            assert(orig.take(k) =~= orig);
        }
        data.tasks = out;
        self.data = data;
        self.runtime = match runtime {
            Some(rt) => rt,
            None => RuntimeState::default(),
        };
        if stickies_changed {
            let issue = MigrationIssue {
                collection: owned("stickies"),
                id: owned("*"),
                field: owned("kind/hidden/pinned"),
                raw: owned("v2"),
                action: owned("便签分离迁移：待办镜像便签已丢弃；收起态升格为缩小态；置顶改为常驻无开关"),
            };
            let mut report = MigrationReport::default();
            report.issues.push(issue);
            proof {
                assert(report@.issues =~= sticky_report().issues);
                assert(report@.archived_to =~= Seq::<char>::empty());
            }
            self.runtime.migration = Some(report);
        }
        stickies_changed
    }
}

// ---------------------------------------------------------------- the loading protocol

impl Store {
    /// Stop writing: the data file is damaged. `quarantined` names the copy
    /// it was set aside as, if any. The data in memory stays as it is.
    pub fn mark_corrupt(&mut self, error: String, quarantined: Option<String>)
        ensures
            final(self).spec_is_corrupt(),
            final(self).last_error == Some(error),
            final(self).corrupt_file == quarantined,
            final(self).data == old(self).data,
            final(self).runtime == old(self).runtime,
            final(self).kb == old(self).kb,
            final(self).undo == old(self).undo,
    {
        self.health = owned(crate::store::HEALTH_CORRUPT);
        self.last_error = Some(error);
        self.corrupt_file = quarantined;
    }

    /// Writing the split-out run-time state failed: loading goes on with
    /// the split in memory (the next save finishes it), and the reason is
    /// kept to be shown. The health stays as it is.
    pub fn record_split_failure(&mut self, error: &str)
        ensures
            final(self).last_error matches Some(m) && m@ == split_failure_message(error@),
            final(self).health == old(self).health,
            final(self).corrupt_file == old(self).corrupt_file,
            final(self).data == old(self).data,
            final(self).runtime == old(self).runtime,
            final(self).kb == old(self).kb,
            final(self).undo == old(self).undo,
    {
        let head = crate::text::concat("运行状态拆分将在下次保存时自动完成（本次原因：", error);
        self.last_error = Some(crate::text::concat(head.as_str(), "）"));
    }
}

/// The message kept when writing a split failed.
pub open spec fn split_failure_message(error: Seq<char>) -> Seq<char> {
    "运行状态拆分将在下次保存时自动完成（本次原因："@ + error + "）"@
}

/// The run-time document to prepare with, from what reading runtime.json
/// gave: the parsed document, or nothing when the file is missing,
/// unreadable or does not parse (the run-time state is then rebuilt empty
/// and never touches the data file).
pub fn existing_runtime(read: Result<Option<String>, String>) -> (r: Option<Json>)
    ensures
        match read {
            Ok(Some(t)) => match json_parse(t@) {
                Ok(j) => r == Some(j),
                Err(_) => r is None,
            },
            _ => r is None,
        },
{
    match read {
        Ok(Some(text)) => match parse_document(text.as_str()) {
            Ok(j) => Some(j),
            Err(_) => None,
        },
        _ => None,
    }
}

/// What loading learned from the data folder.
pub enum LoadEvent {
    /// data.json was read: its text, nothing when it vanished, or the error.
    DataRead(Result<Option<String>, String>),
    /// data.json is missing and the v1 original was read instead.
    ArchiveRead(Result<String, String>),
    /// Keeping the v1 original before migrating failed with this error.
    ArchiveFailed(String),
    /// Migrating a v1 document failed with this message; `from_archive`
    /// tells whether it came from the v1 original.
    MigrationFailed { error: String, from_archive: bool },
    /// The prepared document did not read as the data types: the reader's message.
    DecodeFailed(String),
    /// data.json was set aside under this name (nothing when it could not be).
    Quarantined(Option<String>),
}

/// What loading does next.
pub enum LoadAction {
    /// Set data.json aside, then report `Quarantined`.
    Quarantine,
    /// A v1 document to keep (unless it came from the original) and migrate.
    MigrateV1 { raw: Json, from_archive: bool },
    /// A current document to prepare and read as the data types.
    Prepare(Json),
    /// Loading is over; the store's health tells how it ended.
    Stop,
}

pub open spec fn decode_failure_message(error: Seq<char>) -> Seq<char> {
    "数据文件格式不对，已停止写入："@ + crate::store::brief_spec(error)
}

/// One step of loading: every failure to read the data ends in the corrupt
/// state with the data in memory untouched, never in an empty store that a
/// save would write over the user's file; a damaged data.json is set aside
/// first (the v1 original never is).
pub fn load_step(store: &mut Store, event: LoadEvent) -> (a: LoadAction)
    ensures
        final(store).data == old(store).data,
        final(store).runtime == old(store).runtime,
        final(store).kb == old(store).kb,
        match event {
            LoadEvent::DataRead(Err(e)) => a is Quarantine && final(store).spec_is_corrupt()
                && final(store).last_error == Some(e) && final(store).corrupt_file is None,
            LoadEvent::DataRead(Ok(None)) => a is Quarantine && final(store).spec_is_corrupt()
                && (final(store).last_error matches Some(m) && m@ == "数据文件读不了，已停止写入"@),
            LoadEvent::DataRead(Ok(Some(t))) => match json_parse(t@) {
                Err(pe) => a is Quarantine && final(store).spec_is_corrupt()
                    && (final(store).last_error matches Some(m) && m@ == parse_failure_message(pe)),
                Ok(raw) => *final(store) == *old(store) && if doc_kind_spec(raw) == DocKind::V1 {
                    a == (LoadAction::MigrateV1 { raw, from_archive: false })
                } else {
                    a == LoadAction::Prepare(raw)
                },
            },
            LoadEvent::ArchiveRead(Err(e)) => a is Stop && final(store).spec_is_corrupt()
                && final(store).last_error == Some(e),
            LoadEvent::ArchiveRead(Ok(t)) => match json_parse(t@) {
                Err(pe) => a is Stop && final(store).spec_is_corrupt()
                    && (final(store).last_error matches Some(m) && m@ == parse_failure_message(pe)),
                Ok(raw) => *final(store) == *old(store) && a == (LoadAction::MigrateV1 { raw, from_archive: true }),
            },
            LoadEvent::ArchiveFailed(e) => a is Quarantine && final(store).spec_is_corrupt()
                && final(store).last_error == Some(e),
            LoadEvent::MigrationFailed { error, from_archive } => (if from_archive { a is Stop } else { a is Quarantine })
                && final(store).spec_is_corrupt() && final(store).last_error == Some(error),
            LoadEvent::DecodeFailed(e) => a is Quarantine && final(store).spec_is_corrupt()
                && (final(store).last_error matches Some(m) && m@ == decode_failure_message(e@)),
            LoadEvent::Quarantined(name) => a is Stop && final(store).corrupt_file == name
                && final(store).health == old(store).health && final(store).last_error == old(store).last_error,
        },
{
    match event {
        LoadEvent::DataRead(Err(e)) => {
            store.mark_corrupt(e, None);
            LoadAction::Quarantine
        },
        LoadEvent::DataRead(Ok(None)) => {
            store.mark_corrupt(owned("数据文件读不了，已停止写入"), None);
            LoadAction::Quarantine
        },
        LoadEvent::DataRead(Ok(Some(t))) => match parse_document(t.as_str()) {
            Err(m) => {
                store.mark_corrupt(m, None);
                LoadAction::Quarantine
            },
            Ok(raw) => {
                if doc_kind(&raw) == DocKind::V1 {
                    LoadAction::MigrateV1 { raw, from_archive: false }
                } else {
                    LoadAction::Prepare(raw)
                }
            },
        },
        LoadEvent::ArchiveRead(Err(e)) => {
            let kept = store.corrupt_file.clone();
            store.mark_corrupt(e, kept);
            LoadAction::Stop
        },
        LoadEvent::ArchiveRead(Ok(t)) => match parse_document(t.as_str()) {
            Err(m) => {
                let kept = store.corrupt_file.clone();
                store.mark_corrupt(m, kept);
                LoadAction::Stop
            },
            Ok(raw) => LoadAction::MigrateV1 { raw, from_archive: true },
        },
        LoadEvent::ArchiveFailed(e) => {
            store.mark_corrupt(e, None);
            LoadAction::Quarantine
        },
        LoadEvent::MigrationFailed { error, from_archive } => {
            let kept = store.corrupt_file.clone();
            store.mark_corrupt(error, kept);
            if from_archive { LoadAction::Stop } else { LoadAction::Quarantine }
        },
        LoadEvent::DecodeFailed(e) => {
            let b = crate::store::brief(e.as_str());
            let m = crate::text::concat("数据文件格式不对，已停止写入：", b.as_str());
            store.mark_corrupt(m, None);
            LoadAction::Quarantine
        },
        LoadEvent::Quarantined(name) => {
            store.corrupt_file = name;
            LoadAction::Stop
        },
    }
}

} // verus!
