//! Reading a first-generation (snake_case) document into today's data: each
//! field is read leniently, times are normalised as local text or cleared,
//! enumerations are mapped, and every change or drop is written into the
//! migration report. Nothing is guessed and nothing is lost silently.
use vstd::prelude::*;
use vstd::string::*;
use crate::text::{concat, contains, contains_seq, lowercase, owned, same_text, to_lower, trim, trim_seq};
use crate::datetime::{
    carry_days_from, carry_days_spec, clocks_of, clocks_spec, date_text_spec, day_text, fmt_day,
    normalize_date_text, normalize_datetime, normalize_spec, Day,
};
use crate::json::{
    bool_of, bool_of_spec, compact_text, json_compact, key_views, number_of, number_of_spec, text_of,
    text_of_spec, Json,
};
use crate::models::{
    AppData, Reminder, ReminderView, Repeat, Settings, SettingsView, Task, TaskView, is_category, is_category_text, is_priority, is_priority_text, new_id, MigrationIssue, MigrationReport,
};

verus! {

broadcast use vstd::string::group_string_axioms;

// ---------------------------------------------------------------- the report

pub struct IssueView {
    pub collection: Seq<char>,
    pub id: Seq<char>,
    pub field: Seq<char>,
    pub raw: Seq<char>,
    pub action: Seq<char>,
}

impl View for MigrationIssue {
    type V = IssueView;

    open spec fn view(&self) -> IssueView {
        IssueView {
            collection: self.collection@,
            id: self.id@,
            field: self.field@,
            raw: self.raw@,
            action: self.action@,
        }
    }
}

pub struct ReportView {
    pub task_count: u32,
    pub reminder_count: u32,
    pub invalid_dates: u32,
    pub legacy_done: u32,
    pub archived_to: Seq<char>,
    pub issues: Seq<IssueView>,
}

impl View for MigrationReport {
    type V = ReportView;

    open spec fn view(&self) -> ReportView {
        ReportView {
            task_count: self.task_count,
            reminder_count: self.reminder_count,
            invalid_dates: self.invalid_dates,
            legacy_done: self.legacy_done,
            archived_to: self.archived_to@,
            issues: self.issues@.map_values(|i: MigrationIssue| i@),
        }
    }
}

/// A count one higher, stopping at `u32::MAX`.
pub open spec fn inc(n: u32) -> u32 {
    if n == u32::MAX { n } else { (n + 1) as u32 }
}

/// The report with one more entry.
pub open spec fn with_issue(
    r: ReportView,
    collection: Seq<char>,
    id: Seq<char>,
    field: Seq<char>,
    raw: Seq<char>,
    action: Seq<char>,
) -> ReportView {
    ReportView {
        issues: r.issues.push(IssueView { collection, id, field, raw, action }),
        ..r
    }
}

/// The report with one more cleared time.
pub open spec fn with_invalid(r: ReportView) -> ReportView {
    ReportView { invalid_dates: inc(r.invalid_dates), ..r }
}

fn push_issue(report: &mut MigrationReport, collection: &str, id: &str, field: &str, raw: &str, action: String)
    ensures
        final(report)@ == with_issue(old(report)@, collection@, id@, field@, raw@, action@),
{
    let issue = MigrationIssue {
        collection: owned(collection),
        id: owned(id),
        field: owned(field),
        raw: owned(raw),
        action,
    };
    let ghost before = report.issues@;
    report.issues.push(issue);
    assert(report.issues@.map_values(|i: MigrationIssue| i@) =~= before.map_values(|i: MigrationIssue| i@).push(
        issue@,
    ));
}

fn count_invalid(report: &mut MigrationReport)
    ensures
        final(report)@ == with_invalid(old(report)@),
{
    if report.invalid_dates < u32::MAX {
        report.invalid_dates = report.invalid_dates + 1;
    }
}

// ---------------------------------------------------------------- enumerations

/// A v1 category: kept when it is one of 工作, 学习, 生活; 个人 becomes 生活
/// with a note; anything else falls back to 生活 with a note; missing or
/// blank is 生活.
pub open spec fn category_value(raw: Option<Seq<char>>) -> Seq<char> {
    match raw {
        None => "生活"@,
        Some(v) => if trim_seq(v).len() > 0 && is_category(trim_seq(v)) { trim_seq(v) } else { "生活"@ },
    }
}

pub open spec fn category_step(raw: Option<Seq<char>>, id: Seq<char>, r: ReportView) -> (Seq<char>, ReportView) {
    match raw {
        None => ("生活"@, r),
        Some(v) => {
            let t = trim_seq(v);
            if t.len() == 0 {
                ("生活"@, r)
            } else if is_category(t) {
                (t, r)
            } else if t == "个人"@ {
                ("生活"@, with_issue(r, "task"@, id, "category"@, t, "重映射为 生活"@))
            } else {
                ("生活"@, with_issue(r, "task"@, id, "category"@, t, "回落到 生活"@))
            }
        },
    }
}

fn migrate_category(raw: Option<String>, report: &mut MigrationReport, id: &str) -> (c: String)
    ensures
        (c@, final(report)@) == category_step(crate::models::opt_view(raw), id@, old(report)@),
{
    let value = match raw {
        None => return owned("生活"),
        Some(text) => text,
    };
    let trimmed = trim(value.as_str());
    if trimmed.unicode_len() == 0 {
        return owned("生活");
    }
    if is_category_text(trimmed.as_str()) {
        return trimmed;
    }
    if same_text(trimmed.as_str(), "个人") {
        push_issue(report, "task", id, "category", trimmed.as_str(), owned("重映射为 生活"));
        return owned("生活");
    }
    push_issue(report, "task", id, "category", trimmed.as_str(), owned("回落到 生活"));
    owned("生活")
}

/// The priority an unknown v1 priority maps to.
pub open spec fn priority_mapped(t: Seq<char>) -> Seq<char> {
    if t == "medium"@ || t == "mid"@ || t == "normal"@ {
        "med"@
    } else if t == "高"@ {
        "high"@
    } else if t == "中"@ {
        "med"@
    } else if t == "低"@ {
        "low"@
    } else {
        "med"@
    }
}

/// A v1 priority, lower-cased and trimmed: kept when it is high, med or low;
/// else mapped (with a note); missing is med.
pub open spec fn priority_value(raw: Option<Seq<char>>) -> Seq<char> {
    match raw {
        None => "med"@,
        Some(v) => if is_priority(lowercase(trim_seq(v))) {
            lowercase(trim_seq(v))
        } else {
            priority_mapped(lowercase(trim_seq(v)))
        },
    }
}

pub open spec fn priority_step(raw: Option<Seq<char>>, id: Seq<char>, r: ReportView) -> (Seq<char>, ReportView) {
    match raw {
        None => ("med"@, r),
        Some(v) => {
            let t = lowercase(trim_seq(v));
            if is_priority(t) {
                (t, r)
            } else {
                (priority_mapped(t), with_issue(r, "task"@, id, "priority"@, t, "归一为 "@ + priority_mapped(t)))
            }
        },
    }
}

fn mapped_priority(t: &str) -> (r: &'static str)
    ensures
        r@ == priority_mapped(t@),
{
    if same_text(t, "medium") || same_text(t, "mid") || same_text(t, "normal") {
        "med"
    } else if same_text(t, "高") {
        "high"
    } else if same_text(t, "中") {
        "med"
    } else if same_text(t, "低") {
        "low"
    } else {
        "med"
    }
}

fn migrate_priority(raw: Option<String>, report: &mut MigrationReport, id: &str) -> (p: String)
    ensures
        (p@, final(report)@) == priority_step(crate::models::opt_view(raw), id@, old(report)@),
{
    let value = match raw {
        None => return owned("med"),
        Some(text) => text,
    };
    let t = trim(value.as_str());
    let lowered = to_lower(t.as_str());
    if is_priority_text(lowered.as_str()) {
        return lowered;
    }
    let mapped = mapped_priority(lowered.as_str());
    push_issue(report, "task", id, "priority", lowered.as_str(), concat("归一为 ", mapped));
    owned(mapped)
}

// ---------------------------------------------------------------- times

/// The time a field gives: its text normalised as local wall time, or none
/// when it is missing or cannot be read.
pub open spec fn time_value(obj: Json, keys: Seq<Seq<char>>) -> Option<Seq<char>> {
    match text_of_spec(obj, keys) {
        None => None,
        Some(raw) => normalize_spec(raw),
    }
}

/// What reading a time writes into the report: a note when the text was
/// rewritten; a note and one more cleared time when it could not be read.
pub open spec fn time_report(
    obj: Json,
    keys: Seq<Seq<char>>,
    r: ReportView,
    collection: Seq<char>,
    id: Seq<char>,
    field: Seq<char>,
) -> ReportView {
    match text_of_spec(obj, keys) {
        None => r,
        Some(raw) => match normalize_spec(raw) {
            Some(n) => if n != raw {
                with_issue(r, collection, id, field, raw, "归一为 "@ + n)
            } else {
                r
            },
            None => with_issue(with_invalid(r), collection, id, field, raw, "无法解析，已置空"@),
        },
    }
}

fn migrate_time(
    object: &Json,
    keys: &[&str],
    report: &mut MigrationReport,
    collection: &str,
    id: &str,
    field: &str,
) -> (t: Option<String>)
    ensures
        crate::models::opt_view(t) == time_value(*object, key_views(keys@)),
        final(report)@ == time_report(*object, key_views(keys@), old(report)@, collection@, id@, field@),
{
    let raw = match text_of(object, keys) {
        None => return None,
        Some(text) => text,
    };
    match normalize_datetime(raw.as_str()) {
        Some(normalized) => {
            if !same_text(normalized.as_str(), raw.as_str()) {
                push_issue(report, collection, id, field, raw.as_str(), concat("归一为 ", normalized.as_str()));
            }
            Some(normalized)
        },
        None => {
            count_invalid(report);
            push_issue(report, collection, id, field, raw.as_str(), owned("无法解析，已置空"));
            None
        },
    }
}


// ---------------------------------------------------------------- tasks

/// The id a record gives, else a fresh one that starts with `prefix`.
pub open spec fn given_or_fresh(given: Option<Seq<char>>, id: Seq<char>, prefix: char) -> bool {
    match given {
        Some(g) => id == g,
        None => id.len() > 1 && id[0] == prefix,
    }
}

pub open spec fn or_text(o: Option<Seq<char>>, d: Seq<char>) -> Seq<char> {
    match o {
        Some(t) => t,
        None => d,
    }
}

pub open spec fn k_id() -> Seq<Seq<char>> { seq!["id"@] }
pub open spec fn k_title() -> Seq<Seq<char>> { seq!["title"@] }
pub open spec fn k_note() -> Seq<Seq<char>> { seq!["note"@, "description"@] }
pub open spec fn k_category() -> Seq<Seq<char>> { seq!["category"@] }
pub open spec fn k_priority() -> Seq<Seq<char>> { seq!["priority"@] }
pub open spec fn k_due() -> Seq<Seq<char>> { seq!["dueAt"@, "due_date"@] }
pub open spec fn k_remind() -> Seq<Seq<char>> { seq!["remindAt"@, "remind_date"@] }
pub open spec fn k_planned() -> Seq<Seq<char>> { seq!["plannedDate"@, "planned_date"@] }
pub open spec fn k_created() -> Seq<Seq<char>> { seq!["createdAt"@, "created_at"@] }
pub open spec fn k_updated() -> Seq<Seq<char>> { seq!["updatedAt"@, "updated_at"@] }
pub open spec fn k_deleted() -> Seq<Seq<char>> { seq!["deletedAt"@, "deleted_at"@] }
pub open spec fn k_carried() -> Seq<Seq<char>> { seq!["carriedFrom"@, "carried_from"@] }
pub open spec fn k_done() -> Seq<Seq<char>> { seq!["done"@, "completed"@] }
pub open spec fn k_done_at() -> Seq<Seq<char>> { seq!["doneAt"@, "done_at"@] }
pub open spec fn k_legacy() -> Seq<Seq<char>> { seq!["legacy"@] }
pub open spec fn k_source() -> Seq<Seq<char>> { seq!["source"@] }
pub open spec fn k_content() -> Seq<Seq<char>> { seq!["content"@] }
pub open spec fn k_author() -> Seq<Seq<char>> { seq!["author"@] }

pub open spec fn task_done(obj: Json) -> bool {
    match bool_of_spec(obj, k_done()) {
        Some(b) => b,
        None => false,
    }
}

pub open spec fn task_created(obj: Json, today: Day) -> Seq<char> {
    or_text(time_value(obj, k_created()), day_text(today) + "T00:00"@)
}

/// The planned day a record gives, as `YYYY-MM-DD`.
pub open spec fn planned_given(obj: Json) -> Option<Seq<char>> {
    match time_value(obj, k_planned()) {
        Some(p) => date_text_spec(p),
        None => None,
    }
}

/// An open, live record without a plan that is overdue on `today` gets
/// planned for today with its overdue days.
pub open spec fn carried_today(obj: Json, today: Day) -> bool {
    planned_given(obj) is None && !task_done(obj) && time_value(obj, k_deleted()) is None && carry_days_spec(
        time_value(obj, k_due()),
        today,
    ) > 0
}

pub open spec fn task_source(obj: Json) -> crate::models::Source {
    match text_of_spec(obj, k_source()) {
        Some(s) => if s == "capture"@ {
            crate::models::Source::Capture
        } else if s == "seed"@ {
            crate::models::Source::Seed
        } else {
            crate::models::Source::Manual
        },
        None => crate::models::Source::Manual,
    }
}

/// The entries of a list field (none when the field is not a list).
pub open spec fn list_items(obj: Json, key: Seq<char>) -> Seq<Json> {
    match obj.get_spec(key) {
        Some(Json::Array(items)) => items@,
        _ => Seq::empty(),
    }
}

/// A subtask entry that is kept: an object with a non-blank title.
pub open spec fn kept_subtask(e: Json) -> bool {
    e is Object && trim_seq(or_text(text_of_spec(e, k_title()), Seq::empty())).len() > 0
}

/// A subtask read from its entry.
pub open spec fn subtask_from(e: Json, s: crate::models::SubtaskView) -> bool {
    &&& s.title == or_text(text_of_spec(e, k_title()), Seq::empty())
    &&& s.done == task_done(e)
    &&& given_or_fresh(text_of_spec(e, k_id()), s.id, 's')
}

pub open spec fn note_author(e: Json) -> Seq<char> {
    or_text(text_of_spec(e, k_author()), "我"@)
}

pub open spec fn note_content(e: Json) -> Seq<char> {
    or_text(text_of_spec(e, k_content()), Seq::empty())
}

/// A note entry that is kept: an object with some content or author.
pub open spec fn kept_note(e: Json) -> bool {
    e is Object && !(trim_seq(note_content(e)).len() == 0 && trim_seq(note_author(e)).len() == 0)
}

/// A note read from its entry; without its own time it takes the task's.
pub open spec fn note_from(e: Json, n: crate::models::NoteView, created: Seq<char>) -> bool {
    &&& n.author == note_author(e)
    &&& n.content == note_content(e)
    &&& n.created_at == or_text(time_value(e, k_created()), created)
    &&& given_or_fresh(text_of_spec(e, k_id()), n.id, 'n')
}

/// Notes for entries of a list that are not objects.
pub open spec fn dropped_report(
    items: Seq<Json>,
    collection: Seq<char>,
    id: Seq<char>,
    field: Seq<char>,
    r: ReportView,
) -> ReportView
    decreases items.len(),
{
    if items.len() == 0 {
        r
    } else {
        let r1 = dropped_report(items.drop_last(), collection, id, field, r);
        if items.last() is Object {
            r1
        } else {
            with_issue(r1, collection, id, field, json_compact(items.last()), "非对象条目已丢弃"@)
        }
    }
}

/// What the notes of a task write into the report: a note for each entry
/// that is not an object, and what reading each note's time writes.
pub open spec fn notes_report(items: Seq<Json>, id: Seq<char>, r: ReportView) -> ReportView
    decreases items.len(),
{
    if items.len() == 0 {
        r
    } else {
        let r1 = notes_report(items.drop_last(), id, r);
        let e = items.last();
        if !(e is Object) {
            with_issue(r1, "note"@, id, "notes"@, json_compact(e), "非对象条目已丢弃"@)
        } else if trim_seq(note_content(e)).len() == 0 && trim_seq(note_author(e)).len() == 0 {
            r1
        } else {
            time_report(e, k_created(), r1, "note"@, id, "createdAt"@)
        }
    }
}

/// The report after one task record, id `id`.
pub open spec fn task_report(obj: Json, id: Seq<char>, r0: ReportView) -> ReportView {
    let r1 = category_step(text_of_spec(obj, k_category()), id, r0).1;
    let r2 = priority_step(text_of_spec(obj, k_priority()), id, r1).1;
    let r3 = time_report(obj, k_due(), r2, "task"@, id, "dueAt"@);
    let r4 = time_report(obj, k_remind(), r3, "task"@, id, "remindAt"@);
    let r5 = time_report(obj, k_planned(), r4, "task"@, id, "plannedDate"@);
    let r6 = time_report(obj, k_created(), r5, "task"@, id, "createdAt"@);
    let r7 = time_report(obj, k_updated(), r6, "task"@, id, "updatedAt"@);
    let r8 = time_report(obj, k_deleted(), r7, "task"@, id, "deletedAt"@);
    let r9 = time_report(obj, k_done_at(), r8, "task"@, id, "doneAt"@);
    let r10 = if task_done(obj) && time_value(obj, k_done_at()) is None {
        with_issue(
            ReportView { legacy_done: inc(r9.legacy_done), ..r9 },
            "task"@,
            id,
            "doneAt"@,
            "（缺失）"@,
            "置空并标 legacy"@,
        )
    } else {
        r9
    };
    let r11 = dropped_report(list_items(obj, "subtasks"@), "subtask"@, id, "subtasks"@, r10);
    notes_report(list_items(obj, "notes"@), id, r11)
}

/// A task read from a v1 record on `today` (its id aside, which the record
/// gives or is fresh).
pub open spec fn task_from(obj: Json, today: Day, t: crate::models::TaskView) -> bool {
    let subs = list_items(obj, "subtasks"@).filter(|e: Json| kept_subtask(e));
    let notes = list_items(obj, "notes"@).filter(|e: Json| kept_note(e));
    &&& given_or_fresh(text_of_spec(obj, k_id()), t.id, 't')
    &&& t.title == or_text(text_of_spec(obj, k_title()), "（v1 无标题）"@)
    &&& t.note == or_text(text_of_spec(obj, k_note()), Seq::empty())
    &&& t.category == category_value(text_of_spec(obj, k_category()))
    &&& t.priority == priority_value(text_of_spec(obj, k_priority()))
    &&& t.due_at == time_value(obj, k_due())
    &&& t.remind_at == time_value(obj, k_remind())
    &&& t.planned_date == (if carried_today(obj, today) { Some(day_text(today)) } else { planned_given(obj) })
    &&& t.carried_from == (if carried_today(obj, today) {
        carry_days_spec(time_value(obj, k_due()), today)
    } else {
        match number_of_spec(obj, k_carried()) {
            Some(n) => n,
            None => 0,
        }
    })
    &&& t.done == task_done(obj)
    &&& t.done_at == (if task_done(obj) { time_value(obj, k_done_at()) } else { None })
    &&& t.deleted_at == time_value(obj, k_deleted())
    &&& t.legacy == ((task_done(obj) && time_value(obj, k_done_at()) is None) || bool_of_spec(obj, k_legacy())
        == Some(true))
    &&& t.kb_refs.len() == 0
    &&& t.sort_order is None
    &&& t.subtasks.len() == subs.len()
    &&& forall|k: int| 0 <= k < subs.len() ==> subtask_from(subs[k], #[trigger] t.subtasks[k])
    &&& t.notes.len() == notes.len()
    &&& forall|k: int| 0 <= k < notes.len() ==> note_from(notes[k], #[trigger] t.notes[k], t.created_at)
    &&& t.source == task_source(obj)
    &&& t.created_at == task_created(obj, today)
    &&& t.updated_at == or_text(time_value(obj, k_updated()), task_created(obj, today))
}


fn ks1(a: &'static str) -> (r: Vec<&'static str>)
    ensures
        key_views(r@) == seq![a@],
{
    let mut v: Vec<&'static str> = Vec::new();
    v.push(a);
    assert(key_views(v@) =~= seq![a@]);
    v
}

fn ks2(a: &'static str, b: &'static str) -> (r: Vec<&'static str>)
    ensures
        key_views(r@) == seq![a@, b@],
{
    let mut v: Vec<&'static str> = Vec::new();
    v.push(a);
    v.push(b);
    assert(key_views(v@) =~= seq![a@, b@]);
    v
}

fn ks3(a: &'static str, b: &'static str, c: &'static str) -> (r: Vec<&'static str>)
    ensures
        key_views(r@) == seq![a@, b@, c@],
{
    let mut v: Vec<&'static str> = Vec::new();
    v.push(a);
    v.push(b);
    v.push(c);
    assert(key_views(v@) =~= seq![a@, b@, c@]);
    v
}

/// A fresh id starting with `prefix` (one character).
fn fresh_id(prefix: &str) -> (id: String)
    requires
        prefix@.len() == 1,
    ensures
        id@.len() > 1 && id@[0] == prefix@[0],
{
    let id = new_id(prefix);
    assert(id@[0] == id@.subrange(0, 1)[0]);
    id
}

fn migrate_subtasks(object: &Json, report: &mut MigrationReport, id: &str) -> (out: Vec<crate::models::Subtask>)
    ensures
        ({
            let subs = list_items(*object, "subtasks"@).filter(|e: Json| kept_subtask(e));
            &&& out@.len() == subs.len()
            &&& forall|k: int| 0 <= k < subs.len() ==> subtask_from(subs[k], #[trigger] out@[k]@)
        }),
        final(report)@ == dropped_report(list_items(*object, "subtasks"@), "subtask"@, id@, "subtasks"@, old(report)@),
{
    let mut out: Vec<crate::models::Subtask> = Vec::new();
    let ghost pred = |e: Json| kept_subtask(e);
    let ghost r0 = report@;
    let items = match object.get("subtasks") {
        Some(Json::Array(items)) => items,
        _ => {
            assert(list_items(*object, "subtasks"@) =~= Seq::<Json>::empty());
            return out;
        },
    };
    assert(list_items(*object, "subtasks"@) == items@);
    let ghost all = items@;
    let mut i: usize = 0;
    while i < items.len()
        invariant
            i <= items@.len(),
            all == items@,
            pred == (|e: Json| kept_subtask(e)),
            out@.len() == all.take(i as int).filter(pred).len(),
            forall|k: int| 0 <= k < out@.len() ==> subtask_from(all.take(i as int).filter(pred)[k], #[trigger] out@[k]@),
            report@ == dropped_report(all.take(i as int), "subtask"@, id@, "subtasks"@, r0),
        decreases items@.len() - i,
    {
        let item = &items[i];
        let ghost prev = all.take(i as int).filter(pred);
        proof {
            assert(all.take(i + 1) =~= all.take(i as int).push(*item));
            assert(all.take(i + 1).drop_last() =~= all.take(i as int));
            crate::store::lemma_filter_push(all.take(i as int), pred, *item);
        }
        if !item.is_object() {
            let raw = compact_text(item);
            push_issue(report, "subtask", id, "subtasks", raw.as_str(), owned("非对象条目已丢弃"));
        } else {
            let sub_title = match text_of(item, ks1("title").as_slice()) {
                Some(t) => t,
                None => String::new(),
            };
            if !crate::text::is_blank(sub_title.as_str()) {
                let sid = match text_of(item, ks1("id").as_slice()) {
                    Some(x) => x,
                    None => {
                        proof {
                            reveal_strlit("s");
                        }
                        fresh_id("s")
                    },
                };
                let done = match bool_of(item, ks2("done", "completed").as_slice()) {
                    Some(b) => b,
                    None => false,
                };
                let sub = crate::models::Subtask { id: sid, title: sub_title, done };
                out.push(sub);
                proof {
                    let now = all.take(i + 1).filter(pred);
                    assert(now == prev.push(*item));
                    assert forall|k: int| 0 <= k < out@.len() implies subtask_from(now[k], #[trigger] out@[k]@) by {
                        if k < prev.len() {
                            assert(now[k] == prev[k]);
                        }
                    }
                }
            }
        }
        i = i + 1;
    }
    assert(all.take(items@.len() as int) =~= all);
    out
}

fn migrate_notes(object: &Json, report: &mut MigrationReport, id: &str, created_at: &String) -> (out: Vec<
    crate::models::Note,
>)
    ensures
        ({
            let notes = list_items(*object, "notes"@).filter(|e: Json| kept_note(e));
            &&& out@.len() == notes.len()
            &&& forall|k: int| 0 <= k < notes.len() ==> note_from(notes[k], #[trigger] out@[k]@, created_at@)
        }),
        final(report)@ == notes_report(list_items(*object, "notes"@), id@, old(report)@),
{
    let mut out: Vec<crate::models::Note> = Vec::new();
    let ghost pred = |e: Json| kept_note(e);
    let ghost r0 = report@;
    let items = match object.get("notes") {
        Some(Json::Array(items)) => items,
        _ => {
            assert(list_items(*object, "notes"@) =~= Seq::<Json>::empty());
            return out;
        },
    };
    assert(list_items(*object, "notes"@) == items@);
    let ghost all = items@;
    let mut i: usize = 0;
    while i < items.len()
        invariant
            i <= items@.len(),
            all == items@,
            pred == (|e: Json| kept_note(e)),
            out@.len() == all.take(i as int).filter(pred).len(),
            forall|k: int|
                0 <= k < out@.len() ==> note_from(all.take(i as int).filter(pred)[k], #[trigger] out@[k]@, created_at@),
            report@ == notes_report(all.take(i as int), id@, r0),
        decreases items@.len() - i,
    {
        let item = &items[i];
        let ghost prev = all.take(i as int).filter(pred);
        proof {
            assert(all.take(i + 1) =~= all.take(i as int).push(*item));
            assert(all.take(i + 1).drop_last() =~= all.take(i as int));
            crate::store::lemma_filter_push(all.take(i as int), pred, *item);
        }
        if !item.is_object() {
            let raw = compact_text(item);
            push_issue(report, "note", id, "notes", raw.as_str(), owned("非对象条目已丢弃"));
        } else {
            let content = match text_of(item, ks1("content").as_slice()) {
                Some(t) => t,
                None => String::new(),
            };
            let author = match text_of(item, ks1("author").as_slice()) {
                Some(t) => t,
                None => owned("我"),
            };
            if !(crate::text::is_blank(content.as_str()) && crate::text::is_blank(author.as_str())) {
                let created = migrate_time(item, ks2("createdAt", "created_at").as_slice(), report, "note", id, "createdAt");
                let nid = match text_of(item, ks1("id").as_slice()) {
                    Some(x) => x,
                    None => {
                        proof {
                            reveal_strlit("n");
                        }
                        fresh_id("n")
                    },
                };
                let note = crate::models::Note {
                    id: nid,
                    author,
                    content,
                    created_at: match created {
                        Some(c) => c,
                        None => created_at.clone(),
                    },
                };
                out.push(note);
                proof {
                    let now = all.take(i + 1).filter(pred);
                    assert(now == prev.push(*item));
                    assert forall|k: int| 0 <= k < out@.len() implies note_from(now[k], #[trigger] out@[k]@, created_at@) by {
                        if k < prev.len() {
                            assert(now[k] == prev[k]);
                        }
                    }
                }
            }
        }
        i = i + 1;
    }
    assert(all.take(items@.len() as int) =~= all);
    out
}


/// One v1 task record as a task, on `today`; what changed or was dropped is
/// written into `report`.
#[verifier::rlimit(40)]
fn migrate_task(object: &Json, report: &mut MigrationReport, today: &Day) -> (task: crate::models::Task)
    requires
        today.valid(),
    ensures
        task_from(*object, *today, task@),
        final(report)@ == task_report(*object, task@.id, old(report)@),
{
    let ghost r0 = report@;
    let id = match text_of(object, ks1("id").as_slice()) {
        Some(x) => x,
        None => {
            proof {
                reveal_strlit("t");
            }
            fresh_id("t")
        },
    };
    let title = match text_of(object, ks1("title").as_slice()) {
        Some(x) => x,
        None => owned("（v1 无标题）"),
    };
    let note = match text_of(object, ks2("note", "description").as_slice()) {
        Some(x) => x,
        None => String::new(),
    };
    let category = migrate_category(text_of(object, ks1("category").as_slice()), report, id.as_str());
    let priority = migrate_priority(text_of(object, ks1("priority").as_slice()), report, id.as_str());
    let due_at = migrate_time(object, ks2("dueAt", "due_date").as_slice(), report, "task", id.as_str(), "dueAt");
    let remind_at = migrate_time(
        object,
        ks2("remindAt", "remind_date").as_slice(),
        report,
        "task",
        id.as_str(),
        "remindAt",
    );
    let planned_raw = migrate_time(
        object,
        ks2("plannedDate", "planned_date").as_slice(),
        report,
        "task",
        id.as_str(),
        "plannedDate",
    );
    let planned_given = match planned_raw {
        Some(value) => normalize_date_text(value.as_str()),
        None => None,
    };
    let created = migrate_time(
        object,
        ks2("createdAt", "created_at").as_slice(),
        report,
        "task",
        id.as_str(),
        "createdAt",
    );
    let created_at = match created {
        Some(c) => c,
        None => {
            let d = fmt_day(today);
            concat(d.as_str(), "T00:00")
        },
    };
    let updated = migrate_time(
        object,
        ks2("updatedAt", "updated_at").as_slice(),
        report,
        "task",
        id.as_str(),
        "updatedAt",
    );
    let updated_at = match updated {
        Some(u) => u,
        None => created_at.clone(),
    };
    let deleted_at = migrate_time(
        object,
        ks2("deletedAt", "deleted_at").as_slice(),
        report,
        "task",
        id.as_str(),
        "deletedAt",
    );
    let carried_given = match number_of(object, ks2("carriedFrom", "carried_from").as_slice()) {
        Some(n) => n,
        None => 0,
    };
    let done = match bool_of(object, ks2("done", "completed").as_slice()) {
        Some(b) => b,
        None => false,
    };
    let done_at_given = migrate_time(object, ks2("doneAt", "done_at").as_slice(), report, "task", id.as_str(), "doneAt");
    let mut legacy = match bool_of(object, ks1("legacy").as_slice()) {
        Some(b) => b,
        None => false,
    };
    let ghost r9 = report@;
    if done && done_at_given.is_none() {
        legacy = true;
        if report.legacy_done < u32::MAX {
            report.legacy_done = report.legacy_done + 1;
        }
        push_issue(report, "task", id.as_str(), "doneAt", "（缺失）", owned("置空并标 legacy"));
    }
    let done_at = if done {
        done_at_given
    } else {
        None
    };
    let subtasks = migrate_subtasks(object, report, id.as_str());
    let notes = migrate_notes(object, report, id.as_str(), &created_at);
    let source_text = text_of(object, ks1("source").as_slice());
    let source = match source_text {
        Some(s) => if same_text(s.as_str(), "capture") {
            crate::models::Source::Capture
        } else if same_text(s.as_str(), "seed") {
            crate::models::Source::Seed
        } else {
            crate::models::Source::Manual
        },
        None => crate::models::Source::Manual,
    };
    let mut planned_date = planned_given;
    let mut carried_from = carried_given;
    if planned_date.is_none() && !done && deleted_at.is_none() {
        let days = carry_days_from(&due_at, *today);
        if days > 0 {
            planned_date = Some(fmt_day(today));
            carried_from = days;
        }
    }
    let task = crate::models::Task {
        id,
        title,
        note,
        category,
        priority,
        due_at,
        remind_at,
        planned_date,
        carried_from,
        done,
        done_at,
        deleted_at,
        legacy,
        kb_refs: Vec::new(),
        sort_order: None,
        subtasks,
        notes,
        source,
        created_at,
        updated_at,
    };
    proof {
        assert(task@.kb_refs =~= Seq::<Seq<char>>::empty());
        let subs = list_items(*object, "subtasks"@).filter(|e: Json| kept_subtask(e));
        assert forall|k: int| 0 <= k < subs.len() implies subtask_from(subs[k], #[trigger] task@.subtasks[k]) by {
            assert(task@.subtasks[k] == task.subtasks@[k]@);
        }
        let ns = list_items(*object, "notes"@).filter(|e: Json| kept_note(e));
        assert forall|k: int| 0 <= k < ns.len() implies note_from(ns[k], #[trigger] task@.notes[k], task@.created_at) by {
            assert(task@.notes[k] == task.notes@[k]@);
        }
    }
    task
}


// ---------------------------------------------------------------- reminders

pub open spec fn k_time() -> Seq<Seq<char>> { seq!["time"@, "remindAt"@, "remind_date"@] }
pub open spec fn k_completed() -> Seq<Seq<char>> { seq!["completed"@, "done"@] }
pub open spec fn k_repeat() -> Seq<Seq<char>> { seq!["repeat"@] }

pub open spec fn raw_time(obj: Json) -> Seq<char> {
    or_text(text_of_spec(obj, k_time()), Seq::empty())
}

/// Several clock times (`10:00/14:00/16:00`).
pub open spec fn multi_clock(t: Seq<char>) -> bool {
    contains_seq(t, seq!['/']) && clocks_spec(t).len() > 1
}

/// A v1 reminder time: several clocks are kept as they are; anything else
/// is normalised, or cleared when it cannot be read.
pub open spec fn reminder_time(obj: Json) -> Seq<char> {
    let t = raw_time(obj);
    if t.len() == 0 {
        Seq::empty()
    } else if multi_clock(t) {
        t
    } else {
        or_text(normalize_spec(t), Seq::empty())
    }
}

pub open spec fn repeat_of(obj: Json) -> Repeat {
    match text_of_spec(obj, k_repeat()) {
        Some(t) => if t == "daily"@ {
            Repeat::Daily
        } else if t == "workdays"@ {
            Repeat::Workdays
        } else if t == "weekly"@ {
            Repeat::Weekly
        } else {
            Repeat::Never
        },
        None => Repeat::Never,
    }
}

/// The report after one reminder record, id `id`.
pub open spec fn reminder_report(obj: Json, id: Seq<char>, r0: ReportView) -> ReportView {
    let t = raw_time(obj);
    let r1 = if t.len() == 0 {
        with_invalid(r0)
    } else if multi_clock(t) {
        r0
    } else {
        match normalize_spec(t) {
            Some(_) => r0,
            None => with_issue(with_invalid(r0), "reminder"@, id, "time"@, t, "无法解析，已置空"@),
        }
    };
    category_step(text_of_spec(obj, k_category()), id, r1).1
}

/// A reminder read from a v1 record (its id aside, which the record gives or
/// is fresh): a v1 completed reminder is a disabled one, and every migrated
/// reminder is marked legacy.
pub open spec fn reminder_from(obj: Json, r: ReminderView) -> bool {
    &&& given_or_fresh(text_of_spec(obj, k_id()), r.id, 'r')
    &&& r.title == or_text(text_of_spec(obj, k_title()), "提醒"@)
    &&& r.time == reminder_time(obj)
    &&& r.category == category_value(text_of_spec(obj, k_category()))
    &&& r.enabled == !(bool_of_spec(obj, k_completed()) == Some(true))
    &&& !r.completed
    &&& r.repeat == repeat_of(obj)
    &&& r.last_fired is None
    &&& r.snoozed_until is None
    &&& r.legacy
}

fn migrate_reminder(object: &Json, report: &mut MigrationReport) -> (rem: Reminder)
    ensures
        reminder_from(*object, rem@),
        final(report)@ == reminder_report(*object, rem@.id, old(report)@),
{
    let id = match text_of(object, ks1("id").as_slice()) {
        Some(x) => x,
        None => {
            proof {
                reveal_strlit("r");
            }
            fresh_id("r")
        },
    };
    let title = match text_of(object, ks1("title").as_slice()) {
        Some(x) => x,
        None => owned("提醒"),
    };
    let raw_time = match text_of(object, ks3("time", "remindAt", "remind_date").as_slice()) {
        Some(x) => x,
        None => String::new(),
    };
    proof {
        reveal_strlit("/");
        assert("/"@ =~= seq!['/']);
    }
    let multi = contains(raw_time.as_str(), "/") && clocks_of(raw_time.as_str()).len() > 1;
    let time = if raw_time.unicode_len() == 0 {
        count_invalid(report);
        String::new()
    } else if multi {
        raw_time.clone()
    } else {
        match normalize_datetime(raw_time.as_str()) {
            Some(value) => value,
            None => {
                count_invalid(report);
                push_issue(report, "reminder", id.as_str(), "time", raw_time.as_str(), owned("无法解析，已置空"));
                String::new()
            },
        }
    };
    let category = migrate_category(text_of(object, ks1("category").as_slice()), report, id.as_str());
    let completed = match bool_of(object, ks2("completed", "done").as_slice()) {
        Some(b) => b,
        None => false,
    };
    let repeat = match text_of(object, ks1("repeat").as_slice()) {
        Some(t) => if same_text(t.as_str(), "daily") {
            Repeat::Daily
        } else if same_text(t.as_str(), "workdays") {
            Repeat::Workdays
        } else if same_text(t.as_str(), "weekly") {
            Repeat::Weekly
        } else {
            Repeat::Never
        },
        None => Repeat::Never,
    };
    Reminder {
        id,
        title,
        time,
        category,
        enabled: !completed,
        completed: false,
        repeat,
        last_fired: None,
        snoozed_until: None,
        legacy: true,
    }
}

// ---------------------------------------------------------------- settings

/// v1's top-level settings read into `s` (before correction): a v1 theme
/// string falls back to `float`; a non-blank capture hotkey (trimmed), the
/// hourly cap (at most 60) and the onboarded flag carry over.
pub open spec fn v1_settings_view(raw: Json, s: SettingsView) -> SettingsView {
    SettingsView {
        theme: match raw.get_spec("theme"@) {
            Some(Json::Str(_)) => "float"@,
            _ => s.theme,
        },
        capture_hotkey: match raw.get_spec("captureHotkey"@) {
            Some(Json::Str(t)) => if trim_seq(t@).len() > 0 { trim_seq(t@) } else { s.capture_hotkey },
            _ => s.capture_hotkey,
        },
        remind_cap_per_hour: match raw.get_spec("remindCapPerHour"@) {
            Some(Json::Number(n)) => match crate::json::as_u64_spec(n) {
                Some(u) => if u > 60 { 60 } else { u as u32 },
                None => s.remind_cap_per_hour,
            },
            _ => s.remind_cap_per_hour,
        },
        onboarded: match raw.get_spec("onboarded"@) {
            Some(Json::Bool(b)) => b,
            _ => s.onboarded,
        },
        ..s
    }
}

/// What the v1 settings write into the report: a note on a v1 theme string.
pub open spec fn settings_report(raw: Json, r: ReportView) -> ReportView {
    match raw.get_spec("theme"@) {
        Some(Json::Str(t)) => with_issue(r, "settings"@, "settings"@, "theme"@, t@, "v2 主题语义变更，回落到 float"@),
        _ => r,
    }
}

fn migrate_settings(raw: &Json, settings: &mut Settings, report: &mut MigrationReport)
    ensures
        exists|mid: Settings| #[trigger] mid@ == v1_settings_view(*raw, old(settings)@) && crate::models::coerced(mid, *final(settings)),
        final(report)@ == settings_report(*raw, old(report)@),
{
    if let Some(Json::Str(text)) = raw.get("theme") {
        push_issue(report, "settings", "settings", "theme", text.as_str(), owned("v2 主题语义变更，回落到 float"));
        settings.theme = owned("float");
    }
    if let Some(Json::Str(value)) = raw.get("captureHotkey") {
        let t = trim(value.as_str());
        if t.unicode_len() > 0 {
            settings.capture_hotkey = t;
        }
    }
    if let Some(value) = raw.get("remindCapPerHour") {
        if let Some(u) = value.as_u64() {
            settings.remind_cap_per_hour = if u > 60 { 60 } else { u as u32 };
        }
    }
    if let Some(value) = raw.get("onboarded") {
        if let Some(b) = value.as_bool() {
            settings.onboarded = b;
        }
    }
    let ghost mid = *settings;
    assert(mid@ == v1_settings_view(*raw, old(settings)@));
    settings.coerce();
}


// ---------------------------------------------------------------- the whole document

/// The entries of a list that are objects.
pub open spec fn object_items(items: Seq<Json>) -> Seq<Json> {
    items.filter(|e: Json| e is Object)
}

/// The report after the task records, the `k`-th object record having id `ids[k]`.
pub open spec fn tasks_report(items: Seq<Json>, ids: Seq<Seq<char>>, r: ReportView) -> ReportView
    decreases items.len(),
{
    if items.len() == 0 {
        r
    } else {
        let prior = items.drop_last();
        let r1 = tasks_report(prior, ids, r);
        let e = items.last();
        if e is Object {
            task_report(e, ids[object_items(prior).len() as int], r1)
        } else {
            with_issue(r1, "task"@, "unknown"@, "tasks"@, json_compact(e), "非对象条目已丢弃"@)
        }
    }
}

/// The report after the reminder records (entries that are not objects are
/// skipped without a note).
pub open spec fn reminders_report(items: Seq<Json>, ids: Seq<Seq<char>>, r: ReportView) -> ReportView
    decreases items.len(),
{
    if items.len() == 0 {
        r
    } else {
        let prior = items.drop_last();
        let r1 = reminders_report(prior, ids, r);
        let e = items.last();
        if e is Object {
            reminder_report(e, ids[object_items(prior).len() as int], r1)
        } else {
            r1
        }
    }
}

proof fn lemma_tasks_report_ids(items: Seq<Json>, a: Seq<Seq<char>>, b: Seq<Seq<char>>, r: ReportView)
    requires
        forall|k: int| 0 <= k < object_items(items).len() ==> a[k] == b[k],
    ensures
        tasks_report(items, a, r) == tasks_report(items, b, r),
        reminders_report(items, a, r) == reminders_report(items, b, r),
    decreases items.len(),
{
    if items.len() > 0 {
        let prior = items.drop_last();
        assert(items =~= prior.push(items.last()));
        crate::store::lemma_filter_push(prior, |e: Json| e is Object, items.last());
        lemma_tasks_report_ids(prior, a, b, r);
    }
}

/// A list field that migration accepts: a list, null or absent.
pub open spec fn list_ok(raw: Json, key: Seq<char>) -> bool {
    match raw.get_spec(key) {
        Some(Json::Array(_)) => true,
        Some(Json::Null) => true,
        None => true,
        _ => false,
    }
}

/// Settings as `Settings::default` gives them.
pub open spec fn default_settings_view() -> SettingsView {
    SettingsView {
        theme: "float"@,
        sticky_paper: "warm"@,
        sticky_fade: true,
        sticky_fade_opacity: 38,
        sticky_pattern: "none"@,
        capture_hotkey: "Alt+Shift+A"@,
        main_hotkey: Some("Alt+Shift+O"@),
        sticky_hotkey: Some("Alt+Shift+S"@),
        todo_hotkey: Some("Alt+Shift+T"@),
        todo_float_pinned: false,
        dnd_enabled: true,
        dnd_from: "23:00"@,
        dnd_to: "07:30"@,
        remind_cap_per_hour: 3,
        onboarded: false,
        export_dir: None,
        telemetry_enabled: true,
    }
}

/// The settings migration starts from: the document's own settings object
/// when it read as settings, else the defaults.
pub open spec fn base_settings(parsed: Option<Settings>, base: Settings) -> bool {
    match parsed {
        Some(s) => base == s,
        None => base@ == default_settings_view(),
    }
}

pub open spec fn empty_report() -> ReportView {
    ReportView {
        task_count: 0,
        reminder_count: 0,
        invalid_dates: 0,
        legacy_done: 0,
        archived_to: Seq::empty(),
        issues: Seq::empty(),
    }
}

/// What migrating a v1 document gives, on `today`; `parsed` is the
/// document's `settings` object read as settings, when it is an object that
/// reads as such.
pub open spec fn migrated_v1(raw: Json, parsed: Option<Settings>, today: Day, data: AppData, report: ReportView) -> bool {
    let ts = object_items(list_items(raw, "tasks"@));
    let rs = object_items(list_items(raw, "reminders"@));
    let task_ids = data.tasks@.map_values(|t: Task| t@.id);
    let rem_ids = data.reminders@.map_values(|r: Reminder| r@.id);
    &&& data.tasks@.len() == ts.len()
    &&& forall|k: int| 0 <= k < ts.len() ==> task_from(ts[k], today, #[trigger] data.tasks@[k]@)
    &&& data.reminders@.len() == rs.len()
    &&& forall|k: int| 0 <= k < rs.len() ==> reminder_from(rs[k], #[trigger] data.reminders@[k]@)
    &&& data.stickies@.len() == 0
    &&& exists|base: Settings, mid: Settings|
        #![trigger base_settings(parsed, base), mid@]
        base_settings(parsed, base) && mid@ == v1_settings_view(raw, base@) && crate::models::coerced(mid, data.settings)
    &&& report == ReportView {
        task_count: data.tasks@.len() as u32,
        reminder_count: data.reminders@.len() as u32,
        archived_to: "data.v1.json"@,
        ..settings_report(
            raw,
            reminders_report(
                list_items(raw, "reminders"@),
                rem_ids,
                tasks_report(list_items(raw, "tasks"@), task_ids, empty_report()),
            ),
        )
    }
}

/// Migrate a v1 (snake_case) document on `today`. `parsed_settings` is the
/// document's `settings` object read as settings, when there is one that
/// reads. Fails, with a message for the user, when `tasks` or `reminders` is
/// there but not a list.
pub fn migrate_v1_at(raw: &Json, parsed_settings: Option<Settings>, today: &Day) -> (r: Result<
    (AppData, MigrationReport),
    String,
>)
    requires
        today.valid(),
    ensures
        match r {
            Ok((data, report)) => list_ok(*raw, "tasks"@) && list_ok(*raw, "reminders"@) && migrated_v1(
                *raw,
                parsed_settings,
                *today,
                data,
                report@,
            ),
            Err(e) => if !list_ok(*raw, "tasks"@) {
                e@ == "旧数据里的 tasks 不是列表"@
            } else {
                !list_ok(*raw, "reminders"@) && e@ == "旧数据里的 reminders 不是列表"@
            },
        },
{
    let mut report = MigrationReport::default();
    let ghost r0 = report@;
    assert(r0.issues =~= Seq::<IssueView>::empty());
    assert(r0.archived_to =~= Seq::<char>::empty());
    assert(r0 == empty_report());
    let mut tasks: Vec<Task> = Vec::new();
    let ghost tp = |e: Json| e is Object;
    match raw.get("tasks") {
        Some(Json::Array(items)) => {
            assert(list_items(*raw, "tasks"@) == items@);
            let ghost all = items@;
            let mut i: usize = 0;
            while i < items.len()
                invariant
                    i <= items@.len(),
                    all == items@,
                    today.valid(),
                    tp == (|e: Json| e is Object),
                    tasks@.len() == all.take(i as int).filter(tp).len(),
                    forall|k: int|
                        0 <= k < tasks@.len() ==> task_from(all.take(i as int).filter(tp)[k], *today, #[trigger] tasks@[k]@),
                    report@ == tasks_report(all.take(i as int), tasks@.map_values(|t: Task| t@.id), r0),
                decreases items@.len() - i,
            {
                let item = &items[i];
                let ghost prev = all.take(i as int).filter(tp);
                let ghost ids0 = tasks@.map_values(|t: Task| t@.id);
                proof {
                    assert(all.take(i + 1) =~= all.take(i as int).push(*item));
                    assert(all.take(i + 1).drop_last() =~= all.take(i as int));
                    crate::store::lemma_filter_push(all.take(i as int), tp, *item);
                }
                if !item.is_object() {
                    let raw_text = compact_text(item);
                    push_issue(&mut report, "task", "unknown", "tasks", raw_text.as_str(), owned("非对象条目已丢弃"));
                } else {
                    let t = migrate_task(item, &mut report, today);
                    tasks.push(t);
                    proof {
                        let ids1 = tasks@.map_values(|t: Task| t@.id);
                        assert forall|k: int| 0 <= k < object_items(all.take(i as int)).len() implies ids0[k] == ids1[k] by {
                            assert(object_items(all.take(i as int)) == prev);
                        }
                        lemma_tasks_report_ids(all.take(i as int), ids0, ids1, r0);
                        assert(object_items(all.take(i as int)) == prev);
                        assert(ids1[prev.len() as int] == t@.id);
                        let now = all.take(i + 1).filter(tp);
                        assert forall|k: int| 0 <= k < tasks@.len() implies task_from(now[k], *today, #[trigger] tasks@[k]@) by {
                            if k < prev.len() {
                                assert(now[k] == prev[k]);
                            }
                        }
                    }
                }
                i = i + 1;
            }
            assert(all.take(items@.len() as int) =~= all);
        },
        Some(Json::Null) | None => {
            assert(list_items(*raw, "tasks"@) =~= Seq::<Json>::empty());
            assert(tasks@.map_values(|t: Task| t@.id) =~= Seq::<Seq<char>>::empty());
        },
        Some(_) => {
            return Err(owned("旧数据里的 tasks 不是列表"));
        },
    }
    let ghost task_ids = tasks@.map_values(|t: Task| t@.id);
    let ghost r1 = report@;
    let mut reminders: Vec<Reminder> = Vec::new();
    match raw.get("reminders") {
        Some(Json::Array(items)) => {
            assert(list_items(*raw, "reminders"@) == items@);
            let ghost all = items@;
            let mut i: usize = 0;
            while i < items.len()
                invariant
                    i <= items@.len(),
                    all == items@,
                    tp == (|e: Json| e is Object),
                    reminders@.len() == all.take(i as int).filter(tp).len(),
                    forall|k: int|
                        0 <= k < reminders@.len() ==> reminder_from(all.take(i as int).filter(tp)[k], #[trigger] reminders@[k]@),
                    report@ == reminders_report(all.take(i as int), reminders@.map_values(|r: Reminder| r@.id), r1),
                decreases items@.len() - i,
            {
                let item = &items[i];
                let ghost prev = all.take(i as int).filter(tp);
                let ghost ids0 = reminders@.map_values(|r: Reminder| r@.id);
                proof {
                    assert(all.take(i + 1) =~= all.take(i as int).push(*item));
                    assert(all.take(i + 1).drop_last() =~= all.take(i as int));
                    crate::store::lemma_filter_push(all.take(i as int), tp, *item);
                }
                if item.is_object() {
                    let rem = migrate_reminder(item, &mut report);
                    reminders.push(rem);
                    proof {
                        let ids1 = reminders@.map_values(|r: Reminder| r@.id);
                        assert forall|k: int| 0 <= k < object_items(all.take(i as int)).len() implies ids0[k] == ids1[k] by {
                            assert(object_items(all.take(i as int)) == prev);
                        }
                        lemma_tasks_report_ids(all.take(i as int), ids0, ids1, r1);
                        assert(object_items(all.take(i as int)) == prev);
                        assert(ids1[prev.len() as int] == rem@.id);
                        let now = all.take(i + 1).filter(tp);
                        assert forall|k: int| 0 <= k < reminders@.len() implies reminder_from(now[k], #[trigger] reminders@[k]@) by {
                            if k < prev.len() {
                                assert(now[k] == prev[k]);
                            }
                        }
                    }
                }
                i = i + 1;
            }
            assert(all.take(items@.len() as int) =~= all);
        },
        Some(Json::Null) | None => {
            assert(list_items(*raw, "reminders"@) =~= Seq::<Json>::empty());
            assert(reminders@.map_values(|r: Reminder| r@.id) =~= Seq::<Seq<char>>::empty());
        },
        Some(_) => {
            return Err(owned("旧数据里的 reminders 不是列表"));
        },
    }
    let mut settings = match parsed_settings {
        Some(s) => s,
        None => Settings::default(),
    };
    let ghost base = settings;
    migrate_settings(raw, &mut settings, &mut report);
    #[verifier::truncate]
    let task_count = tasks.len() as u32;
    #[verifier::truncate]
    let reminder_count = reminders.len() as u32;
    report.task_count = task_count;
    report.reminder_count = reminder_count;
    report.archived_to = owned(crate::store::ARCHIVE_FILE);
    proof {
        reveal_strlit("data.v1.json");
    }
    let data = AppData { tasks, reminders, settings, stickies: Vec::new() };
    proof {
        let mid = choose|mid: Settings| #[trigger] mid@ == v1_settings_view(*raw, base@) && crate::models::coerced(mid, data.settings);
        assert(base_settings(parsed_settings, base));
    }
    Ok((data, report))
}

/// Migrate a v1 document, today being the machine's local date.
pub fn migrate_v1(raw: &Json, parsed_settings: Option<Settings>) -> (r: Result<(AppData, MigrationReport), String>)
    ensures
        match r {
            Ok((data, report)) => list_ok(*raw, "tasks"@) && list_ok(*raw, "reminders"@) && exists|d: Day| #![auto]
                d.valid() && migrated_v1(*raw, parsed_settings, d, data, report@),
            Err(e) => if !list_ok(*raw, "tasks"@) {
                e@ == "旧数据里的 tasks 不是列表"@
            } else {
                !list_ok(*raw, "reminders"@) && e@ == "旧数据里的 reminders 不是列表"@
            },
        },
{
    let now = crate::models::today();
    migrate_v1_at(raw, parsed_settings, &now)
}

} // verus!
