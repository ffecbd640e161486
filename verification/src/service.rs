//! Services over the first-generation store: tasks, reminders, history and
//! the theme. The store itself sits behind the `Database` trait; what it holds
//! is not modelled here, so contracts speak of the checks made before a store
//! call and of the values built for it.
use vstd::prelude::*;
use vstd::string::*;
use crate::text::{blank, byte_len, byte_len_capped, contains, contains_seq, is_blank, lowercase, owned, same_text, to_lower, trim, trim_seq};
use crate::legacy::{HistoryItem, Note, Reminder, SearchResult, Subtask, Task, TaskStats};
use crate::datetime::{chrono_date, chrono_parse_date, split_on, split_seq};
use crate::validation::{reminder_problem, task_problem, validate_reminder, validate_task};

verus! {

broadcast use vstd::string::group_string_axioms;

/// A write handed to the store, with what was handed to it (texts by
/// their characters).
pub enum DbCall {
    AddTask(Task),
    UpdateTask(Seq<char>, Task),
    DeleteTask(Seq<char>),
    AddReminder(Reminder),
    UpdateReminder(Seq<char>, Reminder),
    DeleteReminder(Seq<char>),
    AddHistory(HistoryItem),
    ClearHistory,
    DeleteHistory(Seq<char>),
    SetTheme(Seq<char>),
}

/// What the store answered to a call the services make: a write's result,
/// or what a look-up of a task or a reminder by id gave.
pub enum DbReply {
    /// A write's answer: the error it gave, or none.
    Done(Option<String>),
    TaskFound(Seq<char>, Result<Option<Task>, String>),
    ReminderFound(Seq<char>, Result<Option<Reminder>, String>),
}

/// The answer a write's result records.
pub open spec fn reply_of(r: Result<(), String>) -> DbReply {
    match r {
        Ok(_) => DbReply::Done(None),
        Err(e) => DbReply::Done(Some(e)),
    }
}

/// The answer to looking up task `id`.
pub open spec fn found_task(id: Seq<char>, a: Result<Option<Task>, String>) -> DbReply {
    DbReply::TaskFound(id, a)
}

/// The answer to looking up reminder `id`.
pub open spec fn found_reminder(id: Seq<char>, a: Result<Option<Reminder>, String>) -> DbReply {
    DbReply::ReminderFound(id, a)
}

/// Where first-generation data is kept (the SQLite store implements it).
pub trait Database {
    fn get_tasks(&self) -> Result<Vec<Task>, String>;
    fn get_task(&self, id: &str) -> Result<Option<Task>, String>;
    fn add_task(&mut self, task: Task) -> Result<(), String>;
    fn update_task(&mut self, id: &str, task: Task) -> Result<(), String>;
    fn delete_task(&mut self, id: &str) -> Result<(), String>;
    fn get_reminders(&self) -> Result<Vec<Reminder>, String>;
    fn get_reminder(&self, id: &str) -> Result<Option<Reminder>, String>;
    fn add_reminder(&mut self, reminder: Reminder) -> Result<(), String>;
    fn update_reminder(&mut self, id: &str, reminder: Reminder) -> Result<(), String>;
    fn delete_reminder(&mut self, id: &str) -> Result<(), String>;
    fn get_history(&self) -> Result<Vec<HistoryItem>, String>;
    fn get_history_by_date(&self, date: &str) -> Result<Vec<HistoryItem>, String>;
    fn get_history_by_type(&self, target_type: &str) -> Result<Vec<HistoryItem>, String>;
    fn get_history_by_action(&self, action: &str) -> Result<Vec<HistoryItem>, String>;
    fn add_history_item(&mut self, item: HistoryItem) -> Result<(), String>;
    fn clear_history(&mut self) -> Result<(), String>;
    fn delete_history_item(&mut self, id: &str) -> Result<(), String>;
    fn get_theme(&self) -> Result<String, String>;
    fn set_theme(&mut self, theme: &str) -> Result<(), String>;
    fn export_data(&self) -> Result<String, String>;
    fn import_data(&mut self, json_content: &str) -> Result<(), String>;
}

/// A store together with the record of the writes handed to it through
/// this handle, each with its arguments, whether it succeeded or not. What
/// the store holds and whether a call succeeds is the store's; the record
/// is kept here, so the services can say what they handed over.
pub struct Recorded<D> {
    pub db: D,
    pub log: Ghost<Seq<DbCall>>,
    pub answers: Ghost<Seq<DbReply>>,
}

impl<D: Database> Recorded<D> {
    /// The writes handed to the store so far, in order.
    pub closed spec fn calls(&self) -> Seq<DbCall> {
        self.log@
    }

    /// What the store answered to the writes and look-ups, in order.
    pub closed spec fn replies(&self) -> Seq<DbReply> {
        self.answers@
    }

    /// A handle on `db` with no writes recorded yet.
    pub fn new(db: D) -> (r: Self)
        ensures
            r.calls() == Seq::<DbCall>::empty(),
            r.replies() == Seq::<DbReply>::empty(),
            r.db == db,
    {
        Recorded { db, log: Ghost(Seq::empty()), answers: Ghost(Seq::empty()) }
    }

    /// Look up a task by id, keeping the answer.
    pub fn find_task(&mut self, id: &str) -> (r: Result<Option<Task>, String>)
        ensures
            final(self).calls() == old(self).calls(),
            final(self).replies() == old(self).replies().push(found_task(id@, r)),
    {
        let r = self.db.get_task(id);
        proof {
            self.answers@ = self.answers@.push(found_task(id@, r));
        }
        r
    }

    /// Look up a reminder by id, keeping the answer.
    pub fn find_reminder(&mut self, id: &str) -> (r: Result<Option<Reminder>, String>)
        ensures
            final(self).calls() == old(self).calls(),
            final(self).replies() == old(self).replies().push(found_reminder(id@, r)),
    {
        let r = self.db.get_reminder(id);
        proof {
            self.answers@ = self.answers@.push(found_reminder(id@, r));
        }
        r
    }

    pub fn get_tasks(&self) -> Result<Vec<Task>, String> {
        self.db.get_tasks()
    }

    pub fn get_task(&self, id: &str) -> Result<Option<Task>, String> {
        self.db.get_task(id)
    }

    pub fn add_task(&mut self, task: Task) -> (r: Result<(), String>)
        ensures
            final(self).calls() == old(self).calls().push(DbCall::AddTask(task)),
            final(self).replies() == old(self).replies().push(reply_of(r)),
    {
        let ghost t = task;
        let r = self.db.add_task(task);
        proof {
            self.log@ = self.log@.push(DbCall::AddTask(t));
            self.answers@ = self.answers@.push(reply_of(r));
        }
        r
    }

    pub fn update_task(&mut self, id: &str, task: Task) -> (r: Result<(), String>)
        ensures
            final(self).calls() == old(self).calls().push(DbCall::UpdateTask(id@, task)),
            final(self).replies() == old(self).replies().push(reply_of(r)),
    {
        let ghost t = task;
        let r = self.db.update_task(id, task);
        proof {
            self.log@ = self.log@.push(DbCall::UpdateTask(id@, t));
            self.answers@ = self.answers@.push(reply_of(r));
        }
        r
    }

    pub fn delete_task(&mut self, id: &str) -> (r: Result<(), String>)
        ensures
            final(self).calls() == old(self).calls().push(DbCall::DeleteTask(id@)),
            final(self).replies() == old(self).replies().push(reply_of(r)),
    {
        let r = self.db.delete_task(id);
        proof {
            self.log@ = self.log@.push(DbCall::DeleteTask(id@));
            self.answers@ = self.answers@.push(reply_of(r));
        }
        r
    }

    pub fn get_reminders(&self) -> Result<Vec<Reminder>, String> {
        self.db.get_reminders()
    }

    pub fn get_reminder(&self, id: &str) -> Result<Option<Reminder>, String> {
        self.db.get_reminder(id)
    }

    pub fn add_reminder(&mut self, reminder: Reminder) -> (r: Result<(), String>)
        ensures
            final(self).calls() == old(self).calls().push(DbCall::AddReminder(reminder)),
            final(self).replies() == old(self).replies().push(reply_of(r)),
    {
        let ghost x = reminder;
        let r = self.db.add_reminder(reminder);
        proof {
            self.log@ = self.log@.push(DbCall::AddReminder(x));
            self.answers@ = self.answers@.push(reply_of(r));
        }
        r
    }

    pub fn update_reminder(&mut self, id: &str, reminder: Reminder) -> (r: Result<(), String>)
        ensures
            final(self).calls() == old(self).calls().push(DbCall::UpdateReminder(id@, reminder)),
            final(self).replies() == old(self).replies().push(reply_of(r)),
    {
        let ghost x = reminder;
        let r = self.db.update_reminder(id, reminder);
        proof {
            self.log@ = self.log@.push(DbCall::UpdateReminder(id@, x));
            self.answers@ = self.answers@.push(reply_of(r));
        }
        r
    }

    pub fn delete_reminder(&mut self, id: &str) -> (r: Result<(), String>)
        ensures
            final(self).calls() == old(self).calls().push(DbCall::DeleteReminder(id@)),
            final(self).replies() == old(self).replies().push(reply_of(r)),
    {
        let r = self.db.delete_reminder(id);
        proof {
            self.log@ = self.log@.push(DbCall::DeleteReminder(id@));
            self.answers@ = self.answers@.push(reply_of(r));
        }
        r
    }

    pub fn get_history(&self) -> Result<Vec<HistoryItem>, String> {
        self.db.get_history()
    }

    pub fn get_history_by_date(&self, date: &str) -> Result<Vec<HistoryItem>, String> {
        self.db.get_history_by_date(date)
    }

    pub fn get_history_by_type(&self, target_type: &str) -> Result<Vec<HistoryItem>, String> {
        self.db.get_history_by_type(target_type)
    }

    pub fn get_history_by_action(&self, action: &str) -> Result<Vec<HistoryItem>, String> {
        self.db.get_history_by_action(action)
    }

    pub fn add_history_item(&mut self, item: HistoryItem) -> (r: Result<(), String>)
        ensures
            final(self).calls() == old(self).calls().push(DbCall::AddHistory(item)),
            final(self).replies() == old(self).replies().push(reply_of(r)),
    {
        let ghost h = item;
        let r = self.db.add_history_item(item);
        proof {
            self.log@ = self.log@.push(DbCall::AddHistory(h));
            self.answers@ = self.answers@.push(reply_of(r));
        }
        r
    }

    pub fn clear_history(&mut self) -> (r: Result<(), String>)
        ensures
            final(self).calls() == old(self).calls().push(DbCall::ClearHistory),
            final(self).replies() == old(self).replies().push(reply_of(r)),
    {
        let r = self.db.clear_history();
        proof {
            self.log@ = self.log@.push(DbCall::ClearHistory);
            self.answers@ = self.answers@.push(reply_of(r));
        }
        r
    }

    pub fn delete_history_item(&mut self, id: &str) -> (r: Result<(), String>)
        ensures
            final(self).calls() == old(self).calls().push(DbCall::DeleteHistory(id@)),
            final(self).replies() == old(self).replies().push(reply_of(r)),
    {
        let r = self.db.delete_history_item(id);
        proof {
            self.log@ = self.log@.push(DbCall::DeleteHistory(id@));
            self.answers@ = self.answers@.push(reply_of(r));
        }
        r
    }

    pub fn get_theme(&self) -> Result<String, String> {
        self.db.get_theme()
    }

    pub fn set_theme(&mut self, theme: &str) -> (r: Result<(), String>)
        ensures
            final(self).calls() == old(self).calls().push(DbCall::SetTheme(theme@)),
            final(self).replies() == old(self).replies().push(reply_of(r)),
    {
        let r = self.db.set_theme(theme);
        proof {
            self.log@ = self.log@.push(DbCall::SetTheme(theme@));
            self.answers@ = self.answers@.push(reply_of(r));
        }
        r
    }
}

pub open spec fn lower_hex(c: char) -> bool {
    ('0' <= c && c <= '9') || ('a' <= c && c <= 'f')
}

/// The text of a random (version 4) UUID in hyphenated form: 36 characters,
/// hyphens at 8, 13, 18 and 23, lowercase hex digits elsewhere, the version
/// digit `4` at 14 and the variant digit 8, 9, a or b at 19.
pub open spec fn uuid_v4_text(s: Seq<char>) -> bool {
    &&& s.len() == 36
    &&& forall|i: int| 0 <= i < 36 ==> (if i == 8 || i == 13 || i == 18 || i == 23 {
        s[i] == '-'
    } else {
        lower_hex(#[trigger] s[i])
    })
    &&& s[14] == '4'
    &&& (s[19] == '8' || s[19] == '9' || s[19] == 'a' || s[19] == 'b')
}

/// A random UUID in its hyphenated text form (uuid's
/// `Uuid::new_v4().to_string()`). Which one is left to chance; the claim is
/// its shape, as uuid's hyphenated formatting and `new_v4`'s version and
/// variant bits make it.
#[verifier::external_body]
fn generate_uuid() -> (r: String)
    ensures
        uuid_v4_text(r@),
{
    uuid::Uuid::new_v4().to_string()
}

/// `YYYY-MM-DD` as chrono's `%Y-%m-%d` writes it: a year of four digits or
/// more (signed outside 0 to 9999), then `-MM-DD` with two-digit month and day.
pub open spec fn date_stamp_shape(s: Seq<char>) -> bool {
    let n = s.len() as int;
    &&& n >= 10
    &&& s[n - 6] == '-' && s[n - 3] == '-'
    &&& forall|i: int| n - 10 <= i < n && i != n - 6 && i != n - 3 ==> crate::models::ascii_digit(#[trigger] s[i])
}

/// `YYYY-MM-DD HH:MM:SS` as chrono's `%Y-%m-%d %H:%M:%S` writes it: a date
/// stamp, a space, and two-digit hour, minute and second.
pub open spec fn second_stamp_shape(s: Seq<char>) -> bool {
    let n = s.len() as int;
    &&& n >= 19
    &&& date_stamp_shape(s.subrange(0, n - 9))
    &&& s[n - 9] == ' ' && s[n - 6] == ':' && s[n - 3] == ':'
    &&& forall|i: int| n - 8 <= i < n && i != n - 6 && i != n - 3 ==> crate::models::ascii_digit(#[trigger] s[i])
}

/// The local time as `YYYY-MM-DD HH:MM:SS` (chrono's `Local::now`
/// formatted with `%Y-%m-%d %H:%M:%S`). Which time depends on the call; the
/// claim is the shape chrono's formatting gives.
#[verifier::external_body]
fn get_current_time() -> (r: String)
    ensures
        second_stamp_shape(r@),
{
    chrono::Local::now().format("%Y-%m-%d %H:%M:%S").to_string()
}

/// Today's local date as `YYYY-MM-DD` (chrono's `Local::now` formatted with
/// `%Y-%m-%d`). Which day depends on the call; the claim is the shape
/// chrono's formatting gives.
#[verifier::external_body]
fn get_current_date() -> (r: String)
    ensures
        date_stamp_shape(r@),
{
    chrono::Local::now().format("%Y-%m-%d").to_string()
}

/// A fresh id for a first-generation record: a random UUID's text.
pub fn generate_id() -> (r: String)
    ensures
        uuid_v4_text(r@),
{
    generate_uuid()
}

/// A history entry for an operation, stamped now.
pub fn history_item(action: &str, target_type: &str, target_id: &str, target_title: &str, detail: &str) -> (h: HistoryItem)
    ensures
        h.action@ == action@ && h.target_type@ == target_type@ && h.target_id@ == target_id@,
        h.target_title@ == target_title@ && h.detail@ == detail@,
        uuid_v4_text(h.id@),
        second_stamp_shape(h.timestamp@),
{
    HistoryItem {
        id: generate_uuid(),
        action: owned(action),
        target_type: owned(target_type),
        target_id: owned(target_id),
        target_title: owned(target_title),
        detail: owned(detail),
        timestamp: get_current_time(),
    }
}

/// `h` records an operation with these texts.
pub open spec fn records(h: HistoryItem, action: Seq<char>, target_type: Seq<char>, target_id: Seq<char>, target_title: Seq<char>, detail: Seq<char>) -> bool {
    &&& h.action@ == action && h.target_type@ == target_type && h.target_id@ == target_id
    &&& h.target_title@ == target_title && h.detail@ == detail
}

/// The writes after handing `first` to the store and, when that succeeded,
/// an entry recording the operation, with the store's answers (`rb` before,
/// `ra` after): a failed first write ends it with that write's error; after a
/// successful one, the result is the store's answer to the history entry.
pub open spec fn wrote_then_recorded(
    before: Seq<DbCall>,
    after: Seq<DbCall>,
    rb: Seq<DbReply>,
    ra: Seq<DbReply>,
    first: DbCall,
    r: Result<(), String>,
    action: Seq<char>,
    target_type: Seq<char>,
    target_id: Seq<char>,
    target_title: Seq<char>,
    detail: Seq<char>,
) -> bool {
    ||| after == before.push(first) && r is Err && ra == rb.push(reply_of(r))
    ||| exists|h: HistoryItem| #[trigger] records(h, action, target_type, target_id, target_title, detail)
        && after == before.push(first).push(DbCall::AddHistory(h))
        && ra == rb.push(DbReply::Done(None)).push(reply_of(r))
}

/// Hand the store a history entry for an operation, stamped now.
fn record_history<D: Database>(db: &mut Recorded<D>, action: &str, target_type: &str, target_id: &str, target_title: &str, detail: &str) -> (r: Result<(), String>)
    ensures
        exists|h: HistoryItem| #[trigger] records(h, action@, target_type@, target_id@, target_title@, detail@)
            && final(db).calls() == old(db).calls().push(DbCall::AddHistory(h)),
        final(db).replies() == old(db).replies().push(reply_of(r)),
{
    let item = history_item(action, target_type, target_id, target_title, detail);
    let ghost h = item;
    let r = db.add_history_item(item);
    assert(records(h, action@, target_type@, target_id@, target_title@, detail@));
    r
}

// ---------------------------------------------------------------- rules on tasks

/// A subtask title must be present and at most 100 bytes.
pub open spec fn subtask_title_problem(title: Seq<char>) -> Option<Seq<char>> {
    if blank(title) {
        Some("子任务标题不能为空"@)
    } else if byte_len(title) > 100 {
        Some("子任务标题长度不能超过100个字符"@)
    } else {
        None
    }
}

/// A note's content must be present and at most 500 bytes.
pub open spec fn note_content_problem(content: Seq<char>) -> Option<Seq<char>> {
    if blank(content) {
        Some("备注内容不能为空"@)
    } else if byte_len(content) > 500 {
        Some("备注内容长度不能超过500个字符"@)
    } else {
        None
    }
}

pub fn check_subtask_title(title: &str) -> (r: Result<(), String>)
    ensures
        match r {
            Ok(()) => subtask_title_problem(title@) is None,
            Err(e) => subtask_title_problem(title@) == Some(e@),
        },
{
    proof {
        reveal_strlit("子任务标题不能为空");
        reveal_strlit("子任务标题长度不能超过100个字符");
    }
    if is_blank(title) {
        return Err(owned("子任务标题不能为空"));
    }
    if byte_len_capped(title, 101) > 100 {
        return Err(owned("子任务标题长度不能超过100个字符"));
    }
    Ok(())
}

pub fn check_note_content(content: &str) -> (r: Result<(), String>)
    ensures
        match r {
            Ok(()) => note_content_problem(content@) is None,
            Err(e) => note_content_problem(content@) == Some(e@),
        },
{
    proof {
        reveal_strlit("备注内容不能为空");
        reveal_strlit("备注内容长度不能超过500个字符");
    }
    if is_blank(content) {
        return Err(owned("备注内容不能为空"));
    }
    if byte_len_capped(content, 501) > 500 {
        return Err(owned("备注内容长度不能超过500个字符"));
    }
    Ok(())
}

/// Flip the first subtask with this id; `false` when there is none.
pub fn toggle_subtask_in(task: &mut Task, subtask_id: &str) -> (found: bool)
    ensures
        found == exists|i: int| 0 <= i < old(task).subtasks@.len() && old(task).subtasks@[i].id@ == subtask_id@,
        found ==> exists|i: int| {
            &&& 0 <= i < old(task).subtasks@.len()
            &&& old(task).subtasks@[i].id@ == subtask_id@
            &&& (forall|j: int| 0 <= j < i ==> old(task).subtasks@[j].id@ != subtask_id@)
            &&& final(task).subtasks@ == old(task).subtasks@.update(
                i,
                Subtask { completed: !old(task).subtasks@[i].completed, ..old(task).subtasks@[i] },
            )
        },
        !found ==> final(task).subtasks == old(task).subtasks,
        same_task_but(*old(task), *final(task)),
        final(task).completed == old(task).completed,
        final(task).notes == old(task).notes && final(task).updated_at == old(task).updated_at,
{
    let mut i: usize = 0;
    while i < task.subtasks.len()
        invariant
            i <= task.subtasks@.len(),
            *task == *old(task),
            forall|j: int| 0 <= j < i ==> task.subtasks@[j].id@ != subtask_id@,
        decreases task.subtasks@.len() - i,
    {
        if same_text(task.subtasks[i].id.as_str(), subtask_id) {
            let flipped = !task.subtasks[i].completed;
            task.subtasks[i].completed = flipped;
            assert(task.subtasks@ =~= old(task).subtasks@.update(
                i as int,
                Subtask { completed: !old(task).subtasks@[i as int].completed, ..old(task).subtasks@[i as int] },
            ));
            return true;
        }
        i = i + 1;
    }
    false
}

/// Drop every subtask with this id; `false` when there was none.
pub fn remove_subtasks(subtasks: &mut Vec<Subtask>, id: &str) -> (removed: bool)
    ensures
        final(subtasks)@ == old(subtasks)@.filter(|s: Subtask| s.id@ != id@),
        removed == exists|i: int| 0 <= i < old(subtasks)@.len() && old(subtasks)@[i].id@ == id@,
{
    let ghost orig = subtasks@;
    let ghost pred = |s: Subtask| s.id@ != id@;
    let mut rest: Vec<Subtask> = Vec::new();
    std::mem::swap(&mut rest, subtasks);
    assert(orig.len() == rest.len());
    let mut removed = false;
    let mut k: usize = 0;
    while rest.len() > 0
        invariant
            k <= orig.len(),
            orig.len() <= usize::MAX,
            rest@ == orig.skip(k as int),
            pred == (|s: Subtask| s.id@ != id@),
            subtasks@ == orig.take(k as int).filter(pred),
            removed == exists|i: int| 0 <= i < k && orig[i].id@ == id@,
        decreases rest@.len(),
    {
        let e = rest.remove(0);
        proof {
            assert(e == orig[k as int]);
            assert(orig.take(k + 1) =~= orig.take(k as int).push(orig[k as int]));
            crate::store::lemma_filter_push(orig.take(k as int), pred, orig[k as int]);
            assert(rest@ =~= orig.skip(k + 1));
        }
        if same_text(e.id.as_str(), id) {
            removed = true;
        } else {
            subtasks.push(e);
        }
        k = k + 1;
    }
    assert(orig.take(orig.len() as int) =~= orig);
    removed
}

/// Drop every note with this id; `false` when there was none.
pub fn remove_notes(notes: &mut Vec<Note>, id: &str) -> (removed: bool)
    ensures
        final(notes)@ == old(notes)@.filter(|n: Note| n.id@ != id@),
        removed == exists|i: int| 0 <= i < old(notes)@.len() && old(notes)@[i].id@ == id@,
{
    let ghost orig = notes@;
    let ghost pred = |n: Note| n.id@ != id@;
    let mut rest: Vec<Note> = Vec::new();
    std::mem::swap(&mut rest, notes);
    assert(orig.len() == rest.len());
    let mut removed = false;
    let mut k: usize = 0;
    while rest.len() > 0
        invariant
            k <= orig.len(),
            orig.len() <= usize::MAX,
            rest@ == orig.skip(k as int),
            pred == (|n: Note| n.id@ != id@),
            notes@ == orig.take(k as int).filter(pred),
            removed == exists|i: int| 0 <= i < k && orig[i].id@ == id@,
        decreases rest@.len(),
    {
        let e = rest.remove(0);
        proof {
            assert(e == orig[k as int]);
            assert(orig.take(k + 1) =~= orig.take(k as int).push(orig[k as int]));
            crate::store::lemma_filter_push(orig.take(k as int), pred, orig[k as int]);
            assert(rest@ =~= orig.skip(k + 1));
        }
        if same_text(e.id.as_str(), id) {
            removed = true;
        } else {
            notes.push(e);
        }
        k = k + 1;
    }
    assert(orig.take(orig.len() as int) =~= orig);
    removed
}

/// A task matches a lowered keyword in its lowered title or description.
pub open spec fn task_matches(t: Task, kw: Seq<char>) -> bool {
    contains_seq(lowercase(t.title@), kw) || contains_seq(lowercase(t.description@), kw)
}

pub open spec fn reminder_matches(r: Reminder, kw: Seq<char>) -> bool {
    contains_seq(lowercase(r.title@), kw)
}

/// `s` is what searching the tasks `ts` and reminders `rs` for `keyword`
/// gives (see `search_in`).
pub open spec fn found_in(s: SearchResult, ts: Seq<Task>, rs: Seq<Reminder>, keyword: Seq<char>) -> bool {
    &&& s.tasks@ == ts.filter(|t: Task| task_matches(t, lowercase(keyword)))
    &&& s.reminders@ == rs.filter(|x: Reminder| reminder_matches(x, lowercase(keyword)))
}

/// Tasks and reminders containing the lowered keyword (tasks by title or
/// description, reminders by title), in their order.
pub fn search_in(tasks: Vec<Task>, reminders: Vec<Reminder>, keyword: &str) -> (r: SearchResult)
    ensures
        r.tasks@ == tasks@.filter(|t: Task| task_matches(t, lowercase(keyword@))),
        r.reminders@ == reminders@.filter(|x: Reminder| reminder_matches(x, lowercase(keyword@))),
{
    let kw = to_lower(keyword);
    let ghost kv = kw@;
    let ghost tp = |t: Task| task_matches(t, kv);
    let ghost rp = |x: Reminder| reminder_matches(x, kv);
    let ghost ts = tasks@;
    let ghost rs = reminders@;
    let mut out_t: Vec<Task> = Vec::new();
    let mut rest = tasks;
    let mut k: usize = 0;
    assert(ts.len() == rest.len());
    while rest.len() > 0
        invariant
            k <= ts.len(),
            ts.len() <= usize::MAX,
            rest@ == ts.skip(k as int),
            tp == (|t: Task| task_matches(t, kv)),
            kv == kw@,
            out_t@ == ts.take(k as int).filter(tp),
        decreases rest@.len(),
    {
        let e = rest.remove(0);
        proof {
            assert(e == ts[k as int]);
            assert(ts.take(k + 1) =~= ts.take(k as int).push(ts[k as int]));
            crate::store::lemma_filter_push(ts.take(k as int), tp, ts[k as int]);
            assert(rest@ =~= ts.skip(k + 1));
        }
        let t_low = to_lower(e.title.as_str());
        let d_low = to_lower(e.description.as_str());
        if contains(t_low.as_str(), kw.as_str()) || contains(d_low.as_str(), kw.as_str()) {
            out_t.push(e);
        }
        k = k + 1;
    }
    assert(ts.take(ts.len() as int) =~= ts);
    let mut out_r: Vec<Reminder> = Vec::new();
    let mut rest_r = reminders;
    let mut j: usize = 0;
    assert(rs.len() == rest_r.len());
    while rest_r.len() > 0
        invariant
            j <= rs.len(),
            rs.len() <= usize::MAX,
            rest_r@ == rs.skip(j as int),
            rp == (|x: Reminder| reminder_matches(x, kv)),
            kv == kw@,
            out_r@ == rs.take(j as int).filter(rp),
        decreases rest_r@.len(),
    {
        let e = rest_r.remove(0);
        proof {
            assert(e == rs[j as int]);
            assert(rs.take(j + 1) =~= rs.take(j as int).push(rs[j as int]));
            crate::store::lemma_filter_push(rs.take(j as int), rp, rs[j as int]);
            assert(rest_r@ =~= rs.skip(j + 1));
        }
        let t_low = to_lower(e.title.as_str());
        if contains(t_low.as_str(), kw.as_str()) {
            out_r.push(e);
        }
        j = j + 1;
    }
    assert(rs.take(rs.len() as int) =~= rs);
    SearchResult { tasks: out_t, reminders: out_r }
}

/// Change detail of an update: the title change, or a general note.
pub open spec fn update_detail(old_title: Seq<char>, new_title: Seq<char>, general: Seq<char>) -> Seq<char> {
    if old_title != new_title { "标题: "@ + old_title + " → "@ + new_title } else { general }
}

fn detail_of(old_title: &str, new_title: &str, general: &str) -> (r: String)
    ensures
        r@ == update_detail(old_title@, new_title@, general@),
{
    proof {
        reveal_strlit("标题: ");
        reveal_strlit(" → ");
    }
    if !same_text(old_title, new_title) {
        let a = crate::text::concat("标题: ", old_title);
        let b = crate::text::concat(a.as_str(), " → ");
        crate::text::concat(b.as_str(), new_title)
    } else {
        owned(general)
    }
}

// ---------------------------------------------------------------- what the services hand to the store

/// The task a lookup found, or the message for a missing one.
pub fn task_found(found: Option<Task>) -> (r: Result<Task, String>)
    ensures
        match found {
            Some(t) => r == Ok::<Task, String>(t),
            None => r matches Err(e) && e@ == "任务不存在"@,
        },
{
    match found {
        Some(t) => Ok(t),
        None => Err(owned("任务不存在")),
    }
}

/// The reminder a lookup found, or the message for a missing one.
pub fn reminder_found(found: Option<Reminder>) -> (r: Result<Reminder, String>)
    ensures
        match found {
            Some(x) => r == Ok::<Reminder, String>(x),
            None => r matches Err(e) && e@ == "提醒不存在"@,
        },
{
    match found {
        Some(x) => Ok(x),
        None => Err(owned("提醒不存在")),
    }
}

/// `b` is `a` with other subtasks, notes, completion flag and update stamp.
pub open spec fn same_task_but(a: Task, b: Task) -> bool {
    &&& b.id == a.id && b.title == a.title && b.description == a.description
    &&& b.category == a.category && b.priority == a.priority && b.due_date == a.due_date
    &&& b.created_at == a.created_at
}

/// A task with its completion flipped, stamped `today`.
/// `t` is `o` with its completion flipped (the update stamp aside).
pub open spec fn task_flip(o: Task, t: Task) -> bool {
    &&& same_task_but(o, t)
    &&& t.completed == !o.completed
    &&& t.subtasks == o.subtasks && t.notes == o.notes
}

/// Toggling a task twice gives it back, but for its update stamp: what the
/// second toggle stores equals the task as first read in every field but
/// `updated_at`.
pub proof fn law_toggle_twice(o: Task, t: Task, u: Task)
    requires
        task_flip(o, t),
        task_flip(t, u),
    ensures
        u == (Task { updated_at: u.updated_at, ..o }),
{
}

pub fn task_toggled(task: Task, today: String) -> (t: Task)
    ensures
        task_flip(task, t),
        t.updated_at == today,
{
    let mut t = task;
    t.completed = !t.completed;
    t.updated_at = today;
    t
}

/// The history detail of a completion switch, by the new state.
pub fn toggle_detail(done: bool) -> (d: &'static str)
    ensures
        d@ == toggle_text(done),
{
    if done { "状态: 未完成 → 已完成" } else { "状态: 已完成 → 未完成" }
}

/// A reminder with its completion flipped.
/// `x` is `o` with its completion flipped.
pub open spec fn reminder_flip(o: Reminder, x: Reminder) -> bool {
    &&& x.completed == !o.completed
    &&& x.id == o.id && x.title == o.title && x.time == o.time && x.category == o.category
}

pub fn reminder_toggled(reminder: Reminder) -> (x: Reminder)
    ensures
        reminder_flip(reminder, x),
{
    let mut x = reminder;
    x.completed = !x.completed;
    x
}

/// `t` is `task` with its first subtask `sid` flipped (the update stamp aside).
pub open spec fn subtask_flip(task: Task, sid: Seq<char>, t: Task) -> bool {
    &&& same_task_but(task, t)
    &&& t.completed == task.completed && t.notes == task.notes
    &&& exists|i: int| {
        &&& 0 <= i < task.subtasks@.len()
        &&& task.subtasks@[i].id@ == sid
        &&& (forall|j: int| 0 <= j < i ==> task.subtasks@[j].id@ != sid)
        &&& t.subtasks@ == task.subtasks@.update(
            i,
            Subtask { completed: !task.subtasks@[i].completed, ..task.subtasks@[i] },
        )
    }
}

/// The task with its first subtask `subtask_id` flipped and the task
/// stamped `today`; the message when it has no such subtask.
pub fn subtask_toggled(task: Task, subtask_id: &str, today: String) -> (r: Result<Task, String>)
    ensures
        match r {
            Ok(t) => subtask_flip(task, subtask_id@, t) && t.updated_at == today,
            Err(e) => e@ == "子任务不存在"@ && forall|i: int|
                0 <= i < task.subtasks@.len() ==> task.subtasks@[i].id@ != subtask_id@,
        },
{
    let mut t = task;
    if toggle_subtask_in(&mut t, subtask_id) {
        t.updated_at = today;
        Ok(t)
    } else {
        Err(owned("子任务不存在"))
    }
}

/// `t` is `task` without its subtasks `sid`, of which it had one at least
/// (the update stamp aside).
pub open spec fn subtask_drop(task: Task, sid: Seq<char>, t: Task) -> bool {
    &&& same_task_but(task, t)
    &&& t.completed == task.completed && t.notes == task.notes
    &&& t.subtasks@ == task.subtasks@.filter(|x: Subtask| x.id@ != sid)
    &&& exists|i: int| 0 <= i < task.subtasks@.len() && task.subtasks@[i].id@ == sid
}

/// The task without its subtasks `subtask_id`, stamped `today`; the message
/// when it has none.
pub fn subtask_removed(task: Task, subtask_id: &str, today: String) -> (r: Result<Task, String>)
    ensures
        match r {
            Ok(t) => subtask_drop(task, subtask_id@, t) && t.updated_at == today,
            Err(e) => e@ == "子任务不存在"@ && forall|i: int|
                0 <= i < task.subtasks@.len() ==> task.subtasks@[i].id@ != subtask_id@,
        },
{
    let mut t = task;
    if !remove_subtasks(&mut t.subtasks, subtask_id) {
        return Err(owned("子任务不存在"));
    }
    t.updated_at = today;
    Ok(t)
}

/// `t` is `task` without its notes `nid`, of which it had one at least (the
/// update stamp aside).
pub open spec fn note_drop(task: Task, nid: Seq<char>, t: Task) -> bool {
    &&& same_task_but(task, t)
    &&& t.completed == task.completed && t.subtasks == task.subtasks
    &&& t.notes@ == task.notes@.filter(|n: Note| n.id@ != nid)
    &&& exists|i: int| 0 <= i < task.notes@.len() && task.notes@[i].id@ == nid
}

/// The task without its notes `note_id`, stamped `today`; the message when
/// it has none.
pub fn note_removed(task: Task, note_id: &str, today: String) -> (r: Result<Task, String>)
    ensures
        match r {
            Ok(t) => note_drop(task, note_id@, t) && t.updated_at == today,
            Err(e) => e@ == "备注不存在"@ && forall|i: int|
                0 <= i < task.notes@.len() ==> task.notes@[i].id@ != note_id@,
        },
{
    let mut t = task;
    if !remove_notes(&mut t.notes, note_id) {
        return Err(owned("备注不存在"));
    }
    t.updated_at = today;
    Ok(t)
}

// ---------------------------------------------------------------- services

/// The history text of a completion switch, by the new state.
pub open spec fn toggle_text(done: bool) -> Seq<char> {
    if done { "状态: 未完成 → 已完成"@ } else { "状态: 已完成 → 未完成"@ }
}

/// `t` is the new task `given` as handed to the store: a fresh id when it
/// had none, its own stamps when set.
pub open spec fn new_task_as_stored(given: Task, t: Task) -> bool {
    &&& t.title == given.title && t.description == given.description && t.category == given.category
    &&& t.priority == given.priority && t.due_date == given.due_date && t.completed == given.completed
    &&& t.subtasks == given.subtasks && t.notes == given.notes
    &&& if given.id@.len() == 0 { uuid_v4_text(t.id@) } else { t.id == given.id }
    &&& if given.created_at@.len() > 0 { t.created_at == given.created_at } else { date_stamp_shape(t.created_at@) }
    &&& if given.updated_at@.len() > 0 { t.updated_at == given.updated_at } else { date_stamp_shape(t.updated_at@) }
}

/// `t` is `given` as it replaces the task `id` (whose stored form was `o`):
/// the id set, the update stamp renewed.
pub open spec fn task_replaced(given: Task, id: Seq<char>, o: Task, t: Task) -> bool {
    &&& t.id@ == id
    &&& t.title == given.title && t.description == given.description && t.category == given.category
    &&& t.priority == given.priority && t.due_date == given.due_date && t.completed == given.completed
    &&& t.subtasks == given.subtasks && t.notes == given.notes && t.created_at == given.created_at
    &&& date_stamp_shape(t.updated_at@)
}

/// `t` is `o` with a new open subtask titled `title` (trimmed) and a fresh id
/// at the end (the update stamp aside).
pub open spec fn subtask_appended(o: Task, title: Seq<char>, t: Task) -> bool {
    &&& same_task_but(o, t)
    &&& t.completed == o.completed && t.notes == o.notes
    &&& t.subtasks@.len() == o.subtasks@.len() + 1
    &&& t.subtasks@.drop_last() == o.subtasks@
    &&& t.subtasks@.last().title@ == trim_seq(title)
    &&& !t.subtasks@.last().completed
    &&& uuid_v4_text(t.subtasks@.last().id@)
}

/// `t` is `o` with the note `note` (its author and content, a fresh id) at
/// the end (the update stamp aside).
pub open spec fn note_appended(o: Task, note: Note, t: Task) -> bool {
    &&& same_task_but(o, t)
    &&& t.completed == o.completed && t.subtasks == o.subtasks
    &&& t.notes@.len() == o.notes@.len() + 1
    &&& t.notes@.drop_last() == o.notes@
    &&& t.notes@.last().author == note.author && t.notes@.last().content == note.content
    &&& uuid_v4_text(t.notes@.last().id@)
    &&& second_stamp_shape(t.notes@.last().created_at@)
}

/// `x` is the new reminder `given` as handed to the store, with a fresh id.
pub open spec fn new_reminder_as_stored(given: Reminder, x: Reminder) -> bool {
    &&& x.title == given.title && x.time == given.time && x.category == given.category
    &&& x.completed == given.completed
    &&& uuid_v4_text(x.id@)
}

/// `x` is `given` as it replaces the reminder `id` (whose stored form was `o`).
pub open spec fn reminder_replaced(given: Reminder, id: Seq<char>, o: Reminder, x: Reminder) -> bool {
    &&& x.id@ == id
    &&& x.title == given.title && x.time == given.time && x.category == given.category
    &&& x.completed == given.completed
}

pub struct TaskService;

impl TaskService {
    /// The statistics (see `task_stats_at`) of the tasks the store gives, on
    /// the machine's local date.
    pub fn get_task_stats<D: Database>(db: &Recorded<D>) -> (r: Result<TaskStats, String>)
        ensures
            r matches Ok(s) ==> stats_of_some_tasks(s),
    {
        let tasks = match db.get_tasks() {
            Ok(t) => t,
            Err(e) => return Err(e),
        };
        let today = get_current_date();
        let s = task_stats_at(&tasks, today.as_str());
        assert(task_stats_hold(tasks@, today@, s));
        assert(stats_of_some_tasks(s));
        Ok(s)
    }

    pub fn get_tasks<D: Database>(db: &Recorded<D>) -> Result<Vec<Task>, String> {
        db.get_tasks()
    }

    pub fn get_task<D: Database>(db: &Recorded<D>, id: &str) -> Result<Option<Task>, String> {
        db.get_task(id)
    }

    /// Store a new task (checked first; a blank id or stamp is filled in) and
    /// record it in the history. A refused task reaches the store not at all.
    pub fn add_task<D: Database>(db: &mut Recorded<D>, task: Task) -> (r: Result<(), String>)
        ensures
            task_problem(task) matches Some(e) ==> (r matches Err(m) && m@ == e && final(db).calls() == old(db).calls()
                && final(db).replies() == old(db).replies()),
            task_problem(task) is None ==> exists|t: Task| #[trigger] new_task_as_stored(task, t)
                && wrote_then_recorded(old(db).calls(), final(db).calls(), old(db).replies(), final(db).replies(), DbCall::AddTask(t), r, "创建"@, "任务"@, t.id@, task.title@, ""@),
    {
        let ghost given = task;
        let mut task = task;
        match validate_task(&task) {
            Ok(()) => {},
            Err(e) => return Err(e),
        }
        if task.id.as_str().is_empty() {
            task.id = generate_uuid();
        }
        if task.created_at.as_str().is_empty() {
            task.created_at = get_current_date();
        }
        if task.updated_at.as_str().is_empty() {
            task.updated_at = get_current_date();
        }
        let title = task.title.clone();
        let task_id = task.id.clone();
        let ghost t = task;
        let ghost before = db.calls();
        let ghost rbefore = db.replies();
        assert(new_task_as_stored(given, t));
        let w = db.add_task(task);
        match w {
            Ok(()) => {},
            Err(e) => {
                assert(wrote_then_recorded(before, db.calls(), rbefore, db.replies(), DbCall::AddTask(t), Err::<(), String>(e), "创建"@, "任务"@, t.id@, given.title@, ""@));
                return Err(e);
            },
        }
        let r = record_history(db, "创建", "任务", task_id.as_str(), title.as_str(), "");
        assert(wrote_then_recorded(before, db.calls(), rbefore, db.replies(), DbCall::AddTask(t), r, "创建"@, "任务"@, t.id@, given.title@, ""@));
        r
    }

    /// Replace a task (checked first; it must exist), stamp it, and record
    /// the change (the title change, when there is one).
    pub fn update_task<D: Database>(db: &mut Recorded<D>, id: &str, task: Task) -> (r: Result<(), String>)
        ensures
            task_problem(task) matches Some(e) ==> (r matches Err(m) && m@ == e && final(db).calls() == old(db).calls()
                && final(db).replies() == old(db).replies()),
            task_problem(task) is None ==> (exists|a: Result<Option<Task>, String>| #[trigger] found_task(id@, a) == final(db).replies()[old(db).replies().len() as int]
                && match a {
                Err(e) => r == Err::<(), String>(e) && final(db).calls() == old(db).calls()
                    && final(db).replies() == old(db).replies().push(found_task(id@, a)),
                Ok(None) => r matches Err(m) && m@ == "任务不存在"@ && final(db).calls() == old(db).calls()
                    && final(db).replies() == old(db).replies().push(found_task(id@, a)),
                Ok(Some(o)) => {
                    ||| exists|t: Task| #[trigger] task_replaced(task, id@, o, t)
                        && wrote_then_recorded(old(db).calls(), final(db).calls(), old(db).replies().push(found_task(id@, a)), final(db).replies(), DbCall::UpdateTask(id@, t), r,
                            "更新"@, "任务"@, id@, task.title@, update_detail(o.title@, task.title@, "更新任务信息"@))
                },
            }),
    {
        let ghost given = task;
        let mut task = task;
        match validate_task(&task) {
            Ok(()) => {},
            Err(e) => return Err(e),
        }
        let found = match db.find_task(id) {
            Ok(f) => f,
            Err(e) => return Err(e),
        };
        let old_task = match task_found(found) {
            Ok(t) => t,
            Err(e) => return Err(e),
        };
        task.id = owned(id);
        task.updated_at = get_current_date();
        let title = task.title.clone();
        let ghost t = task;
        let ghost o = old_task;
        let ghost before = db.calls();
        let ghost rbefore = db.replies();
        assert(task_replaced(given, id@, o, t));
        match db.update_task(id, task) {
            Ok(()) => {},
            Err(e) => {
                assert(wrote_then_recorded(before, db.calls(), rbefore, db.replies(), DbCall::UpdateTask(id@, t), Err::<(), String>(e),
                    "更新"@, "任务"@, id@, given.title@, update_detail(o.title@, given.title@, "更新任务信息"@)));
                return Err(e);
            },
        }
        let detail = detail_of(old_task.title.as_str(), title.as_str(), "更新任务信息");
        let r = record_history(db, "更新", "任务", id, title.as_str(), detail.as_str());
        assert(wrote_then_recorded(before, db.calls(), rbefore, db.replies(), DbCall::UpdateTask(id@, t), r,
            "更新"@, "任务"@, id@, given.title@, update_detail(o.title@, given.title@, "更新任务信息"@)));
        r
    }

    /// Delete a task that exists and record it.
    pub fn delete_task<D: Database>(db: &mut Recorded<D>, id: &str) -> (r: Result<(), String>)
        ensures
            exists|a: Result<Option<Task>, String>| #[trigger] found_task(id@, a) == final(db).replies()[old(db).replies().len() as int]
                && match a {
                Err(e) => r == Err::<(), String>(e) && final(db).calls() == old(db).calls()
                    && final(db).replies() == old(db).replies().push(found_task(id@, a)),
                Ok(None) => r matches Err(m) && m@ == "任务不存在"@ && final(db).calls() == old(db).calls()
                    && final(db).replies() == old(db).replies().push(found_task(id@, a)),
                Ok(Some(o)) => {
                    ||| wrote_then_recorded(old(db).calls(), final(db).calls(), old(db).replies().push(found_task(id@, a)), final(db).replies(), DbCall::DeleteTask(id@), r,
                        "删除"@, "任务"@, id@, o.title@, ""@)
                },
            },
    {
        let found = match db.find_task(id) {
            Ok(f) => f,
            Err(e) => return Err(e),
        };
        let task = match task_found(found) {
            Ok(t) => t,
            Err(e) => return Err(e),
        };
        let ghost before = db.calls();
        let ghost rbefore = db.replies();
        match db.delete_task(id) {
            Ok(()) => {},
            Err(e) => {
                assert(wrote_then_recorded(before, db.calls(), rbefore, db.replies(), DbCall::DeleteTask(id@), Err::<(), String>(e), "删除"@, "任务"@, id@, task.title@, ""@));
                return Err(e);
            },
        }
        let r = record_history(db, "删除", "任务", id, task.title.as_str(), "");
        assert(wrote_then_recorded(before, db.calls(), rbefore, db.replies(), DbCall::DeleteTask(id@), r, "删除"@, "任务"@, id@, task.title@, ""@));
        r
    }

    /// Flip a task's completion, stamp it, and record the change.
    pub fn toggle_task<D: Database>(db: &mut Recorded<D>, id: &str) -> (r: Result<(), String>)
        ensures
            exists|a: Result<Option<Task>, String>| #[trigger] found_task(id@, a) == final(db).replies()[old(db).replies().len() as int]
                && match a {
                Err(e) => r == Err::<(), String>(e) && final(db).calls() == old(db).calls()
                    && final(db).replies() == old(db).replies().push(found_task(id@, a)),
                Ok(None) => r matches Err(m) && m@ == "任务不存在"@ && final(db).calls() == old(db).calls()
                    && final(db).replies() == old(db).replies().push(found_task(id@, a)),
                Ok(Some(o)) => {
                    ||| exists|t: Task| #[trigger] task_flip(o, t) && date_stamp_shape(t.updated_at@)
                        && wrote_then_recorded(old(db).calls(), final(db).calls(), old(db).replies().push(found_task(id@, a)), final(db).replies(), DbCall::UpdateTask(id@, t), r,
                            "完成"@, "任务"@, id@, o.title@, toggle_text(t.completed))
                },
            },
    {
        let found = match db.find_task(id) {
            Ok(f) => f,
            Err(e) => return Err(e),
        };
        let found = match task_found(found) {
            Ok(t) => t,
            Err(e) => return Err(e),
        };
        let ghost o = found;
        let task = task_toggled(found, get_current_date());
        let title = task.title.clone();
        let done = task.completed;
        let ghost t = task;
        let ghost before = db.calls();
        let ghost rbefore = db.replies();
        assert(task_flip(o, t));
        match db.update_task(id, task) {
            Ok(()) => {},
            Err(e) => {
                assert(wrote_then_recorded(before, db.calls(), rbefore, db.replies(), DbCall::UpdateTask(id@, t), Err::<(), String>(e),
                    "完成"@, "任务"@, id@, o.title@, toggle_text(t.completed)));
                return Err(e);
            },
        }
        let r = record_history(db, "完成", "任务", id, title.as_str(), toggle_detail(done));
        assert(wrote_then_recorded(before, db.calls(), rbefore, db.replies(), DbCall::UpdateTask(id@, t), r,
            "完成"@, "任务"@, id@, o.title@, toggle_text(t.completed)));
        r
    }

    /// Flip a subtask of a task, store the task and record the change.
    pub fn toggle_subtask<D: Database>(db: &mut Recorded<D>, task_id: &str, subtask_id: &str) -> (r: Result<(), String>)
        ensures
            exists|a: Result<Option<Task>, String>| #[trigger] found_task(task_id@, a) == final(db).replies()[old(db).replies().len() as int]
                && match a {
                Err(e) => r == Err::<(), String>(e) && final(db).calls() == old(db).calls()
                    && final(db).replies() == old(db).replies().push(found_task(task_id@, a)),
                Ok(None) => r matches Err(m) && m@ == "任务不存在"@ && final(db).calls() == old(db).calls()
                    && final(db).replies() == old(db).replies().push(found_task(task_id@, a)),
                Ok(Some(o)) => {
                    ||| (forall|i: int| 0 <= i < o.subtasks@.len() ==> o.subtasks@[i].id@ != subtask_id@)
                        && (r matches Err(m) && m@ == "子任务不存在"@) && final(db).calls() == old(db).calls()
                        && final(db).replies() == old(db).replies().push(found_task(task_id@, a))
                    ||| exists|t: Task| #[trigger] subtask_flip(o, subtask_id@, t) && date_stamp_shape(t.updated_at@)
                        && wrote_then_recorded(old(db).calls(), final(db).calls(), old(db).replies().push(found_task(task_id@, a)), final(db).replies(), DbCall::UpdateTask(task_id@, t), r,
                            "更新"@, "任务"@, task_id@, o.title@, "切换子任务状态"@)
                },
            },
    {
        let found = match db.find_task(task_id) {
            Ok(f) => f,
            Err(e) => return Err(e),
        };
        let found = match task_found(found) {
            Ok(t) => t,
            Err(e) => return Err(e),
        };
        let ghost o = found;
        let title = found.title.clone();
        let task = match subtask_toggled(found, subtask_id, get_current_date()) {
            Ok(t) => t,
            Err(e) => return Err(e),
        };
        let ghost t = task;
        let ghost before = db.calls();
        let ghost rbefore = db.replies();
        match db.update_task(task_id, task) {
            Ok(()) => {},
            Err(e) => {
                assert(wrote_then_recorded(before, db.calls(), rbefore, db.replies(), DbCall::UpdateTask(task_id@, t), Err::<(), String>(e),
                    "更新"@, "任务"@, task_id@, o.title@, "切换子任务状态"@));
                return Err(e);
            },
        }
        let r = record_history(db, "更新", "任务", task_id, title.as_str(), "切换子任务状态");
        assert(wrote_then_recorded(before, db.calls(), rbefore, db.replies(), DbCall::UpdateTask(task_id@, t), r,
            "更新"@, "任务"@, task_id@, o.title@, "切换子任务状态"@));
        r
    }

    /// Add a subtask (title checked first, stored trimmed, given a fresh id)
    /// to a task, and record the change.
    pub fn add_subtask<D: Database>(db: &mut Recorded<D>, task_id: &str, title: &str) -> (r: Result<(), String>)
        ensures
            subtask_title_problem(title@) matches Some(e) ==> (r matches Err(m) && m@ == e && final(db).calls() == old(db).calls()
                && final(db).replies() == old(db).replies()),
            subtask_title_problem(title@) is None ==> (exists|a: Result<Option<Task>, String>| #[trigger] found_task(task_id@, a) == final(db).replies()[old(db).replies().len() as int]
                && match a {
                Err(e) => r == Err::<(), String>(e) && final(db).calls() == old(db).calls()
                    && final(db).replies() == old(db).replies().push(found_task(task_id@, a)),
                Ok(None) => r matches Err(m) && m@ == "任务不存在"@ && final(db).calls() == old(db).calls()
                    && final(db).replies() == old(db).replies().push(found_task(task_id@, a)),
                Ok(Some(o)) => {
                    ||| exists|t: Task| #[trigger] subtask_appended(o, title@, t) && date_stamp_shape(t.updated_at@)
                        && wrote_then_recorded(old(db).calls(), final(db).calls(), old(db).replies().push(found_task(task_id@, a)), final(db).replies(), DbCall::UpdateTask(task_id@, t), r,
                            "更新"@, "任务"@, task_id@, o.title@, "添加子任务"@)
                },
            }),
    {
        match check_subtask_title(title) {
            Ok(()) => {},
            Err(e) => return Err(e),
        }
        let found = match db.find_task(task_id) {
            Ok(f) => f,
            Err(e) => return Err(e),
        };
        let mut task = match task_found(found) {
            Ok(t) => t,
            Err(e) => return Err(e),
        };
        let ghost o = task;
        let task_title = task.title.clone();
        task.subtasks.push(Subtask { id: generate_uuid(), title: trim(title), completed: false });
        task.updated_at = get_current_date();
        let ghost t = task;
        let ghost before = db.calls();
        let ghost rbefore = db.replies();
        assert(t.subtasks@.drop_last() =~= o.subtasks@);
        assert(subtask_appended(o, title@, t));
        match db.update_task(task_id, task) {
            Ok(()) => {},
            Err(e) => {
                assert(wrote_then_recorded(before, db.calls(), rbefore, db.replies(), DbCall::UpdateTask(task_id@, t), Err::<(), String>(e),
                    "更新"@, "任务"@, task_id@, o.title@, "添加子任务"@));
                return Err(e);
            },
        }
        let r = record_history(db, "更新", "任务", task_id, task_title.as_str(), "添加子任务");
        assert(wrote_then_recorded(before, db.calls(), rbefore, db.replies(), DbCall::UpdateTask(task_id@, t), r,
            "更新"@, "任务"@, task_id@, o.title@, "添加子任务"@));
        r
    }

    /// Remove a subtask from a task and record the change.
    pub fn delete_subtask<D: Database>(db: &mut Recorded<D>, task_id: &str, subtask_id: &str) -> (r: Result<(), String>)
        ensures
            exists|a: Result<Option<Task>, String>| #[trigger] found_task(task_id@, a) == final(db).replies()[old(db).replies().len() as int]
                && match a {
                Err(e) => r == Err::<(), String>(e) && final(db).calls() == old(db).calls()
                    && final(db).replies() == old(db).replies().push(found_task(task_id@, a)),
                Ok(None) => r matches Err(m) && m@ == "任务不存在"@ && final(db).calls() == old(db).calls()
                    && final(db).replies() == old(db).replies().push(found_task(task_id@, a)),
                Ok(Some(o)) => {
                    ||| (forall|i: int| 0 <= i < o.subtasks@.len() ==> o.subtasks@[i].id@ != subtask_id@)
                        && (r matches Err(m) && m@ == "子任务不存在"@) && final(db).calls() == old(db).calls()
                        && final(db).replies() == old(db).replies().push(found_task(task_id@, a))
                    ||| exists|t: Task| #[trigger] subtask_drop(o, subtask_id@, t) && date_stamp_shape(t.updated_at@)
                        && wrote_then_recorded(old(db).calls(), final(db).calls(), old(db).replies().push(found_task(task_id@, a)), final(db).replies(), DbCall::UpdateTask(task_id@, t), r,
                            "更新"@, "任务"@, task_id@, o.title@, "删除子任务"@)
                },
            },
    {
        let found = match db.find_task(task_id) {
            Ok(f) => f,
            Err(e) => return Err(e),
        };
        let found = match task_found(found) {
            Ok(t) => t,
            Err(e) => return Err(e),
        };
        let ghost o = found;
        let title = found.title.clone();
        let task = match subtask_removed(found, subtask_id, get_current_date()) {
            Ok(t) => t,
            Err(e) => return Err(e),
        };
        let ghost t = task;
        let ghost before = db.calls();
        let ghost rbefore = db.replies();
        match db.update_task(task_id, task) {
            Ok(()) => {},
            Err(e) => {
                assert(wrote_then_recorded(before, db.calls(), rbefore, db.replies(), DbCall::UpdateTask(task_id@, t), Err::<(), String>(e),
                    "更新"@, "任务"@, task_id@, o.title@, "删除子任务"@));
                return Err(e);
            },
        }
        let r = record_history(db, "更新", "任务", task_id, title.as_str(), "删除子任务");
        assert(wrote_then_recorded(before, db.calls(), rbefore, db.replies(), DbCall::UpdateTask(task_id@, t), r,
            "更新"@, "任务"@, task_id@, o.title@, "删除子任务"@));
        r
    }

    /// Add a note (content checked first; given a fresh id and stamp) to a
    /// task, and record the change.
    pub fn add_note<D: Database>(db: &mut Recorded<D>, task_id: &str, note: Note) -> (r: Result<(), String>)
        ensures
            note_content_problem(note.content@) matches Some(e) ==> (r matches Err(m) && m@ == e && final(db).calls() == old(db).calls()
                && final(db).replies() == old(db).replies()),
            note_content_problem(note.content@) is None ==> (exists|a: Result<Option<Task>, String>| #[trigger] found_task(task_id@, a) == final(db).replies()[old(db).replies().len() as int]
                && match a {
                Err(e) => r == Err::<(), String>(e) && final(db).calls() == old(db).calls()
                    && final(db).replies() == old(db).replies().push(found_task(task_id@, a)),
                Ok(None) => r matches Err(m) && m@ == "任务不存在"@ && final(db).calls() == old(db).calls()
                    && final(db).replies() == old(db).replies().push(found_task(task_id@, a)),
                Ok(Some(o)) => {
                    ||| exists|t: Task| #[trigger] note_appended(o, note, t) && date_stamp_shape(t.updated_at@)
                        && wrote_then_recorded(old(db).calls(), final(db).calls(), old(db).replies().push(found_task(task_id@, a)), final(db).replies(), DbCall::UpdateTask(task_id@, t), r,
                            "更新"@, "任务"@, task_id@, o.title@, "添加备注"@)
                },
            }),
    {
        let ghost given = note;
        let mut note = note;
        match check_note_content(note.content.as_str()) {
            Ok(()) => {},
            Err(e) => return Err(e),
        }
        let found = match db.find_task(task_id) {
            Ok(f) => f,
            Err(e) => return Err(e),
        };
        let mut task = match task_found(found) {
            Ok(t) => t,
            Err(e) => return Err(e),
        };
        let ghost o = task;
        let task_title = task.title.clone();
        note.id = generate_uuid();
        note.created_at = get_current_time();
        task.notes.push(note);
        task.updated_at = get_current_date();
        let ghost t = task;
        let ghost before = db.calls();
        let ghost rbefore = db.replies();
        assert(t.notes@.drop_last() =~= o.notes@);
        assert(note_appended(o, given, t));
        match db.update_task(task_id, task) {
            Ok(()) => {},
            Err(e) => {
                assert(wrote_then_recorded(before, db.calls(), rbefore, db.replies(), DbCall::UpdateTask(task_id@, t), Err::<(), String>(e),
                    "更新"@, "任务"@, task_id@, o.title@, "添加备注"@));
                return Err(e);
            },
        }
        let r = record_history(db, "更新", "任务", task_id, task_title.as_str(), "添加备注");
        assert(wrote_then_recorded(before, db.calls(), rbefore, db.replies(), DbCall::UpdateTask(task_id@, t), r,
            "更新"@, "任务"@, task_id@, o.title@, "添加备注"@));
        r
    }

    /// Remove a note from a task and record the change.
    pub fn delete_note<D: Database>(db: &mut Recorded<D>, task_id: &str, note_id: &str) -> (r: Result<(), String>)
        ensures
            exists|a: Result<Option<Task>, String>| #[trigger] found_task(task_id@, a) == final(db).replies()[old(db).replies().len() as int]
                && match a {
                Err(e) => r == Err::<(), String>(e) && final(db).calls() == old(db).calls()
                    && final(db).replies() == old(db).replies().push(found_task(task_id@, a)),
                Ok(None) => r matches Err(m) && m@ == "任务不存在"@ && final(db).calls() == old(db).calls()
                    && final(db).replies() == old(db).replies().push(found_task(task_id@, a)),
                Ok(Some(o)) => {
                    ||| (forall|i: int| 0 <= i < o.notes@.len() ==> o.notes@[i].id@ != note_id@)
                        && (r matches Err(m) && m@ == "备注不存在"@) && final(db).calls() == old(db).calls()
                        && final(db).replies() == old(db).replies().push(found_task(task_id@, a))
                    ||| exists|t: Task| #[trigger] note_drop(o, note_id@, t) && date_stamp_shape(t.updated_at@)
                        && wrote_then_recorded(old(db).calls(), final(db).calls(), old(db).replies().push(found_task(task_id@, a)), final(db).replies(), DbCall::UpdateTask(task_id@, t), r,
                            "更新"@, "任务"@, task_id@, o.title@, "删除备注"@)
                },
            },
    {
        let found = match db.find_task(task_id) {
            Ok(f) => f,
            Err(e) => return Err(e),
        };
        let found = match task_found(found) {
            Ok(t) => t,
            Err(e) => return Err(e),
        };
        let ghost o = found;
        let title = found.title.clone();
        let task = match note_removed(found, note_id, get_current_date()) {
            Ok(t) => t,
            Err(e) => return Err(e),
        };
        let ghost t = task;
        let ghost before = db.calls();
        let ghost rbefore = db.replies();
        match db.update_task(task_id, task) {
            Ok(()) => {},
            Err(e) => {
                assert(wrote_then_recorded(before, db.calls(), rbefore, db.replies(), DbCall::UpdateTask(task_id@, t), Err::<(), String>(e),
                    "更新"@, "任务"@, task_id@, o.title@, "删除备注"@));
                return Err(e);
            },
        }
        let r = record_history(db, "更新", "任务", task_id, title.as_str(), "删除备注");
        assert(wrote_then_recorded(before, db.calls(), rbefore, db.replies(), DbCall::UpdateTask(task_id@, t), r,
            "更新"@, "任务"@, task_id@, o.title@, "删除备注"@));
        r
    }

    /// Tasks and reminders containing a keyword (case-insensitive); a blank
    /// keyword is refused.
    pub fn search<D: Database>(db: &Recorded<D>, keyword: &str) -> (r: Result<SearchResult, String>)
        ensures
            blank(keyword@) ==> (r matches Err(m) && m@ == "搜索关键词不能为空"@),
            r matches Ok(s) ==> !blank(keyword@) && exists|ts: Seq<Task>, rs: Seq<Reminder>|
                #[trigger] found_in(s, ts, rs, keyword@),
    {
        if is_blank(keyword) {
            return Err(owned("搜索关键词不能为空"));
        }
        let tasks = match db.get_tasks() {
            Ok(v) => v,
            Err(e) => return Err(e),
        };
        let reminders = match db.get_reminders() {
            Ok(v) => v,
            Err(e) => return Err(e),
        };
        let ghost ts = tasks@;
        let ghost rs = reminders@;
        let s = search_in(tasks, reminders, keyword);
        assert(found_in(s, ts, rs, keyword@));
        let r = Ok(s);
        assert(r matches Ok(s2) && found_in(s2, ts, rs, keyword@));
        r
    }
}

pub struct ReminderService;

impl ReminderService {
    pub fn get_reminders<D: Database>(db: &Recorded<D>) -> Result<Vec<Reminder>, String> {
        db.get_reminders()
    }

    /// Store a new reminder (checked first; given a fresh id) and record it.
    pub fn add_reminder<D: Database>(db: &mut Recorded<D>, reminder: Reminder) -> (r: Result<(), String>)
        ensures
            reminder_problem(reminder) matches Some(e) ==> (r matches Err(m) && m@ == e && final(db).calls() == old(db).calls()
                && final(db).replies() == old(db).replies()),
            reminder_problem(reminder) is None ==> exists|x: Reminder| #[trigger] new_reminder_as_stored(reminder, x)
                && wrote_then_recorded(old(db).calls(), final(db).calls(), old(db).replies(), final(db).replies(), DbCall::AddReminder(x), r, "创建"@, "提醒"@, x.id@, reminder.title@, ""@),
    {
        let ghost given = reminder;
        let mut reminder = reminder;
        match validate_reminder(&reminder) {
            Ok(()) => {},
            Err(e) => return Err(e),
        }
        reminder.id = generate_uuid();
        let title = reminder.title.clone();
        let reminder_id = reminder.id.clone();
        let ghost x = reminder;
        let ghost before = db.calls();
        let ghost rbefore = db.replies();
        assert(new_reminder_as_stored(given, x));
        match db.add_reminder(reminder) {
            Ok(()) => {},
            Err(e) => {
                assert(wrote_then_recorded(before, db.calls(), rbefore, db.replies(), DbCall::AddReminder(x), Err::<(), String>(e), "创建"@, "提醒"@, x.id@, given.title@, ""@));
                return Err(e);
            },
        }
        let r = record_history(db, "创建", "提醒", reminder_id.as_str(), title.as_str(), "");
        assert(wrote_then_recorded(before, db.calls(), rbefore, db.replies(), DbCall::AddReminder(x), r, "创建"@, "提醒"@, x.id@, given.title@, ""@));
        r
    }

    /// Replace a reminder (checked first; it must exist) and record the change.
    pub fn update_reminder<D: Database>(db: &mut Recorded<D>, id: &str, reminder: Reminder) -> (r: Result<(), String>)
        ensures
            reminder_problem(reminder) matches Some(e) ==> (r matches Err(m) && m@ == e && final(db).calls() == old(db).calls()
                && final(db).replies() == old(db).replies()),
            reminder_problem(reminder) is None ==> (exists|a: Result<Option<Reminder>, String>| #[trigger] found_reminder(id@, a) == final(db).replies()[old(db).replies().len() as int]
                && match a {
                Err(e) => r == Err::<(), String>(e) && final(db).calls() == old(db).calls()
                    && final(db).replies() == old(db).replies().push(found_reminder(id@, a)),
                Ok(None) => r matches Err(m) && m@ == "提醒不存在"@ && final(db).calls() == old(db).calls()
                    && final(db).replies() == old(db).replies().push(found_reminder(id@, a)),
                Ok(Some(o)) => {
                    ||| exists|x: Reminder| #[trigger] reminder_replaced(reminder, id@, o, x)
                        && wrote_then_recorded(old(db).calls(), final(db).calls(), old(db).replies().push(found_reminder(id@, a)), final(db).replies(), DbCall::UpdateReminder(id@, x), r,
                            "更新"@, "提醒"@, id@, reminder.title@, update_detail(o.title@, reminder.title@, "更新提醒信息"@))
                },
            }),
    {
        let ghost given = reminder;
        let mut reminder = reminder;
        match validate_reminder(&reminder) {
            Ok(()) => {},
            Err(e) => return Err(e),
        }
        let found = match db.find_reminder(id) {
            Ok(f) => f,
            Err(e) => return Err(e),
        };
        let old_reminder = match reminder_found(found) {
            Ok(x) => x,
            Err(e) => return Err(e),
        };
        reminder.id = owned(id);
        let title = reminder.title.clone();
        let ghost x = reminder;
        let ghost o = old_reminder;
        let ghost before = db.calls();
        let ghost rbefore = db.replies();
        assert(reminder_replaced(given, id@, o, x));
        match db.update_reminder(id, reminder) {
            Ok(()) => {},
            Err(e) => {
                assert(wrote_then_recorded(before, db.calls(), rbefore, db.replies(), DbCall::UpdateReminder(id@, x), Err::<(), String>(e),
                    "更新"@, "提醒"@, id@, given.title@, update_detail(o.title@, given.title@, "更新提醒信息"@)));
                return Err(e);
            },
        }
        let detail = detail_of(old_reminder.title.as_str(), title.as_str(), "更新提醒信息");
        let r = record_history(db, "更新", "提醒", id, title.as_str(), detail.as_str());
        assert(wrote_then_recorded(before, db.calls(), rbefore, db.replies(), DbCall::UpdateReminder(id@, x), r,
            "更新"@, "提醒"@, id@, given.title@, update_detail(o.title@, given.title@, "更新提醒信息"@)));
        r
    }

    /// Delete a reminder that exists and record it.
    pub fn delete_reminder<D: Database>(db: &mut Recorded<D>, id: &str) -> (r: Result<(), String>)
        ensures
            exists|a: Result<Option<Reminder>, String>| #[trigger] found_reminder(id@, a) == final(db).replies()[old(db).replies().len() as int]
                && match a {
                Err(e) => r == Err::<(), String>(e) && final(db).calls() == old(db).calls()
                    && final(db).replies() == old(db).replies().push(found_reminder(id@, a)),
                Ok(None) => r matches Err(m) && m@ == "提醒不存在"@ && final(db).calls() == old(db).calls()
                    && final(db).replies() == old(db).replies().push(found_reminder(id@, a)),
                Ok(Some(o)) => {
                    ||| wrote_then_recorded(old(db).calls(), final(db).calls(), old(db).replies().push(found_reminder(id@, a)), final(db).replies(), DbCall::DeleteReminder(id@), r,
                        "删除"@, "提醒"@, id@, o.title@, ""@)
                },
            },
    {
        let found = match db.find_reminder(id) {
            Ok(f) => f,
            Err(e) => return Err(e),
        };
        let reminder = match reminder_found(found) {
            Ok(x) => x,
            Err(e) => return Err(e),
        };
        let ghost before = db.calls();
        let ghost rbefore = db.replies();
        match db.delete_reminder(id) {
            Ok(()) => {},
            Err(e) => {
                assert(wrote_then_recorded(before, db.calls(), rbefore, db.replies(), DbCall::DeleteReminder(id@), Err::<(), String>(e), "删除"@, "提醒"@, id@, reminder.title@, ""@));
                return Err(e);
            },
        }
        let r = record_history(db, "删除", "提醒", id, reminder.title.as_str(), "");
        assert(wrote_then_recorded(before, db.calls(), rbefore, db.replies(), DbCall::DeleteReminder(id@), r, "删除"@, "提醒"@, id@, reminder.title@, ""@));
        r
    }

    /// Flip a reminder's completion, store it and record the change.
    pub fn toggle_reminder<D: Database>(db: &mut Recorded<D>, id: &str) -> (r: Result<(), String>)
        ensures
            exists|a: Result<Option<Reminder>, String>| #[trigger] found_reminder(id@, a) == final(db).replies()[old(db).replies().len() as int]
                && match a {
                Err(e) => r == Err::<(), String>(e) && final(db).calls() == old(db).calls()
                    && final(db).replies() == old(db).replies().push(found_reminder(id@, a)),
                Ok(None) => r matches Err(m) && m@ == "提醒不存在"@ && final(db).calls() == old(db).calls()
                    && final(db).replies() == old(db).replies().push(found_reminder(id@, a)),
                Ok(Some(o)) => {
                    ||| exists|x: Reminder| #[trigger] reminder_flip(o, x)
                        && wrote_then_recorded(old(db).calls(), final(db).calls(), old(db).replies().push(found_reminder(id@, a)), final(db).replies(), DbCall::UpdateReminder(id@, x), r,
                            "完成"@, "提醒"@, id@, o.title@, toggle_text(x.completed))
                },
            },
    {
        let found = match db.find_reminder(id) {
            Ok(f) => f,
            Err(e) => return Err(e),
        };
        let found = match reminder_found(found) {
            Ok(x) => x,
            Err(e) => return Err(e),
        };
        let ghost o = found;
        let reminder = reminder_toggled(found);
        let title = reminder.title.clone();
        let done = reminder.completed;
        let ghost x = reminder;
        let ghost before = db.calls();
        let ghost rbefore = db.replies();
        assert(reminder_flip(o, x));
        match db.update_reminder(id, reminder) {
            Ok(()) => {},
            Err(e) => {
                assert(wrote_then_recorded(before, db.calls(), rbefore, db.replies(), DbCall::UpdateReminder(id@, x), Err::<(), String>(e),
                    "完成"@, "提醒"@, id@, o.title@, toggle_text(x.completed)));
                return Err(e);
            },
        }
        let r = record_history(db, "完成", "提醒", id, title.as_str(), toggle_detail(done));
        assert(wrote_then_recorded(before, db.calls(), rbefore, db.replies(), DbCall::UpdateReminder(id@, x), r,
            "完成"@, "提醒"@, id@, o.title@, toggle_text(x.completed)));
        r
    }
}

pub struct HistoryService;

impl HistoryService {
    /// Counts by action and by target kind, with the total (see
    /// `history_stats`), of the history the store gives.
    pub fn get_history_stats<D: Database>(db: &Recorded<D>) -> (r: Result<Vec<(String, usize)>, String>)
        ensures
            r matches Ok(s) ==> stats_of_some_history(s@),
    {
        let history = match db.get_history() {
            Ok(h) => h,
            Err(e) => return Err(e),
        };
        let s = history_stats(&history);
        assert(history_stats_hold(history@, s@));
        assert(stats_of_some_history(s@));
        Ok(s)
    }

    pub fn get_history<D: Database>(db: &Recorded<D>) -> Result<Vec<HistoryItem>, String> {
        db.get_history()
    }

    pub fn get_history_by_date<D: Database>(db: &Recorded<D>, date: &str) -> Result<Vec<HistoryItem>, String> {
        db.get_history_by_date(date)
    }

    pub fn get_history_by_type<D: Database>(db: &Recorded<D>, target_type: &str) -> Result<Vec<HistoryItem>, String> {
        db.get_history_by_type(target_type)
    }

    pub fn get_history_by_action<D: Database>(db: &Recorded<D>, action: &str) -> Result<Vec<HistoryItem>, String> {
        db.get_history_by_action(action)
    }

    /// Hand the store a clearing of the history.
    pub fn clear_history<D: Database>(db: &mut Recorded<D>) -> (r: Result<(), String>)
        ensures
            final(db).calls() == old(db).calls().push(DbCall::ClearHistory),
            final(db).replies() == old(db).replies().push(reply_of(r)),
    {
        db.clear_history()
    }

    /// Hand the store the deletion of history entry `id`.
    pub fn delete_history_item<D: Database>(db: &mut Recorded<D>, id: &str) -> (r: Result<(), String>)
        ensures
            final(db).calls() == old(db).calls().push(DbCall::DeleteHistory(id@)),
            final(db).replies() == old(db).replies().push(reply_of(r)),
    {
        db.delete_history_item(id)
    }
}

pub struct ConfigService;

impl ConfigService {
    pub fn get_theme<D: Database>(db: &Recorded<D>) -> Result<String, String> {
        db.get_theme()
    }

    /// Store the theme; only `light` and `dark` are accepted, and a refused
    /// theme reaches the store not at all.
    pub fn set_theme<D: Database>(db: &mut Recorded<D>, theme: &str) -> (r: Result<(), String>)
        ensures
            !(theme@ == "light"@ || theme@ == "dark"@) ==> (r matches Err(m) && m@ == "无效的主题设置"@
                && final(db).calls() == old(db).calls() && final(db).replies() == old(db).replies()),
            (theme@ == "light"@ || theme@ == "dark"@) ==> final(db).calls() == old(db).calls().push(DbCall::SetTheme(theme@))
                && final(db).replies() == old(db).replies().push(reply_of(r)),
    {
        proof {
            reveal_strlit("无效的主题设置");
        }
        if !(same_text(theme, "light") || same_text(theme, "dark")) {
            return Err(owned("无效的主题设置"));
        }
        db.set_theme(theme)
    }
}


// ---------------------------------------------------------------- statistics

/// The count kept for `k` (the first entry with that key).
pub open spec fn lookup(cs: Seq<(String, usize)>, k: Seq<char>) -> Option<usize>
    decreases cs.len(),
{
    if cs.len() == 0 {
        None
    } else if cs[0].0@ == k {
        Some(cs[0].1)
    } else {
        lookup(cs.drop_first(), k)
    }
}

/// A count, stopping at `usize::MAX`.
pub open spec fn cap(n: nat) -> usize {
    if n > usize::MAX { usize::MAX } else { n as usize }
}

proof fn lemma_lookup_push(cs: Seq<(String, usize)>, x: (String, usize), k: Seq<char>)
    ensures
        lookup(cs.push(x), k) == (match lookup(cs, k) {
            Some(c) => Some(c),
            None => if x.0@ == k { Some(x.1) } else { None },
        }),
    decreases cs.len(),
{
    reveal_with_fuel(lookup, 2);
    if cs.len() > 0 {
        assert(cs.push(x).drop_first() =~= cs.drop_first().push(x));
        assert(cs.push(x)[0] == cs[0]);
        lemma_lookup_push(cs.drop_first(), x, k);
    } else {
        assert(cs.push(x).drop_first() =~= Seq::<(String, usize)>::empty());
        assert(cs.push(x)[0] == x);
    }
}

proof fn lemma_lookup_set(cs: Seq<(String, usize)>, p: int, c: usize, k: Seq<char>)
    requires
        0 <= p < cs.len(),
        forall|j: int| 0 <= j < p ==> (#[trigger] cs[j]).0@ != cs[p].0@,
    ensures
        lookup(cs.update(p, (cs[p].0, c)), k) == (if k == cs[p].0@ { Some(c) } else { lookup(cs, k) }),
    decreases cs.len(),
{
    let u = cs.update(p, (cs[p].0, c));
    if p == 0 {
        assert(u.drop_first() =~= cs.drop_first());
    } else {
        let t = cs.drop_first();
        assert forall|j: int| 0 <= j < p - 1 implies (#[trigger] t[j]).0@ != t[p - 1].0@ by {
            assert(t[j] == cs[j + 1]);
        }
        lemma_lookup_set(t, p - 1, c, k);
        assert(u.drop_first() =~= t.update(p - 1, (t[p - 1].0, c)));
        assert(u[0] == cs[0]);
        assert(t[p - 1] == cs[p]);
        if k == cs[p].0@ {
            assert(cs[0].0@ != k);
        }
    }
}

proof fn lemma_lookup_none(cs: Seq<(String, usize)>, k: Seq<char>)
    requires
        forall|j: int| 0 <= j < cs.len() ==> (#[trigger] cs[j]).0@ != k,
    ensures
        lookup(cs, k) is None,
    decreases cs.len(),
{
    if cs.len() > 0 {
        let t = cs.drop_first();
        assert forall|j: int| 0 <= j < t.len() implies (#[trigger] t[j]).0@ != k by {
            assert(t[j] == cs[j + 1]);
        }
        lemma_lookup_none(t, k);
    }
}

/// One more for `key`.
pub open spec fn bumped(prev: Option<usize>) -> Option<usize> {
    match prev {
        Some(c) => Some(cap((c + 1) as nat)),
        None => Some(1),
    }
}

/// Count one more `key`.
fn bump(counts: &mut Vec<(String, usize)>, key: &String)
    ensures
        forall|k: Seq<char>| #[trigger] lookup(final(counts)@, k) == (if k == key@ {
            bumped(lookup(old(counts)@, k))
        } else {
            lookup(old(counts)@, k)
        }),
{
    let mut i: usize = 0;
    while i < counts.len()
        invariant
            i <= counts@.len(),
            counts@ == old(counts)@,
            forall|j: int| 0 <= j < i ==> (#[trigger] counts@[j]).0@ != key@,
        decreases counts@.len() - i,
    {
        if same_text(counts[i].0.as_str(), key.as_str()) {
            let c = counts[i].1;
            let n = if c < usize::MAX { c + 1 } else { c };
            let name = counts[i].0.clone();
            counts.set(i, (name, n));
            proof {
                assert forall|k: Seq<char>| #[trigger] lookup(counts@, k) == (if k == key@ {
                    bumped(lookup(old(counts)@, k))
                } else {
                    lookup(old(counts)@, k)
                }) by {
                    lemma_lookup_set(old(counts)@, i as int, n, k);
                    assert(counts@ == old(counts)@.update(i as int, (old(counts)@[i as int].0, n)));
                    if k == key@ {
                        lemma_lookup_set(old(counts)@, i as int, c, k);
                        assert(old(counts)@.update(i as int, (old(counts)@[i as int].0, c)) =~= old(counts)@);
                    }
                }
            }
            return;
        }
        i = i + 1;
    }
    proof {
        lemma_lookup_none(counts@, key@);
    }
    counts.push((key.clone(), 1));
    proof {
        assert forall|k: Seq<char>| #[trigger] lookup(counts@, k) == (if k == key@ {
            bumped(lookup(old(counts)@, k))
        } else {
            lookup(old(counts)@, k)
        }) by {
            lemma_lookup_push(old(counts)@, counts@.last(), k);
            assert(counts@ == old(counts)@.push(counts@.last()));
        }
    }
}

/// How often `k` occurs as an action or a target kind in the history.
pub open spec fn history_count(h: Seq<HistoryItem>, k: Seq<char>) -> nat
    decreases h.len(),
{
    if h.len() == 0 {
        0
    } else {
        history_count(h.drop_last(), k) + (if h.last().action@ == k { 1nat } else { 0nat }) + (if h.last().target_type@
            == k { 1nat } else { 0nat })
    }
}

/// Counts by action and by target kind, with `total` the number of entries.
pub open spec fn history_stats_hold(h: Seq<HistoryItem>, s: Seq<(String, usize)>) -> bool {
    forall|k: Seq<char>| #[trigger] lookup(s, k) == (if k == "total"@ {
        Some(h.len() as usize)
    } else if history_count(h, k) > 0 {
        Some(cap(history_count(h, k)))
    } else {
        None
    })
}

/// Count the history by action and by target kind, with the total.
pub fn history_stats(history: &Vec<HistoryItem>) -> (s: Vec<(String, usize)>)
    ensures
        history_stats_hold(history@, s@),
{
    let mut counts: Vec<(String, usize)> = Vec::new();
    let mut i: usize = 0;
    while i < history.len()
        invariant
            i <= history@.len(),
            forall|k: Seq<char>| #[trigger] lookup(counts@, k) == (if history_count(history@.take(i as int), k) > 0 {
                Some(cap(history_count(history@.take(i as int), k)))
            } else {
                None
            }),
        decreases history@.len() - i,
    {
        let item = &history[i];
        let ghost before = counts@;
        bump(&mut counts, &item.action);
        bump(&mut counts, &item.target_type);
        proof {
            let h0 = history@.take(i as int);
            let h1 = history@.take(i + 1);
            assert(h1.drop_last() =~= h0);
            assert(h1.last() == *item);
            assert forall|k: Seq<char>| #[trigger] lookup(counts@, k) == (if history_count(h1, k) > 0 {
                Some(cap(history_count(h1, k)))
            } else {
                None
            }) by {
                assert(history_count(h1, k) == history_count(h0, k) + (if item.action@ == k { 1nat } else { 0nat }) + (if item.target_type@ == k { 1nat } else { 0nat }));
            }
        }
        i = i + 1;
    }
    proof {
        assert(history@.take(history@.len() as int) =~= history@);
    }
    let total = owned("total");
    let n = history.len();
    let ghost before = counts@;
    let mut p: usize = 0;
    let mut done = false;
    while p < counts.len() && !done
        invariant
            p <= counts@.len(),
            counts@.len() == before.len(),
            total@ == "total"@,
            !done ==> counts@ == before,
            !done ==> forall|j: int| 0 <= j < p ==> (#[trigger] counts@[j]).0@ != "total"@,
            done ==> forall|k: Seq<char>| #[trigger] lookup(counts@, k) == (if k == "total"@ { Some(n) } else { lookup(before, k) }),
        decreases counts@.len() - p + (if done { 0int } else { 1int }),
    {
        if same_text(counts[p].0.as_str(), "total") {
            let name = counts[p].0.clone();
            counts.set(p, (name, n));
            proof {
                assert forall|k: Seq<char>| #[trigger] lookup(counts@, k) == (if k == "total"@ { Some(n) } else { lookup(before, k) }) by {
                    lemma_lookup_set(before, p as int, n, k);
                    assert(counts@ == before.update(p as int, (before[p as int].0, n)));
                }
            }
            done = true;
        } else {
            p = p + 1;
        }
    }
    if !done {
        proof {
            lemma_lookup_none(counts@, "total"@);
        }
        counts.push((total, n));
        proof {
            assert forall|k: Seq<char>| #[trigger] lookup(counts@, k) == (if k == "total"@ { Some(n) } else { lookup(before, k) }) by {
                lemma_lookup_push(before, counts@.last(), k);
                assert(counts@ == before.push(counts@.last()));
            }
        }
    }
    counts
}


/// `s` is what `task_stats_at` gives for some tasks on some day.
pub open spec fn stats_of_some_tasks(s: TaskStats) -> bool {
    exists|ts: Seq<Task>, d: Seq<char>| #[trigger] task_stats_hold(ts, d, s)
}

/// `s` is what `history_stats` gives for some history.
pub open spec fn stats_of_some_history(s: Seq<(String, usize)>) -> bool {
    exists|h: Seq<HistoryItem>| #[trigger] history_stats_hold(h, s)
}

/// The due day of a first-generation task: its text up to the first space,
/// read as `%Y-%m-%d`.
pub open spec fn due_day(t: Task) -> Option<(i32, u32, u32)> {
    chrono_date(split_seq(t.due_date@, ' ')[0], "%Y-%m-%d"@)
}

/// Calendar order of two dates.
pub open spec fn day_before(a: (i32, u32, u32), b: (i32, u32, u32)) -> bool {
    a.0 < b.0 || (a.0 == b.0 && (a.1 < b.1 || (a.1 == b.1 && a.2 < b.2)))
}

pub open spec fn overdue_on(t: Task, today: Option<(i32, u32, u32)>) -> bool {
    !t.completed && match (due_day(t), today) {
        (Some(d), Some(n)) => day_before(d, n),
        _ => false,
    }
}

pub open spec fn due_on(t: Task, today: Option<(i32, u32, u32)>) -> bool {
    !t.completed && match (due_day(t), today) {
        (Some(d), Some(n)) => d == n,
        _ => false,
    }
}

pub open spec fn category_count(ts: Seq<Task>, k: Seq<char>) -> nat {
    ts.filter(|t: Task| t.category@ == k).len()
}

pub open spec fn priority_count(ts: Seq<Task>, k: Seq<char>) -> nat {
    ts.filter(|t: Task| t.priority@ == k).len()
}

/// The statistics of `ts` on the day `today` (as `%Y-%m-%d` text): totals,
/// done and open, open ones overdue and due today, and counts by category
/// and by priority.
pub open spec fn task_stats_hold(ts: Seq<Task>, today: Seq<char>, s: TaskStats) -> bool {
    let td = chrono_date(today, "%Y-%m-%d"@);
    &&& s.total == ts.len()
    &&& s.completed == ts.filter(|t: Task| t.completed).len()
    &&& s.pending == ts.filter(|t: Task| !t.completed).len()
    &&& s.overdue == ts.filter(|t: Task| overdue_on(t, td)).len()
    &&& s.today == ts.filter(|t: Task| due_on(t, td)).len()
    &&& forall|k: Seq<char>| #[trigger] lookup(s.by_category@, k) == (if category_count(ts, k) > 0 {
        Some(category_count(ts, k) as usize)
    } else {
        None
    })
    &&& forall|k: Seq<char>| #[trigger] lookup(s.by_priority@, k) == (if priority_count(ts, k) > 0 {
        Some(priority_count(ts, k) as usize)
    } else {
        None
    })
}

fn due_day_of(t: &Task) -> (r: Option<(i32, u32, u32)>)
    ensures
        r == due_day(*t),
{
    let parts = split_on(t.due_date.as_str(), ' ');
    proof {
        crate::datetime::lemma_split_nonempty(t.due_date@, ' ');
    }
    chrono_parse_date(parts[0].as_str(), "%Y-%m-%d")
}

/// The statistics of the tasks on the day `today` (`%Y-%m-%d` text).
pub fn task_stats_at(tasks: &Vec<Task>, today: &str) -> (s: TaskStats)
    ensures
        task_stats_hold(tasks@, today@, s),
{
    let td = chrono_parse_date(today, "%Y-%m-%d");
    let ghost ts = tasks@;
    let ghost p_done = |t: Task| t.completed;
    let ghost p_open = |t: Task| !t.completed;
    let ghost p_over = |t: Task| overdue_on(t, td);
    let ghost p_today = |t: Task| due_on(t, td);
    let mut completed: usize = 0;
    let mut pending: usize = 0;
    let mut overdue: usize = 0;
    let mut due_today: usize = 0;
    let mut by_category: Vec<(String, usize)> = Vec::new();
    let mut by_priority: Vec<(String, usize)> = Vec::new();
    let mut i: usize = 0;
    while i < tasks.len()
        invariant
            i <= ts.len(),
            ts == tasks@,
            td == chrono_date(today@, "%Y-%m-%d"@),
            p_done == (|t: Task| t.completed),
            p_open == (|t: Task| !t.completed),
            p_over == (|t: Task| overdue_on(t, td)),
            p_today == (|t: Task| due_on(t, td)),
            completed == ts.take(i as int).filter(p_done).len(),
            pending == ts.take(i as int).filter(p_open).len(),
            overdue == ts.take(i as int).filter(p_over).len(),
            due_today == ts.take(i as int).filter(p_today).len(),
            completed <= i && pending <= i && overdue <= i && due_today <= i,
            forall|k: Seq<char>| #[trigger] lookup(by_category@, k) == (if category_count(ts.take(i as int), k) > 0 {
                Some(category_count(ts.take(i as int), k) as usize)
            } else {
                None
            }),
            forall|k: Seq<char>| #[trigger] lookup(by_priority@, k) == (if priority_count(ts.take(i as int), k) > 0 {
                Some(priority_count(ts.take(i as int), k) as usize)
            } else {
                None
            }),
            forall|k: Seq<char>| category_count(ts.take(i as int), k) <= i,
            forall|k: Seq<char>| priority_count(ts.take(i as int), k) <= i,
        decreases ts.len() - i,
    {
        let t = &tasks[i];
        let ghost t0 = ts.take(i as int);
        proof {
            assert(ts.take(i + 1) =~= t0.push(*t));
            crate::store::lemma_filter_push(t0, p_done, *t);
            crate::store::lemma_filter_push(t0, p_open, *t);
            crate::store::lemma_filter_push(t0, p_over, *t);
            crate::store::lemma_filter_push(t0, p_today, *t);
            assert forall|k: Seq<char>| category_count(ts.take(i + 1), k) == category_count(t0, k) + (if t.category@ == k { 1nat } else { 0nat }) by {
                crate::store::lemma_filter_push(t0, |x: Task| x.category@ == k, *t);
            }
            assert forall|k: Seq<char>| priority_count(ts.take(i + 1), k) == priority_count(t0, k) + (if t.priority@ == k { 1nat } else { 0nat }) by {
                crate::store::lemma_filter_push(t0, |x: Task| x.priority@ == k, *t);
            }
        }
        if t.completed {
            completed = completed + 1;
        } else {
            pending = pending + 1;
            match (due_day_of(t), td) {
                (Some(d), Some(n)) => {
                    let before = d.0 < n.0 || (d.0 == n.0 && (d.1 < n.1 || (d.1 == n.1 && d.2 < n.2)));
                    if before {
                        overdue = overdue + 1;
                    }
                    if d.0 == n.0 && d.1 == n.1 && d.2 == n.2 {
                        due_today = due_today + 1;
                    }
                },
                _ => {},
            }
        }
        bump(&mut by_category, &t.category);
        bump(&mut by_priority, &t.priority);
        i = i + 1;
    }
    proof {
        assert(ts.take(ts.len() as int) =~= ts);
    }
    TaskStats {
        total: tasks.len(),
        completed,
        pending,
        overdue,
        today: due_today,
        by_category,
        by_priority,
    }
}

} // verus!
