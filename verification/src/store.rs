//! The store: user data, run-time state and knowledge items in memory, the
//! health flag that blocks writes after a failed load, the undo stack, and
//! the domain operations on them. Reading and writing files is the caller's
//! part; the current time is handed in as a stamp.
use vstd::prelude::*;
use vstd::string::*;
use crate::text::{
    chars_of, concat, owned, same_text, string_of, trim, trim_seq, blank, is_blank, occurs_at, starts_with,
    text_lt, text_less, lemma_text_lt_irreflexive, lemma_text_lt_transitive, lemma_text_le_transitive,
};
use crate::models::{
    AppData, BackupInfo, DataHealthV2, KbItem, Note, NoteView, Reminder, ReminderView,
    RuntimeState, StickyNote, StickyView, Subtask, SubtaskView, Task, TaskView, opt_view,
    reminder_views, sticky_views, task_views, texts_view, dup_opt_text,
};

verus! {

broadcast use vstd::string::group_string_axioms;

pub const HEALTH_OK: &'static str = "ok";
pub const HEALTH_CORRUPT: &'static str = "corrupt";
pub const HEALTH_WRITE_FAILED: &'static str = "writeFailed";
/// Number of rotated backups of the data file.
pub const BACKUP_SLOTS: usize = 5;
/// Name under which the v1 original is kept for good.
pub const ARCHIVE_FILE: &'static str = "data.v1.json";

/// An entry of the undo stack.
#[derive(Debug, Clone)]
pub enum Undoable {
    Task(Box<Task>),
    Subtask { task_id: String, subtask: Subtask },
    Note { task_id: String, note: Note },
}

pub struct Store {
    pub data: AppData,
    /// Run-time state: fired keys, window positions, migration report.
    pub runtime: RuntimeState,
    /// Knowledge items.
    pub kb: Vec<KbItem>,
    pub health: String,
    pub corrupt_file: Option<String>,
    pub last_error: Option<String>,
    pub undo: Vec<Undoable>,
}

// ---------------------------------------------------------------- keys and short texts

/// Stable key of a handled reminder occurrence.
pub open spec fn reminder_key_spec(id: Seq<char>, stamp: Seq<char>) -> Seq<char> {
    "r|"@ + id + "|"@ + stamp
}

/// Stable key of a handled task reminder occurrence.
pub open spec fn task_key_spec(id: Seq<char>, stamp: Seq<char>) -> Seq<char> {
    "t|"@ + id + "|"@ + stamp
}

pub fn reminder_key(id: &str, stamp: &str) -> (k: String)
    ensures
        k@ == reminder_key_spec(id@, stamp@),
{
    let a = concat("r|", id);
    let b = concat(a.as_str(), "|");
    concat(b.as_str(), stamp)
}

pub fn task_key(id: &str, stamp: &str) -> (k: String)
    ensures
        k@ == task_key_spec(id@, stamp@),
{
    let a = concat("t|", id);
    let b = concat(a.as_str(), "|");
    concat(b.as_str(), stamp)
}

/// A short text for the user: trimmed, and cut to 80 characters plus `…`.
pub open spec fn brief_spec(s: Seq<char>) -> Seq<char> {
    let t = trim_seq(s);
    if t.len() <= 80 { t } else { t.take(80).push('…') }
}

pub fn brief(text: &str) -> (r: String)
    ensures
        r@ == brief_spec(text@),
{
    let t = trim(text);
    let chars = chars_of(t.as_str());
    if chars.len() <= 80 {
        return t;
    }
    let mut out = crate::text::string_of_range(&chars, 0, 80);
    out.append("…");
    proof {
        reveal_strlit("…");
    }
    out
}

/// The message of a failed write: the recorded detail, or a general hint.
pub open spec fn write_error_spec(detail: Option<Seq<char>>) -> Seq<char> {
    match detail {
        Some(t) => if !blank(t) { t } else { "本地数据保存失败，请检查磁盘空间或目录权限"@ },
        None => "本地数据保存失败，请检查磁盘空间或目录权限"@,
    }
}

pub fn write_error(detail: &Option<String>) -> (r: String)
    ensures
        r@ == write_error_spec(opt_view(*detail)),
{
    match detail {
        Some(text) => {
            if !is_blank(text.as_str()) {
                return owned(text.as_str());
            }
            owned("本地数据保存失败，请检查磁盘空间或目录权限")
        },
        None => owned("本地数据保存失败，请检查磁盘空间或目录权限"),
    }
}

/// Letters, digits (Unicode `Alphabetic` or `Numeric`), `-` and `_` are kept in
/// file names; the decision is `char::is_alphanumeric`.
pub uninterp spec fn alphanumeric(c: char) -> bool;

/// `char::is_alphanumeric`.
#[verifier::external_body]
fn is_alphanumeric(c: char) -> (r: bool)
    ensures
        r == alphanumeric(c),
{
    c.is_alphanumeric()
}

pub open spec fn stem_char(c: char) -> char {
    if alphanumeric(c) || c == '-' || c == '_' { c } else { '-' }
}

/// Collapse runs of `-` into one.
pub open spec fn collapse_dashes(s: Seq<char>) -> Seq<char>
    decreases s.len(),
{
    if s.len() == 0 {
        s
    } else {
        let prev = collapse_dashes(s.drop_last());
        if s.last() == '-' && prev.len() > 0 && prev.last() == '-' { prev } else { prev.push(s.last()) }
    }
}

/// Drop leading and trailing `-`.
pub open spec fn strip_dashes(s: Seq<char>) -> Seq<char>
    decreases s.len(),
{
    if s.len() > 0 && s[0] == '-' {
        strip_dashes(s.drop_first())
    } else if s.len() > 0 && s.last() == '-' {
        strip_dashes(s.drop_last())
    } else {
        s
    }
}

/// File-name stem: other characters become `-`, runs of `-` collapse, edge
/// dashes go; an empty result is `week-export`.
pub open spec fn safe_stem_spec(text: Seq<char>) -> Seq<char> {
    let stripped = strip_dashes(collapse_dashes(text.map_values(|c: char| stem_char(c))));
    if stripped.len() == 0 { "week-export"@ } else { stripped }
}

proof fn lemma_strip_dashes_window(s: Seq<char>, a: int, b: int)
    requires
        0 <= a <= b <= s.len(),
        forall|i: int| 0 <= i < a ==> s[i] == '-',
        forall|i: int| b <= i < s.len() ==> s[i] == '-',
        a < b ==> s[a] != '-' && s[b - 1] != '-',
    ensures
        strip_dashes(s) == s.subrange(a, b),
    decreases s.len(),
{
    if s.len() > 0 && s[0] == '-' {
        assert(a > 0 || b == 0) by {
            if a == 0 && b > 0 {
                assert(s[a] != '-');
            }
        }
        if a > 0 {
            lemma_strip_dashes_window(s.drop_first(), a - 1, b - 1);
            assert(s.drop_first().subrange(a - 1, b - 1) =~= s.subrange(a, b));
        } else {
            // a == b == 0: everything is a dash
            lemma_strip_dashes_window(s.drop_first(), 0, 0);
            assert(s.drop_first().subrange(0, 0) =~= s.subrange(a, b));
        }
    } else if s.len() > 0 && s.last() == '-' {
        assert(b < s.len()) by {
            if b == s.len() {
                if a < b {
                    assert(s[b - 1] != '-');
                } else {
                    assert(s[0] != '-');
                }
            }
        }
        lemma_strip_dashes_window(s.drop_last(), a, b);
        assert(s.drop_last().subrange(a, b) =~= s.subrange(a, b));
    } else {
        if s.len() > 0 {
            assert(a == 0) by {
                if a > 0 {
                    assert(s[0] == '-');
                }
            }
            assert(b == s.len()) by {
                if b < s.len() {
                    assert(s[s.len() - 1] == '-');
                }
            }
        }
        assert(s.subrange(a, b) =~= s);
    }
}

/// A file-name stem made of letters, digits, `-` and `_`.
pub fn safe_file_stem(text: &str) -> (r: String)
    ensures
        r@ == safe_stem_spec(text@),
{
    let chars = chars_of(text);
    let ghost mapped = text@.map_values(|c: char| stem_char(c));
    let mut out: Vec<char> = Vec::new();
    let mut i: usize = 0;
    while i < chars.len()
        invariant
            chars@ == text@,
            mapped == text@.map_values(|c: char| stem_char(c)),
            i <= chars@.len(),
            out@ == collapse_dashes(mapped.take(i as int)),
        decreases chars@.len() - i,
    {
        let c = chars[i];
        let m = if is_alphanumeric(c) || c == '-' || c == '_' { c } else { '-' };
        proof {
            assert(mapped.take(i + 1).drop_last() =~= mapped.take(i as int));
            assert(mapped.take(i + 1).last() == m);
        }
        let n = out.len();
        if !(m == '-' && n > 0 && out[n - 1] == '-') {
            out.push(m);
        }
        i = i + 1;
    }
    proof {
        assert(mapped.take(chars@.len() as int) =~= mapped);
    }
    let n = out.len();
    let mut a: usize = 0;
    while a < n && out[a] == '-'
        invariant
            a <= n == out@.len(),
            forall|k: int| 0 <= k < a ==> out@[k] == '-',
        decreases n - a,
    {
        a = a + 1;
    }
    let mut b: usize = n;
    while b > a && out[b - 1] == '-'
        invariant
            a <= b <= n == out@.len(),
            forall|k: int| b <= k < n ==> out@[k] == '-',
        decreases b,
    {
        b = b - 1;
    }
    proof {
        lemma_strip_dashes_window(out@, a as int, b as int);
    }
    if a == b {
        return owned("week-export");
    }
    crate::text::string_of_range(&out, a, b)
}

// ---------------------------------------------------------------- finding by id

/// `i` is the first position whose task has this id.
pub open spec fn first_task_at(ts: Seq<TaskView>, id: Seq<char>, i: int) -> bool {
    &&& 0 <= i < ts.len()
    &&& ts[i].id == id
    &&& forall|j: int| 0 <= j < i ==> ts[j].id != id
}

pub open spec fn no_task_with(ts: Seq<TaskView>, id: Seq<char>) -> bool {
    forall|j: int| 0 <= j < ts.len() ==> ts[j].id != id
}

/// Position of the first task with this id (when there is one).
pub open spec fn task_pos(ts: Seq<TaskView>, id: Seq<char>) -> int {
    choose|i: int| first_task_at(ts, id, i)
}

pub proof fn lemma_task_pos(ts: Seq<TaskView>, id: Seq<char>, i: int)
    requires
        first_task_at(ts, id, i),
    ensures
        task_pos(ts, id) == i,
{
    let k = task_pos(ts, id);
    assert(first_task_at(ts, id, k));
    if k < i {
        assert(ts[k].id != id);
    }
    if i < k {
        assert(ts[i].id != id);
    }
}

/// Some position holds the first task with an id that occurs.
pub proof fn lemma_first_task_exists(ts: Seq<TaskView>, id: Seq<char>, k: int)
    requires
        0 <= k < ts.len(),
        ts[k].id == id,
    ensures
        first_task_at(ts, id, task_pos(ts, id)),
    decreases k,
{
    if forall|j: int| 0 <= j < k ==> ts[j].id != id {
        assert(first_task_at(ts, id, k));
    } else {
        let j = choose|j: int| 0 <= j < k && ts[j].id == id;
        lemma_first_task_exists(ts, id, j);
    }
}

pub open spec fn first_reminder_at(rs: Seq<ReminderView>, id: Seq<char>, i: int) -> bool {
    &&& 0 <= i < rs.len()
    &&& rs[i].id == id
    &&& forall|j: int| 0 <= j < i ==> rs[j].id != id
}

pub open spec fn no_reminder_with(rs: Seq<ReminderView>, id: Seq<char>) -> bool {
    forall|j: int| 0 <= j < rs.len() ==> rs[j].id != id
}

pub open spec fn reminder_pos(rs: Seq<ReminderView>, id: Seq<char>) -> int {
    choose|i: int| first_reminder_at(rs, id, i)
}

pub proof fn lemma_reminder_pos(rs: Seq<ReminderView>, id: Seq<char>, i: int)
    requires
        first_reminder_at(rs, id, i),
    ensures
        reminder_pos(rs, id) == i,
{
    let k = reminder_pos(rs, id);
    assert(first_reminder_at(rs, id, k));
    if k < i {
        assert(rs[k].id != id);
    }
    if i < k {
        assert(rs[i].id != id);
    }
}

/// Position of the first task with this id, or `None`.
pub fn find_task_index(tasks: &Vec<Task>, id: &str) -> (r: Option<usize>)
    ensures
        match r {
            Some(i) => first_task_at(task_views(tasks@), id@, i as int),
            None => no_task_with(task_views(tasks@), id@),
        },
{
    let mut i: usize = 0;
    while i < tasks.len()
        invariant
            i <= tasks@.len(),
            forall|j: int| 0 <= j < i ==> (#[trigger] tasks@[j]).id@ != id@,
        decreases tasks@.len() - i,
    {
        if same_text(tasks[i].id.as_str(), id) {
            return Some(i);
        }
        i = i + 1;
    }
    None
}

/// Position of the first reminder with this id, or `None`.
pub fn find_reminder_position(reminders: &Vec<Reminder>, id: &str) -> (r: Option<usize>)
    ensures
        match r {
            Some(i) => first_reminder_at(reminder_views(reminders@), id@, i as int),
            None => no_reminder_with(reminder_views(reminders@), id@),
        },
{
    let mut i: usize = 0;
    while i < reminders.len()
        invariant
            i <= reminders@.len(),
            forall|j: int| 0 <= j < i ==> (#[trigger] reminders@[j]).id@ != id@,
        decreases reminders@.len() - i,
    {
        if same_text(reminders[i].id.as_str(), id) {
            return Some(i);
        }
        i = i + 1;
    }
    None
}

/// Keep the strings that do not start with `prefix`, in order.
pub open spec fn without_prefix(v: Seq<Seq<char>>, prefix: Seq<char>) -> Seq<Seq<char>> {
    v.filter(|k: Seq<char>| !occurs_at(k, prefix, 0))
}

pub proof fn lemma_filter_push<A>(s: Seq<A>, pred: spec_fn(A) -> bool, x: A)
    ensures
        s.push(x).filter(pred) == (if pred(x) { s.filter(pred).push(x) } else { s.filter(pred) }),
{
    reveal(Seq::filter);
    assert(s.push(x).drop_last() =~= s);
}

/// The fired keys that do not start with `prefix`.
pub fn retain_without_prefix(keys: &Vec<String>, prefix: &str) -> (r: Vec<String>)
    ensures
        texts_view(r@) == without_prefix(texts_view(keys@), prefix@),
{
    let mut r: Vec<String> = Vec::new();
    let mut i: usize = 0;
    while i < keys.len()
        invariant
            i <= keys@.len(),
            texts_view(r@) == without_prefix(texts_view(keys@.take(i as int)), prefix@),
        decreases keys@.len() - i,
    {
        proof {
            assert(texts_view(keys@.take(i + 1)) =~= texts_view(keys@.take(i as int)).push(keys@[i as int]@));
            lemma_filter_push(texts_view(keys@.take(i as int)), |k: Seq<char>| !occurs_at(k, prefix@, 0), keys@[i as int]@);
        }
        if !starts_with(keys[i].as_str(), prefix) {
            r.push(keys[i].clone());
            assert(texts_view(r@) =~= without_prefix(texts_view(keys@.take(i as int)), prefix@).push(keys@[i as int]@));
        }
        i = i + 1;
    }
    assert(keys@.take(keys@.len() as int) =~= keys@);
    r
}

// ---------------------------------------------------------------- task transitions

/// A task after a check / uncheck at `stamp`.
pub open spec fn toggled(t: TaskView, stamp: Seq<char>) -> TaskView {
    TaskView {
        done: !t.done,
        done_at: if !t.done { Some(stamp) } else { None },
        legacy: if !t.done { false } else { t.legacy },
        updated_at: stamp,
        ..t
    }
}

/// A task moved to the trash at `stamp`.
pub open spec fn trashed(t: TaskView, stamp: Seq<char>) -> TaskView {
    TaskView { deleted_at: Some(stamp), updated_at: stamp, ..t }
}

/// A task taken out of the trash at `stamp`.
pub open spec fn untrashed(t: TaskView, stamp: Seq<char>) -> TaskView {
    TaskView { deleted_at: None, updated_at: stamp, ..t }
}

/// An undo entry that is the snapshot of the task with this id.
pub open spec fn is_task_snapshot_of(u: Undoable, id: Seq<char>) -> bool {
    u matches Undoable::Task(b) && b.id@ == id
}

/// The undo stack after pushing `e`, keeping only the 50 most recent entries.
pub open spec fn pushed_undo(old: Seq<Undoable>, e: Undoable) -> Seq<Undoable> {
    let p = old.push(e);
    if p.len() > 50 { p.skip(p.len() - 50) } else { p }
}

/// The fired keys after remembering `key`: added once, oldest dropped beyond 400.
pub open spec fn remembered(old: Seq<Seq<char>>, key: Seq<char>) -> Seq<Seq<char>> {
    let p = if old.contains(key) { old } else { old.push(key) };
    if p.len() > 400 { p.skip(p.len() - 400) } else { p }
}

/// The subtasks after putting `s` back, unless one with its id is there.
pub open spec fn with_subtask(subs: Seq<SubtaskView>, s: SubtaskView) -> Seq<SubtaskView> {
    if exists|j: int| 0 <= j < subs.len() && subs[j].id == s.id { subs } else { subs.push(s) }
}

/// The notes after putting `n` back, unless one with its id is there.
pub open spec fn with_note(notes: Seq<NoteView>, n: NoteView) -> Seq<NoteView> {
    if exists|j: int| 0 <= j < notes.len() && notes[j].id == n.id { notes } else { notes.push(n) }
}

pub open spec fn any_trashed(ts: Seq<TaskView>) -> bool {
    exists|k: int| 0 <= k < ts.len() && ts[k].deleted_at is Some
}

/// `b` is the trashed task deleted last (by its stamp as text); among equal
/// stamps the later position wins.
pub open spec fn latest_trashed(ts: Seq<TaskView>, b: int) -> bool {
    &&& 0 <= b < ts.len()
    &&& ts[b].deleted_at is Some
    &&& forall|k: int| 0 <= k < ts.len() && ts[k].deleted_at is Some
        ==> !text_lt(ts[b].deleted_at->0, ts[k].deleted_at->0)
    &&& forall|k: int| b < k < ts.len() && ts[k].deleted_at is Some
        ==> text_lt(ts[k].deleted_at->0, ts[b].deleted_at->0)
}

/// At most one task is the latest trashed one.
pub proof fn lemma_latest_trashed_unique(ts: Seq<TaskView>, b1: int, b2: int)
    requires
        latest_trashed(ts, b1),
        latest_trashed(ts, b2),
    ensures
        b1 == b2,
{
    if b1 < b2 {
        assert(text_lt(ts[b2].deleted_at->0, ts[b1].deleted_at->0));
    } else if b2 < b1 {
        assert(text_lt(ts[b1].deleted_at->0, ts[b2].deleted_at->0));
    }
}

/// The trashed task that was deleted last.
pub fn latest_trashed_index(tasks: &Vec<Task>) -> (r: Option<usize>)
    ensures
        match r {
            Some(b) => latest_trashed(task_views(tasks@), b as int),
            None => !any_trashed(task_views(tasks@)),
        },
{
    let ghost ts = task_views(tasks@);
    let mut best: Option<usize> = None;
    let mut i: usize = 0;
    while i < tasks.len()
        invariant
            ts == task_views(tasks@),
            i <= tasks@.len(),
            match best {
                None => forall|k: int| 0 <= k < i ==> (#[trigger] ts[k]).deleted_at is None,
                Some(b) => {
                    &&& b < i
                    &&& ts[b as int].deleted_at is Some
                    &&& forall|k: int| 0 <= k < i && (#[trigger] ts[k]).deleted_at is Some
                        ==> !text_lt(ts[b as int].deleted_at->0, ts[k].deleted_at->0)
                    &&& forall|k: int| b < k < i && (#[trigger] ts[k]).deleted_at is Some
                        ==> text_lt(ts[k].deleted_at->0, ts[b as int].deleted_at->0)
                },
            },
        decreases tasks@.len() - i,
    {
        if let Some(d) = &tasks[i].deleted_at {
            assert(ts[i as int].deleted_at == Some(d@));
            match best {
                None => {
                    proof {
                        lemma_text_lt_irreflexive(d@);
                    }
                    best = Some(i);
                },
                Some(b) => {
                    if let Some(db) = &tasks[b].deleted_at {
                        assert(ts[b as int].deleted_at == Some(db@));
                        if !text_less(d.as_str(), db.as_str()) {
                            proof {
                                lemma_text_lt_irreflexive(d@);
                                assert forall|k: int| 0 <= k < i + 1 && (#[trigger] ts[k]).deleted_at is Some
                                    implies !text_lt(d@, ts[k].deleted_at->0) by {
                                    if k < i {
                                        lemma_text_le_transitive(ts[k].deleted_at->0, db@, d@);
                                    }
                                }
                            }
                            best = Some(i);
                        } else {
                            proof {
                                if text_lt(db@, d@) {
                                    lemma_text_lt_transitive(db@, d@, db@);
                                    lemma_text_lt_irreflexive(db@);
                                }
                            }
                        }
                    }
                },
            }
        }
        i = i + 1;
    }
    best
}

fn has_subtask(subs: &Vec<Subtask>, id: &str) -> (r: bool)
    ensures
        r == exists|j: int| 0 <= j < subs@.len() && subs@[j].id@ == id@,
{
    let mut i: usize = 0;
    while i < subs.len()
        invariant
            i <= subs@.len(),
            forall|j: int| 0 <= j < i ==> (#[trigger] subs@[j]).id@ != id@,
        decreases subs@.len() - i,
    {
        if same_text(subs[i].id.as_str(), id) {
            return true;
        }
        i = i + 1;
    }
    false
}

fn has_note(notes: &Vec<Note>, id: &str) -> (r: bool)
    ensures
        r == exists|j: int| 0 <= j < notes@.len() && notes@[j].id@ == id@,
{
    let mut i: usize = 0;
    while i < notes.len()
        invariant
            i <= notes@.len(),
            forall|j: int| 0 <= j < i ==> (#[trigger] notes@[j]).id@ != id@,
        decreases notes@.len() - i,
    {
        if same_text(notes[i].id.as_str(), id) {
            return true;
        }
        i = i + 1;
    }
    false
}

pub const MSG_TASK_GONE: &'static str = "找不到这条待办，可能已经被删除";

impl Store {
    pub open spec fn tasks_v(&self) -> Seq<TaskView> {
        task_views(self.data.tasks@)
    }

    pub open spec fn reminders_v(&self) -> Seq<ReminderView> {
        reminder_views(self.data.reminders@)
    }

    pub open spec fn fired_v(&self) -> Seq<Seq<char>> {
        texts_view(self.runtime.fired@)
    }

    pub open spec fn spec_is_corrupt(&self) -> bool {
        self.health@ == "corrupt"@
    }

    /// Everything but the task list is as in `other`.
    pub open spec fn same_but_tasks(&self, other: &Store) -> bool {
        &&& self.data.reminders == other.data.reminders
        &&& self.data.settings == other.data.settings
        &&& self.data.stickies == other.data.stickies
        &&& self.runtime == other.runtime
        &&& self.kb == other.kb
        &&& self.health == other.health
        &&& self.corrupt_file == other.corrupt_file
        &&& self.last_error == other.last_error
        &&& self.undo == other.undo
    }

    /// An empty, healthy store.
    pub fn new() -> (s: Store)
        ensures
            s.data.tasks@.len() == 0 && s.data.reminders@.len() == 0,
            s.data.stickies@.len() == 0 && s.kb@.len() == 0 && s.undo@.len() == 0,
            s.runtime.fired@.len() == 0 && s.runtime.migration is None,
            s.health@ == "ok"@ && s.corrupt_file is None && s.last_error is None,
    {
        Store {
            data: AppData::default(),
            runtime: RuntimeState::default(),
            kb: Vec::new(),
            health: owned(HEALTH_OK),
            corrupt_file: None,
            last_error: None,
            undo: Vec::new(),
        }
    }

    pub fn is_corrupt(&self) -> (r: bool)
        ensures
            r == self.spec_is_corrupt(),
    {
        same_text(self.health.as_str(), HEALTH_CORRUPT)
    }

    /// Every write is refused until a corrupt store has been restored, and
    /// after a failed write.
    pub fn ensure_writable(&self) -> (r: Result<(), String>)
        ensures
            match r {
                Ok(()) => !self.spec_is_corrupt() && self.health@ != "writeFailed"@,
                Err(e) => if self.spec_is_corrupt() {
                    e@ == "数据文件已损坏，请先从备份恢复后再操作"@
                } else {
                    self.health@ == "writeFailed"@ && e@ == write_error_spec(opt_view(self.last_error))
                },
            },
    {
        if self.is_corrupt() {
            return Err(owned("数据文件已损坏，请先从备份恢复后再操作"));
        }
        if same_text(self.health.as_str(), HEALTH_WRITE_FAILED) {
            return Err(write_error(&self.last_error));
        }
        Ok(())
    }

    pub fn find_index(&self, id: &str) -> (r: Option<usize>)
        ensures
            match r {
                Some(i) => first_task_at(self.tasks_v(), id@, i as int),
                None => no_task_with(self.tasks_v(), id@),
            },
    {
        find_task_index(&self.data.tasks, id)
    }

    pub fn find_reminder_index(&self, id: &str) -> (r: Option<usize>)
        ensures
            match r {
                Some(i) => first_reminder_at(self.reminders_v(), id@, i as int),
                None => no_reminder_with(self.reminders_v(), id@),
            },
    {
        find_reminder_position(&self.data.reminders, id)
    }

    /// The first task with this id.
    pub fn find(&self, id: &str) -> (r: Option<&Task>)
        ensures
            match r {
                Some(t) => first_task_at(self.tasks_v(), id@, task_pos(self.tasks_v(), id@)) && t@ == self.tasks_v()[task_pos(self.tasks_v(), id@)],
                None => no_task_with(self.tasks_v(), id@),
            },
    {
        match self.find_index(id) {
            Some(i) => {
                proof {
                    lemma_task_pos(self.tasks_v(), id@, i as int);
                }
                Some(&self.data.tasks[i])
            },
            None => None,
        }
    }

    /// The first reminder with this id.
    pub fn find_reminder(&self, id: &str) -> (r: Option<&Reminder>)
        ensures
            match r {
                Some(x) => first_reminder_at(self.reminders_v(), id@, reminder_pos(self.reminders_v(), id@)) && x@ == self.reminders_v()[reminder_pos(self.reminders_v(), id@)],
                None => no_reminder_with(self.reminders_v(), id@),
            },
    {
        match self.find_reminder_index(id) {
            Some(i) => {
                proof {
                    lemma_reminder_pos(self.reminders_v(), id@, i as int);
                }
                Some(&self.data.reminders[i])
            },
            None => None,
        }
    }

    /// Copies of the tasks, with or without those in the trash.
    pub fn tasks(&self, include_deleted: bool) -> (r: Vec<Task>)
        ensures
            task_views(r@) == (if include_deleted {
                self.tasks_v()
            } else {
                self.tasks_v().filter(|t: TaskView| t.deleted_at is None)
            }),
    {
        let mut r: Vec<Task> = Vec::new();
        let mut i: usize = 0;
        let ghost pred = |t: TaskView| t.deleted_at is None;
        while i < self.data.tasks.len()
            invariant
                i <= self.data.tasks@.len(),
                pred == (|t: TaskView| t.deleted_at is None),
                task_views(r@) == (if include_deleted {
                    self.tasks_v().take(i as int)
                } else {
                    self.tasks_v().take(i as int).filter(pred)
                }),
            decreases self.data.tasks@.len() - i,
        {
            let ghost before = r@;
            proof {
                assert(self.tasks_v().take(i + 1) =~= self.tasks_v().take(i as int).push(self.tasks_v()[i as int]));
                lemma_filter_push(self.tasks_v().take(i as int), pred, self.tasks_v()[i as int]);
            }
            if include_deleted || !self.data.tasks[i].in_trash() {
                let copy = self.data.tasks[i].duplicate();
                r.push(copy);
                assert(task_views(r@) =~= task_views(before).push(copy@));
            }
            i = i + 1;
        }
        assert(self.tasks_v().take(self.data.tasks@.len() as int) =~= self.tasks_v());
        r
    }

    /// Check or uncheck a task; a real completion stamp is written only on completion.
    pub fn toggle_task(&mut self, id: &str, stamp: &str) -> (r: Result<Task, String>)
        ensures
            final(self).same_but_tasks(old(self)),
            match r {
                Ok(t) => {
                    let i = task_pos(old(self).tasks_v(), id@);
                    &&& first_task_at(old(self).tasks_v(), id@, i)
                    &&& old(self).tasks_v()[i].deleted_at is None
                    &&& final(self).tasks_v() == old(self).tasks_v().update(i, toggled(old(self).tasks_v()[i], stamp@))
                    &&& t@ == toggled(old(self).tasks_v()[i], stamp@)
                },
                Err(e) => {
                    &&& final(self).tasks_v() == old(self).tasks_v()
                    &&& if no_task_with(old(self).tasks_v(), id@) {
                        e@ == "找不到这条待办，可能已经被删除"@
                    } else {
                        old(self).tasks_v()[task_pos(old(self).tasks_v(), id@)].deleted_at is Some
                            && e@ == "回收站里的待办不能勾选，请先恢复"@
                    }
                },
            },
    {
        let index = match self.find_index(id) {
            Some(i) => i,
            None => return Err(owned(MSG_TASK_GONE)),
        };
        proof {
            lemma_task_pos(old(self).tasks_v(), id@, index as int);
        }
        if self.data.tasks[index].in_trash() {
            return Err(owned("回收站里的待办不能勾选，请先恢复"));
        }
        let ghost before = self.tasks_v();
        let done = !self.data.tasks[index].done;
        self.data.tasks[index].done = done;
        if done {
            self.data.tasks[index].done_at = Some(owned(stamp));
            self.data.tasks[index].legacy = false;
        } else {
            self.data.tasks[index].done_at = None;
        }
        self.data.tasks[index].updated_at = owned(stamp);
        let t = self.data.tasks[index].duplicate();
        assert(self.tasks_v() =~= before.update(index as int, toggled(before[index as int], stamp@)));
        Ok(t)
    }

    /// Flip one subtask of a task.
    pub fn toggle_subtask(&mut self, task_id: &str, subtask_id: &str, stamp: &str) -> (r: Result<Task, String>)
        ensures
            final(self).same_but_tasks(old(self)),
            match r {
                Ok(t) => {
                    let i = task_pos(old(self).tasks_v(), task_id@);
                    let old_t = old(self).tasks_v()[i];
                    &&& first_task_at(old(self).tasks_v(), task_id@, i)
                    &&& exists|k: int| {
                        &&& 0 <= k < old_t.subtasks.len()
                        &&& old_t.subtasks[k].id == subtask_id@
                        &&& (forall|j: int| 0 <= j < k ==> old_t.subtasks[j].id != subtask_id@)
                        &&& t@ == TaskView {
                            subtasks: old_t.subtasks.update(k, SubtaskView { done: !old_t.subtasks[k].done, ..old_t.subtasks[k] }),
                            updated_at: stamp@,
                            ..old_t
                        }
                    }
                    &&& final(self).tasks_v() == old(self).tasks_v().update(i, t@)
                },
                Err(e) => {
                    &&& final(self).tasks_v() == old(self).tasks_v()
                    &&& if no_task_with(old(self).tasks_v(), task_id@) {
                        e@ == "找不到这条待办"@
                    } else {
                        let old_t = old(self).tasks_v()[task_pos(old(self).tasks_v(), task_id@)];
                        &&& forall|j: int| 0 <= j < old_t.subtasks.len() ==> old_t.subtasks[j].id != subtask_id@
                        &&& e@ == "找不到这个子任务"@
                    }
                },
            },
    {
        let index = match self.find_index(task_id) {
            Some(i) => i,
            None => return Err(owned("找不到这条待办")),
        };
        proof {
            lemma_task_pos(old(self).tasks_v(), task_id@, index as int);
        }
        let n = self.data.tasks[index].subtasks.len();
        let mut k: usize = 0;
        let mut found = false;
        while k < n && !found
            invariant
                index < self.data.tasks@.len(),
                n == self.data.tasks@[index as int].subtasks@.len(),
                k <= n,
                found ==> k < n && self.data.tasks@[index as int].subtasks@[k as int].id@ == subtask_id@,
                forall|j: int| 0 <= j < k ==> (#[trigger] self.data.tasks@[index as int].subtasks@[j]).id@ != subtask_id@,
            decreases n - k + (if found { 0int } else { 1int }),
        {
            if same_text(self.data.tasks[index].subtasks[k].id.as_str(), subtask_id) {
                found = true;
            } else {
                k = k + 1;
            }
        }
        if !found {
            return Err(owned("找不到这个子任务"));
        }
        let ghost before = self.tasks_v();
        let flipped = !self.data.tasks[index].subtasks[k].done;
        self.data.tasks[index].subtasks[k].done = flipped;
        self.data.tasks[index].updated_at = owned(stamp);
        let t = self.data.tasks[index].duplicate();
        let ghost old_t = before[index as int];
        assert(t@.subtasks =~= old_t.subtasks.update(k as int, SubtaskView { done: !old_t.subtasks[k as int].done, ..old_t.subtasks[k as int] }));
        assert(self.tasks_v() =~= before.update(index as int, t@));
        assert(t@ == TaskView {
            subtasks: old_t.subtasks.update(k as int, SubtaskView { done: !old_t.subtasks[k as int].done, ..old_t.subtasks[k as int] }),
            updated_at: stamp@,
            ..old_t
        });
        assert(before == old(self).tasks_v());
        assert(old_t.subtasks.len() == n);
        assert forall|j: int| 0 <= j < k implies old_t.subtasks[j].id != subtask_id@ by {
            assert(old_t.subtasks[j] == old(self).data.tasks@[index as int].subtasks@[j]@);
        }
        assert(old_t.subtasks[k as int].id == subtask_id@);
        Ok(t)
    }

    /// Push an undo entry, keeping the 50 most recent.
    pub fn push_undo(&mut self, entry: Undoable)
        ensures
            final(self).undo@ == pushed_undo(old(self).undo@, entry),
            final(self).data == old(self).data,
            final(self).runtime == old(self).runtime,
            final(self).kb == old(self).kb,
            final(self).health == old(self).health,
            final(self).corrupt_file == old(self).corrupt_file,
            final(self).last_error == old(self).last_error,
    {
        self.undo.push(entry);
        let n = self.undo.len();
        if n > 50 {
            let rest = self.undo.split_off(n - 50);
            self.undo = rest;
        }
    }

    /// Move a task to the trash; its subtasks and notes stay. Returns the
    /// trashed task and records it for undo.
    pub fn soft_delete_task(&mut self, id: &str, stamp: &str) -> (r: Result<Task, String>)
        ensures
            final(self).data.reminders == old(self).data.reminders,
            final(self).data.settings == old(self).data.settings,
            final(self).data.stickies == old(self).data.stickies,
            final(self).runtime == old(self).runtime,
            final(self).kb == old(self).kb,
            final(self).health == old(self).health,
            match r {
                Ok(t) => {
                    let i = task_pos(old(self).tasks_v(), id@);
                    &&& first_task_at(old(self).tasks_v(), id@, i)
                    &&& old(self).tasks_v()[i].deleted_at is None
                    &&& final(self).tasks_v() == old(self).tasks_v().update(i, trashed(old(self).tasks_v()[i], stamp@))
                    &&& t@ == trashed(old(self).tasks_v()[i], stamp@)
                    &&& final(self).undo@.len() == (if old(self).undo@.len() + 1 > 50 { 50 } else { old(self).undo@.len() + 1 })
                    &&& final(self).undo@.last() matches Undoable::Task(b) && b@ == t@
                },
                Err(e) => {
                    &&& final(self).tasks_v() == old(self).tasks_v()
                    &&& final(self).undo == old(self).undo
                    &&& if no_task_with(old(self).tasks_v(), id@) {
                        e@ == "找不到这条待办，可能已经被删除"@
                    } else {
                        old(self).tasks_v()[task_pos(old(self).tasks_v(), id@)].deleted_at is Some
                            && e@ == "这条待办已经在回收站里"@
                    }
                },
            },
    {
        let index = match self.find_index(id) {
            Some(i) => i,
            None => return Err(owned(MSG_TASK_GONE)),
        };
        proof {
            lemma_task_pos(old(self).tasks_v(), id@, index as int);
        }
        if self.data.tasks[index].in_trash() {
            return Err(owned("这条待办已经在回收站里"));
        }
        let ghost before = self.tasks_v();
        self.data.tasks[index].deleted_at = Some(owned(stamp));
        self.data.tasks[index].updated_at = owned(stamp);
        assert(self.tasks_v() =~= before.update(index as int, trashed(before[index as int], stamp@)));
        let snapshot = self.data.tasks[index].duplicate();
        let kept = self.data.tasks[index].duplicate();
        self.push_undo(Undoable::Task(Box::new(kept)));
        Ok(snapshot)
    }

    /// Undo entries other than the snapshot of the task `id`.
    fn drop_task_snapshots(&mut self, id: &str)
        ensures
            final(self).undo@ == old(self).undo@.filter(|u: Undoable| !is_task_snapshot_of(u, id@)),
            final(self).data == old(self).data,
            final(self).runtime == old(self).runtime,
            final(self).kb == old(self).kb,
            final(self).health == old(self).health,
            final(self).corrupt_file == old(self).corrupt_file,
            final(self).last_error == old(self).last_error,
    {
        let mut rest: Vec<Undoable> = Vec::new();
        std::mem::swap(&mut rest, &mut self.undo);
        let ghost pred = |u: Undoable| !is_task_snapshot_of(u, id@);
        let ghost orig = rest@;
        assert(orig.len() == rest.len());
        let mut kept: Vec<Undoable> = Vec::new();
        let mut k: usize = 0;
        while rest.len() > 0
            invariant
                k <= orig.len(),
                orig.len() <= usize::MAX,
                rest@ == orig.skip(k as int),
                kept@ == orig.take(k as int).filter(pred),
                pred == (|u: Undoable| !is_task_snapshot_of(u, id@)),
            decreases rest@.len(),
        {
            let e = rest.remove(0);
            proof {
                assert(e == orig[k as int]);
                assert(orig.take(k + 1) =~= orig.take(k as int).push(orig[k as int]));
                lemma_filter_push(orig.take(k as int), pred, orig[k as int]);
                assert(rest@ =~= orig.skip(k + 1));
            }
            let is_snapshot = match &e {
                Undoable::Task(b) => same_text(b.id.as_str(), id),
                _ => false,
            };
            if !is_snapshot {
                kept.push(e);
            }
            k = k + 1;
        }
        assert(orig.take(orig.len() as int) =~= orig);
        self.undo = kept;
    }

    /// Undo the latest deletion (task, subtask or note). With nothing on the
    /// stack (after a restart) the task trashed last comes back instead.
    pub fn undo_last(&mut self, stamp: &str) -> (r: Result<Option<Task>, String>)
        ensures
            final(self).data.reminders == old(self).data.reminders,
            final(self).data.settings == old(self).data.settings,
            final(self).data.stickies == old(self).data.stickies,
            final(self).runtime == old(self).runtime,
            final(self).kb == old(self).kb,
            final(self).health == old(self).health,
            old(self).undo@.len() == 0 ==> {
                let ts = old(self).tasks_v();
                &&& final(self).undo@.len() == 0
                &&& if !any_trashed(ts) {
                    &&& r matches Err(e) && e@ == "没有可撤销的删除了"@
                    &&& final(self).tasks_v() == ts
                } else {
                    exists|b: int| {
                        let p = task_pos(ts, ts[b].id);
                        &&& #[trigger] latest_trashed(ts, b)
                        &&& first_task_at(ts, ts[b].id, p)
                        &&& if ts[p].deleted_at is Some {
                            &&& r matches Ok(Some(t)) && t@ == untrashed(ts[p], stamp@)
                            &&& final(self).tasks_v() == ts.update(p, untrashed(ts[p], stamp@))
                        } else {
                            &&& r matches Err(e) && e@ == "这条待办不在回收站"@
                            &&& final(self).tasks_v() == ts
                        }
                    }
                }
            },
            old(self).undo@.len() > 0 ==> {
                let ts = old(self).tasks_v();
                &&& final(self).undo@ == old(self).undo@.drop_last()
                &&& match old(self).undo@.last() {
                    Undoable::Task(b) => {
                        let u = untrashed(b@, stamp@);
                        &&& r matches Ok(Some(t)) && t@ == u
                        &&& match old(self).find_spec(b.id@) {
                            Some(p) => final(self).tasks_v() == ts.update(p, u),
                            None => final(self).tasks_v() == ts.push(u),
                        }
                    },
                    Undoable::Subtask { task_id, subtask } => match old(self).find_spec(task_id@) {
                        None => {
                            &&& r matches Err(e) && e@ == "原任务已经不在了，子任务无法放回"@
                            &&& final(self).tasks_v() == ts
                        },
                        Some(p) => {
                            let u = TaskView { subtasks: with_subtask(ts[p].subtasks, subtask@), updated_at: stamp@, ..ts[p] };
                            &&& r matches Ok(Some(t)) && t@ == u
                            &&& final(self).tasks_v() == ts.update(p, u)
                        },
                    },
                    Undoable::Note { task_id, note } => match old(self).find_spec(task_id@) {
                        None => {
                            &&& r matches Err(e) && e@ == "原任务已经不在了，备注无法放回"@
                            &&& final(self).tasks_v() == ts
                        },
                        Some(p) => {
                            let u = TaskView { notes: with_note(ts[p].notes, note@), updated_at: stamp@, ..ts[p] };
                            &&& r matches Ok(Some(t)) && t@ == u
                            &&& final(self).tasks_v() == ts.update(p, u)
                        },
                    },
                }
            },
    {
        let ghost ts = self.tasks_v();
        let entry = match self.undo.pop() {
            Some(value) => value,
            None => {
                let b = match latest_trashed_index(&self.data.tasks) {
                    Some(b) => b,
                    None => return Err(owned("没有可撤销的删除了")),
                };
                let id = match &self.data.tasks[b].deleted_at {
                    Some(_) => self.data.tasks[b].id.clone(),
                    None => self.data.tasks[b].id.clone(),
                };
                assert(id@ == ts[b as int].id);
                assert(!no_task_with(ts, id@));
                assert(self.tasks_v() == ts);
                assert(old(self).undo@ =~= Seq::<Undoable>::empty());
                let restored = self.restore_task(id.as_str(), stamp);
                assert(old(self).undo@.filter(|u: Undoable| !is_task_snapshot_of(u, id@)).len() == 0) by {
                    assert(old(self).undo@.filter(|u: Undoable| !is_task_snapshot_of(u, id@)) =~= Seq::<Undoable>::empty()) by {
                        reveal(Seq::filter);
                    }
                }
                let result = match restored {
                    Ok(t) => Ok(Some(t)),
                    Err(e) => Err(e),
                };
                proof {
                    lemma_first_task_exists(ts, id@, b as int);
                    let p = task_pos(ts, id@);
                    assert(latest_trashed(ts, b as int));
                    if ts[p].deleted_at is Some {
                        assert(result matches Ok(Some(t)) && t@ == untrashed(ts[p], stamp@));
                        assert(self.tasks_v() == ts.update(p, untrashed(ts[p], stamp@)));
                    } else {
                        assert(result matches Err(e) && e@ == "这条待办不在回收站"@);
                        assert(self.tasks_v() == ts);
                    }
                }
                return result;
            },
        };
        match entry {
            Undoable::Task(snapshot) => {
                let mut restored = *snapshot;
                restored.deleted_at = None;
                restored.updated_at = owned(stamp);
                match self.find_index(restored.id.as_str()) {
                    Some(position) => {
                        proof {
                            lemma_task_pos(ts, restored.id@, position as int);
                        }
                        let copy = restored.duplicate();
                        self.data.tasks.set(position, copy);
                        assert(self.tasks_v() =~= ts.update(position as int, restored@));
                        Ok(Some(restored))
                    },
                    None => {
                        let copy = restored.duplicate();
                        self.data.tasks.push(copy);
                        assert(self.tasks_v() =~= ts.push(restored@));
                        Ok(Some(restored))
                    },
                }
            },
            Undoable::Subtask { task_id, subtask } => {
                let index = match self.find_index(task_id.as_str()) {
                    Some(i) => i,
                    None => return Err(owned("原任务已经不在了，子任务无法放回")),
                };
                proof {
                    lemma_task_pos(ts, task_id@, index as int);
                }
                let ghost subs = ts[index as int].subtasks;
                let present = has_subtask(&self.data.tasks[index].subtasks, subtask.id.as_str());
                let ghost sv = subtask@;
                if !present {
                    self.data.tasks[index].subtasks.push(subtask);
                }
                self.data.tasks[index].updated_at = owned(stamp);
                proof {
                    assert(present == exists|j: int| 0 <= j < subs.len() && subs[j].id == sv.id) by {
                        if present {
                            let j = choose|j: int| 0 <= j < old(self).data.tasks@[index as int].subtasks@.len()
                                && old(self).data.tasks@[index as int].subtasks@[j].id@ == sv.id;
                            assert(subs[j].id == sv.id);
                        }
                        if exists|j: int| 0 <= j < subs.len() && subs[j].id == sv.id {
                            let j = choose|j: int| 0 <= j < subs.len() && subs[j].id == sv.id;
                            assert(old(self).data.tasks@[index as int].subtasks@[j].id@ == sv.id);
                        }
                    }
                    assert(self.data.tasks@[index as int].subtasks@.map_values(|x: Subtask| x@) =~= with_subtask(subs, sv));
                    assert(self.tasks_v() =~= ts.update(index as int, TaskView { subtasks: with_subtask(subs, sv), updated_at: stamp@, ..ts[index as int] }));
                }
                Ok(Some(self.data.tasks[index].duplicate()))
            },
            Undoable::Note { task_id, note } => {
                let index = match self.find_index(task_id.as_str()) {
                    Some(i) => i,
                    None => return Err(owned("原任务已经不在了，备注无法放回")),
                };
                proof {
                    lemma_task_pos(ts, task_id@, index as int);
                }
                let ghost ns = ts[index as int].notes;
                let present = has_note(&self.data.tasks[index].notes, note.id.as_str());
                let ghost nv = note@;
                if !present {
                    self.data.tasks[index].notes.push(note);
                }
                self.data.tasks[index].updated_at = owned(stamp);
                proof {
                    assert(present == exists|j: int| 0 <= j < ns.len() && ns[j].id == nv.id) by {
                        if present {
                            let j = choose|j: int| 0 <= j < old(self).data.tasks@[index as int].notes@.len()
                                && old(self).data.tasks@[index as int].notes@[j].id@ == nv.id;
                            assert(ns[j].id == nv.id);
                        }
                        if exists|j: int| 0 <= j < ns.len() && ns[j].id == nv.id {
                            let j = choose|j: int| 0 <= j < ns.len() && ns[j].id == nv.id;
                            assert(old(self).data.tasks@[index as int].notes@[j].id@ == nv.id);
                        }
                    }
                    assert(self.data.tasks@[index as int].notes@.map_values(|x: Note| x@) =~= with_note(ns, nv));
                    assert(self.tasks_v() =~= ts.update(index as int, TaskView { notes: with_note(ns, nv), updated_at: stamp@, ..ts[index as int] }));
                }
                Ok(Some(self.data.tasks[index].duplicate()))
            },
        }
    }

    /// Take a task out of the trash.
    pub fn restore_task(&mut self, id: &str, stamp: &str) -> (r: Result<Task, String>)
        ensures
            final(self).data.reminders == old(self).data.reminders,
            final(self).data.settings == old(self).data.settings,
            final(self).data.stickies == old(self).data.stickies,
            final(self).runtime == old(self).runtime,
            final(self).kb == old(self).kb,
            final(self).health == old(self).health,
            match r {
                Ok(t) => {
                    let i = task_pos(old(self).tasks_v(), id@);
                    &&& first_task_at(old(self).tasks_v(), id@, i)
                    &&& old(self).tasks_v()[i].deleted_at is Some
                    &&& final(self).tasks_v() == old(self).tasks_v().update(i, untrashed(old(self).tasks_v()[i], stamp@))
                    &&& t@ == untrashed(old(self).tasks_v()[i], stamp@)
                    &&& final(self).undo@ == old(self).undo@.filter(|u: Undoable| !is_task_snapshot_of(u, id@))
                },
                Err(e) => {
                    &&& final(self).tasks_v() == old(self).tasks_v()
                    &&& final(self).undo == old(self).undo
                    &&& if no_task_with(old(self).tasks_v(), id@) {
                        e@ == "找不到这条待办"@
                    } else {
                        old(self).tasks_v()[task_pos(old(self).tasks_v(), id@)].deleted_at is None
                            && e@ == "这条待办不在回收站"@
                    }
                },
            },
    {
        let index = match self.find_index(id) {
            Some(i) => i,
            None => return Err(owned("找不到这条待办")),
        };
        proof {
            lemma_task_pos(old(self).tasks_v(), id@, index as int);
        }
        if !self.data.tasks[index].in_trash() {
            return Err(owned("这条待办不在回收站"));
        }
        let ghost before = self.tasks_v();
        self.data.tasks[index].deleted_at = None;
        self.data.tasks[index].updated_at = owned(stamp);
        assert(self.tasks_v() =~= before.update(index as int, untrashed(before[index as int], stamp@)));
        self.drop_task_snapshots(id);
        Ok(self.data.tasks[index].duplicate())
    }

    /// Delete a task for good (only from the trash) and forget its fired keys.
    pub fn purge_task(&mut self, id: &str) -> (r: Result<Task, String>)
        ensures
            final(self).data.reminders == old(self).data.reminders,
            final(self).data.settings == old(self).data.settings,
            final(self).data.stickies == old(self).data.stickies,
            final(self).kb == old(self).kb,
            final(self).health == old(self).health,
            final(self).runtime.note_pos == old(self).runtime.note_pos,
            final(self).runtime.capture_pos == old(self).runtime.capture_pos,
            final(self).runtime.migration == old(self).runtime.migration,
            match r {
                Ok(t) => {
                    let i = task_pos(old(self).tasks_v(), id@);
                    &&& first_task_at(old(self).tasks_v(), id@, i)
                    &&& old(self).tasks_v()[i].deleted_at is Some
                    &&& final(self).tasks_v() == old(self).tasks_v().remove(i)
                    &&& t@ == old(self).tasks_v()[i]
                    &&& final(self).fired_v() == without_prefix(old(self).fired_v(), task_key_spec(id@, Seq::empty()))
                    &&& final(self).undo@ == old(self).undo@.filter(|u: Undoable| !is_task_snapshot_of(u, id@))
                },
                Err(e) => {
                    &&& final(self).tasks_v() == old(self).tasks_v()
                    &&& final(self).runtime == old(self).runtime
                    &&& final(self).undo == old(self).undo
                    &&& if no_task_with(old(self).tasks_v(), id@) {
                        e@ == "找不到这条待办"@
                    } else {
                        old(self).tasks_v()[task_pos(old(self).tasks_v(), id@)].deleted_at is None
                            && e@ == "请先删除这条待办，再彻底清除"@
                    }
                },
            },
    {
        let index = match self.find_index(id) {
            Some(i) => i,
            None => return Err(owned("找不到这条待办")),
        };
        proof {
            lemma_task_pos(old(self).tasks_v(), id@, index as int);
        }
        if !self.data.tasks[index].in_trash() {
            return Err(owned("请先删除这条待办，再彻底清除"));
        }
        let ghost before = self.tasks_v();
        let removed = self.data.tasks.remove(index);
        assert(self.tasks_v() =~= before.remove(index as int));
        let prefix = task_key(id, "");
        proof {
            reveal_strlit("");
        }
        assert(prefix@ =~= task_key_spec(id@, Seq::empty()));
        let kept = retain_without_prefix(&self.runtime.fired, prefix.as_str());
        self.runtime.fired = kept;
        self.drop_task_snapshots(id);
        Ok(removed)
    }

    /// Whether this fired key has been handled.
    pub fn has_fired(&self, key: &str) -> (r: bool)
        ensures
            r == self.fired_v().contains(key@),
    {
        let mut i: usize = 0;
        while i < self.runtime.fired.len()
            invariant
                i <= self.runtime.fired@.len(),
                forall|j: int| 0 <= j < i ==> (#[trigger] self.runtime.fired@[j])@ != key@,
            decreases self.runtime.fired@.len() - i,
        {
            if same_text(self.runtime.fired[i].as_str(), key) {
                assert(self.fired_v()[i as int] == key@);
                return true;
            }
            i = i + 1;
        }
        assert(!self.fired_v().contains(key@)) by {
            if self.fired_v().contains(key@) {
                let j = choose|j: int| 0 <= j < self.fired_v().len() && self.fired_v()[j] == key@;
                assert(self.runtime.fired@[j]@ == key@);
            }
        }
        false
    }

    /// Record a handled key once; only the 400 most recent keys are kept.
    pub fn remember_fired(&mut self, key: &str)
        ensures
            final(self).fired_v() == remembered(old(self).fired_v(), key@),
            final(self).data == old(self).data,
            final(self).runtime.note_pos == old(self).runtime.note_pos,
            final(self).runtime.capture_pos == old(self).runtime.capture_pos,
            final(self).runtime.migration == old(self).runtime.migration,
            final(self).kb == old(self).kb,
            final(self).undo == old(self).undo,
            final(self).health == old(self).health,
            final(self).corrupt_file == old(self).corrupt_file,
            final(self).last_error == old(self).last_error,
    {
        if !self.has_fired(key) {
            self.runtime.fired.push(owned(key));
        }
        let ghost pushed = self.fired_v();
        assert(pushed =~= (if old(self).fired_v().contains(key@) { old(self).fired_v() } else { old(self).fired_v().push(key@) }));
        let n = self.runtime.fired.len();
        if n > 400 {
            let rest = self.runtime.fired.split_off(n - 400);
            self.runtime.fired = rest;
            assert(self.fired_v() =~= pushed.skip(n - 400));
        }
    }

    /// A one-shot task reminder fired: clear its time and record the key.
    pub fn consume_task_remind(&mut self, id: &str, key: &str, stamp: &str)
        ensures
            final(self).fired_v() == remembered(old(self).fired_v(), key@),
            match old(self).find_spec(id@) {
                Some(i) => final(self).tasks_v() == old(self).tasks_v().update(
                    i,
                    TaskView { remind_at: None, updated_at: stamp@, ..old(self).tasks_v()[i] },
                ),
                None => final(self).tasks_v() == old(self).tasks_v(),
            },
            final(self).data.reminders == old(self).data.reminders,
            final(self).data.settings == old(self).data.settings,
            final(self).undo == old(self).undo,
    {
        if let Some(index) = self.find_index(id) {
            proof {
                lemma_task_pos(old(self).tasks_v(), id@, index as int);
            }
            let ghost before = self.tasks_v();
            self.data.tasks[index].remind_at = None;
            self.data.tasks[index].updated_at = owned(stamp);
            assert(self.tasks_v() =~= before.update(index as int, TaskView { remind_at: None, updated_at: stamp@, ..before[index as int] }));
        }
        self.remember_fired(key);
    }

    /// Position of the first task with this id, as a spec.
    pub open spec fn find_spec(&self, id: Seq<char>) -> Option<int> {
        if no_task_with(self.tasks_v(), id) { None } else { Some(task_pos(self.tasks_v(), id)) }
    }

    /// Stamp a task as updated.
    pub fn touch_task_time(&mut self, id: &str, stamp: &str)
        ensures
            final(self).same_but_tasks(old(self)),
            match old(self).find_spec(id@) {
                Some(i) => final(self).tasks_v() == old(self).tasks_v().update(
                    i,
                    TaskView { updated_at: stamp@, ..old(self).tasks_v()[i] },
                ),
                None => final(self).tasks_v() == old(self).tasks_v(),
            },
    {
        if let Some(index) = self.find_index(id) {
            proof {
                lemma_task_pos(old(self).tasks_v(), id@, index as int);
            }
            let ghost before = self.tasks_v();
            self.data.tasks[index].updated_at = owned(stamp);
            assert(self.tasks_v() =~= before.update(index as int, TaskView { updated_at: stamp@, ..before[index as int] }));
        }
    }

    /// Forget the migration report once the front end has shown it.
    pub fn clear_migration(&mut self)
        ensures
            final(self).runtime.migration is None,
            final(self).runtime.fired == old(self).runtime.fired,
            final(self).data == old(self).data,
    {
        self.runtime.migration = None;
    }

    /// Days a soft-deleted task stays in the trash.
    pub fn retention_days(&self) -> (d: i64)
        ensures
            d == 30,
    {
        crate::models::TRASH_RETENTION_DAYS
    }

    /// The health panel: flag, backups, quarantined file, last error.
    pub fn health_view(&self, backups: Vec<BackupInfo>) -> (h: DataHealthV2)
        ensures
            h.health == self.health,
            h.backups == backups,
            h.corrupt_file == self.corrupt_file,
            h.last_error == self.last_error,
            h.writable == !self.spec_is_corrupt(),
    {
        DataHealthV2 {
            health: self.health.clone(),
            backups,
            corrupt_file: dup_opt_text(&self.corrupt_file),
            last_error: dup_opt_text(&self.last_error),
            writable: !self.is_corrupt(),
        }
    }
}

/// Deleting a task and then undoing that deletion gives the task list back
/// as it was, but for the restored task's update stamp: `s1` is what
/// `soft_delete_task(id, deleted)` made of `s0` (its `Ok` case), `s2` what
/// `undo_last(restored)` made of `s1` with that deletion on top of the stack.
pub proof fn law_undo_restores_deleted(s0: Store, s1: Store, s2: Store, id: Seq<char>, deleted: Seq<char>, restored: Seq<char>)
    requires
        ({
            let i = task_pos(s0.tasks_v(), id);
            &&& first_task_at(s0.tasks_v(), id, i)
            &&& s0.tasks_v()[i].deleted_at is None
            &&& s1.tasks_v() == s0.tasks_v().update(i, trashed(s0.tasks_v()[i], deleted))
            &&& s1.undo@.len() > 0
            &&& s1.undo@.last() matches Undoable::Task(b) && b@ == trashed(s0.tasks_v()[i], deleted)
        }),
        s1.undo@.last() matches Undoable::Task(b) && s2.tasks_v() == match s1.find_spec(b.id@) {
            Some(p) => s1.tasks_v().update(p, untrashed(b@, restored)),
            None => s1.tasks_v().push(untrashed(b@, restored)),
        },
    ensures
        ({
            let i = task_pos(s0.tasks_v(), id);
            s2.tasks_v() == s0.tasks_v().update(i, TaskView { updated_at: restored, ..s0.tasks_v()[i] })
        }),
{
    let ts0 = s0.tasks_v();
    let ts1 = s1.tasks_v();
    let i = task_pos(ts0, id);
    assert(first_task_at(ts1, id, i)) by {
        assert forall|j: int| 0 <= j < i implies ts1[j].id != id by {
            assert(ts1[j] == ts0[j]);
        }
    }
    lemma_task_pos(ts1, id, i);
    assert(!no_task_with(ts1, id));
    assert(s1.find_spec(id) == Some(i));
    assert(untrashed(trashed(ts0[i], deleted), restored) == TaskView { updated_at: restored, ..ts0[i] });
}

/// The fired-key scheme: a key is the prefix of its record (`t|id|` for a
/// task, `r|id|` for a reminder) followed by the stamp, so dropping keys by
/// that prefix drops every occurrence of the record; and a task key is
/// never a reminder key.
pub proof fn law_key_prefixes(id: Seq<char>, stamp: Seq<char>, other_id: Seq<char>, other_stamp: Seq<char>)
    ensures
        task_key_spec(id, stamp) == task_key_spec(id, Seq::empty()) + stamp,
        reminder_key_spec(id, stamp) == reminder_key_spec(id, Seq::empty()) + stamp,
        task_key_spec(id, stamp) != reminder_key_spec(other_id, other_stamp),
{
    reveal_strlit("t|");
    reveal_strlit("r|");
    reveal_strlit("|");
    assert(task_key_spec(id, stamp) =~= task_key_spec(id, Seq::empty()) + stamp);
    assert(reminder_key_spec(id, stamp) =~= reminder_key_spec(id, Seq::empty()) + stamp);
    assert(task_key_spec(id, stamp)[0] == 't');
    assert(reminder_key_spec(other_id, other_stamp)[0] == 'r');
}

proof fn lemma_prefix_owner(tag: Seq<char>, id: Seq<char>, id2: Seq<char>, stamp: Seq<char>)
    requires
        tag.len() == 2,
        !id.contains('|'),
        !id2.contains('|'),
    ensures
        (tag + id + "|"@).is_prefix_of(tag + id2 + "|"@ + stamp) <==> id == id2,
{
    reveal_strlit("|");
    let p = tag + id + "|"@;
    let k = tag + id2 + "|"@ + stamp;
    if p.is_prefix_of(k) {
        if id.len() < id2.len() {
            assert(p[2 + id.len() as int] == '|');
            assert(k[2 + id.len() as int] == id2[id.len() as int]);
            assert(id2.contains(id2[id.len() as int]));
        } else if id.len() > id2.len() {
            assert(k[2 + id2.len() as int] == '|');
            assert(p[2 + id2.len() as int] == id[id2.len() as int]);
            assert(id.contains(id[id2.len() as int]));
        } else {
            assert forall|i: int| 0 <= i < id.len() implies id[i] == id2[i] by {
                assert(p[2 + i] == id[i] && k[2 + i] == id2[i]);
            }
            assert(id =~= id2);
        }
    }
    if id == id2 {
        assert forall|i: int| 0 <= i < p.len() implies p[i] == k[i] by {}
    }
}

/// Dropping keys by a record's prefix drops that record's keys and no
/// other's, when ids hold no `|`: a task key starts with `t|id|` exactly
/// when it is a key of task `id`, a reminder key likewise with `r|id|`, and
/// no reminder key starts with a task prefix (nor the other way round).
pub proof fn law_key_prefix_owner(id: Seq<char>, other_id: Seq<char>, stamp: Seq<char>)
    requires
        !id.contains('|'),
        !other_id.contains('|'),
    ensures
        task_key_spec(id, Seq::empty()).is_prefix_of(task_key_spec(other_id, stamp)) <==> other_id == id,
        reminder_key_spec(id, Seq::empty()).is_prefix_of(reminder_key_spec(other_id, stamp)) <==> other_id == id,
        !task_key_spec(id, Seq::empty()).is_prefix_of(reminder_key_spec(other_id, stamp)),
        !reminder_key_spec(id, Seq::empty()).is_prefix_of(task_key_spec(other_id, stamp)),
{
    reveal_strlit("t|");
    reveal_strlit("r|");
    assert(task_key_spec(id, Seq::empty()) =~= "t|"@ + id + "|"@);
    assert(reminder_key_spec(id, Seq::empty()) =~= "r|"@ + id + "|"@);
    lemma_prefix_owner("t|"@, id, other_id, stamp);
    lemma_prefix_owner("r|"@, id, other_id, stamp);
    assert(task_key_spec(id, Seq::empty())[0] == 't');
    assert(reminder_key_spec(other_id, stamp)[0] == 'r');
    assert(reminder_key_spec(id, Seq::empty())[0] == 'r');
    assert(task_key_spec(other_id, stamp)[0] == 't');
}

/// A character a file-name stem keeps as it is.
pub open spec fn kept_char(c: char) -> bool {
    alphanumeric(c) || c == '-' || c == '_'
}

/// No two dashes stand side by side.
pub open spec fn no_double_dash(s: Seq<char>) -> bool {
    forall|i: int| 0 <= i < s.len() - 1 ==> !(#[trigger] s[i] == '-' && s[i + 1] == '-')
}

proof fn lemma_collapse(s: Seq<char>)
    ensures
        no_double_dash(collapse_dashes(s)),
        forall|i: int| 0 <= i < collapse_dashes(s).len() ==> s.contains(#[trigger] collapse_dashes(s)[i]),
        no_double_dash(s) ==> collapse_dashes(s) == s,
    decreases s.len(),
{
    if s.len() > 0 {
        let p = s.drop_last();
        lemma_collapse(p);
        let prev = collapse_dashes(p);
        let r = collapse_dashes(s);
        assert forall|i: int| 0 <= i < r.len() implies s.contains(#[trigger] r[i]) by {
            if i < prev.len() {
                assert(r[i] == prev[i]);
                let j = choose|j: int| 0 <= j < p.len() && p[j] == prev[i];
                assert(s[j] == p[j]);
            } else {
                assert(r[i] == s.last());
                assert(s[s.len() - 1] == s.last());
            }
        }
        assert forall|i: int| 0 <= i < r.len() - 1 implies !(#[trigger] r[i] == '-' && r[i + 1] == '-') by {
            if i + 1 < prev.len() {
                assert(r[i] == prev[i] && r[i + 1] == prev[i + 1]);
            }
        }
        if no_double_dash(s) {
            assert(no_double_dash(p)) by {
                assert forall|i: int| 0 <= i < p.len() - 1 implies !(#[trigger] p[i] == '-' && p[i + 1] == '-') by {
                    assert(p[i] == s[i] && p[i + 1] == s[i + 1]);
                }
            }
            if s.last() == '-' && p.len() > 0 {
                assert(s[s.len() - 2] == p.last());
            }
            assert(r =~= s);
        }
    }
}

proof fn lemma_strip(s: Seq<char>)
    ensures
        exists|a: int, b: int| 0 <= a <= b <= s.len() && #[trigger] strip_dashes(s) == s.subrange(a, b),
        strip_dashes(s).len() > 0 ==> strip_dashes(s)[0] != '-' && strip_dashes(s).last() != '-',
    decreases s.len(),
{
    if s.len() > 0 && s[0] == '-' {
        lemma_strip(s.drop_first());
        let (a, b) = choose|a: int, b: int| 0 <= a <= b <= s.drop_first().len() && #[trigger] strip_dashes(s.drop_first()) == s.drop_first().subrange(a, b);
        assert(s.drop_first().subrange(a, b) =~= s.subrange(a + 1, b + 1));
    } else if s.len() > 0 && s.last() == '-' {
        lemma_strip(s.drop_last());
        let (a, b) = choose|a: int, b: int| 0 <= a <= b <= s.drop_last().len() && #[trigger] strip_dashes(s.drop_last()) == s.drop_last().subrange(a, b);
        assert(s.drop_last().subrange(a, b) =~= s.subrange(a, b));
    } else {
        assert(s.subrange(0, s.len() as int) =~= s);
    }
}

/// The text holds a letter, a digit or `_` (a character that a stem keeps
/// and that is not a dash).
pub open spec fn has_stem_char(text: Seq<char>) -> bool {
    exists|i: int| 0 <= i < text.len() && #[trigger] stem_char(text[i]) != '-'
}

proof fn lemma_strip_empty(s: Seq<char>)
    ensures
        strip_dashes(s).len() == 0 <==> forall|i: int| 0 <= i < s.len() ==> #[trigger] s[i] == '-',
    decreases s.len(),
{
    if s.len() > 0 && s[0] == '-' {
        lemma_strip_empty(s.drop_first());
        if strip_dashes(s).len() == 0 {
            assert forall|i: int| 0 <= i < s.len() implies #[trigger] s[i] == '-' by {
                if i > 0 {
                    assert(s[i] == s.drop_first()[i - 1]);
                }
            }
        } else {
            let j = choose|j: int| 0 <= j < s.drop_first().len() && s.drop_first()[j] != '-';
            assert(s[j + 1] == s.drop_first()[j]);
        }
    } else if s.len() > 0 && s.last() == '-' {
        lemma_strip_empty(s.drop_last());
        if strip_dashes(s).len() == 0 {
            assert forall|i: int| 0 <= i < s.len() implies #[trigger] s[i] == '-' by {
                if i < s.len() - 1 {
                    assert(s[i] == s.drop_last()[i]);
                }
            }
        } else {
            let j = choose|j: int| 0 <= j < s.drop_last().len() && s.drop_last()[j] != '-';
            assert(s[j] == s.drop_last()[j]);
        }
    } else if s.len() > 0 {
        assert(s[0] != '-');
    }
}

proof fn lemma_collapse_keeps(s: Seq<char>, j: int)
    requires
        0 <= j < s.len(),
        s[j] != '-',
    ensures
        collapse_dashes(s).contains(s[j]),
    decreases s.len(),
{
    let prev = collapse_dashes(s.drop_last());
    if j < s.len() - 1 {
        lemma_collapse_keeps(s.drop_last(), j);
        let k = choose|k: int| 0 <= k < prev.len() && prev[k] == s.drop_last()[j];
        if !(s.last() == '-' && prev.len() > 0 && prev.last() == '-') {
            assert(prev.push(s.last())[k] == prev[k]);
        }
    } else {
        assert(collapse_dashes(s) == prev.push(s.last()));
        assert(collapse_dashes(s)[prev.len() as int] == s[j]);
    }
}

/// What `safe_file_stem` gives: when the text holds a letter, a digit or
/// `_`, a clean stem (made of kept characters: letters, digits, `-`, `_`;
/// no `--`; no dash at either end) that cleaning again leaves as it is;
/// otherwise the fallback `week-export`.
pub proof fn law_safe_stem(text: Seq<char>)
    ensures
        !has_stem_char(text) ==> safe_stem_spec(text) == "week-export"@,
        has_stem_char(text) ==> ({
            let r = safe_stem_spec(text);
            &&& r.len() > 0
            &&& r == strip_dashes(collapse_dashes(text.map_values(|c: char| stem_char(c))))
            &&& forall|i: int| 0 <= i < r.len() ==> kept_char(#[trigger] r[i])
            &&& no_double_dash(r)
            &&& r[0] != '-' && r.last() != '-'
            &&& safe_stem_spec(r) == r
        }),
{
    let mapped = text.map_values(|c: char| stem_char(c));
    let col = collapse_dashes(mapped);
    lemma_collapse(mapped);
    lemma_strip(col);
    lemma_strip_empty(col);
    let r = strip_dashes(col);
    if has_stem_char(text) {
        let j = choose|j: int| 0 <= j < text.len() && #[trigger] stem_char(text[j]) != '-';
        assert(mapped[j] != '-');
        lemma_collapse_keeps(mapped, j);
        let k = choose|k: int| 0 <= k < col.len() && col[k] == mapped[j];
        assert(col[k] != '-');
    } else {
        assert forall|i: int| 0 <= i < col.len() implies #[trigger] col[i] == '-' by {
            let j = choose|j: int| 0 <= j < mapped.len() && mapped[j] == col[i];
            assert(mapped[j] == stem_char(text[j]));
        }
    }
    if r.len() > 0 {
        let (a, b) = choose|a: int, b: int| 0 <= a <= b <= col.len() && #[trigger] strip_dashes(col) == col.subrange(a, b);
        assert forall|i: int| 0 <= i < r.len() implies kept_char(#[trigger] r[i]) by {
            assert(r[i] == col[a + i]);
            assert(mapped.contains(col[a + i]));
            let j = choose|j: int| 0 <= j < mapped.len() && mapped[j] == col[a + i];
            assert(mapped[j] == stem_char(text[j]));
        }
        assert(no_double_dash(r)) by {
            assert forall|i: int| 0 <= i < r.len() - 1 implies !(#[trigger] r[i] == '-' && r[i + 1] == '-') by {
                assert(r[i] == col[a + i] && r[i + 1] == col[a + i + 1]);
            }
        }
        assert(safe_stem_spec(text) == r);
        let m2 = r.map_values(|c: char| stem_char(c));
        assert(m2 =~= r);
        lemma_collapse(r);
        lemma_strip_dashes_window(r, 0, r.len() as int);
        assert(r.subrange(0, r.len() as int) =~= r);
    }
}

/// Checking or unchecking a task flips its done flag: checking stamps the
/// completion time, unchecking clears it, and doing it twice gives back the
/// done flag it had; nothing but the flag, its stamp, the legacy mark and
/// the update stamp changes.
pub proof fn law_toggle_flips_done(t: TaskView, s1: Seq<char>, s2: Seq<char>)
    ensures
        toggled(t, s1).done == !t.done,
        toggled(t, s1).done ==> toggled(t, s1).done_at == Some(s1),
        !toggled(t, s1).done ==> toggled(t, s1).done_at is None,
        toggled(toggled(t, s1), s2).done == t.done,
        toggled(t, s1).updated_at == s1,
        (TaskView { done: t.done, done_at: t.done_at, legacy: t.legacy, updated_at: t.updated_at, ..toggled(t, s1) }) == t,
{
}

} // verus!
