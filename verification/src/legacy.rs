//! The first-generation data model (kept in SQLite): tasks with a
//! description and a due date text, reminders, and an operation history.
use vstd::prelude::*;

verus! {

#[derive(Debug, Clone)]
pub struct Task {
    pub id: String,
    pub title: String,
    pub description: String,
    pub category: String,
    pub priority: String,
    pub due_date: String,
    pub completed: bool,
    pub subtasks: Vec<Subtask>,
    pub notes: Vec<Note>,
    pub created_at: String,
    pub updated_at: String,
}

#[derive(Debug, Clone)]
pub struct Subtask {
    pub id: String,
    pub title: String,
    pub completed: bool,
}

#[derive(Debug, Clone)]
pub struct Note {
    pub id: String,
    pub author: String,
    pub content: String,
    pub created_at: String,
}

#[derive(Debug, Clone)]
pub struct Reminder {
    pub id: String,
    pub title: String,
    pub time: String,
    pub category: String,
    pub completed: bool,
}

/// One entry of the operation history.
#[derive(Debug, Clone)]
pub struct HistoryItem {
    pub id: String,
    pub action: String,
    pub target_type: String,
    pub target_id: String,
    pub target_title: String,
    pub detail: String,
    pub timestamp: String,
}

/// The whole first-generation document (its JSON export form).
#[derive(Debug)]
pub struct AppData {
    pub tasks: Vec<Task>,
    pub reminders: Vec<Reminder>,
    pub theme: String,
    pub version: String,
    pub history: Vec<HistoryItem>,
}

/// Counts over the tasks; per-category and per-priority counts in order of
/// first appearance.
#[derive(Debug)]
pub struct TaskStats {
    pub total: usize,
    pub completed: usize,
    pub pending: usize,
    pub overdue: usize,
    pub today: usize,
    pub by_category: Vec<(String, usize)>,
    pub by_priority: Vec<(String, usize)>,
}

/// Tasks and reminders a keyword finds.
#[derive(Debug)]
pub struct SearchResult {
    pub tasks: Vec<Task>,
    pub reminders: Vec<Reminder>,
}

} // verus!
