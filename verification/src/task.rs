//! The task record: id, title, description and a tagged priority.

use vstd::prelude::*;

verus! {

/// Severity of a task, each variant carrying its display label.
#[allow(non_camel_case_types)]
#[derive(Debug, Clone, PartialEq)]
pub enum Priority {
    critical(String),
    moderate(String),
    low(String),
}

/// Mathematical image of a `Priority`: the same three variants over
/// character sequences.
pub ghost enum PriorityView {
    Critical(Seq<char>),
    Moderate(Seq<char>),
    Low(Seq<char>),
}

impl View for Priority {
    type V = PriorityView;

    open spec fn view(&self) -> PriorityView {
        match self {
            Priority::critical(s) => PriorityView::Critical(s@),
            Priority::moderate(s) => PriorityView::Moderate(s@),
            Priority::low(s) => PriorityView::Low(s@),
        }
    }
}

/// The priority a submitted text stands for: the three known names select
/// their variant, carrying the text itself as label; any other text falls
/// back to a low priority with an empty label.
pub open spec fn spec_priority_of(s: Seq<char>) -> PriorityView {
    if s == "critical"@ {
        PriorityView::Critical(s)
    } else if s == "moderate"@ {
        PriorityView::Moderate(s)
    } else if s == "low"@ {
        PriorityView::Low(s)
    } else {
        PriorityView::Low(Seq::<char>::empty())
    }
}

/// The label a priority variant carries.
pub open spec fn spec_label(p: PriorityView) -> Seq<char> {
    match p {
        PriorityView::Critical(l) => l,
        PriorityView::Moderate(l) => l,
        PriorityView::Low(l) => l,
    }
}

impl Priority {
    /// The display label this priority carries.
    pub fn label(&self) -> (l: &String)
        ensures
            l@ == spec_label(self@),
    {
        match self {
            Priority::critical(s) => s,
            Priority::moderate(s) => s,
            Priority::low(s) => s,
        }
    }
}

/// Build a `Priority` from submitted text, under the fallback rule of
/// `spec_priority_of`.
pub fn priority_of_text(s: String) -> (p: Priority)
    ensures
        p@ == spec_priority_of(s@),
{
    if s == String::from_str("critical") {
        Priority::critical(s)
    } else if s == String::from_str("moderate") {
        Priority::moderate(s)
    } else if s == String::from_str("low") {
        Priority::low(s)
    } else {
        Priority::low(String::new())
    }
}

/// One to-do entry.
#[derive(Debug, Clone, PartialEq)]
pub struct ToDoItem {
    pub id: u64,
    pub title: String,
    pub description: String,
    pub priority: Priority,
}

/// Mathematical image of a `ToDoItem`.
pub ghost struct TaskView {
    pub id: u64,
    pub title: Seq<char>,
    pub description: Seq<char>,
    pub priority: PriorityView,
}

impl View for ToDoItem {
    type V = TaskView;

    open spec fn view(&self) -> TaskView {
        TaskView {
            id: self.id,
            title: self.title@,
            description: self.description@,
            priority: self.priority@,
        }
    }
}

/// The views of the items of a task vector, in order.
pub open spec fn spec_tasks_view(items: Seq<ToDoItem>) -> Seq<TaskView> {
    items.map_values(|t: ToDoItem| t@)
}

} // verus!
