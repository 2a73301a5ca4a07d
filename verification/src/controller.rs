//! The interaction controller: owns the tab cycle, the task selection and
//! the guided four-field input flow, and dispatches each input event.

use vstd::prelude::*;

use crate::codec::{parse_u64, spec_parse_u64};
use crate::list::{spec_next_sel, spec_prev_sel, StatefulList};
use crate::tabs::TabsState;
use crate::task::{priority_of_text, spec_priority_of, spec_tasks_view, TaskView, ToDoItem};

verus! {

/// The position of the tab on which typed characters feed the guided
/// input flow.
pub const ADD_TASK_TAB: usize = 3;

/// How a line submit changes the completed-field texts: the first field
/// must parse as an id to be accepted, the next two are taken verbatim,
/// and the fourth completes the record, which clears the fields.
pub open spec fn spec_commit_fields(fields: Seq<Seq<char>>, buf: Seq<char>) -> Seq<Seq<char>> {
    if fields.len() == 0 {
        if spec_parse_u64(buf) is Some {
            seq![buf]
        } else {
            Seq::<Seq<char>>::empty()
        }
    } else if fields.len() < 3 {
        fields.push(buf)
    } else {
        Seq::<Seq<char>>::empty()
    }
}

/// The task a full set of four submitted texts makes: id from the first,
/// title and description verbatim, priority from the fourth.
pub open spec fn spec_commit_task(fields: Seq<Seq<char>>, buf: Seq<char>) -> TaskView
    recommends
        fields.len() == 3,
        spec_parse_u64(fields[0]) is Some,
{
    TaskView {
        id: spec_parse_u64(fields[0]).unwrap(),
        title: fields[1],
        description: fields[2],
        priority: spec_priority_of(buf),
    }
}

/// The whole interaction state: the current tab, the task list with its
/// selection, the live input buffer, the completed field texts of the
/// guided input flow, the quit flag, and the one-redraw acknowledgment
/// that a task was just added.
pub struct App {
    pub title: String,
    pub should_quit: bool,
    pub tabs: TabsState,
    pub enhanced_graphics: bool,
    pub todo_list: StatefulList<ToDoItem>,
    pub input: String,
    pub messages: Vec<String>,
    pub item_added: bool,
}

impl App {
    /// The texts of the completed fields, in submission order.
    pub open spec fn fields(&self) -> Seq<Seq<char>> {
        self.messages@.map_values(|m: String| m@)
    }

    /// There are four tabs and a valid current tab; the selection lies
    /// inside the task list; at most three fields are completed, and a
    /// completed first field always parses as an id.
    pub open spec fn wf(&self) -> bool {
        &&& self.tabs.wf()
        &&& self.tabs.titles@.len() == 4
        &&& self.todo_list.wf()
        &&& self.messages@.len() <= 3
        &&& (self.messages@.len() >= 1 ==> spec_parse_u64(self.messages@[0]@) is Some)
    }

    /// A fresh controller: the four fixed tabs with the first in view, the
    /// given tasks with nothing selected, empty input state, not quitting.
    pub fn new(title: String, enhanced_graphics: bool, items: Vec<ToDoItem>) -> (a: App)
        ensures
            a.wf(),
            a.title == title,
            a.should_quit == false,
            a.enhanced_graphics == enhanced_graphics,
            a.tabs.index == 0,
            a.tabs.titles@.len() == 4,
            a.tabs.titles@[0]@ == "TO-DO"@,
            a.tabs.titles@[1]@ == "In-progress"@,
            a.tabs.titles@[2]@ == "Done"@,
            a.tabs.titles@[3]@ == "Add-task"@,
            a.todo_list.items == items,
            a.todo_list.selected is None,
            a.input@ == Seq::<char>::empty(),
            a.messages@ == Seq::<String>::empty(),
            a.item_added == false,
    {
        let mut titles: Vec<String> = Vec::new();
        titles.push(String::from_str("TO-DO"));
        titles.push(String::from_str("In-progress"));
        titles.push(String::from_str("Done"));
        titles.push(String::from_str("Add-task"));
        App {
            title,
            should_quit: false,
            tabs: TabsState::new(titles),
            enhanced_graphics,
            todo_list: StatefulList::with_items(items),
            input: String::new(),
            messages: Vec::new(),
            item_added: false,
        }
    }

    /// Move the task selection up, cyclically.
    pub fn on_up(&mut self)
        requires
            old(self).wf(),
        ensures
            final(self).wf(),
            final(self).todo_list.items == old(self).todo_list.items,
            final(self).todo_list.selected == spec_prev_sel(
                old(self).todo_list.selected,
                old(self).todo_list.items@.len(),
            ),
            final(self).tabs == old(self).tabs,
            final(self).title == old(self).title,
            final(self).should_quit == old(self).should_quit,
            final(self).enhanced_graphics == old(self).enhanced_graphics,
            final(self).input == old(self).input,
            final(self).messages == old(self).messages,
            final(self).item_added == old(self).item_added,
    {
        self.todo_list.previous();
    }

    /// Move the task selection down, cyclically.
    pub fn on_down(&mut self)
        requires
            old(self).wf(),
        ensures
            final(self).wf(),
            final(self).todo_list.items == old(self).todo_list.items,
            final(self).todo_list.selected == spec_next_sel(
                old(self).todo_list.selected,
                old(self).todo_list.items@.len(),
            ),
            final(self).tabs == old(self).tabs,
            final(self).title == old(self).title,
            final(self).should_quit == old(self).should_quit,
            final(self).enhanced_graphics == old(self).enhanced_graphics,
            final(self).input == old(self).input,
            final(self).messages == old(self).messages,
            final(self).item_added == old(self).item_added,
    {
        self.todo_list.next();
    }

    /// Move to the following tab, cyclically.
    pub fn on_right(&mut self)
        requires
            old(self).wf(),
        ensures
            final(self).wf(),
            final(self).tabs.titles == old(self).tabs.titles,
            final(self).tabs.index == (old(self).tabs.index + 1) % 4,
            final(self).todo_list == old(self).todo_list,
            final(self).title == old(self).title,
            final(self).should_quit == old(self).should_quit,
            final(self).enhanced_graphics == old(self).enhanced_graphics,
            final(self).input == old(self).input,
            final(self).messages == old(self).messages,
            final(self).item_added == old(self).item_added,
    {
        self.tabs.next();
    }

    /// Move to the preceding tab, cyclically.
    pub fn on_left(&mut self)
        requires
            old(self).wf(),
        ensures
            final(self).wf(),
            final(self).tabs.titles == old(self).tabs.titles,
            final(self).tabs.index == if old(self).tabs.index == 0 {
                3
            } else {
                old(self).tabs.index - 1
            },
            final(self).todo_list == old(self).todo_list,
            final(self).title == old(self).title,
            final(self).should_quit == old(self).should_quit,
            final(self).enhanced_graphics == old(self).enhanced_graphics,
            final(self).input == old(self).input,
            final(self).messages == old(self).messages,
            final(self).item_added == old(self).item_added,
    {
        self.tabs.previous();
    }

    /// Take down the acknowledgment that a task was just added, once the
    /// presentation layer has shown it for one redraw.
    pub fn ack_item_added(&mut self)
        requires
            old(self).wf(),
        ensures
            final(self).wf(),
            final(self).item_added == false,
            final(self).title == old(self).title,
            final(self).should_quit == old(self).should_quit,
            final(self).enhanced_graphics == old(self).enhanced_graphics,
            final(self).tabs == old(self).tabs,
            final(self).todo_list == old(self).todo_list,
            final(self).input == old(self).input,
            final(self).messages == old(self).messages,
    {
        self.item_added = false;
    }

    /// Dispatch one character event. The quit key raises the quit flag; a
    /// line submit on the add-task tab commits the live buffer as the next
    /// field — the fourth commit materializes the task and appends it to
    /// the list, an unparsable id is rejected and re-prompted — while a
    /// line submit anywhere else has no effect; any other character is
    /// appended to the live buffer on the add-task tab and dropped
    /// elsewhere.
    pub fn on_key(&mut self, c: char)
        requires
            old(self).wf(),
        ensures
            final(self).wf(),
            final(self).title == old(self).title,
            final(self).enhanced_graphics == old(self).enhanced_graphics,
            final(self).tabs == old(self).tabs,
            final(self).todo_list.selected == old(self).todo_list.selected,
            c == 'q' ==> final(self).should_quit && final(self).input == old(self).input
                && final(self).messages == old(self).messages && final(self).todo_list == old(
                self,
            ).todo_list && final(self).item_added == old(self).item_added,
            c != 'q' ==> final(self).should_quit == old(self).should_quit,
            c == '\n' && old(self).tabs.index != ADD_TASK_TAB ==> *final(self) == *old(self),
            c == '\n' && old(self).tabs.index == ADD_TASK_TAB ==> {
                &&& final(self).fields() == spec_commit_fields(
                    old(self).fields(),
                    old(self).input@,
                )
                &&& final(self).input@ == Seq::<char>::empty()
                &&& (old(self).messages@.len() == 3 ==> spec_tasks_view(
                    final(self).todo_list.items@,
                ) == spec_tasks_view(old(self).todo_list.items@).push(
                    spec_commit_task(old(self).fields(), old(self).input@),
                ) && final(self).item_added)
                &&& (old(self).messages@.len() != 3 ==> final(self).todo_list == old(
                    self,
                ).todo_list && final(self).item_added == old(self).item_added)
            },
            c != 'q' && c != '\n' ==> {
                &&& final(self).messages == old(self).messages
                &&& final(self).todo_list == old(self).todo_list
                &&& final(self).item_added == old(self).item_added
                &&& (old(self).tabs.index == ADD_TASK_TAB ==> final(self).input@ == old(
                    self,
                ).input@.push(c))
                &&& (old(self).tabs.index != ADD_TASK_TAB ==> final(self).input == old(
                    self,
                ).input)
            },
    {
        if c == 'q' {
            self.should_quit = true;
        } else if c == '\n' {
            if self.tabs.index == ADD_TASK_TAB {
                let buf = self.input.clone();
                self.input = String::new();
                let m = self.messages.len();
                if m == 0 {
                    match parse_u64(buf.as_str()) {
                        Some(_) => {
                            self.messages.push(buf);
                            proof {
                                assert(self.fields() =~= old(self).fields().push(
                                    old(self).input@,
                                ));
                            }
                        },
                        None => {
                            proof {
                                assert(self.fields() =~= Seq::<Seq<char>>::empty());
                            }
                        },
                    }
                } else if m < 3 {
                    self.messages.push(buf);
                    proof {
                        assert(self.fields() =~= old(self).fields().push(old(self).input@));
                    }
                } else {
                    let id: u64 = match parse_u64(self.messages[0].as_str()) {
                        Some(v) => v,
                        None => vstd::pervasive::unreached(),
                    };
                    let title = self.messages[1].clone();
                    let description = self.messages[2].clone();
                    let priority = priority_of_text(buf);
                    let t = ToDoItem { id, title, description, priority };
                    proof {
                        assert(t@ == spec_commit_task(old(self).fields(), old(self).input@));
                    }
                    self.todo_list.append(t);
                    self.messages.clear();
                    self.item_added = true;
                    proof {
                        assert(self.fields() =~= Seq::<Seq<char>>::empty());
                        assert(spec_tasks_view(self.todo_list.items@) =~= spec_tasks_view(
                            old(self).todo_list.items@,
                        ).push(t@));
                    }
                }
            }
        } else {
            if self.tabs.index == ADD_TASK_TAB {
                self.input.push(c);
            }
        }
    }
}

} // verus!
