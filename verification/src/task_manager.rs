//! The task manager: the in-memory ordered task list and its operations.

use vstd::prelude::*;

use crate::errors::IndexError;
use crate::task::Task;
use crate::xml_parser;

verus! {

/// Owns the ordered sequence of tasks for the lifetime of a run. A task has
/// no stored identity: it is addressed by its current 0-based position.
pub struct TaskManager {
    pub tasks: Vec<Task>,
}

impl TaskManager {
    /// An empty task list.
    pub fn new() -> (m: TaskManager)
        ensures
            m.tasks.deep_view() == Seq::<crate::task::TaskView>::empty(),
    {
        TaskManager { tasks: Vec::new() }
    }

    /// Replaces the entire task list; used once, right after a successful load.
    pub fn set_tasks(&mut self, new_tasks: Vec<Task>)
        ensures
            final(self).tasks.deep_view() == new_tasks.deep_view(),
    {
        self.tasks = new_tasks;
    }

    /// The current tasks, in their current order.
    pub fn fetch_tasks(&self) -> (r: &Vec<Task>)
        ensures
            r.deep_view() == self.tasks.deep_view(),
    {
        &self.tasks
    }

    /// Appends a task at the end of the list; every earlier task keeps its
    /// position.
    pub fn add_task(&mut self, task: Task)
        ensures
            final(self).tasks.deep_view() == old(self).tasks.deep_view().push(task.deep_view()),
    {
        self.tasks.push(task);
    }

    /// Renders the current task list as an XML document, ready to be written
    /// out in full.
    pub fn save_tasks(&self) -> (r: Vec<u8>)
        ensures
            r@ == xml_parser::document_of(xml_parser::write_events_of(self.tasks.deep_view())),
    {
        xml_parser::write(&self.tasks)
    }

    /// Removes the task at a 0-based position. Every later task shifts down by
    /// one position; an out-of-range index is rejected and the list is left
    /// unchanged.
    pub fn remove_task(&mut self, task_index: usize) -> (r: Result<(), IndexError>)
        ensures
            old(self).tasks.deep_view().len() <= task_index ==> r is Err
                && final(self).tasks.deep_view() == old(self).tasks.deep_view(),
            task_index < old(self).tasks.deep_view().len() ==> r is Ok
                && final(self).tasks.deep_view() == old(self).tasks.deep_view().remove(task_index as int),
    {
        if task_index < self.tasks.len() {
            self.tasks.remove(task_index);
            Ok(())
        } else {
            Err(IndexError)
        }
    }
}

} // verus!
