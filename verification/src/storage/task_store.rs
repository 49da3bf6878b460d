//! The in-memory store of subtitle tasks, keyed by task id.
use dashmap::DashMap;
use vstd::prelude::*;

verus! {

broadcast use vstd::string::group_string_axioms;

#[verifier::external_type_specification]
#[verifier::external_body]
#[verifier::reject_recursive_types(K)]
#[verifier::reject_recursive_types(V)]
#[verifier::reject_recursive_types(S)]
pub struct ExDashMap<K, V, S>(DashMap<K, V, S>);

/// A subtitle task as the store keeps it.
#[derive(Debug)]
pub struct SubtitleTask {
    pub task_id: String,
    pub link: String,
    pub origin_language: String,
    pub target_language: String,
    pub status: String,
    pub progress: u8,
}

/// The content of a `SubtitleTask`.
pub struct SubtitleTaskView {
    pub task_id: Seq<char>,
    pub link: Seq<char>,
    pub origin_language: Seq<char>,
    pub target_language: Seq<char>,
    pub status: Seq<char>,
    pub progress: u8,
}

impl View for SubtitleTask {
    type V = SubtitleTaskView;

    open spec fn view(&self) -> SubtitleTaskView {
        SubtitleTaskView {
            task_id: self.task_id@,
            link: self.link@,
            origin_language: self.origin_language@,
            target_language: self.target_language@,
            status: self.status@,
            progress: self.progress,
        }
    }
}

impl Clone for SubtitleTask {
    fn clone(&self) -> (r: Self)
        ensures
            r@ == self@,
    {
        SubtitleTask {
            task_id: self.task_id.clone(),
            link: self.link.clone(),
            origin_language: self.origin_language.clone(),
            target_language: self.target_language.clone(),
            status: self.status.clone(),
            progress: self.progress,
        }
    }
}

/// The tasks a map holds, by task id.
pub uninterp spec fn task_map(m: DashMap<String, SubtitleTask>) -> Map<Seq<char>, SubtitleTaskView>;

/// No tasks at all.
pub open spec fn no_tasks() -> Map<Seq<char>, SubtitleTaskView> {
    Map::empty()
}

/// `DashMap::new`: a map that holds nothing.
#[verifier::external_body]
fn new_task_map() -> (tasks: DashMap<String, SubtitleTask>)
    ensures
        task_map(tasks) == no_tasks(),
{
    DashMap::new()
}

/// `DashMap::insert`: the map then holds `task` under `key`, and every other
/// entry as before. The map is taken by `&mut` so that the change can be
/// stated; `DashMap` itself only needs `&`.
#[verifier::external_body]
fn task_map_insert(tasks: &mut DashMap<String, SubtitleTask>, key: String, task: SubtitleTask)
    ensures
        task_map(*final(tasks)) == task_map(*old(tasks)).insert(key@, task@),
{
    tasks.insert(key, task);
}

/// `DashMap::get`, the entry cloned out: the task held under `key`, if any.
#[verifier::external_body]
fn task_map_get(tasks: &DashMap<String, SubtitleTask>, key: &str) -> (r: Option<SubtitleTask>)
    ensures
        r is Some <==> task_map(*tasks).contains_key(key@),
        r matches Some(t) ==> t@ == task_map(*tasks)[key@],
{
    match tasks.get(key) {
        Some(entry) => Some(entry.value().clone()),
        None => None,
    }
}

/// `DashMap::contains_key`: whether a task is held under `key`.
#[verifier::external_body]
fn task_map_contains(tasks: &DashMap<String, SubtitleTask>, key: &str) -> (r: bool)
    ensures
        r == task_map(*tasks).contains_key(key@),
{
    tasks.contains_key(key)
}

/// The store of subtitle tasks, keyed by their ids.
#[derive(Debug)]
pub struct TaskStore {
    tasks: DashMap<String, SubtitleTask>,
}

impl View for TaskStore {
    type V = Map<Seq<char>, SubtitleTaskView>;

    closed spec fn view(&self) -> Map<Seq<char>, SubtitleTaskView> {
        task_map(self.tasks)
    }
}

impl TaskStore {
    /// A store that holds no task.
    pub fn new() -> (r: Self)
        ensures
            r@ == no_tasks(),
    {
        TaskStore { tasks: new_task_map() }
    }

    /// Stores `task` under its id, replacing any task stored under it.
    pub fn insert(&mut self, task: SubtitleTask)
        ensures
            final(self)@ == old(self)@.insert(task.task_id@, task@),
    {
        let key = task.task_id.clone();
        task_map_insert(&mut self.tasks, key, task);
    }

    /// A copy of the task stored under `task_id`, if any.
    pub fn get(&self, task_id: &str) -> (r: Option<SubtitleTask>)
        ensures
            r is Some <==> self@.contains_key(task_id@),
            r matches Some(t) ==> t@ == self@[task_id@],
    {
        task_map_get(&self.tasks, task_id)
    }

    /// Applies `f` to the task stored under `task_id`; nothing happens when
    /// no task is stored under it.
    pub fn update(&mut self, task_id: &str, f: impl FnOnce(SubtitleTask) -> SubtitleTask)
        requires
            forall|t: SubtitleTask| f.requires((t,)),
        ensures
            !old(self)@.contains_key(task_id@) ==> final(self)@ == old(self)@,
            old(self)@.contains_key(task_id@) ==> exists|before: SubtitleTask, after: SubtitleTask|
                before@ == old(self)@[task_id@] && f.ensures((before,), after) && final(self)@
                    == old(self)@.insert(task_id@, after@),
    {
        match task_map_get(&self.tasks, task_id) {
            Some(t) => {
                let ghost before = t;
                let updated = f(t);
                task_map_insert(&mut self.tasks, String::from_str(task_id), updated);
                assert(f.ensures((before,), updated));
            },
            None => {},
        }
    }

    /// Whether a task is stored under `task_id`.
    pub fn task_exists(&self, task_id: &str) -> (r: bool)
        ensures
            r == self@.contains_key(task_id@),
    {
        task_map_contains(&self.tasks, task_id)
    }
}

/// **Law.** A stored task is read back: after `insert(task)` on a store
/// whose content was `before`, `get` and `task_exists` under the task's id
/// find exactly that task, and under any other id they find what they found
/// before.
pub proof fn stored_task_is_read_back(
    before: Map<Seq<char>, SubtitleTaskView>,
    task: SubtitleTaskView,
    other: Seq<char>,
)
    ensures
        before.insert(task.task_id, task).contains_key(task.task_id),
        before.insert(task.task_id, task)[task.task_id] == task,
        other != task.task_id ==> (before.insert(task.task_id, task).contains_key(other)
            == before.contains_key(other)),
        other != task.task_id && before.contains_key(other) ==> before.insert(task.task_id, task)[other]
            == before[other],
{
}

impl Default for TaskStore {
    fn default() -> (r: Self)
        ensures
            r@ == no_tasks(),
    {
        TaskStore::new()
    }
}

} // verus!
