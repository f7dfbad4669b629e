//! The in-memory entity store: sessions, tasks, data objects, workers and
//! clients, with the cross-links between them, and the well-formedness
//! predicate that every public mutation preserves.

use vstd::prelude::*;
use crate::ids::{Address, ClientId, DataObjectId, SessionId, TaskId, WorkerId};

verus! {

/// Admission-control ceiling: a worker never holds more assigned tasks.
pub const OVERBOOK_LIMIT: usize = 128;

#[derive(Clone, Copy, PartialEq, Eq, Structural, Debug)]
pub enum TaskState {
    NotAssigned,
    Ready,
    Assigned,
    Running,
    Finished,
    Failed,
}

#[derive(Clone, Copy, PartialEq, Eq, Structural, Debug)]
pub enum DataObjectState {
    Unfinished,
    Finished,
    Removed,
}

#[derive(Clone, Copy, PartialEq, Eq, Structural, Debug)]
pub enum DataObjectType {
    Blob,
    Directory,
}

/// Resource descriptor of a worker or of a task's demand.
#[derive(Clone, Copy, PartialEq, Eq, Structural, Debug)]
pub struct Resources {
    pub cpus: u32,
}

/// One input slot of a task: the consumed object plus presentation data.
pub struct TaskInput {
    pub object: DataObjectId,
    pub label: String,
    pub path: String,
}

/// A (possibly still unfinished) datum of the dataflow graph.
pub struct DataObject {
    pub id: DataObjectId,
    pub object_type: DataObjectType,
    /// A root reason the object must persist: the client asked to keep it.
    pub client_keep: bool,
    pub producer: Option<TaskId>,
    pub consumers: Vec<TaskId>,
    pub state: DataObjectState,
    /// Size in bytes, set on finish.
    pub size: Option<u64>,
    /// Inline payload for server-sourced objects.
    pub data: Option<Vec<u8>>,
    pub label: String,
    pub additional: Vec<u8>,
    /// Workers that physically hold a replica.
    pub located: Vec<WorkerId>,
    /// Workers instructed to hold the object.
    pub assigned: Vec<WorkerId>,
    /// Workers the scheduler intends to hold the object.
    pub scheduled: Vec<WorkerId>,
    pub finish_hooks: Vec<u64>,
}

/// A unit of computation.
pub struct Task {
    pub id: TaskId,
    pub inputs: Vec<TaskInput>,
    pub outputs: Vec<DataObjectId>,
    pub task_type: String,
    pub task_config: Vec<u8>,
    pub additional: Vec<u8>,
    /// Input objects not yet finished.
    pub waiting_for: Vec<DataObjectId>,
    pub scheduled: Option<WorkerId>,
    pub assigned: Option<WorkerId>,
    pub state: TaskState,
    pub resources: Resources,
    pub finish_hooks: Vec<u64>,
}

/// A remote executor.
pub struct Worker {
    pub id: WorkerId,
    pub resources: Resources,
    pub error: Option<Vec<u8>>,
    pub assigned_tasks: Vec<TaskId>,
    /// Ready tasks scheduled here and not yet dispatched, in arrival order.
    pub scheduled_ready_tasks: Vec<TaskId>,
    pub assigned_objects: Vec<DataObjectId>,
    pub located_objects: Vec<DataObjectId>,
    pub scheduled_objects: Vec<DataObjectId>,
}

/// Root of client-scoped garbage collection.
pub struct Session {
    pub id: SessionId,
    pub client: ClientId,
    pub tasks: Vec<TaskId>,
    pub objects: Vec<DataObjectId>,
    /// Terminal error event; a failed session keeps its id but no contents.
    pub error: Option<Vec<u8>>,
    pub finish_hooks: Vec<u64>,
}

/// A connected submitter.
pub struct Client {
    pub id: ClientId,
    pub sessions: Vec<SessionId>,
}

/// The aggregate store. It is the sole authoritative container; every
/// cross-reference is an id resolved against these vectors.
pub struct Graph {
    pub workers: Vec<Worker>,
    pub tasks: Vec<Task>,
    pub objects: Vec<DataObject>,
    pub sessions: Vec<Session>,
    pub clients: Vec<Client>,
    /// The last session id handed out.
    pub session_id_counter: SessionId,
}

impl Graph {
    pub open spec fn has_worker(self, id: WorkerId) -> bool {
        exists|i: int| 0 <= i < self.workers@.len() && self.workers@[i].id == id
    }

    pub open spec fn worker_index(self, id: WorkerId) -> int {
        choose|i: int| 0 <= i < self.workers@.len() && self.workers@[i].id == id
    }

    pub open spec fn worker_at(self, id: WorkerId) -> Worker {
        self.workers@[self.worker_index(id)]
    }

    pub open spec fn has_task(self, id: TaskId) -> bool {
        exists|i: int| 0 <= i < self.tasks@.len() && self.tasks@[i].id == id
    }

    pub open spec fn task_index(self, id: TaskId) -> int {
        choose|i: int| 0 <= i < self.tasks@.len() && self.tasks@[i].id == id
    }

    pub open spec fn task_at(self, id: TaskId) -> Task {
        self.tasks@[self.task_index(id)]
    }

    pub open spec fn has_object(self, id: DataObjectId) -> bool {
        exists|i: int| 0 <= i < self.objects@.len() && self.objects@[i].id == id
    }

    pub open spec fn object_index(self, id: DataObjectId) -> int {
        choose|i: int| 0 <= i < self.objects@.len() && self.objects@[i].id == id
    }

    pub open spec fn object_at(self, id: DataObjectId) -> DataObject {
        self.objects@[self.object_index(id)]
    }

    pub open spec fn has_session(self, id: SessionId) -> bool {
        exists|i: int| 0 <= i < self.sessions@.len() && self.sessions@[i].id == id
    }

    pub open spec fn session_index(self, id: SessionId) -> int {
        choose|i: int| 0 <= i < self.sessions@.len() && self.sessions@[i].id == id
    }

    pub open spec fn session_at(self, id: SessionId) -> Session {
        self.sessions@[self.session_index(id)]
    }

    pub open spec fn has_client(self, id: ClientId) -> bool {
        exists|i: int| 0 <= i < self.clients@.len() && self.clients@[i].id == id
    }

    pub open spec fn client_index(self, id: ClientId) -> int {
        choose|i: int| 0 <= i < self.clients@.len() && self.clients@[i].id == id
    }

    pub open spec fn client_at(self, id: ClientId) -> Client {
        self.clients@[self.client_index(id)]
    }
}

/// Every store maps each id to at most one entity.
pub open spec fn unique_ids(g: Graph) -> bool {
    &&& (forall|i: int, j: int|
        0 <= i < j < g.workers@.len() ==> g.workers@[i].id != g.workers@[j].id)
    &&& (forall|i: int, j: int| 0 <= i < j < g.tasks@.len() ==> g.tasks@[i].id != g.tasks@[j].id)
    &&& (forall|i: int, j: int|
        0 <= i < j < g.objects@.len() ==> g.objects@[i].id != g.objects@[j].id)
    &&& (forall|i: int, j: int|
        0 <= i < j < g.sessions@.len() ==> g.sessions@[i].id != g.sessions@[j].id)
    &&& (forall|i: int, j: int|
        0 <= i < j < g.clients@.len() ==> g.clients@[i].id != g.clients@[j].id)
}

/// The membership vectors of every entity are duplicate-free.
pub open spec fn sets_no_dup(g: Graph) -> bool {
    &&& (forall|i: int|
        0 <= i < g.tasks@.len() ==> {
            &&& (#[trigger] g.tasks@[i]).outputs@.no_duplicates()
            &&& g.tasks@[i].waiting_for@.no_duplicates()
        })
    &&& (forall|i: int|
        0 <= i < g.objects@.len() ==> {
            &&& (#[trigger] g.objects@[i]).consumers@.no_duplicates()
            &&& g.objects@[i].located@.no_duplicates()
            &&& g.objects@[i].assigned@.no_duplicates()
            &&& g.objects@[i].scheduled@.no_duplicates()
        })
    &&& (forall|i: int|
        0 <= i < g.workers@.len() ==> {
            &&& (#[trigger] g.workers@[i]).assigned_tasks@.no_duplicates()
            &&& g.workers@[i].scheduled_ready_tasks@.no_duplicates()
            &&& g.workers@[i].assigned_objects@.no_duplicates()
            &&& g.workers@[i].located_objects@.no_duplicates()
            &&& g.workers@[i].scheduled_objects@.no_duplicates()
        })
    &&& (forall|i: int|
        0 <= i < g.sessions@.len() ==> {
            &&& (#[trigger] g.sessions@[i]).tasks@.no_duplicates()
            &&& g.sessions@[i].objects@.no_duplicates()
        })
    &&& (forall|i: int|
        0 <= i < g.clients@.len() ==> (#[trigger] g.clients@[i]).sessions@.no_duplicates())
}

/// Ids mentioned inside an entity name entities present in the graph, and
/// tasks and objects stay inside their own session.
pub open spec fn refs_closed(g: Graph) -> bool {
    &&& (forall|i: int|
        0 <= i < g.tasks@.len() ==> {
            let t = #[trigger] g.tasks@[i];
            &&& g.has_session(t.id.session_id)
            &&& (forall|k: int|
                0 <= k < t.inputs@.len() ==> {
                    &&& g.has_object((#[trigger] t.inputs@[k]).object)
                    &&& t.inputs@[k].object.session_id == t.id.session_id
                })
            &&& (forall|k: int|
                0 <= k < t.outputs@.len() ==> {
                    &&& g.has_object(#[trigger] t.outputs@[k])
                    &&& t.outputs@[k].session_id == t.id.session_id
                })
            &&& (forall|oid: DataObjectId| #[trigger]
                t.waiting_for@.contains(oid) ==> exists|k: int|
                    0 <= k < t.inputs@.len() && t.inputs@[k].object == oid)
            &&& (t.scheduled matches Some(w) ==> g.has_worker(w))
            &&& (t.assigned matches Some(w) ==> g.has_worker(w))
        })
    &&& (forall|i: int|
        0 <= i < g.objects@.len() ==> {
            let o = #[trigger] g.objects@[i];
            &&& g.has_session(o.id.session_id)
            &&& (forall|t: TaskId| #[trigger] o.consumers@.contains(t) ==> g.has_task(t))
            &&& (forall|w: WorkerId| #[trigger] o.located@.contains(w) ==> g.has_worker(w))
            &&& (forall|w: WorkerId| #[trigger] o.assigned@.contains(w) ==> g.has_worker(w))
            &&& (forall|w: WorkerId| #[trigger] o.scheduled@.contains(w) ==> g.has_worker(w))
        })
    &&& (forall|i: int|
        0 <= i < g.workers@.len() ==> {
            let w = #[trigger] g.workers@[i];
            &&& (forall|t: TaskId| #[trigger] w.assigned_tasks@.contains(t) ==> g.has_task(t))
            &&& (forall|t: TaskId| #[trigger]
                w.scheduled_ready_tasks@.contains(t) ==> g.has_task(t))
            &&& (forall|o: DataObjectId| #[trigger]
                w.assigned_objects@.contains(o) ==> g.has_object(o))
            &&& (forall|o: DataObjectId| #[trigger]
                w.located_objects@.contains(o) ==> g.has_object(o))
            &&& (forall|o: DataObjectId| #[trigger]
                w.scheduled_objects@.contains(o) ==> g.has_object(o))
        })
}

/// A session lists exactly the tasks and objects carrying its id, and a
/// client lists exactly the sessions it owns.
pub open spec fn containment_ok(g: Graph) -> bool {
    &&& (forall|i: int, tid: TaskId|
        0 <= i < g.sessions@.len() ==> ((#[trigger] g.sessions@[i].tasks@.contains(tid)) <==> (
        g.has_task(tid) && tid.session_id == g.sessions@[i].id)))
    &&& (forall|i: int, oid: DataObjectId|
        0 <= i < g.sessions@.len() ==> ((#[trigger] g.sessions@[i].objects@.contains(oid)) <==> (
        g.has_object(oid) && oid.session_id == g.sessions@[i].id)))
    &&& (forall|i: int|
        0 <= i < g.sessions@.len() ==> g.has_client((#[trigger] g.sessions@[i]).client))
    &&& (forall|i: int, sid: SessionId|
        0 <= i < g.clients@.len() ==> ((#[trigger] g.clients@[i].sessions@.contains(sid)) <==> (
        g.has_session(sid) && g.session_at(sid).client == g.clients@[i].id)))
}

/// Placement membership is recorded symmetrically on objects and workers.
pub open spec fn placement_sym(g: Graph) -> bool {
    forall|i: int, j: int|
        0 <= i < g.objects@.len() && 0 <= j < g.workers@.len() ==> {
            let o = #[trigger] g.objects@[i];
            let w = #[trigger] g.workers@[j];
            &&& (o.assigned@.contains(w.id) <==> w.assigned_objects@.contains(o.id))
            &&& (o.located@.contains(w.id) <==> w.located_objects@.contains(o.id))
            &&& (o.scheduled@.contains(w.id) <==> w.scheduled_objects@.contains(o.id))
        }
}

/// Task assignment is recorded symmetrically, and a worker's ready queue
/// holds only ready tasks scheduled on it.
pub open spec fn assignment_sym(g: Graph) -> bool {
    forall|i: int, j: int|
        0 <= i < g.tasks@.len() && 0 <= j < g.workers@.len() ==> {
            let t = #[trigger] g.tasks@[i];
            let w = #[trigger] g.workers@[j];
            &&& (t.assigned == Some(w.id) <==> w.assigned_tasks@.contains(t.id))
            &&& (w.scheduled_ready_tasks@.contains(t.id) ==> t.scheduled == Some(w.id)
                && t.state == TaskState::Ready)
        }
}

/// State-dependent facts about a task.
pub open spec fn task_state_ok(g: Graph, t: Task) -> bool {
    &&& (t.state == TaskState::Ready ==> t.waiting_for@.len() == 0 && t.assigned is None)
    &&& (t.state == TaskState::NotAssigned ==> t.waiting_for@.len() > 0 && t.assigned is None)
    &&& (t.state == TaskState::Assigned || t.state == TaskState::Running ==> t.assigned is Some
        && t.waiting_for@.len() == 0)
    &&& (t.state == TaskState::Finished ==> t.assigned is None && t.waiting_for@.len() == 0 && (
    forall|k: int|
        0 <= k < t.outputs@.len() ==> g.object_at(#[trigger] t.outputs@[k]).state
            != DataObjectState::Unfinished))
    &&& t.state != TaskState::Failed
}

/// State-dependent facts about an object.
pub open spec fn object_state_ok(o: DataObject) -> bool {
    &&& (o.state == DataObjectState::Finished ==> o.size is Some && (o.data is Some
        || o.located@.len() > 0))
    &&& (o.state == DataObjectState::Removed ==> o.assigned@.len() == 0 && o.located@.len() == 0)
    &&& (o.data is Some ==> o.producer is None)
}

/// Producer and consumer links agree with task input and output lists.
pub open spec fn lineage_ok(g: Graph) -> bool {
    &&& (forall|i: int, k: int|
        0 <= i < g.tasks@.len() && 0 <= k < g.tasks@[i].outputs@.len() ==> g.object_at(
            #[trigger] g.tasks@[i].outputs@[k],
        ).producer == Some(g.tasks@[i].id))
    &&& (forall|i: int|
        0 <= i < g.objects@.len() ==> ((#[trigger] g.objects@[i]).producer matches Some(tid) ==> {
            &&& g.has_task(tid)
            &&& g.task_at(tid).outputs@.contains(g.objects@[i].id)
        }))
    &&& (forall|i: int, j: int|
        0 <= i < g.objects@.len() && 0 <= j < g.tasks@.len() ==> ((
        #[trigger] g.objects@[i].consumers@.contains(g.tasks@[j].id)) <==> (exists|k: int|
            0 <= k < g.tasks@[j].inputs@.len() && (#[trigger] g.tasks@[j].inputs@[k]).object
                == g.objects@[i].id)))
}

/// A task waits exactly for its unfinished inputs.
pub open spec fn waiting_ok(g: Graph) -> bool {
    forall|i: int, oid: DataObjectId|
        0 <= i < g.tasks@.len() ==> ((#[trigger] g.tasks@[i].waiting_for@.contains(oid)) <==> ((
        exists|k: int|
            0 <= k < g.tasks@[i].inputs@.len() && (#[trigger] g.tasks@[i].inputs@[k]).object
                == oid) && g.object_at(oid).state == DataObjectState::Unfinished))
}

/// Facts about sessions and the id counter.
pub open spec fn sessions_ok(g: Graph) -> bool {
    &&& (forall|i: int|
        0 <= i < g.sessions@.len() ==> ((#[trigger] g.sessions@[i]).error is Some ==> g.sessions@[i].tasks@.len() == 0
            && g.sessions@[i].objects@.len() == 0))
    &&& (forall|i: int|
        0 <= i < g.sessions@.len() ==> 0 < (#[trigger] g.sessions@[i]).id
            <= g.session_id_counter)
    &&& g.session_id_counter >= 0
}

/// No worker is booked past the admission ceiling.
pub open spec fn overbook_ok(g: Graph) -> bool {
    forall|i: int|
        0 <= i < g.workers@.len() ==> (#[trigger] g.workers@[i]).assigned_tasks@.len()
            <= OVERBOOK_LIMIT
}

/// Well-formedness of the whole store: the invariants of every entity and
/// of every cross-link, preserved by each public mutation.
pub open spec fn wf(g: Graph) -> bool {
    &&& unique_ids(g)
    &&& sets_no_dup(g)
    &&& refs_closed(g)
    &&& containment_ok(g)
    &&& placement_sym(g)
    &&& assignment_sym(g)
    &&& (forall|i: int| 0 <= i < g.tasks@.len() ==> task_state_ok(g, #[trigger] g.tasks@[i]))
    &&& (forall|i: int| 0 <= i < g.objects@.len() ==> object_state_ok(#[trigger] g.objects@[i]))
    &&& lineage_ok(g)
    &&& waiting_ok(g)
    &&& sessions_ok(g)
    &&& overbook_ok(g)
}

impl Graph {
    /// An empty store.
    pub fn new() -> (g: Graph)
        ensures
            wf(g),
            g.workers@.len() == 0,
            g.tasks@.len() == 0,
            g.objects@.len() == 0,
            g.sessions@.len() == 0,
            g.clients@.len() == 0,
            g.session_id_counter == 0,
    {
        Graph {
            workers: Vec::new(),
            tasks: Vec::new(),
            objects: Vec::new(),
            sessions: Vec::new(),
            clients: Vec::new(),
            session_id_counter: 0,
        }
    }

    /// Mint the next session id.
    pub fn new_session_id(&mut self) -> (r: SessionId)
        requires
            old(self).session_id_counter < i32::MAX,
        ensures
            r == old(self).session_id_counter + 1,
            final(self).session_id_counter == old(self).session_id_counter + 1,
            final(self).workers == old(self).workers,
            final(self).tasks == old(self).tasks,
            final(self).objects == old(self).objects,
            final(self).sessions == old(self).sessions,
            final(self).clients == old(self).clients,
    {
        self.session_id_counter = self.session_id_counter + 1;
        self.session_id_counter
    }

    pub fn find_worker(&self, id: WorkerId) -> (r: Option<usize>)
        ensures
            match r {
                Some(i) => i < self.workers@.len() && self.workers@[i as int].id == id,
                None => !self.has_worker(id),
            },
    {
        let mut k: usize = 0;
        while k < self.workers.len()
            invariant
                k <= self.workers@.len(),
                forall|i: int| 0 <= i < k ==> self.workers@[i].id != id,
            decreases self.workers@.len() - k,
        {
            if self.workers[k].id == id {
                return Some(k);
            }
            k = k + 1;
        }
        None
    }

    pub fn find_task(&self, id: TaskId) -> (r: Option<usize>)
        ensures
            match r {
                Some(i) => i < self.tasks@.len() && self.tasks@[i as int].id == id,
                None => !self.has_task(id),
            },
    {
        let mut k: usize = 0;
        while k < self.tasks.len()
            invariant
                k <= self.tasks@.len(),
                forall|i: int| 0 <= i < k ==> self.tasks@[i].id != id,
            decreases self.tasks@.len() - k,
        {
            if self.tasks[k].id == id {
                return Some(k);
            }
            k = k + 1;
        }
        None
    }

    pub fn find_object(&self, id: DataObjectId) -> (r: Option<usize>)
        ensures
            match r {
                Some(i) => i < self.objects@.len() && self.objects@[i as int].id == id,
                None => !self.has_object(id),
            },
    {
        let mut k: usize = 0;
        while k < self.objects.len()
            invariant
                k <= self.objects@.len(),
                forall|i: int| 0 <= i < k ==> self.objects@[i].id != id,
            decreases self.objects@.len() - k,
        {
            if self.objects[k].id == id {
                return Some(k);
            }
            k = k + 1;
        }
        None
    }

    pub fn find_session(&self, id: SessionId) -> (r: Option<usize>)
        ensures
            match r {
                Some(i) => i < self.sessions@.len() && self.sessions@[i as int].id == id,
                None => !self.has_session(id),
            },
    {
        let mut k: usize = 0;
        while k < self.sessions.len()
            invariant
                k <= self.sessions@.len(),
                forall|i: int| 0 <= i < k ==> self.sessions@[i].id != id,
            decreases self.sessions@.len() - k,
        {
            if self.sessions[k].id == id {
                return Some(k);
            }
            k = k + 1;
        }
        None
    }

    pub fn find_client(&self, id: ClientId) -> (r: Option<usize>)
        ensures
            match r {
                Some(i) => i < self.clients@.len() && self.clients@[i as int].id == id,
                None => !self.has_client(id),
            },
    {
        let mut k: usize = 0;
        while k < self.clients.len()
            invariant
                k <= self.clients@.len(),
                forall|i: int| 0 <= i < k ==> self.clients@[i].id != id,
            decreases self.clients@.len() - k,
        {
            if self.clients[k].id == id {
                return Some(k);
            }
            k = k + 1;
        }
        None
    }
}

/// With unique ids, an index holding an id is the index the spec lookup names.
pub proof fn lemma_task_index_of(g: Graph, i: int)
    requires
        unique_ids(g),
        0 <= i < g.tasks@.len(),
    ensures
        g.task_index(g.tasks@[i].id) == i,
        g.task_at(g.tasks@[i].id) == g.tasks@[i],
        g.has_task(g.tasks@[i].id),
{
    let id = g.tasks@[i].id;
    assert(g.has_task(id));
    let j = g.task_index(id);
    assert(g.tasks@[j].id == id);
    if i != j {
        assert(g.tasks@[i].id != g.tasks@[j].id);
    }
}

pub proof fn lemma_object_index_of(g: Graph, i: int)
    requires
        unique_ids(g),
        0 <= i < g.objects@.len(),
    ensures
        g.object_index(g.objects@[i].id) == i,
        g.object_at(g.objects@[i].id) == g.objects@[i],
        g.has_object(g.objects@[i].id),
{
    let id = g.objects@[i].id;
    assert(g.has_object(id));
    let j = g.object_index(id);
    assert(g.objects@[j].id == id);
    if i != j {
        assert(g.objects@[i].id != g.objects@[j].id);
    }
}

pub proof fn lemma_worker_index_of(g: Graph, i: int)
    requires
        unique_ids(g),
        0 <= i < g.workers@.len(),
    ensures
        g.worker_index(g.workers@[i].id) == i,
        g.worker_at(g.workers@[i].id) == g.workers@[i],
        g.has_worker(g.workers@[i].id),
{
    let id = g.workers@[i].id;
    assert(g.has_worker(id));
    let j = g.worker_index(id);
    assert(g.workers@[j].id == id);
    if i != j {
        assert(g.workers@[i].id != g.workers@[j].id);
    }
}

pub proof fn lemma_session_index_of(g: Graph, i: int)
    requires
        unique_ids(g),
        0 <= i < g.sessions@.len(),
    ensures
        g.session_index(g.sessions@[i].id) == i,
        g.session_at(g.sessions@[i].id) == g.sessions@[i],
        g.has_session(g.sessions@[i].id),
{
    let id = g.sessions@[i].id;
    assert(g.has_session(id));
    let j = g.session_index(id);
    assert(g.sessions@[j].id == id);
    if i != j {
        assert(g.sessions@[i].id != g.sessions@[j].id);
    }
}

pub proof fn lemma_client_index_of(g: Graph, i: int)
    requires
        unique_ids(g),
        0 <= i < g.clients@.len(),
    ensures
        g.client_index(g.clients@[i].id) == i,
        g.client_at(g.clients@[i].id) == g.clients@[i],
        g.has_client(g.clients@[i].id),
{
    let id = g.clients@[i].id;
    assert(g.has_client(id));
    let j = g.client_index(id);
    assert(g.clients@[j].id == id);
    if i != j {
        assert(g.clients@[i].id != g.clients@[j].id);
    }
}

} // verus!
