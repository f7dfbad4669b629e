//! The state driver: the graph plus the update set the scheduler consumes
//! and the outbox of control messages the server owes its workers.
//!
//! Every public operation keeps the graph well-formed. Messages to
//! workers are not sent here: they are appended to the outbox, and the
//! connection layer around the library drains and performs them.

use vstd::prelude::*;
use crate::ids::{Address, ClientId, DataObjectId, SessionId, TaskId, WorkerId};
use crate::graph::{
    wf, Client, DataObject, DataObjectState, DataObjectType, Graph, Resources, Session, Task,
    TaskInput, TaskState, Worker, OVERBOOK_LIMIT,
};
use crate::links::{
    finish_object, insert_object, link_placement, mark_task_assigned, mark_task_unassigned,
    push_client, push_session, push_worker, set_object_keep, set_object_removed, set_task_running,
    set_task_scheduled, unlink_placement, dequeue_ready, enqueue_ready, PlacementKind,
};
use crate::sets::{addr_contains, oid_contains, oid_insert, set_insert, tid_contains, tid_insert};

verus! {

/// Why a request was refused.
#[derive(Clone, Copy, PartialEq, Eq, Structural, Debug)]
pub enum RainError {
    /// Duplicate id, unknown id or bad topology; the graph is unchanged.
    Validation,
    /// The named entity does not exist.
    NotFound,
    /// An illegal state transition or registration was attempted.
    Protocol,
}

/// One entry of an outbound `add_nodes` call: an object the worker shall
/// know, where to fetch it, and whether it must hold a replica.
pub struct NewObjectMsg {
    pub object: DataObjectId,
    pub placement: WorkerId,
    pub assigned: bool,
}

/// One entry of an outbound `add_nodes` call describing a task to run.
pub struct NewTaskMsg {
    pub task: TaskId,
    pub inputs: Vec<DataObjectId>,
    pub outputs: Vec<DataObjectId>,
}

/// An outbound control message owed to a worker.
pub enum Action {
    AddNodes { worker: WorkerId, objects: Vec<NewObjectMsg>, tasks: Vec<NewTaskMsg> },
    UnassignObjects { worker: WorkerId, objects: Vec<DataObjectId> },
    StopTasks { worker: WorkerId, tasks: Vec<TaskId> },
    HookFired { hook: u64 },
}

/// Deltas accumulated since the last scheduler run.
pub struct UpdateSet {
    pub new_tasks: Vec<TaskId>,
    pub new_objects: Vec<DataObjectId>,
    pub tasks: Vec<TaskId>,
    pub objects: Vec<(DataObjectId, Vec<WorkerId>)>,
}

impl UpdateSet {
    pub open spec fn spec_is_empty(self) -> bool {
        self.new_tasks@.len() == 0 && self.new_objects@.len() == 0 && self.tasks@.len() == 0
            && self.objects@.len() == 0
    }

    pub fn new() -> (r: UpdateSet)
        ensures
            r.spec_is_empty(),
    {
        UpdateSet {
            new_tasks: Vec::new(),
            new_objects: Vec::new(),
            tasks: Vec::new(),
            objects: Vec::new(),
        }
    }

    pub fn is_empty(&self) -> (r: bool)
        ensures
            r == self.spec_is_empty(),
    {
        self.new_tasks.len() == 0 && self.new_objects.len() == 0 && self.tasks.len() == 0
            && self.objects.len() == 0
    }
}

/// Some worker still has cpus to give.
pub open spec fn some_worker_free(g: Graph) -> bool {
    exists|i: int| 0 <= i < g.workers@.len() && (#[trigger] g.workers@[i]).resources.cpus > 0
}

/// What one scheduler pass owes a task of the consumed update set: it is
/// scheduled, or it cannot be (no worker with spare cpus, gone, or in no
/// state to run).
pub open spec fn sched_done(g: Graph, tid: TaskId) -> bool {
    g.has_task(tid) ==> {
        ||| g.task_at(tid).scheduled is Some
        ||| !some_worker_free(g)
        ||| (g.task_at(tid).state != TaskState::NotAssigned && g.task_at(tid).state
            != TaskState::Ready)
    }
}

/// The server's whole mutable state.
pub struct State {
    pub graph: Graph,
    pub updates: UpdateSet,
    pub outbox: Vec<Action>,
    pub stop_server: bool,
}

impl State {
    /// All invariants of the store.
    pub open spec fn wf(self) -> bool {
        wf(self.graph)
    }

    pub fn new() -> (r: State)
        ensures
            r.wf(),
            r.graph.workers@.len() == 0,
            r.graph.tasks@.len() == 0,
            r.graph.objects@.len() == 0,
            r.graph.sessions@.len() == 0,
            r.graph.clients@.len() == 0,
            r.graph.session_id_counter == 0,
            r.updates.spec_is_empty(),
            r.outbox@.len() == 0,
            !r.stop_server,
    {
        State {
            graph: Graph::new(),
            updates: UpdateSet::new(),
            outbox: Vec::new(),
            stop_server: false,
        }
    }

    /// Register a new worker; a second worker under the same address is
    /// refused and nothing changes.
    pub fn add_worker(&mut self, address: WorkerId, resources: Resources) -> (r: Result<
        (),
        RainError,
    >)
        requires
            old(self).wf(),
        ensures
            final(self).wf(),
            r is Ok <==> !old(self).graph.has_worker(address),
            r is Err ==> *final(self) == *old(self) && r == Err::<(), RainError>(RainError::Validation),
            r is Ok ==> {
                &&& final(self).graph.workers@ == old(self).graph.workers@.push(
                    final(self).graph.workers@.last(),
                )
                &&& final(self).graph.workers@.last().id == address
                &&& final(self).graph.workers@.last().resources == resources
                &&& final(self).graph.tasks == old(self).graph.tasks
                &&& final(self).graph.objects == old(self).graph.objects
                &&& final(self).graph.sessions == old(self).graph.sessions
                &&& final(self).graph.clients == old(self).graph.clients
                &&& final(self).graph.session_id_counter == old(self).graph.session_id_counter
                &&& final(self).updates == old(self).updates
                &&& final(self).outbox == old(self).outbox
                &&& final(self).stop_server == old(self).stop_server
            },
    {
        match self.graph.find_worker(address) {
            Some(_) => Err(RainError::Validation),
            None => {
                push_worker(&mut self.graph, address, resources);
                Ok(())
            },
        }
    }

    /// Register a new client connection; a duplicate address is refused.
    pub fn add_client(&mut self, address: ClientId) -> (r: Result<(), RainError>)
        requires
            old(self).wf(),
        ensures
            final(self).wf(),
            r is Ok <==> !old(self).graph.has_client(address),
            r is Err ==> *final(self) == *old(self) && r == Err::<(), RainError>(RainError::Validation),
            r is Ok ==> {
                &&& final(self).graph.clients@ == old(self).graph.clients@.push(
                    final(self).graph.clients@.last(),
                )
                &&& final(self).graph.clients@.last().id == address
                &&& final(self).graph.clients@.last().sessions@.len() == 0
                &&& final(self).graph.tasks == old(self).graph.tasks
                &&& final(self).graph.objects == old(self).graph.objects
                &&& final(self).graph.sessions == old(self).graph.sessions
                &&& final(self).graph.workers == old(self).graph.workers
                &&& final(self).graph.session_id_counter == old(self).graph.session_id_counter
                &&& final(self).updates == old(self).updates
                &&& final(self).outbox == old(self).outbox
                &&& final(self).stop_server == old(self).stop_server
            },
    {
        match self.graph.find_client(address) {
            Some(_) => Err(RainError::Validation),
            None => {
                push_client(&mut self.graph, address);
                Ok(())
            },
        }
    }

    /// Open a fresh session for a client and return its new id.
    pub fn add_session(&mut self, client: ClientId) -> (r: Result<SessionId, RainError>)
        requires
            old(self).wf(),
        ensures
            final(self).wf(),
            !old(self).graph.has_client(client) ==> r == Err::<SessionId, RainError>(
                RainError::NotFound,
            ) && *final(self) == *old(self),
            old(self).graph.has_client(client) && old(self).graph.session_id_counter == i32::MAX
                ==> r == Err::<SessionId, RainError>(RainError::Validation) && *final(self)
                == *old(self),
            old(self).graph.has_client(client) && old(self).graph.session_id_counter < i32::MAX
                ==> match r {
                Ok(sid) => {
                    &&& sid == old(self).graph.session_id_counter + 1
                    &&& final(self).graph.session_id_counter == sid
                    &&& final(self).graph.has_session(sid)
                    &&& final(self).graph.session_at(sid).client == client
                    &&& final(self).graph.session_at(sid).error is None
                    &&& final(self).graph.session_at(sid).tasks@.len() == 0
                    &&& final(self).graph.session_at(sid).objects@.len() == 0
                    &&& final(self).graph.tasks == old(self).graph.tasks
                    &&& final(self).graph.objects == old(self).graph.objects
                    &&& final(self).graph.workers == old(self).graph.workers
                    &&& final(self).updates == old(self).updates
                    &&& final(self).outbox == old(self).outbox
                    &&& final(self).stop_server == old(self).stop_server
                },
                Err(_) => false,
            },
    {
        let ci = match self.graph.find_client(client) {
            Some(ci) => ci,
            None => {
                return Err(RainError::NotFound);
            },
        };
        if self.graph.session_id_counter == i32::MAX {
            return Err(RainError::Validation);
        }
        let sid = self.graph.new_session_id();
        proof {
            if self.graph.has_session(sid) {
                let i = choose|i: int|
                    0 <= i < self.graph.sessions@.len() && self.graph.sessions@[i].id == sid;
                assert(crate::graph::sessions_ok(old(self).graph));
                assert(old(self).graph.sessions@[i].id <= old(self).graph.session_id_counter);
            }
        }
        push_session(&mut self.graph, ci, sid);
        proof {
            crate::links::lemma_session_lookup_eq(*&self.graph, *&self.graph);
            let n = self.graph.sessions@.len() - 1;
            crate::graph::lemma_session_index_of(self.graph, n);
        }
        Ok(sid)
    }

    /// Add a new object to a live session, registering it with the
    /// scheduler's update set.
    pub fn add_object(
        &mut self,
        session: SessionId,
        id: DataObjectId,
        object_type: DataObjectType,
        client_keep: bool,
        label: String,
        data: Option<Vec<u8>>,
        additional: Vec<u8>,
    ) -> (r: Result<(), RainError>)
        requires
            old(self).wf(),
            data matches Some(d) ==> d@.len() <= u64::MAX,
        ensures
            final(self).wf(),
            r is Err ==> *final(self) == *old(self),
            old(self).graph.has_object(id) ==> r == Err::<(), RainError>(RainError::Validation),
            r is Ok ==> {
                &&& !old(self).graph.has_object(id)
                &&& old(self).graph.has_session(session)
                &&& id.session_id == session
                &&& old(self).graph.session_at(session).error is None
                &&& final(self).graph.has_object(id)
                &&& final(self).graph.objects@ == old(self).graph.objects@.push(
                    final(self).graph.objects@.last(),
                )
                &&& final(self).graph.objects@.last().id == id
                &&& final(self).graph.objects@.last().object_type == object_type
                &&& final(self).graph.objects@.last().client_keep == client_keep
                &&& final(self).graph.objects@.last().producer is None
                &&& final(self).graph.objects@.last().consumers@.len() == 0
                &&& final(self).graph.objects@.last().label@ == label@
                &&& final(self).graph.objects@.last().additional@ == additional@
                &&& (match data {
                    Some(d) => final(self).graph.objects@.last().state
                        == DataObjectState::Finished && final(self).graph.objects@.last().size
                        == Some(d@.len() as u64) && final(self).graph.objects@.last().data == Some(
                        d,
                    ),
                    None => final(self).graph.objects@.last().state
                        == DataObjectState::Unfinished && final(self).graph.objects@.last().size
                        is None && final(self).graph.objects@.last().data is None,
                })
                &&& final(self).graph.objects@.last().located@.len() == 0
                &&& final(self).graph.objects@.last().assigned@.len() == 0
                &&& final(self).graph.objects@.last().scheduled@.len() == 0
                &&& final(self).graph.object_at(id) == final(self).graph.objects@.last()
                &&& final(self).graph.tasks == old(self).graph.tasks
                &&& final(self).graph.workers == old(self).graph.workers
                &&& final(self).graph.clients == old(self).graph.clients
                &&& final(self).updates.new_objects@ == crate::sets::set_insert(
                    old(self).updates.new_objects@,
                    id,
                )
                &&& final(self).updates.new_tasks == old(self).updates.new_tasks
                &&& final(self).updates.tasks == old(self).updates.tasks
                &&& final(self).updates.objects == old(self).updates.objects
                &&& final(self).graph.session_id_counter == old(self).graph.session_id_counter
                &&& final(self).outbox == old(self).outbox
                &&& final(self).stop_server == old(self).stop_server
            },
            r is Ok <==> (!old(self).graph.has_object(id) && old(self).graph.has_session(session)
                && id.session_id == session && old(self).graph.session_at(session).error is None),
    {
        if id.session_id != session {
            return Err(RainError::Validation);
        }
        let si = match self.graph.find_session(session) {
            Some(si) => si,
            None => {
                return Err(RainError::NotFound);
            },
        };
        proof {
            crate::graph::lemma_session_index_of(self.graph, si as int);
        }
        match &self.graph.sessions[si].error {
            Some(_) => {
                return Err(RainError::Validation);
            },
            None => {},
        }
        match self.graph.find_object(id) {
            Some(_) => {
                return Err(RainError::Validation);
            },
            None => {},
        }
        insert_object(
            &mut self.graph,
            si,
            id,
            object_type,
            client_keep,
            label,
            data,
            additional,
        );
        oid_insert(&mut self.updates.new_objects, id);
        proof {
            let n = self.graph.objects@.len() - 1;
            crate::graph::lemma_object_index_of(self.graph, n);
        }
        Ok(())
    }

    /// Look an entity up by id.
    pub fn worker_by_id(&self, id: WorkerId) -> (r: Result<&Worker, RainError>)
        ensures
            match r {
                Ok(w) => self.graph.has_worker(id) && w.id == id,
                Err(e) => !self.graph.has_worker(id) && e == RainError::NotFound,
            },
    {
        match self.graph.find_worker(id) {
            Some(i) => Ok(&self.graph.workers[i]),
            None => Err(RainError::NotFound),
        }
    }

    pub fn client_by_id(&self, id: ClientId) -> (r: Result<&Client, RainError>)
        ensures
            match r {
                Ok(c) => self.graph.has_client(id) && c.id == id,
                Err(e) => !self.graph.has_client(id) && e == RainError::NotFound,
            },
    {
        match self.graph.find_client(id) {
            Some(i) => Ok(&self.graph.clients[i]),
            None => Err(RainError::NotFound),
        }
    }

    pub fn session_by_id(&self, id: SessionId) -> (r: Result<&Session, RainError>)
        ensures
            match r {
                Ok(s) => self.graph.has_session(id) && s.id == id,
                Err(e) => !self.graph.has_session(id) && e == RainError::NotFound,
            },
    {
        match self.graph.find_session(id) {
            Some(i) => Ok(&self.graph.sessions[i]),
            None => Err(RainError::NotFound),
        }
    }

    pub fn object_by_id(&self, id: DataObjectId) -> (r: Result<&DataObject, RainError>)
        ensures
            match r {
                Ok(o) => self.graph.has_object(id) && o.id == id,
                Err(e) => !self.graph.has_object(id) && e == RainError::NotFound,
            },
    {
        match self.graph.find_object(id) {
            Some(i) => Ok(&self.graph.objects[i]),
            None => Err(RainError::NotFound),
        }
    }

    pub fn task_by_id(&self, id: TaskId) -> (r: Result<&Task, RainError>)
        ensures
            match r {
                Ok(t) => self.graph.has_task(id) && t.id == id,
                Err(e) => !self.graph.has_task(id) && e == RainError::NotFound,
            },
    {
        match self.graph.find_task(id) {
            Some(i) => Ok(&self.graph.tasks[i]),
            None => Err(RainError::NotFound),
        }
    }
}

/// Where a worker shall fetch an object's bytes: the first replica holder,
/// or the server itself when only inline data exists.
pub open spec fn source_placement(o: DataObject) -> WorkerId {
    if o.located@.len() > 0 {
        o.located@[0]
    } else {
        Address::server_spec()
    }
}

/// The shape of the message `assign_object` owes the worker.
pub open spec fn is_assign_object_action(a: Action, object: DataObjectId, worker: WorkerId, placement: WorkerId) -> bool {
    match a {
        Action::AddNodes { worker: w, objects: msgs, tasks } => {
            &&& w == worker
            &&& tasks@.len() == 0
            &&& msgs@.len() == 1
            &&& msgs@[0].object == object
            &&& msgs@[0].placement == placement
            &&& msgs@[0].assigned
        },
        _ => false,
    }
}

/// The shape of the message `unassign_object` owes the worker.
pub open spec fn is_unassign_object_action(a: Action, object: DataObjectId, worker: WorkerId) -> bool {
    match a {
        Action::UnassignObjects { worker: w, objects } => {
            &&& w == worker
            &&& objects@.len() == 1
            &&& objects@[0] == object
        },
        _ => false,
    }
}

/// The control message that hands one task to a worker: a single
/// `add_nodes` entry with the task and its input and output ids.
pub open spec fn is_dispatch_action(a: Action, worker: WorkerId, t: Task) -> bool {
    match a {
        Action::AddNodes { worker: w, objects, tasks } => {
            &&& w == worker
            &&& objects@.len() == 0
            &&& tasks@.len() == 1
            &&& tasks@[0].task == t.id
            &&& tasks@[0].inputs@.len() == t.inputs@.len()
            &&& (forall|m: int|
                0 <= m < t.inputs@.len() ==> tasks@[0].inputs@[m] == (
                #[trigger] t.inputs@[m]).object)
            &&& tasks@[0].outputs@ == t.outputs@
        },
        _ => false,
    }
}

/// At or past `from`, the outbox holds a hand-over entry naming this
/// task and this worker.
pub open spec fn has_dispatch_msg(
    outbox: Seq<Action>,
    from: int,
    worker: WorkerId,
    tid: TaskId,
) -> bool {
    exists|i: int|
        from <= i < outbox.len() && (match #[trigger] outbox[i] {
            Action::AddNodes { worker: w, objects, tasks } => w == worker && tasks@.len() == 1
                && tasks@[0].task == tid,
            _ => false,
        })
}

/// Dispatch leaves a worker no excuse: its ready queue is empty, or its
/// assigned count sits at the admission ceiling.
pub open spec fn queues_drained(g: Graph) -> bool {
    forall|i: int|
        0 <= i < g.workers@.len() ==> ((#[trigger] g.workers@[i]).scheduled_ready_tasks@.len() == 0
            || g.workers@[i].assigned_tasks@.len() >= crate::graph::OVERBOOK_LIMIT)
}

/// Dispatch touches tasks only by turning ready ones assigned; ids,
/// schedules and everything else stand still.
pub open spec fn dispatch_task_frame(a: Graph, b: Graph) -> bool {
    &&& b.tasks@.len() == a.tasks@.len()
    &&& (forall|i: int|
        0 <= i < a.tasks@.len() ==> {
            &&& crate::links::task_core_eq(a.tasks@[i], (#[trigger] b.tasks@[i]))
            &&& b.tasks@[i].scheduled == a.tasks@[i].scheduled
            &&& b.tasks@[i].waiting_for == a.tasks@[i].waiting_for
            &&& (b.tasks@[i].state != a.tasks@[i].state ==> a.tasks@[i].state == TaskState::Ready
                && b.tasks@[i].state == TaskState::Assigned)
        })
    &&& b.workers@.len() == a.workers@.len()
    &&& (forall|i: int|
        0 <= i < a.workers@.len() ==> {
            &&& crate::links::worker_core_eq(a.workers@[i], (#[trigger] b.workers@[i]))
            &&& b.workers@[i].assigned_objects == a.workers@[i].assigned_objects
            &&& b.workers@[i].located_objects == a.workers@[i].located_objects
            &&& b.workers@[i].scheduled_objects == a.workers@[i].scheduled_objects
        })
    &&& b.objects == a.objects
    &&& b.sessions == a.sessions
    &&& b.clients == a.clients
    &&& b.session_id_counter == a.session_id_counter
}

/// The outbox only grew: every message once queued stays in place.
pub open spec fn outbox_extends(a: Seq<Action>, b: Seq<Action>) -> bool {
    a.len() <= b.len() && (forall|i: int| 0 <= i < a.len() ==> b[i] == a[i])
}

/// Somewhere at or past `from`, the outbox holds a withdraw message for
/// this object on this worker.
pub open spec fn has_unassign_msg(
    outbox: Seq<Action>,
    from: int,
    object: DataObjectId,
    w: WorkerId,
) -> bool {
    exists|i: int|
        from <= i < outbox.len() && is_unassign_object_action(#[trigger] outbox[i], object, w)
}

impl State {
    /// Command a worker to hold a finished object, recording the
    /// assignment on both sides and telling the worker where to fetch the
    /// bytes from.
    pub fn assign_object(&mut self, object: DataObjectId, worker: WorkerId)
        requires
            old(self).wf(),
            old(self).graph.has_object(object),
            old(self).graph.has_worker(worker),
            old(self).graph.object_at(object).state == DataObjectState::Finished,
            !old(self).graph.object_at(object).assigned@.contains(worker),
        ensures
            final(self).wf(),
            crate::links::placement_frame(
                old(self).graph,
                final(self).graph,
                PlacementKind::Assigned,
                old(self).graph.object_index(object),
                old(self).graph.worker_index(worker),
            ),
            final(self).graph.object_at(object).assigned@ == old(self).graph.object_at(
                object,
            ).assigned@.push(worker),
            final(self).graph.worker_at(worker).assigned_objects@ == set_insert(
                old(self).graph.worker_at(worker).assigned_objects@,
                object,
            ),
            final(self).outbox@.len() == old(self).outbox@.len() + 1,
            forall|i: int|
                0 <= i < old(self).outbox@.len() ==> final(self).outbox@[i] == old(self).outbox@[i],
            is_assign_object_action(
                final(self).outbox@.last(),
                object,
                worker,
                source_placement(old(self).graph.object_at(object)),
            ),
            final(self).updates == old(self).updates,
            final(self).stop_server == old(self).stop_server,
    {
        let oi = match self.graph.find_object(object) {
            Some(i) => i,
            None => {
                proof {
                    assert(false);
                }
                0
            },
        };
        let wi = match self.graph.find_worker(worker) {
            Some(i) => i,
            None => {
                proof {
                    assert(false);
                }
                0
            },
        };
        proof {
            crate::graph::lemma_object_index_of(self.graph, oi as int);
            crate::graph::lemma_worker_index_of(self.graph, wi as int);
        }
        let placement: WorkerId = if self.graph.objects[oi].located.len() > 0 {
            self.graph.objects[oi].located[0]
        } else {
            Address::server()
        };
        let mut msgs: Vec<NewObjectMsg> = Vec::new();
        msgs.push(NewObjectMsg { object, placement, assigned: true });
        self.outbox.push(Action::AddNodes { worker, objects: msgs, tasks: Vec::new() });
        link_placement(&mut self.graph, PlacementKind::Assigned, oi, wi);
        proof {
            let g0 = old(self).graph;
            let o0 = g0.objects@[oi as int];
            crate::sets::lemma_set_insert(o0.assigned@, worker);
            assert(self.graph.object_index(object) == oi as int) by {
                crate::graph::lemma_object_index_of(self.graph, oi as int);
            }
            assert(self.graph.object_at(object).assigned@ == o0.assigned@.push(worker));
            assert(self.graph.worker_index(worker) == wi as int) by {
                crate::graph::lemma_worker_index_of(self.graph, wi as int);
            }
        }
    }

    /// Withdraw an object from a worker, on both sides, and tell the
    /// worker to drop its copy.
    pub fn unassign_object(&mut self, object: DataObjectId, worker: WorkerId)
        requires
            old(self).wf(),
            old(self).graph.has_object(object),
            old(self).graph.has_worker(worker),
            old(self).graph.object_at(object).assigned@.contains(worker),
        ensures
            final(self).wf(),
            crate::links::placement_frame(
                old(self).graph,
                final(self).graph,
                PlacementKind::Assigned,
                old(self).graph.object_index(object),
                old(self).graph.worker_index(worker),
            ),
            final(self).graph.object_at(object).assigned@ == old(self).graph.object_at(
                object,
            ).assigned@.remove_value(worker),
            final(self).graph.worker_at(worker).assigned_objects@ == old(self).graph.worker_at(worker).assigned_objects@.remove_value(object),
            final(self).outbox@.len() == old(self).outbox@.len() + 1,
            forall|i: int|
                0 <= i < old(self).outbox@.len() ==> final(self).outbox@[i] == old(self).outbox@[i],
            is_unassign_object_action(final(self).outbox@.last(), object, worker),
            final(self).updates == old(self).updates,
            final(self).stop_server == old(self).stop_server,
    {
        let oi = match self.graph.find_object(object) {
            Some(i) => i,
            None => {
                proof {
                    assert(false);
                }
                0
            },
        };
        let wi = match self.graph.find_worker(worker) {
            Some(i) => i,
            None => {
                proof {
                    assert(false);
                }
                0
            },
        };
        proof {
            crate::graph::lemma_object_index_of(self.graph, oi as int);
            crate::graph::lemma_worker_index_of(self.graph, wi as int);
        }
        let mut objs: Vec<DataObjectId> = Vec::new();
        objs.push(object);
        self.outbox.push(Action::UnassignObjects { worker, objects: objs });
        unlink_placement(&mut self.graph, PlacementKind::Assigned, oi, wi);
        proof {
            let g0 = old(self).graph;
            let o0 = g0.objects@[oi as int];
            crate::sets::lemma_set_remove(o0.assigned@, worker);
            assert(self.graph.object_index(object) == oi as int) by {
                crate::graph::lemma_object_index_of(self.graph, oi as int);
            }
            assert(self.graph.worker_index(worker) == wi as int) by {
                crate::graph::lemma_worker_index_of(self.graph, wi as int);
            }
        }
    }

    /// Run the scheduler over the accumulated updates: every new or
    /// changed task that is still unscheduled is pointed at a worker with
    /// spare cpus, ready ones are queued there, and the update set is
    /// reset. With nothing accumulated this is a no-op.
    #[verifier::rlimit(100)]
    #[verifier::spinoff_prover]
    pub fn run_scheduler(&mut self)
        requires
            old(self).wf(),
        ensures
            final(self).wf(),
            old(self).updates.spec_is_empty() ==> *final(self) == *old(self),
            final(self).updates.spec_is_empty(),
            final(self).outbox == old(self).outbox,
            final(self).stop_server == old(self).stop_server,
            forall|tid: TaskId|
                old(self).updates.new_tasks@.contains(tid) || old(self).updates.tasks@.contains(
                    tid,
                ) ==> sched_done(final(self).graph, tid),
    {
        if self.updates.is_empty() {
            return;
        }
        let mut pending: Vec<TaskId> = Vec::new();
        pending.append(&mut self.updates.new_tasks);
        pending.append(&mut self.updates.tasks);
        proof {
            assert(pending@ =~= old(self).updates.new_tasks@ + old(self).updates.tasks@);
        }
        self.updates.new_objects = Vec::new();
        self.updates.objects = Vec::new();
        let mut k: usize = 0;
        while k < pending.len()
            invariant
                self.wf(),
                self.updates.spec_is_empty(),
                self.outbox == old(self).outbox,
                self.stop_server == old(self).stop_server,
                k <= pending@.len(),
                forall|j: int| 0 <= j < k ==> sched_done(self.graph, #[trigger] pending@[j]),
            decreases pending@.len() - k,
        {
            let ghost gpre = self.graph;
            let tid = pending[k];
            match self.graph.find_task(tid) {
                Some(ti) => {
                    proof {
                        crate::graph::lemma_task_index_of(self.graph, ti as int);
                    }
                    let unscheduled = match self.graph.tasks[ti].scheduled {
                        Some(_) => false,
                        None => true,
                    };
                    let state = self.graph.tasks[ti].state;
                    if unscheduled && (state == TaskState::NotAssigned || state
                        == TaskState::Ready) {
                        let demand = self.graph.tasks[ti].resources.cpus;
                        match self.pick_worker(demand) {
                            Some(wi) => {
                                let wid = self.graph.workers[wi].id;
                                proof {
                                    crate::graph::lemma_worker_index_of(self.graph, wi as int);
                                }
                                set_task_scheduled(&mut self.graph, ti, Some(wid));
                                if state == TaskState::Ready {
                                    let wi2 = match self.graph.find_worker(wid) {
                                        Some(i) => i,
                                        None => {
                                            proof {
                                                assert(false);
                                            }
                                            0
                                        },
                                    };
                                    enqueue_ready(&mut self.graph, ti, wi2);
                                }
                            },
                            None => {},
                        }
                    }
                },
                None => {},
            }
            k = k + 1;
            proof {
                assert(self.graph.workers@.len() == gpre.workers@.len());
                assert forall|j: int|
                    0 <= j < self.graph.workers@.len() implies (
                #[trigger] self.graph.workers@[j]).resources == gpre.workers@[j].resources by {}
                assert(some_worker_free(self.graph) == some_worker_free(gpre)) by {
                    if some_worker_free(gpre) {
                        let i = choose|i: int|
                            0 <= i < gpre.workers@.len() && (
                            #[trigger] gpre.workers@[i]).resources.cpus > 0;
                        assert(self.graph.workers@[i].resources.cpus > 0);
                    }
                    if some_worker_free(self.graph) {
                        let i = choose|i: int|
                            0 <= i < self.graph.workers@.len() && (
                            #[trigger] self.graph.workers@[i]).resources.cpus > 0;
                        assert(gpre.workers@[i].resources.cpus > 0);
                    }
                }
                assert(crate::links::same_shape(gpre, self.graph));
                crate::links::lemma_same_shape_lookup(gpre, self.graph);
                assert forall|j: int| 0 <= j < k implies sched_done(
                    self.graph,
                    #[trigger] pending@[j],
                ) by {
                    let t2 = pending@[j];
                    if j < k - 1 {
                        assert(sched_done(gpre, t2));
                        if gpre.has_task(t2) {
                            assert(self.graph.task_at(t2).id == gpre.task_at(t2).id);
                            if gpre.task_at(t2).scheduled is Some {
                                if self.graph.task_at(t2) != gpre.task_at(t2) {
                                    assert(self.graph.task_at(t2).scheduled is Some
                                        || self.graph.task_at(t2) == gpre.task_at(t2));
                                }
                            }
                        }
                    } else {
                        assert(t2 == tid);
                    }
                }
            }
        }
        proof {
            assert forall|tid: TaskId|
                old(self).updates.new_tasks@.contains(tid) || old(self).updates.tasks@.contains(
                    tid,
                ) implies sched_done(self.graph, tid) by {
                let p = old(self).updates.new_tasks@ + old(self).updates.tasks@;
                assert(p.contains(tid)) by {
                    if old(self).updates.new_tasks@.contains(tid) {
                        let i = choose|i: int|
                            0 <= i < old(self).updates.new_tasks@.len() && old(self).updates.new_tasks@[i] == tid;
                        assert(p[i] == tid);
                    } else {
                        let i = choose|i: int|
                            0 <= i < old(self).updates.tasks@.len() && old(self).updates.tasks@[i] == tid;
                        assert(p[old(self).updates.new_tasks@.len() + i] == tid);
                    }
                }
                let j = choose|j: int| 0 <= j < p.len() && p[j] == tid;
                assert(sched_done(self.graph, p[j]));
            }
        }
    }

    /// Pick a worker with spare cpus: one meeting the task's cpu demand
    /// when any does (best effort), else any with cpus at all.
    fn pick_worker(&mut self, demand: u32) -> (r: Option<usize>)
        ensures
            *final(self) == *old(self),
            match r {
                Some(i) => i < final(self).graph.workers@.len()
                    && final(self).graph.workers@[i as int].resources.cpus > 0 && ((exists|j: int|
                    0 <= j < final(self).graph.workers@.len()
                        && (#[trigger] final(self).graph.workers@[j]).resources.cpus >= demand
                        && final(self).graph.workers@[j].resources.cpus > 0)
                    ==> final(self).graph.workers@[i as int].resources.cpus >= demand),
                None => !some_worker_free(final(self).graph),
            },
    {
        let n = self.graph.workers.len();
        let mut m: usize = 0;
        while m < n
            invariant
                n == self.graph.workers@.len(),
                *self == *old(self),
                m <= n,
                forall|j: int|
                    0 <= j < m ==> !((#[trigger] self.graph.workers@[j]).resources.cpus >= demand
                        && self.graph.workers@[j].resources.cpus > 0),
            decreases n - m,
        {
            if self.graph.workers[m].resources.cpus >= demand && self.graph.workers[m].resources.cpus
                > 0 {
                return Some(m);
            }
            m = m + 1;
        }
        let mut m2: usize = 0;
        while m2 < n
            invariant
                n == self.graph.workers@.len(),
                *self == *old(self),
                m2 <= n,
                forall|j: int|
                    0 <= j < n ==> !((#[trigger] self.graph.workers@[j]).resources.cpus >= demand
                        && self.graph.workers@[j].resources.cpus > 0),
                forall|j: int|
                    0 <= j < m2 ==> (#[trigger] self.graph.workers@[j]).resources.cpus == 0,
            decreases n - m2,
        {
            if self.graph.workers[m2].resources.cpus > 0 {
                return Some(m2);
            }
            m2 = m2 + 1;
        }
        None
    }

    /// One reactor turn: schedule if anything changed, then hand out
    /// ready work. Returns false when the server shall stop.
    pub fn turn(&mut self) -> (r: bool)
        requires
            old(self).wf(),
        ensures
            final(self).wf(),
            r == !old(self).stop_server,
            final(self).stop_server == old(self).stop_server,
    {
        if !self.updates.is_empty() {
            self.run_scheduler();
        }
        self.distribute_tasks();
        !self.stop_server
    }

    /// Hand ready scheduled tasks to their workers, never past the
    /// admission ceiling.
    pub fn distribute_tasks(&mut self)
        requires
            old(self).wf(),
        ensures
            final(self).wf(),
            final(self).stop_server == old(self).stop_server,
            final(self).updates == old(self).updates,
    {
        let nw = self.graph.workers.len();
        let mut wi: usize = 0;
        while wi < nw
            invariant
                old(self).wf(),
                self.wf(),
                nw == self.graph.workers@.len(),
                self.stop_server == old(self).stop_server,
                self.updates == old(self).updates,
            decreases nw - wi,
        {
            self.dispatch_worker(wi);
            wi = wi + 1;
        }
    }

    /// Drain one worker's ready queue up to the admission ceiling,
    /// dispatching each task with its control message.
    fn dispatch_worker(&mut self, wi: usize)
        requires
            old(self).wf(),
            wi < old(self).graph.workers@.len(),
        ensures
            final(self).wf(),
            dispatch_task_frame(old(self).graph, final(self).graph),
            final(self).graph.workers@[wi as int].scheduled_ready_tasks@.len() == 0 || final(self).graph.workers@[wi as int].assigned_tasks@.len() >= OVERBOOK_LIMIT,
            forall|j: int|
                0 <= j < old(self).graph.workers@.len() && j != wi ==> final(self).graph.workers@[j] == old(self).graph.workers@[j],
            outbox_extends(old(self).outbox@, final(self).outbox@),
            final(self).stop_server == old(self).stop_server,
            final(self).updates == old(self).updates,
    {
        loop
            invariant
                self.wf(),
                wi < self.graph.workers@.len(),
                dispatch_task_frame(old(self).graph, self.graph),
                forall|j: int|
                    0 <= j < old(self).graph.workers@.len() && j != wi
                        ==> self.graph.workers@[j] == old(self).graph.workers@[j],
                outbox_extends(old(self).outbox@, self.outbox@),
                self.stop_server == old(self).stop_server,
                self.updates == old(self).updates,
            decreases self.graph.workers@[wi as int].scheduled_ready_tasks@.len(),
        {
            if self.graph.workers[wi].assigned_tasks.len() >= OVERBOOK_LIMIT {
                return;
            }
            if self.graph.workers[wi].scheduled_ready_tasks.len() == 0 {
                return;
            }
            let tid = self.graph.workers[wi].scheduled_ready_tasks[0];
            let ti = match self.graph.find_task(tid) {
                Some(i) => i,
                None => {
                    proof {
                        assert(crate::graph::refs_closed(self.graph));
                        assert(self.graph.workers@[wi as int].scheduled_ready_tasks@[0] == tid);
                        assert(self.graph.workers@[wi as int].scheduled_ready_tasks@.contains(
                            tid,
                        ));
                        assert(false);
                    }
                    0
                },
            };
            proof {
                assert(self.graph.workers@[wi as int].scheduled_ready_tasks@.contains(tid));
                assert(crate::graph::assignment_sym(self.graph));
                assert(self.graph.tasks@[ti as int].id == tid);
                assert(self.graph.tasks@[ti as int].scheduled == Some(
                    self.graph.workers@[wi as int].id,
                ) && self.graph.tasks@[ti as int].state == TaskState::Ready);
                crate::sets::lemma_set_remove(
                    self.graph.workers@[wi as int].scheduled_ready_tasks@,
                    tid,
                );
            }
            self.dispatch_task(ti, wi);
        }
    }

    /// Send one ready task to the worker it is scheduled on: the task
    /// becomes assigned, leaves the queue, and an `add_nodes` message with
    /// the task's inputs and outputs is queued.
    fn dispatch_task(&mut self, ti: usize, wi: usize)
        requires
            old(self).wf(),
            ti < old(self).graph.tasks@.len(),
            wi < old(self).graph.workers@.len(),
            old(self).graph.tasks@[ti as int].state == TaskState::Ready,
            old(self).graph.tasks@[ti as int].scheduled == Some(
                old(self).graph.workers@[wi as int].id,
            ),
            old(self).graph.workers@[wi as int].assigned_tasks@.len() < OVERBOOK_LIMIT,
        ensures
            final(self).wf(),
            crate::links::task_worker_frame(
                old(self).graph,
                final(self).graph,
                ti as int,
                wi as int,
            ),
            final(self).graph.workers@.len() == old(self).graph.workers@.len(),
            final(self).graph.workers@[wi as int].scheduled_ready_tasks@ == old(self).graph.workers@[wi as int].scheduled_ready_tasks@.remove_value(
                old(self).graph.tasks@[ti as int].id,
            ),
            final(self).graph.tasks@[ti as int].state == TaskState::Assigned,
            final(self).graph.tasks@[ti as int].assigned == Some(
                old(self).graph.workers@[wi as int].id,
            ),
            final(self).graph.tasks@[ti as int].scheduled == old(self).graph.tasks@[ti as int].scheduled,
            final(self).outbox@.len() == old(self).outbox@.len() + 1,
            outbox_extends(old(self).outbox@, final(self).outbox@),
            is_dispatch_action(
                final(self).outbox@.last(),
                old(self).graph.workers@[wi as int].id,
                old(self).graph.tasks@[ti as int],
            ),
            final(self).stop_server == old(self).stop_server,
            final(self).updates == old(self).updates,
    {
        let tid = self.graph.tasks[ti].id;
        let worker = self.graph.workers[wi].id;
        let mut inputs: Vec<DataObjectId> = Vec::new();
        let ni = self.graph.tasks[ti].inputs.len();
        let mut k: usize = 0;
        while k < ni
            invariant
                *self == *old(self),
                ti < self.graph.tasks@.len(),
                ni == self.graph.tasks@[ti as int].inputs@.len(),
                k <= ni,
                inputs@.len() == k,
                forall|m: int|
                    0 <= m < k ==> inputs@[m] == (
                    #[trigger] self.graph.tasks@[ti as int].inputs@[m]).object,
            decreases ni - k,
        {
            inputs.push(self.graph.tasks[ti].inputs[k].object);
            k = k + 1;
        }
        let mut outputs: Vec<DataObjectId> = Vec::new();
        let no = self.graph.tasks[ti].outputs.len();
        k = 0;
        while k < no
            invariant
                *self == *old(self),
                ti < self.graph.tasks@.len(),
                no == self.graph.tasks@[ti as int].outputs@.len(),
                k <= no,
                outputs@ == self.graph.tasks@[ti as int].outputs@.take(k as int),
            decreases no - k,
        {
            outputs.push(self.graph.tasks[ti].outputs[k]);
            proof {
                assert(outputs@ =~= self.graph.tasks@[ti as int].outputs@.take(k as int + 1));
            }
            k = k + 1;
        }
        proof {
            assert(outputs@ =~= self.graph.tasks@[ti as int].outputs@);
        }
        let mut tmsgs: Vec<NewTaskMsg> = Vec::new();
        tmsgs.push(NewTaskMsg { task: tid, inputs, outputs });
        self.outbox.push(Action::AddNodes { worker, objects: Vec::new(), tasks: tmsgs });
        mark_task_assigned(&mut self.graph, ti, wi);
    }
}

/// Assigning an object to a worker and then withdrawing that same
/// assignment restores the assignment set exactly: `assign_object` ends
/// with the worker appended, and `unassign_object` removes precisely that
/// first occurrence, while both leave every other field and entity alone
/// (their frames say so); only the two queued control messages remain.
pub proof fn lemma_assign_then_unassign_restores(s: Seq<WorkerId>, w: WorkerId)
    requires
        !s.contains(w),
    ensures
        s.push(w).remove_value(w) == s,
{
    let p = s.push(w);
    p.index_of_first_ensures(w);
    assert(p[s.len() as int] == w);
    assert(p.contains(w));
    match p.index_of_first(w) {
        Some(i) => {
            assert(p[i] == w);
            if i < s.len() {
                assert(s[i] == w);
                assert(s.contains(w));
            }
            assert(i == s.len());
            assert(p.remove(i) =~= s);
        },
        None => {
            assert(false);
        },
    }
}

/// Whether the object must persist: the client keeps it, some consumer
/// has not finished, or some consumer is scheduled on a worker that does
/// not yet hold a replica.
pub open spec fn spec_needed_parts(
    tasks: Seq<Task>,
    consumers: Seq<TaskId>,
    located: Seq<WorkerId>,
    keep: bool,
) -> bool {
    ||| keep
    ||| exists|j: int|
        0 <= j < tasks.len() && consumers.contains(#[trigger] tasks[j].id) && tasks[j].state
            != TaskState::Finished
    ||| exists|j: int|
        0 <= j < tasks.len() && consumers.contains(#[trigger] tasks[j].id) && (match tasks[j].scheduled {
            Some(w) => !located.contains(w),
            None => false,
        })
}

pub open spec fn spec_needed(tasks: Seq<Task>, o: DataObject) -> bool {
    spec_needed_parts(tasks, o.consumers@, o.located@, o.client_keep)
}

impl State {
    /// Decide whether an object is still needed.
    fn is_needed(&self, oi: usize) -> (r: bool)
        requires
            self.wf(),
            oi < self.graph.objects@.len(),
        ensures
            r == spec_needed(self.graph.tasks@, self.graph.objects@[oi as int]),
    {
        if self.graph.objects[oi].client_keep {
            return true;
        }
        let n = self.graph.objects[oi].consumers.len();
        let mut k: usize = 0;
        while k < n
            invariant
                self.wf(),
                oi < self.graph.objects@.len(),
                n == self.graph.objects@[oi as int].consumers@.len(),
                k <= n,
                forall|j: int|
                    0 <= j < self.graph.tasks@.len()
                        && self.graph.objects@[oi as int].consumers@.take(k as int).contains(
                        #[trigger] self.graph.tasks@[j].id,
                    ) ==> self.graph.tasks@[j].state == TaskState::Finished && (match self.graph.tasks@[j].scheduled {
                        Some(w) => self.graph.objects@[oi as int].located@.contains(w),
                        None => true,
                    }),
            decreases n - k,
        {
            let cid = self.graph.objects[oi].consumers[k];
            proof {
                crate::graph::lemma_object_index_of(self.graph, oi as int);
                assert(self.graph.objects@[oi as int].consumers@.contains(cid));
            }
            let ti = match self.graph.find_task(cid) {
                Some(ti) => ti,
                None => {
                    proof {
                        assert(false);
                    }
                    0
                },
            };
            proof {
                crate::graph::lemma_task_index_of(self.graph, ti as int);
            }
            if !(self.graph.tasks[ti].state == TaskState::Finished) {
                return true;
            }
            match self.graph.tasks[ti].scheduled {
                Some(w) => {
                    if !addr_contains(&self.graph.objects[oi].located, w) {
                        return true;
                    }
                },
                None => {},
            }
            proof {
                let cons = self.graph.objects@[oi as int].consumers@;
                assert(cons.take(k as int + 1) =~= cons.take(k as int).push(cid));
                assert forall|j: int|
                    0 <= j < self.graph.tasks@.len() && cons.take(k as int + 1).contains(
                        #[trigger] self.graph.tasks@[j].id,
                    ) implies self.graph.tasks@[j].state == TaskState::Finished && (match self.graph.tasks@[j].scheduled {
                    Some(w) => self.graph.objects@[oi as int].located@.contains(w),
                    None => true,
                }) by {
                    let jid = self.graph.tasks@[j].id;
                    let m = choose|m: int|
                        0 <= m < k + 1 && #[trigger] cons.take(k as int + 1)[m] == jid;
                    if m < k {
                        assert(cons.take(k as int)[m] == jid);
                        assert(cons.take(k as int).contains(jid));
                    } else {
                        assert(jid == cid);
                        assert(self.graph.tasks@[ti as int].id == cid);
                        assert(j == ti as int);
                    }
                }
            }
            k = k + 1;
        }
        proof {
            let cons = self.graph.objects@[oi as int].consumers@;
            assert(cons.take(n as int) =~= cons);
        }
        false
    }

    /// Withdraw an unneeded, unscheduled, finished object everywhere and
    /// retire it: every assignment is revoked with its message, every
    /// replica record is dropped, and the state turns Removed.
    #[verifier::rlimit(100)]
    #[verifier::spinoff_prover]
    fn retire_object(&mut self, oi: usize)
        requires
            old(self).wf(),
            oi < old(self).graph.objects@.len(),
            old(self).graph.objects@[oi as int].state == DataObjectState::Finished,
            old(self).graph.objects@[oi as int].scheduled@.len() == 0,
        ensures
            final(self).wf(),
            final(self).graph.objects@.len() == old(self).graph.objects@.len(),
            ({
                let o1 = final(self).graph.objects@[oi as int];
                let o0 = old(self).graph.objects@[oi as int];
                &&& o1.id == o0.id
                &&& o1.client_keep == o0.client_keep
                &&& o1.consumers == o0.consumers
                &&& o1.scheduled == o0.scheduled
                &&& o1.state == DataObjectState::Removed
                &&& o1.assigned@.len() == 0
                &&& o1.located@.len() == 0
            }),
            forall|j: int|
                0 <= j < old(self).graph.objects@.len() && j != oi
                    ==> final(self).graph.objects@[j] == old(self).graph.objects@[j],
            final(self).graph.workers@.len() == old(self).graph.workers@.len(),
            forall|j: int|
                0 <= j < old(self).graph.workers@.len()
                    ==> (#[trigger] final(self).graph.workers@[j]).id == old(self).graph.workers@[j].id,
            final(self).graph.tasks == old(self).graph.tasks,
            final(self).graph.sessions == old(self).graph.sessions,
            final(self).graph.clients == old(self).graph.clients,
            final(self).graph.session_id_counter == old(self).graph.session_id_counter,
            final(self).updates == old(self).updates,
            final(self).stop_server == old(self).stop_server,
            outbox_extends(old(self).outbox@, final(self).outbox@),
            forall|x: WorkerId|
                old(self).graph.objects@[oi as int].assigned@.contains(x) ==> has_unassign_msg(
                    final(self).outbox@,
                    old(self).outbox@.len() as int,
                    old(self).graph.objects@[oi as int].id,
                    x,
                ),
    {
        let ghost o0 = old(self).graph.objects@[oi as int];
        let object = self.graph.objects[oi].id;
        proof {
            crate::graph::lemma_object_index_of(self.graph, oi as int);
        }
        while self.graph.objects[oi].assigned.len() > 0
            invariant
                self.wf(),
                oi < self.graph.objects@.len(),
                self.graph.objects@.len() == old(self).graph.objects@.len(),
                self.graph.objects@[oi as int].id == o0.id,
                object == o0.id,
                self.graph.objects@[oi as int].state == DataObjectState::Finished,
                self.graph.objects@[oi as int].client_keep == o0.client_keep,
                self.graph.objects@[oi as int].consumers == o0.consumers,
                self.graph.objects@[oi as int].scheduled == o0.scheduled,
                self.graph.objects@[oi as int].located == o0.located,
                forall|j: int|
                    0 <= j < old(self).graph.objects@.len() && j != oi
                        ==> self.graph.objects@[j] == old(self).graph.objects@[j],
                self.graph.workers@.len() == old(self).graph.workers@.len(),
                forall|j: int|
                    0 <= j < old(self).graph.workers@.len() ==> (
                    #[trigger] self.graph.workers@[j]).id == old(self).graph.workers@[j].id,
                self.graph.tasks == old(self).graph.tasks,
                self.graph.sessions == old(self).graph.sessions,
                self.graph.clients == old(self).graph.clients,
                self.graph.session_id_counter == old(self).graph.session_id_counter,
                self.updates == old(self).updates,
                self.stop_server == old(self).stop_server,
                outbox_extends(old(self).outbox@, self.outbox@),
                forall|x: WorkerId|
                    o0.assigned@.contains(x) && !self.graph.objects@[oi as int].assigned@.contains(
                        x,
                    ) ==> has_unassign_msg(
                        self.outbox@,
                        old(self).outbox@.len() as int,
                        o0.id,
                        x,
                    ),
                forall|x: WorkerId|
                    self.graph.objects@[oi as int].assigned@.contains(x) ==> o0.assigned@.contains(
                        x,
                    ),
            decreases self.graph.objects@[oi as int].assigned@.len(),
        {
            let w = self.graph.objects[oi].assigned[0];
            proof {
                crate::graph::lemma_object_index_of(self.graph, oi as int);
                assert(self.graph.objects@[oi as int].assigned@.contains(w));
                assert(crate::graph::refs_closed(self.graph));
                assert(self.graph.has_worker(w));
                crate::sets::lemma_set_remove(self.graph.objects@[oi as int].assigned@, w);
            }
            let ghost gpre = self.graph;
            let ghost opre = self.outbox@;
            self.unassign_object(object, w);
            proof {
                crate::graph::lemma_object_index_of(self.graph, oi as int);
                assert(gpre.object_index(object) == oi as int) by {
                    crate::graph::lemma_object_index_of(gpre, oi as int);
                }
                assert(is_unassign_object_action(self.outbox@.last(), object, w));
                assert forall|x: WorkerId|
                    o0.assigned@.contains(x) && !self.graph.objects@[oi as int].assigned@.contains(
                        x,
                    ) implies has_unassign_msg(
                    self.outbox@,
                    old(self).outbox@.len() as int,
                    o0.id,
                    x,
                ) by {
                    if x == w {
                        assert(self.outbox@[self.outbox@.len() - 1] == self.outbox@.last());
                    } else {
                        assert(gpre.objects@[oi as int].assigned@.contains(x)
                            == self.graph.objects@[oi as int].assigned@.contains(x));
                        assert(has_unassign_msg(opre, old(self).outbox@.len() as int, o0.id, x));
                        let i = choose|i: int|
                            old(self).outbox@.len() <= i < opre.len() && is_unassign_object_action(
                                #[trigger] opre[i],
                                o0.id,
                                x,
                            );
                        assert(self.outbox@[i] == opre[i]);
                    }
                }
            }
        }
        while self.graph.objects[oi].located.len() >= 2
            invariant
                self.wf(),
                oi < self.graph.objects@.len(),
                self.graph.objects@.len() == old(self).graph.objects@.len(),
                self.graph.objects@[oi as int].id == o0.id,
                object == o0.id,
                self.graph.objects@[oi as int].state == DataObjectState::Finished,
                self.graph.objects@[oi as int].client_keep == o0.client_keep,
                self.graph.objects@[oi as int].consumers == o0.consumers,
                self.graph.objects@[oi as int].scheduled == o0.scheduled,
                self.graph.objects@[oi as int].assigned@.len() == 0,
                forall|j: int|
                    0 <= j < old(self).graph.objects@.len() && j != oi
                        ==> self.graph.objects@[j] == old(self).graph.objects@[j],
                self.graph.workers@.len() == old(self).graph.workers@.len(),
                forall|j: int|
                    0 <= j < old(self).graph.workers@.len() ==> (
                    #[trigger] self.graph.workers@[j]).id == old(self).graph.workers@[j].id,
                self.graph.tasks == old(self).graph.tasks,
                self.graph.sessions == old(self).graph.sessions,
                self.graph.clients == old(self).graph.clients,
                self.graph.session_id_counter == old(self).graph.session_id_counter,
                self.updates == old(self).updates,
                self.stop_server == old(self).stop_server,
                outbox_extends(old(self).outbox@, self.outbox@),
                forall|x: WorkerId|
                    o0.assigned@.contains(x) ==> has_unassign_msg(
                        self.outbox@,
                        old(self).outbox@.len() as int,
                        o0.id,
                        x,
                    ),
            decreases self.graph.objects@[oi as int].located@.len(),
        {
            let w = self.graph.objects[oi].located[0];
            proof {
                assert(self.graph.objects@[oi as int].located@.contains(w));
                assert(crate::graph::refs_closed(self.graph));
                assert(self.graph.has_worker(w));
            }
            let wi = match self.graph.find_worker(w) {
                Some(i) => i,
                None => {
                    proof {
                        assert(false);
                    }
                    0
                },
            };
            proof {
                crate::sets::lemma_set_remove(self.graph.objects@[oi as int].located@, w);
            }
            unlink_placement(&mut self.graph, PlacementKind::Located, oi, wi);
        }
        if self.graph.objects[oi].located.len() == 1 {
            let w = self.graph.objects[oi].located[0];
            proof {
                assert(self.graph.objects@[oi as int].located@.contains(w));
                assert(crate::graph::refs_closed(self.graph));
                assert(self.graph.has_worker(w));
            }
            let wi = match self.graph.find_worker(w) {
                Some(i) => i,
                None => {
                    proof {
                        assert(false);
                    }
                    0
                },
            };
            crate::links::drop_replica_retire(&mut self.graph, oi, wi);
        } else {
            set_object_removed(&mut self.graph, oi);
        }
    }
}

impl State {
    /// Prune replicas past the schedule: every located worker outside the
    /// schedule is dropped (and unassigned, with its message), but never
    /// below one remaining replica.
    #[verifier::rlimit(100)]
    #[verifier::spinoff_prover]
    fn prune_replicas(&mut self, oi: usize)
        requires
            old(self).wf(),
            oi < old(self).graph.objects@.len(),
            old(self).graph.objects@[oi as int].state == DataObjectState::Finished,
            old(self).graph.objects@[oi as int].scheduled@.len() > 0,
        ensures
            final(self).wf(),
            final(self).graph.objects@.len() == old(self).graph.objects@.len(),
            ({
                let o1 = final(self).graph.objects@[oi as int];
                let o0 = old(self).graph.objects@[oi as int];
                &&& o1.id == o0.id
                &&& o1.client_keep == o0.client_keep
                &&& o1.consumers == o0.consumers
                &&& o1.scheduled == o0.scheduled
                &&& o1.state == DataObjectState::Finished
                &&& (forall|x: WorkerId| o1.located@.contains(x) ==> o0.located@.contains(x))
                &&& (forall|x: WorkerId|
                    o0.located@.contains(x) && o0.scheduled@.contains(x) ==> o1.located@.contains(
                        x,
                    ))
                &&& ((exists|x: WorkerId| o0.located@.contains(x) && o0.scheduled@.contains(x))
                    ==> (forall|x: WorkerId|
                    o1.located@.contains(x) <==> (o0.located@.contains(x)
                        && o0.scheduled@.contains(x))))
                &&& (forall|x: WorkerId| o1.assigned@.contains(x) ==> o0.assigned@.contains(x))
                &&& (forall|x: WorkerId|
                    o0.assigned@.contains(x) && o0.scheduled@.contains(x)
                        ==> o1.assigned@.contains(x))
                &&& (o0.located@.len() > 0 ==> o1.located@.len() >= 1)
            }),
            (exists|x: WorkerId| old(self).graph.objects@[oi as int].located@.contains(x) && old(self).graph.objects@[oi as int].scheduled@.contains(x)) ==> forall|x: WorkerId|
                old(self).graph.objects@[oi as int].located@.contains(x) && !old(self).graph.objects@[oi as int].scheduled@.contains(x) ==> !final(self).graph.objects@[oi as int].assigned@.contains(x) && (old(self).graph.objects@[oi as int].assigned@.contains(x) ==> has_unassign_msg(
                    final(self).outbox@,
                    old(self).outbox@.len() as int,
                    old(self).graph.objects@[oi as int].id,
                    x,
                )),
            outbox_extends(old(self).outbox@, final(self).outbox@),
            forall|j: int|
                0 <= j < old(self).graph.objects@.len() && j != oi
                    ==> final(self).graph.objects@[j] == old(self).graph.objects@[j],
            final(self).graph.workers@.len() == old(self).graph.workers@.len(),
            forall|j: int|
                0 <= j < old(self).graph.workers@.len()
                    ==> (#[trigger] final(self).graph.workers@[j]).id == old(self).graph.workers@[j].id,
            final(self).graph.tasks == old(self).graph.tasks,
            final(self).graph.sessions == old(self).graph.sessions,
            final(self).graph.clients == old(self).graph.clients,
            final(self).graph.session_id_counter == old(self).graph.session_id_counter,
            final(self).updates == old(self).updates,
            final(self).stop_server == old(self).stop_server,
    {
        let ghost o0 = old(self).graph.objects@[oi as int];
        let object = self.graph.objects[oi].id;
        let mut snap: Vec<WorkerId> = Vec::new();
        let nl = self.graph.objects[oi].located.len();
        let mut k: usize = 0;
        while k < nl
            invariant
                nl == self.graph.objects@[oi as int].located@.len(),
                oi < self.graph.objects@.len(),
                k <= nl,
                snap@ == self.graph.objects@[oi as int].located@.take(k as int),
            decreases nl - k,
        {
            let x = self.graph.objects[oi].located[k];
            snap.push(x);
            proof {
                assert(snap@ =~= self.graph.objects@[oi as int].located@.take(k as int + 1));
            }
            k = k + 1;
        }
        proof {
            assert(snap@ =~= o0.located@);
        }
        k = 0;
        while k < nl
            invariant
                self.wf(),
                oi < self.graph.objects@.len(),
                self.graph.objects@.len() == old(self).graph.objects@.len(),
                nl == snap@.len(),
                k <= nl,
                snap@ == o0.located@,
                object == o0.id,
                ({
                    let oc = self.graph.objects@[oi as int];
                    &&& oc.id == o0.id
                    &&& oc.client_keep == o0.client_keep
                    &&& oc.consumers == o0.consumers
                    &&& oc.scheduled == o0.scheduled
                    &&& oc.state == DataObjectState::Finished
                    &&& (forall|x: WorkerId| oc.located@.contains(x) ==> o0.located@.contains(x))
                    &&& (forall|x: WorkerId|
                        o0.located@.contains(x) && o0.scheduled@.contains(x)
                            ==> oc.located@.contains(x))
                    &&& ((exists|x: WorkerId| o0.located@.contains(x) && o0.scheduled@.contains(
                        x,
                    )) ==> (forall|j: int|
                        0 <= j < k && !o0.scheduled@.contains(snap@[j]) ==> !oc.located@.contains(
                            snap@[j],
                        )))
                    &&& (forall|x: WorkerId| oc.assigned@.contains(x) ==> o0.assigned@.contains(x))
                    &&& (forall|x: WorkerId|
                        o0.assigned@.contains(x) && o0.scheduled@.contains(x)
                            ==> oc.assigned@.contains(x))
                    &&& (forall|x: WorkerId|
                        o0.located@.contains(x) && !oc.located@.contains(x)
                            ==> snap@.take(k as int).contains(x))
                    &&& (forall|x: WorkerId|
                        o0.assigned@.contains(x) && !oc.assigned@.contains(x)
                            ==> snap@.take(k as int).contains(x))
                    &&& ((exists|x: WorkerId| o0.located@.contains(x) && o0.scheduled@.contains(
                        x,
                    )) ==> (forall|j: int|
                        0 <= j < k && !o0.scheduled@.contains(snap@[j])
                            ==> !oc.assigned@.contains(snap@[j]) && (o0.assigned@.contains(
                            snap@[j],
                        ) ==> has_unassign_msg(
                            self.outbox@,
                            old(self).outbox@.len() as int,
                            o0.id,
                            snap@[j],
                        ))))
                    &&& (o0.located@.len() > 0 ==> oc.located@.len() >= 1)
                }),
                outbox_extends(old(self).outbox@, self.outbox@),
                forall|j: int|
                    0 <= j < old(self).graph.objects@.len() && j != oi
                        ==> self.graph.objects@[j] == old(self).graph.objects@[j],
                self.graph.workers@.len() == old(self).graph.workers@.len(),
                forall|j: int|
                    0 <= j < old(self).graph.workers@.len() ==> (
                    #[trigger] self.graph.workers@[j]).id == old(self).graph.workers@[j].id,
                self.graph.tasks == old(self).graph.tasks,
                self.graph.sessions == old(self).graph.sessions,
                self.graph.clients == old(self).graph.clients,
                self.graph.session_id_counter == old(self).graph.session_id_counter,
                self.updates == old(self).updates,
                self.stop_server == old(self).stop_server,
            decreases nl - k,
        {
            let ghost gk_outbox = self.outbox@;
            let ghost gk = self.graph;
            let wa = snap[k];
            let in_sched = addr_contains(&self.graph.objects[oi].scheduled, wa);
            let in_loc = addr_contains(&self.graph.objects[oi].located, wa);
            if !in_sched && in_loc && self.graph.objects[oi].located.len() >= 2 {
                proof {
                    crate::graph::lemma_object_index_of(self.graph, oi as int);
                    assert(crate::graph::refs_closed(self.graph));
                    assert(self.graph.has_worker(wa));
                }
                if addr_contains(&self.graph.objects[oi].assigned, wa) {
                    let ghost gpre = self.graph;
                    self.unassign_object(object, wa);
                    proof {
                        crate::graph::lemma_object_index_of(self.graph, oi as int);
                        assert(gpre.object_index(object) == oi as int) by {
                            crate::graph::lemma_object_index_of(gpre, oi as int);
                        }
                        crate::sets::lemma_set_remove(gpre.objects@[oi as int].assigned@, wa);
                    }
                }
                let wi = match self.graph.find_worker(wa) {
                    Some(i) => i,
                    None => {
                        proof {
                            assert(false);
                        }
                        0
                    },
                };
                proof {
                    crate::sets::lemma_set_remove(self.graph.objects@[oi as int].located@, wa);
                }
                unlink_placement(&mut self.graph, PlacementKind::Located, oi, wi);
            }
            k = k + 1;
            proof {
                let oc = self.graph.objects@[oi as int];
                let opre2 = gk_outbox;
                assert(snap@.take(k as int) =~= snap@.take(k as int - 1).push(wa));
                assert forall|x: WorkerId|
                    snap@.take(k as int - 1).contains(x) implies snap@.take(k as int).contains(
                    x,
                ) by {
                    let m = choose|m: int|
                        0 <= m < k - 1 && #[trigger] snap@.take(k as int - 1)[m] == x;
                    assert(snap@.take(k as int)[m] == x);
                }
                assert(snap@.take(k as int)[k - 1] == wa);
                assert(snap@.take(k as int).contains(wa));
                if exists|x: WorkerId| o0.located@.contains(x) && o0.scheduled@.contains(x) {
                    assert forall|j: int|
                        0 <= j < k && !o0.scheduled@.contains(snap@[j]) implies !oc.located@.contains(
                        snap@[j],
                    ) by {
                        if j == k - 1 {
                            if oc.located@.contains(wa) {
                                let s = choose|s: WorkerId|
                                    o0.located@.contains(s) && o0.scheduled@.contains(s);
                                assert(oc.located@.contains(s));
                                assert(s != wa);
                                if !in_sched && in_loc {
                                    let i1 = choose|i1: int|
                                        0 <= i1 < oc.located@.len() && oc.located@[i1] == s;
                                    let i2 = choose|i2: int|
                                        0 <= i2 < oc.located@.len() && oc.located@[i2] == wa;
                                    assert(i1 != i2);
                                    assert(oc.located@.len() >= 2);
                                    assert(false);
                                }
                            }
                        }
                    }
                    assert forall|j: int|
                        0 <= j < k && !o0.scheduled@.contains(snap@[j]) implies !oc.assigned@.contains(
                        snap@[j],
                    ) && (o0.assigned@.contains(snap@[j]) ==> has_unassign_msg(
                        self.outbox@,
                        old(self).outbox@.len() as int,
                        o0.id,
                        snap@[j],
                    )) by {
                        if j < k - 1 {
                            if o0.assigned@.contains(snap@[j]) {
                                let i = choose|i: int|
                                    old(self).outbox@.len() <= i < opre2.len()
                                        && is_unassign_object_action(
                                        #[trigger] opre2[i],
                                        o0.id,
                                        snap@[j],
                                    );
                                assert(self.outbox@[i] == opre2[i]);
                            }
                        } else {
                            if oc.assigned@.contains(wa) {
                                assert(o0.assigned@.contains(wa));
                            }
                        }
                    }
                }
            }
        }
        proof {
            let oc = self.graph.objects@[oi as int];
            assert(snap@.take(nl as int) =~= snap@);
            if exists|x: WorkerId| o0.located@.contains(x) && o0.scheduled@.contains(x) {
                assert forall|x: WorkerId| oc.located@.contains(x) implies (o0.located@.contains(x)
                    && o0.scheduled@.contains(x)) by {
                    assert(o0.located@.contains(x));
                    let j = choose|j: int| 0 <= j < snap@.len() && snap@[j] == x;
                    if !o0.scheduled@.contains(x) {
                        assert(!oc.located@.contains(snap@[j]));
                    }
                }
                assert forall|x: WorkerId|
                    o0.located@.contains(x) && !o0.scheduled@.contains(x) implies !oc.assigned@.contains(
                    x,
                ) && (o0.assigned@.contains(x) ==> has_unassign_msg(
                    self.outbox@,
                    old(self).outbox@.len() as int,
                    o0.id,
                    x,
                )) by {
                    let j = choose|j: int| 0 <= j < snap@.len() && snap@[j] == x;
                    assert(!oc.assigned@.contains(snap@[j]));
                }
            }
        }
    }
}

/// Whether any placement rule fires on a finished object: the given
/// worker's assignment disagrees with its schedule there, or the object is
/// unscheduled and unneeded, or it is located more widely than scheduled.
pub open spec fn reconcile_fires(g: Graph, o0: DataObject, worker: Option<WorkerId>) -> bool {
    let needed = spec_needed(g.tasks@, o0);
    ||| (match worker {
        Some(w) => g.has_worker(w) && ((o0.scheduled@.contains(w) && !o0.assigned@.contains(w)) || (
        !o0.scheduled@.contains(w) && o0.assigned@.contains(w) && (!needed || o0.located@.len() > 2
            || !o0.located@.contains(w)))),
        None => false,
    })
    ||| (o0.scheduled@.len() == 0 && !needed)
    ||| (o0.scheduled@.len() > 0 && o0.located@.len() > o0.scheduled@.len())
}

impl State {
    /// Reconcile a finished object's placement, as the placement engine
    /// prescribes. If a worker is given, its assignment is matched to its
    /// schedule there: assigned when scheduled, withdrawn when assigned
    /// but unscheduled and (unneeded, or replicated on more than two
    /// workers, or not located there). Then an unscheduled object nobody
    /// needs is withdrawn everywhere and retired, and a scheduled one
    /// located more widely than scheduled is pruned, never below one
    /// replica. Unfinished and removed objects, and unknown ids, are
    /// left alone.
    #[verifier::rlimit(100)]
    #[verifier::spinoff_prover]
    pub fn update_object_assignments(&mut self, object: DataObjectId, worker: Option<WorkerId>)
        requires
            old(self).wf(),
        ensures
            final(self).wf(),
            !old(self).graph.has_object(object) ==> *final(self) == *old(self),
            old(self).graph.has_object(object) && old(self).graph.object_at(object).state
                != DataObjectState::Finished ==> *final(self) == *old(self),
            outbox_extends(old(self).outbox@, final(self).outbox@),
            final(self).stop_server == old(self).stop_server,
            old(self).graph.has_object(object) ==> {
                let o0 = old(self).graph.object_at(object);
                &&& final(self).graph.has_object(object)
                &&& final(self).graph.object_at(object).id == o0.id
                &&& final(self).graph.object_at(object).client_keep == o0.client_keep
                &&& final(self).graph.object_at(object).consumers == o0.consumers
                &&& final(self).graph.object_at(object).scheduled == o0.scheduled
                &&& final(self).graph.tasks == old(self).graph.tasks
                &&& final(self).graph.sessions == old(self).graph.sessions
                &&& final(self).graph.clients == old(self).graph.clients
                &&& final(self).updates == old(self).updates
            },
            old(self).graph.has_object(object) && old(self).graph.object_at(object).state
                == DataObjectState::Finished && !reconcile_fires(
                old(self).graph,
                old(self).graph.object_at(object),
                worker,
            ) ==> *final(self) == *old(self),
            old(self).graph.has_object(object) && old(self).graph.object_at(object).state
                == DataObjectState::Finished ==> {
                let o0 = old(self).graph.object_at(object);
                let needed = spec_needed(old(self).graph.tasks@, o0);
                &&& (o0.scheduled@.len() == 0 && !needed ==> final(self).graph.object_at(
                    object,
                ).state == DataObjectState::Removed && final(self).graph.object_at(
                    object,
                ).assigned@.len() == 0 && final(self).graph.object_at(object).located@.len() == 0
                    && (forall|x: WorkerId|
                    o0.assigned@.contains(x) ==> has_unassign_msg(
                        final(self).outbox@,
                        old(self).outbox@.len() as int,
                        o0.id,
                        x,
                    )))
                &&& (o0.scheduled@.len() > 0 ==> final(self).graph.object_at(object).state
                    == DataObjectState::Finished && final(self).graph.object_at(object).scheduled
                    == o0.scheduled)
                &&& (match worker {
                    Some(w) => old(self).graph.has_worker(w) ==> {
                        &&& (o0.scheduled@.contains(w) && !o0.assigned@.contains(w) ==> final(self).graph.object_at(object).assigned@.contains(w))
                        &&& (!o0.scheduled@.contains(w) && o0.assigned@.contains(w) && (!needed
                            || o0.located@.len() > 2 || !o0.located@.contains(w)) ==> !final(self).graph.object_at(object).assigned@.contains(w))
                    },
                    None => true,
                })
                &&& (o0.scheduled@.len() > 0 && o0.located@.len() > o0.scheduled@.len() && (
                exists|x: WorkerId|
                    o0.located@.contains(x) && o0.scheduled@.contains(x)) ==> forall|x: WorkerId|
                    (final(self).graph.object_at(object).located@.contains(x) <==> (
                    o0.located@.contains(x) && o0.scheduled@.contains(x))) && (o0.located@.contains(
                        x,
                    ) && !o0.scheduled@.contains(x) ==> !final(self).graph.object_at(
                        object,
                    ).assigned@.contains(x) && (o0.assigned@.contains(x) ==> has_unassign_msg(
                        final(self).outbox@,
                        old(self).outbox@.len() as int,
                        o0.id,
                        x,
                    ))))
            },
    {
        let oi = match self.graph.find_object(object) {
            Some(i) => i,
            None => {
                return ;
            },
        };
        proof {
            crate::graph::lemma_object_index_of(self.graph, oi as int);
        }
        if !(self.graph.objects[oi].state == DataObjectState::Finished) {
            return ;
        }
        let ghost o0 = old(self).graph.objects@[oi as int];
        let needed0 = self.is_needed(oi);
        match worker {
            Some(w) => {
                match self.graph.find_worker(w) {
                    Some(_) => {
                        let sched_here = addr_contains(&self.graph.objects[oi].scheduled, w);
                        let asg_here = addr_contains(&self.graph.objects[oi].assigned, w);
                        if sched_here && !asg_here {
                            self.assign_object(object, w);
                            proof {
                                crate::graph::lemma_object_index_of(self.graph, oi as int);
                                crate::sets::lemma_set_insert(o0.assigned@, w);
                            }
                        } else if !sched_here && asg_here {
                            let far = self.graph.objects[oi].located.len() > 2;
                            let here = addr_contains(&self.graph.objects[oi].located, w);
                            if !needed0 || far || !here {
                                self.unassign_object(object, w);
                                proof {
                                    crate::graph::lemma_object_index_of(self.graph, oi as int);
                                    crate::sets::lemma_set_remove(o0.assigned@, w);
                                }
                            }
                        }
                    },
                    None => {},
                }
            },
            None => {},
        }
        proof {
            crate::graph::lemma_object_index_of(self.graph, oi as int);
            let oc = self.graph.objects@[oi as int];
            assert(oc.consumers@ == o0.consumers@ && oc.located@ == o0.located@ && oc.client_keep
                == o0.client_keep);
            assert(spec_needed(self.graph.tasks@, oc) == spec_needed(old(self).graph.tasks@, o0));
        }
        let ghost gmid = *self;
        if self.graph.objects[oi].scheduled.len() == 0 {
            if !needed0 {
                self.retire_object(oi);
            }
        } else {
            if self.graph.objects[oi].located.len() > self.graph.objects[oi].scheduled.len() {
                self.prune_replicas(oi);
            }
        }
        proof {
            crate::graph::lemma_object_index_of(self.graph, oi as int);
        }
    }

    /// Drop the client's keep flag from an object and reconcile its
    /// placement: a finished object that was kept for the client alone
    /// and is unscheduled is withdrawn from every worker and removed.
    pub fn unkeep_object(&mut self, object: DataObjectId) -> (r: Result<(), RainError>)
        requires
            old(self).wf(),
        ensures
            final(self).wf(),
            r is Ok <==> old(self).graph.has_object(object),
            r is Err ==> *final(self) == *old(self) && r == Err::<(), RainError>(
                RainError::NotFound,
            ),
            r is Ok ==> {
                let o0 = old(self).graph.object_at(object);
                &&& final(self).graph.object_at(object).client_keep == false
                &&& final(self).graph.tasks == old(self).graph.tasks
                &&& (o0.state == DataObjectState::Finished && o0.scheduled@.len() == 0
                    && !spec_needed_parts(
                    old(self).graph.tasks@,
                    o0.consumers@,
                    o0.located@,
                    false,
                ) ==> final(self).graph.object_at(object).state == DataObjectState::Removed
                    && final(self).graph.object_at(object).assigned@.len() == 0
                    && final(self).graph.object_at(object).located@.len() == 0)
            },
    {
        let oi = match self.graph.find_object(object) {
            Some(i) => i,
            None => {
                return Err(RainError::NotFound);
            },
        };
        proof {
            crate::graph::lemma_object_index_of(self.graph, oi as int);
        }
        set_object_keep(&mut self.graph, oi, false);
        proof {
            crate::graph::lemma_object_index_of(self.graph, oi as int);
        }
        self.update_object_assignments(object, None);
        Ok(())
    }
}

} // verus!
