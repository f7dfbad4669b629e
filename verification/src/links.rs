//! Mutation helpers on the graph.
//!
//! Each helper performs one small cross-linked change (both sides of a
//! membership, or one entity field together with the bookkeeping it
//! forces), states its exact effect, and carries the proof that graph
//! well-formedness survives.

use vstd::prelude::*;
use crate::ids::{DataObjectId, TaskId, WorkerId};
use crate::graph::{
    assignment_sym, containment_ok, lineage_ok, object_state_ok, overbook_ok, placement_sym,
    refs_closed, sessions_ok, sets_no_dup, task_state_ok, unique_ids, waiting_ok, wf, Client,
    DataObject, DataObjectState, Graph, Session, Task, TaskState, Worker,
};
use crate::sets::{
    addr_insert, addr_remove, lemma_set_insert, lemma_set_remove, oid_insert, oid_remove,
    set_insert, tid_insert, tid_remove,
};

verus! {

/// Two graphs hold entities with the same ids at the same positions.
pub open spec fn same_shape(a: Graph, b: Graph) -> bool {
    &&& b.workers@.len() == a.workers@.len()
    &&& (forall|i: int|
        0 <= i < a.workers@.len() ==> (#[trigger] b.workers@[i]).id == a.workers@[i].id)
    &&& b.tasks@.len() == a.tasks@.len()
    &&& (forall|i: int| 0 <= i < a.tasks@.len() ==> (#[trigger] b.tasks@[i]).id == a.tasks@[i].id)
    &&& b.objects@.len() == a.objects@.len()
    &&& (forall|i: int|
        0 <= i < a.objects@.len() ==> (#[trigger] b.objects@[i]).id == a.objects@[i].id)
    &&& b.sessions@.len() == a.sessions@.len()
    &&& (forall|i: int|
        0 <= i < a.sessions@.len() ==> (#[trigger] b.sessions@[i]).id == a.sessions@[i].id)
    &&& b.clients@.len() == a.clients@.len()
    &&& (forall|i: int|
        0 <= i < a.clients@.len() ==> (#[trigger] b.clients@[i]).id == a.clients@[i].id)
}

/// Same shape keeps every lookup: presence and position of each id.
pub proof fn lemma_same_shape_lookup(a: Graph, b: Graph)
    requires
        unique_ids(a),
        same_shape(a, b),
    ensures
        unique_ids(b),
        forall|id: WorkerId| b.has_worker(id) <==> a.has_worker(id),
        forall|id: WorkerId| a.has_worker(id) ==> b.worker_index(id) == a.worker_index(id),
        forall|id: TaskId| b.has_task(id) <==> a.has_task(id),
        forall|id: TaskId| a.has_task(id) ==> b.task_index(id) == a.task_index(id),
        forall|id: DataObjectId| b.has_object(id) <==> a.has_object(id),
        forall|id: DataObjectId| a.has_object(id) ==> b.object_index(id) == a.object_index(id),
        forall|id: crate::ids::SessionId| b.has_session(id) <==> a.has_session(id),
        forall|id: crate::ids::SessionId|
            a.has_session(id) ==> b.session_index(id) == a.session_index(id),
        forall|id: crate::ids::ClientId| b.has_client(id) <==> a.has_client(id),
        forall|id: crate::ids::ClientId|
            a.has_client(id) ==> b.client_index(id) == a.client_index(id),
{
    assert forall|id: WorkerId| b.has_worker(id) <==> a.has_worker(id) by {
        if a.has_worker(id) {
            let i = choose|i: int| 0 <= i < a.workers@.len() && a.workers@[i].id == id;
            assert(b.workers@[i].id == id);
        }
        if b.has_worker(id) {
            let i = choose|i: int| 0 <= i < b.workers@.len() && b.workers@[i].id == id;
            assert(a.workers@[i].id == id);
        }
    }
    assert forall|id: WorkerId| a.has_worker(id) implies b.worker_index(id) == a.worker_index(
        id,
    ) by {
        let i = a.worker_index(id);
        assert(b.workers@[i].id == id);
        let j = b.worker_index(id);
        assert(a.workers@[j].id == id);
        if i != j {
            assert(a.workers@[i].id != a.workers@[j].id);
        }
    }
    assert forall|id: TaskId| b.has_task(id) <==> a.has_task(id) by {
        if a.has_task(id) {
            let i = choose|i: int| 0 <= i < a.tasks@.len() && a.tasks@[i].id == id;
            assert(b.tasks@[i].id == id);
        }
        if b.has_task(id) {
            let i = choose|i: int| 0 <= i < b.tasks@.len() && b.tasks@[i].id == id;
            assert(a.tasks@[i].id == id);
        }
    }
    assert forall|id: TaskId| a.has_task(id) implies b.task_index(id) == a.task_index(id) by {
        let i = a.task_index(id);
        assert(b.tasks@[i].id == id);
        let j = b.task_index(id);
        assert(a.tasks@[j].id == id);
        if i != j {
            assert(a.tasks@[i].id != a.tasks@[j].id);
        }
    }
    assert forall|id: DataObjectId| b.has_object(id) <==> a.has_object(id) by {
        if a.has_object(id) {
            let i = choose|i: int| 0 <= i < a.objects@.len() && a.objects@[i].id == id;
            assert(b.objects@[i].id == id);
        }
        if b.has_object(id) {
            let i = choose|i: int| 0 <= i < b.objects@.len() && b.objects@[i].id == id;
            assert(a.objects@[i].id == id);
        }
    }
    assert forall|id: DataObjectId| a.has_object(id) implies b.object_index(id) == a.object_index(
        id,
    ) by {
        let i = a.object_index(id);
        assert(b.objects@[i].id == id);
        let j = b.object_index(id);
        assert(a.objects@[j].id == id);
        if i != j {
            assert(a.objects@[i].id != a.objects@[j].id);
        }
    }
    assert forall|id: crate::ids::SessionId| b.has_session(id) <==> a.has_session(id) by {
        if a.has_session(id) {
            let i = choose|i: int| 0 <= i < a.sessions@.len() && a.sessions@[i].id == id;
            assert(b.sessions@[i].id == id);
        }
        if b.has_session(id) {
            let i = choose|i: int| 0 <= i < b.sessions@.len() && b.sessions@[i].id == id;
            assert(a.sessions@[i].id == id);
        }
    }
    assert forall|id: crate::ids::SessionId| a.has_session(id) implies b.session_index(id)
        == a.session_index(id) by {
        let i = a.session_index(id);
        assert(b.sessions@[i].id == id);
        let j = b.session_index(id);
        assert(a.sessions@[j].id == id);
        if i != j {
            assert(a.sessions@[i].id != a.sessions@[j].id);
        }
    }
    assert forall|id: crate::ids::ClientId| b.has_client(id) <==> a.has_client(id) by {
        if a.has_client(id) {
            let i = choose|i: int| 0 <= i < a.clients@.len() && a.clients@[i].id == id;
            assert(b.clients@[i].id == id);
        }
        if b.has_client(id) {
            let i = choose|i: int| 0 <= i < b.clients@.len() && b.clients@[i].id == id;
            assert(a.clients@[i].id == id);
        }
    }
    assert forall|id: crate::ids::ClientId| a.has_client(id) implies b.client_index(id)
        == a.client_index(id) by {
        let i = a.client_index(id);
        assert(b.clients@[i].id == id);
        let j = b.client_index(id);
        assert(a.clients@[j].id == id);
        if i != j {
            assert(a.clients@[i].id != a.clients@[j].id);
        }
    }
}

/// Lookups depend only on the store the id lives in.
pub proof fn lemma_task_lookup_eq(a: Graph, b: Graph)
    requires
        unique_ids(a),
        b.tasks@ == a.tasks@,
    ensures
        forall|id: TaskId| b.has_task(id) <==> a.has_task(id),
        forall|id: TaskId| a.has_task(id) ==> b.task_index(id) == a.task_index(id),
        forall|id: TaskId| a.has_task(id) ==> b.task_at(id) == a.task_at(id),
{
    assert forall|id: TaskId| b.has_task(id) <==> a.has_task(id) by {
        if a.has_task(id) {
            let i = choose|i: int| 0 <= i < a.tasks@.len() && a.tasks@[i].id == id;
            assert(b.tasks@[i].id == id);
        }
        if b.has_task(id) {
            let i = choose|i: int| 0 <= i < b.tasks@.len() && b.tasks@[i].id == id;
            assert(a.tasks@[i].id == id);
        }
    }
    assert forall|id: TaskId| a.has_task(id) implies b.task_index(id) == a.task_index(id)
        && b.task_at(id) == a.task_at(id) by {
        let i = a.task_index(id);
        assert(b.tasks@[i].id == id);
        let j = b.task_index(id);
        assert(a.tasks@[j].id == id);
        if i != j {
            assert(a.tasks@[i].id != a.tasks@[j].id);
        }
    }
}

pub proof fn lemma_object_lookup_eq(a: Graph, b: Graph)
    requires
        unique_ids(a),
        b.objects@ == a.objects@,
    ensures
        forall|id: DataObjectId| b.has_object(id) <==> a.has_object(id),
        forall|id: DataObjectId| a.has_object(id) ==> b.object_index(id) == a.object_index(id),
        forall|id: DataObjectId| a.has_object(id) ==> b.object_at(id) == a.object_at(id),
{
    assert forall|id: DataObjectId| b.has_object(id) <==> a.has_object(id) by {
        if a.has_object(id) {
            let i = choose|i: int| 0 <= i < a.objects@.len() && a.objects@[i].id == id;
            assert(b.objects@[i].id == id);
        }
        if b.has_object(id) {
            let i = choose|i: int| 0 <= i < b.objects@.len() && b.objects@[i].id == id;
            assert(a.objects@[i].id == id);
        }
    }
    assert forall|id: DataObjectId| a.has_object(id) implies b.object_index(id) == a.object_index(
        id,
    ) && b.object_at(id) == a.object_at(id) by {
        let i = a.object_index(id);
        assert(b.objects@[i].id == id);
        let j = b.object_index(id);
        assert(a.objects@[j].id == id);
        if i != j {
            assert(a.objects@[i].id != a.objects@[j].id);
        }
    }
}

pub proof fn lemma_session_lookup_eq(a: Graph, b: Graph)
    requires
        unique_ids(a),
        b.sessions@ == a.sessions@,
    ensures
        forall|id: crate::ids::SessionId| b.has_session(id) <==> a.has_session(id),
        forall|id: crate::ids::SessionId|
            a.has_session(id) ==> b.session_index(id) == a.session_index(id),
        forall|id: crate::ids::SessionId| a.has_session(id) ==> b.session_at(id) == a.session_at(id),
{
    assert forall|id: crate::ids::SessionId| b.has_session(id) <==> a.has_session(id) by {
        if a.has_session(id) {
            let i = choose|i: int| 0 <= i < a.sessions@.len() && a.sessions@[i].id == id;
            assert(b.sessions@[i].id == id);
        }
        if b.has_session(id) {
            let i = choose|i: int| 0 <= i < b.sessions@.len() && b.sessions@[i].id == id;
            assert(a.sessions@[i].id == id);
        }
    }
    assert forall|id: crate::ids::SessionId| a.has_session(id) implies b.session_index(id)
        == a.session_index(id) && b.session_at(id) == a.session_at(id) by {
        let i = a.session_index(id);
        assert(b.sessions@[i].id == id);
        let j = b.session_index(id);
        assert(a.sessions@[j].id == id);
        if i != j {
            assert(a.sessions@[i].id != a.sessions@[j].id);
        }
    }
}

pub proof fn lemma_client_lookup_eq(a: Graph, b: Graph)
    requires
        unique_ids(a),
        b.clients@ == a.clients@,
    ensures
        forall|id: crate::ids::ClientId| b.has_client(id) <==> a.has_client(id),
        forall|id: crate::ids::ClientId|
            a.has_client(id) ==> b.client_index(id) == a.client_index(id),
        forall|id: crate::ids::ClientId| a.has_client(id) ==> b.client_at(id) == a.client_at(id),
{
    assert forall|id: crate::ids::ClientId| b.has_client(id) <==> a.has_client(id) by {
        if a.has_client(id) {
            let i = choose|i: int| 0 <= i < a.clients@.len() && a.clients@[i].id == id;
            assert(b.clients@[i].id == id);
        }
        if b.has_client(id) {
            let i = choose|i: int| 0 <= i < b.clients@.len() && b.clients@[i].id == id;
            assert(a.clients@[i].id == id);
        }
    }
    assert forall|id: crate::ids::ClientId| a.has_client(id) implies b.client_index(id)
        == a.client_index(id) && b.client_at(id) == a.client_at(id) by {
        let i = a.client_index(id);
        assert(b.clients@[i].id == id);
        let j = b.client_index(id);
        assert(a.clients@[j].id == id);
        if i != j {
            assert(a.clients@[i].id != a.clients@[j].id);
        }
    }
}

pub proof fn lemma_worker_lookup_eq(a: Graph, b: Graph)
    requires
        unique_ids(a),
        b.workers@ == a.workers@,
    ensures
        forall|id: WorkerId| b.has_worker(id) <==> a.has_worker(id),
        forall|id: WorkerId| a.has_worker(id) ==> b.worker_index(id) == a.worker_index(id),
        forall|id: WorkerId| a.has_worker(id) ==> b.worker_at(id) == a.worker_at(id),
{
    assert forall|id: WorkerId| b.has_worker(id) <==> a.has_worker(id) by {
        if a.has_worker(id) {
            let i = choose|i: int| 0 <= i < a.workers@.len() && a.workers@[i].id == id;
            assert(b.workers@[i].id == id);
        }
        if b.has_worker(id) {
            let i = choose|i: int| 0 <= i < b.workers@.len() && b.workers@[i].id == id;
            assert(a.workers@[i].id == id);
        }
    }
    assert forall|id: WorkerId| a.has_worker(id) implies b.worker_index(id) == a.worker_index(id)
        && b.worker_at(id) == a.worker_at(id) by {
        let i = a.worker_index(id);
        assert(b.workers@[i].id == id);
        let j = b.worker_index(id);
        assert(a.workers@[j].id == id);
        if i != j {
            assert(a.workers@[i].id != a.workers@[j].id);
        }
    }
}

/// All object fields agree except possibly the state and the three
/// placement sets.
pub open spec fn obj_core_eq_except_state(a: DataObject, b: DataObject) -> bool {
    &&& b.id == a.id
    &&& b.object_type == a.object_type
    &&& b.client_keep == a.client_keep
    &&& b.producer == a.producer
    &&& b.consumers == a.consumers
    &&& b.size == a.size
    &&& b.data == a.data
    &&& b.label == a.label
    &&& b.additional == a.additional
}

/// All object fields agree except possibly the three placement sets.
pub open spec fn obj_core_eq(a: DataObject, b: DataObject) -> bool {
    &&& obj_core_eq_except_state(a, b)
    &&& b.state == a.state
}

/// All worker fields agree except possibly the five membership sets.
pub open spec fn worker_core_eq(a: Worker, b: Worker) -> bool {
    &&& b.id == a.id
    &&& b.resources == a.resources
    &&& b.error == a.error
}

/// All task fields agree except possibly state, schedule, assignment and
/// the waiting set.
pub open spec fn task_core_eq(a: Task, b: Task) -> bool {
    &&& b.id == a.id
    &&& b.inputs == a.inputs
    &&& b.outputs == a.outputs
    &&& b.task_type == a.task_type
    &&& b.task_config == a.task_config
    &&& b.additional == a.additional
    &&& b.resources == a.resources
}

/// Which of an object's three placement sets an operation touches.
#[derive(Clone, Copy, PartialEq, Eq, Structural, Debug)]
pub enum PlacementKind {
    Assigned,
    Located,
    Scheduled,
}

/// The chosen placement set of an object.
pub open spec fn opset(o: DataObject, k: PlacementKind) -> Seq<WorkerId> {
    match k {
        PlacementKind::Assigned => o.assigned@,
        PlacementKind::Located => o.located@,
        PlacementKind::Scheduled => o.scheduled@,
    }
}

/// The matching placement set of a worker.
pub open spec fn wpset(w: Worker, k: PlacementKind) -> Seq<DataObjectId> {
    match k {
        PlacementKind::Assigned => w.assigned_objects@,
        PlacementKind::Located => w.located_objects@,
        PlacementKind::Scheduled => w.scheduled_objects@,
    }
}

/// The object's other two placement sets are untouched.
pub open spec fn opset_others_eq(a: DataObject, b: DataObject, k: PlacementKind) -> bool {
    match k {
        PlacementKind::Assigned => b.located == a.located && b.scheduled == a.scheduled,
        PlacementKind::Located => b.assigned == a.assigned && b.scheduled == a.scheduled,
        PlacementKind::Scheduled => b.assigned == a.assigned && b.located == a.located,
    }
}

/// The worker's other sets are untouched.
pub open spec fn wpset_others_eq(a: Worker, b: Worker, k: PlacementKind) -> bool {
    &&& b.assigned_tasks == a.assigned_tasks
    &&& b.scheduled_ready_tasks == a.scheduled_ready_tasks
    &&& match k {
        PlacementKind::Assigned => b.located_objects == a.located_objects && b.scheduled_objects
            == a.scheduled_objects,
        PlacementKind::Located => b.assigned_objects == a.assigned_objects && b.scheduled_objects
            == a.scheduled_objects,
        PlacementKind::Scheduled => b.assigned_objects == a.assigned_objects && b.located_objects
            == a.located_objects,
    }
}

/// The frame of a placement change: everything else stands still.
pub open spec fn placement_frame(g0: Graph, g1: Graph, k: PlacementKind, oi: int, wi: int) -> bool {
    &&& 0 <= oi < g0.objects@.len()
    &&& 0 <= wi < g0.workers@.len()
    &&& g1.objects@ == g0.objects@.update(oi, g1.objects@[oi])
    &&& g1.workers@ == g0.workers@.update(wi, g1.workers@[wi])
    &&& g1.tasks == g0.tasks
    &&& g1.sessions == g0.sessions
    &&& g1.clients == g0.clients
    &&& g1.session_id_counter == g0.session_id_counter
    &&& obj_core_eq(g0.objects@[oi], g1.objects@[oi])
    &&& opset_others_eq(g0.objects@[oi], g1.objects@[oi], k)
    &&& worker_core_eq(g0.workers@[wi], g1.workers@[wi])
    &&& wpset_others_eq(g0.workers@[wi], g1.workers@[wi], k)
}

/// Well-formedness survives a symmetric placement-membership change whose
/// two sides keep the same members apart from the pair itself.
#[verifier::rlimit(80)]
#[verifier::spinoff_prover]
proof fn lemma_wf_after_placement_change(g0: Graph, g1: Graph, k: PlacementKind, oi: int, wi: int)
    requires
        wf(g0),
        0 <= oi < g0.objects@.len(),
        0 <= wi < g0.workers@.len(),
        g1.objects@ == g0.objects@.update(oi, g1.objects@[oi]),
        g1.workers@ == g0.workers@.update(wi, g1.workers@[wi]),
        g1.tasks == g0.tasks,
        g1.sessions == g0.sessions,
        g1.clients == g0.clients,
        g1.session_id_counter == g0.session_id_counter,
        obj_core_eq_except_state(g0.objects@[oi], g1.objects@[oi]),
        (g1.objects@[oi].state == DataObjectState::Unfinished) <==> (g0.objects@[oi].state
            == DataObjectState::Unfinished),
        opset_others_eq(g0.objects@[oi], g1.objects@[oi], k),
        worker_core_eq(g0.workers@[wi], g1.workers@[wi]),
        wpset_others_eq(g0.workers@[wi], g1.workers@[wi], k),
        opset(g1.objects@[oi], k).no_duplicates(),
        wpset(g1.workers@[wi], k).no_duplicates(),
        forall|y: WorkerId|
            y != g0.workers@[wi].id ==> (opset(g1.objects@[oi], k).contains(y) <==> opset(
                g0.objects@[oi],
                k,
            ).contains(y)),
        forall|y: DataObjectId|
            y != g0.objects@[oi].id ==> (wpset(g1.workers@[wi], k).contains(y) <==> wpset(
                g0.workers@[wi],
                k,
            ).contains(y)),
        opset(g1.objects@[oi], k).contains(g0.workers@[wi].id) <==> wpset(
            g1.workers@[wi],
            k,
        ).contains(g0.objects@[oi].id),
        object_state_ok(g1.objects@[oi]),
    ensures
        wf(g1),
{
    let o0 = g0.objects@[oi];
    let o1 = g1.objects@[oi];
    let w0 = g0.workers@[wi];
    let w1 = g1.workers@[wi];
    assert(same_shape(g0, g1));
    lemma_same_shape_lookup(g0, g1);
    assert(sets_no_dup(g1));
    assert forall|i: int|
        0 <= i < g1.objects@.len() implies {
        let o = #[trigger] g1.objects@[i];
        &&& g1.has_session(o.id.session_id)
        &&& (forall|t: TaskId| #[trigger] o.consumers@.contains(t) ==> g1.has_task(t))
        &&& (forall|w: WorkerId| #[trigger] o.located@.contains(w) ==> g1.has_worker(w))
        &&& (forall|w: WorkerId| #[trigger] o.assigned@.contains(w) ==> g1.has_worker(w))
        &&& (forall|w: WorkerId| #[trigger] o.scheduled@.contains(w) ==> g1.has_worker(w))
    } by {
        let o = g1.objects@[i];
        let oo = g0.objects@[i];
        assert(g0.has_session(oo.id.session_id));
        assert(o.consumers == oo.consumers);
        assert forall|t: TaskId| #[trigger] o.consumers@.contains(t) implies g1.has_task(t) by {
            assert(g0.has_task(t));
        }
        if i == oi {
            assert forall|w: WorkerId| #[trigger] opset(o, k).contains(w) implies g1.has_worker(
                w,
            ) by {
                if w != w0.id {
                    assert(opset(o0, k).contains(w));
                } else {
                    assert(g0.has_worker(w0.id));
                }
            }
        }
    }
    assert forall|i: int|
        0 <= i < g1.tasks@.len() implies {
        let t = #[trigger] g1.tasks@[i];
        &&& g1.has_session(t.id.session_id)
        &&& (forall|kk: int|
            0 <= kk < t.inputs@.len() ==> {
                &&& g1.has_object((#[trigger] t.inputs@[kk]).object)
                &&& t.inputs@[kk].object.session_id == t.id.session_id
            })
        &&& (forall|kk: int|
            0 <= kk < t.outputs@.len() ==> {
                &&& g1.has_object(#[trigger] t.outputs@[kk])
                &&& t.outputs@[kk].session_id == t.id.session_id
            })
        &&& (forall|oid: DataObjectId| #[trigger]
            t.waiting_for@.contains(oid) ==> exists|kk: int|
                0 <= kk < t.inputs@.len() && t.inputs@[kk].object == oid)
        &&& (t.scheduled matches Some(w) ==> g1.has_worker(w))
        &&& (t.assigned matches Some(w) ==> g1.has_worker(w))
    } by {
        let t = g1.tasks@[i];
        assert(t == g0.tasks@[i]);
        assert(g0.has_session(t.id.session_id));
        assert forall|kk: int| 0 <= kk < t.inputs@.len() implies g1.has_object(
            (#[trigger] t.inputs@[kk]).object,
        ) && t.inputs@[kk].object.session_id == t.id.session_id by {
            assert(g0.has_object(t.inputs@[kk].object));
        }
        assert forall|kk: int| 0 <= kk < t.outputs@.len() implies g1.has_object(
            #[trigger] t.outputs@[kk],
        ) && t.outputs@[kk].session_id == t.id.session_id by {
            assert(g0.has_object(t.outputs@[kk]));
        }
    }
    assert forall|i: int|
        0 <= i < g1.workers@.len() implies {
        let w = #[trigger] g1.workers@[i];
        &&& (forall|t: TaskId| #[trigger] w.assigned_tasks@.contains(t) ==> g1.has_task(t))
        &&& (forall|t: TaskId| #[trigger] w.scheduled_ready_tasks@.contains(t) ==> g1.has_task(t))
        &&& (forall|o: DataObjectId| #[trigger] w.assigned_objects@.contains(o) ==> g1.has_object(
            o,
        ))
        &&& (forall|o: DataObjectId| #[trigger] w.located_objects@.contains(o) ==> g1.has_object(
            o,
        ))
        &&& (forall|o: DataObjectId| #[trigger] w.scheduled_objects@.contains(o) ==> g1.has_object(
            o,
        ))
    } by {
        let w = g1.workers@[i];
        let ww = g0.workers@[i];
        assert(0 <= i < g0.workers@.len());
        assert((forall|t: TaskId| #[trigger] ww.assigned_tasks@.contains(t) ==> g0.has_task(t))
            && (forall|t: TaskId| #[trigger] ww.scheduled_ready_tasks@.contains(t) ==> g0.has_task(
            t,
        )) && (forall|o: DataObjectId| #[trigger] ww.assigned_objects@.contains(o)
            ==> g0.has_object(o)) && (forall|o: DataObjectId| #[trigger]
            ww.located_objects@.contains(o) ==> g0.has_object(o)) && (forall|o: DataObjectId|
            #[trigger] ww.scheduled_objects@.contains(o) ==> g0.has_object(o)));
        if i == wi {
            assert forall|o: DataObjectId| #[trigger] wpset(w, k).contains(o) implies g1.has_object(
                o,
            ) by {
                if o != o0.id {
                    assert(wpset(w0, k).contains(o));
                } else {
                    assert(g0.objects@[oi].id == o0.id);
                    assert(g0.has_object(o0.id));
                }
            }
        }
    }
    assert(refs_closed(g1));
    assert forall|i: int, tid: TaskId|
        0 <= i < g1.sessions@.len() implies ((#[trigger] g1.sessions@[i].tasks@.contains(tid))
        <==> (g1.has_task(tid) && tid.session_id == g1.sessions@[i].id)) by {
        assert(g0.sessions@[i].tasks@.contains(tid) <==> (g0.has_task(tid) && tid.session_id
            == g0.sessions@[i].id));
    }
    assert forall|i: int, oid: DataObjectId|
        0 <= i < g1.sessions@.len() implies ((#[trigger] g1.sessions@[i].objects@.contains(oid))
        <==> (g1.has_object(oid) && oid.session_id == g1.sessions@[i].id)) by {
        assert(g0.sessions@[i].objects@.contains(oid) <==> (g0.has_object(oid) && oid.session_id
            == g0.sessions@[i].id));
    }
    assert forall|i: int, sid: crate::ids::SessionId|
        0 <= i < g1.clients@.len() implies ((#[trigger] g1.clients@[i].sessions@.contains(sid))
        <==> (g1.has_session(sid) && g1.session_at(sid).client == g1.clients@[i].id)) by {
        assert(g0.clients@[i].sessions@.contains(sid) <==> (g0.has_session(sid) && g0.session_at(
            sid,
        ).client == g0.clients@[i].id));
        if g1.has_session(sid) {
            assert(g1.session_at(sid) == g0.session_at(sid));
        }
    }
    assert(containment_ok(g1));
    assert forall|i: int, j: int|
        0 <= i < g1.objects@.len() && 0 <= j < g1.workers@.len() implies {
        let o = #[trigger] g1.objects@[i];
        let w = #[trigger] g1.workers@[j];
        &&& (o.assigned@.contains(w.id) <==> w.assigned_objects@.contains(o.id))
        &&& (o.located@.contains(w.id) <==> w.located_objects@.contains(o.id))
        &&& (o.scheduled@.contains(w.id) <==> w.scheduled_objects@.contains(o.id))
    } by {
        let o = g1.objects@[i];
        let w = g1.workers@[j];
        let oo = g0.objects@[i];
        let ww = g0.workers@[j];
        assert(oo.assigned@.contains(ww.id) <==> ww.assigned_objects@.contains(oo.id));
        assert(oo.located@.contains(ww.id) <==> ww.located_objects@.contains(oo.id));
        assert(oo.scheduled@.contains(ww.id) <==> ww.scheduled_objects@.contains(oo.id));
        if i == oi && j == wi {
            assert(o.id == oo.id && w.id == ww.id);
            assert(opset(o, k).contains(w.id) <==> wpset(w, k).contains(o.id));
        } else if i == oi {
            assert(w == ww);
            assert(ww.id != w0.id);
            assert(opset(o, k).contains(ww.id) <==> opset(oo, k).contains(ww.id));
        } else if j == wi {
            assert(o == oo);
            assert(oo.id != o0.id);
            assert(wpset(w, k).contains(oo.id) <==> wpset(ww, k).contains(oo.id));
        } else {
            assert(o == oo && w == ww);
        }
    }
    assert(placement_sym(g1));
    assert forall|i: int, j: int|
        0 <= i < g1.tasks@.len() && 0 <= j < g1.workers@.len() implies {
        let t = #[trigger] g1.tasks@[i];
        let w = #[trigger] g1.workers@[j];
        &&& (t.assigned == Some(w.id) <==> w.assigned_tasks@.contains(t.id))
        &&& (w.scheduled_ready_tasks@.contains(t.id) ==> t.scheduled == Some(w.id) && t.state
            == TaskState::Ready)
    } by {
        let t = g1.tasks@[i];
        let ww = g0.workers@[j];
        assert(t == g0.tasks@[i]);
        assert(t.assigned == Some(ww.id) <==> ww.assigned_tasks@.contains(t.id));
        assert(ww.scheduled_ready_tasks@.contains(t.id) ==> t.scheduled == Some(ww.id) && t.state
            == TaskState::Ready);
    }
    assert(assignment_sym(g1));
    assert forall|i: int| 0 <= i < g1.tasks@.len() implies task_state_ok(
        g1,
        #[trigger] g1.tasks@[i],
    ) by {
        let t = g1.tasks@[i];
        assert(task_state_ok(g0, t));
        if t.state == TaskState::Finished {
            assert forall|kk: int| 0 <= kk < t.outputs@.len() implies g1.object_at(
                #[trigger] t.outputs@[kk],
            ).state != DataObjectState::Unfinished by {
                assert(g0.object_at(t.outputs@[kk]).state != DataObjectState::Unfinished);
                assert(g0.has_object(t.outputs@[kk]));
                assert(g1.object_index(t.outputs@[kk]) == g0.object_index(t.outputs@[kk]));
                assert((g1.object_at(t.outputs@[kk]).state == DataObjectState::Unfinished) <==> (
                g0.object_at(t.outputs@[kk]).state == DataObjectState::Unfinished));
            }
        }
    }
    assert forall|i: int| 0 <= i < g1.objects@.len() implies object_state_ok(
        #[trigger] g1.objects@[i],
    ) by {
        if i != oi {
            assert(object_state_ok(g0.objects@[i]));
        }
    }
    assert forall|i: int, kk: int|
        0 <= i < g1.tasks@.len() && 0 <= kk < g1.tasks@[i].outputs@.len() implies g1.object_at(
        #[trigger] g1.tasks@[i].outputs@[kk],
    ).producer == Some(g1.tasks@[i].id) by {
        assert(g0.object_at(g0.tasks@[i].outputs@[kk]).producer == Some(g0.tasks@[i].id));
        assert(g0.has_object(g0.tasks@[i].outputs@[kk]));
    }
    assert forall|i: int|
        0 <= i < g1.objects@.len() implies ((#[trigger] g1.objects@[i]).producer matches Some(tid)
        ==> {
        &&& g1.has_task(tid)
        &&& g1.task_at(tid).outputs@.contains(g1.objects@[i].id)
    }) by {
        let o = g1.objects@[i];
        let oo = g0.objects@[i];
        assert(oo.producer matches Some(tid) ==> g0.has_task(tid) && g0.task_at(
            tid,
        ).outputs@.contains(oo.id));
        match o.producer {
            Some(tid) => {
                assert(g1.task_at(tid) == g0.task_at(tid));
            },
            None => {},
        }
    }
    assert forall|i: int, j: int|
        0 <= i < g1.objects@.len() && 0 <= j < g1.tasks@.len() implies ((
    #[trigger] g1.objects@[i].consumers@.contains(g1.tasks@[j].id)) <==> (exists|kk: int|
        0 <= kk < g1.tasks@[j].inputs@.len() && (#[trigger] g1.tasks@[j].inputs@[kk]).object
            == g1.objects@[i].id)) by {
        assert(g0.objects@[i].consumers@.contains(g0.tasks@[j].id) <==> (exists|kk: int|
            0 <= kk < g0.tasks@[j].inputs@.len() && (#[trigger] g0.tasks@[j].inputs@[kk]).object
                == g0.objects@[i].id));
        assert(g1.objects@[i].consumers == g0.objects@[i].consumers);
        assert(g1.tasks@[j] == g0.tasks@[j]);
    }
    assert(lineage_ok(g1));
    assert forall|i: int, oid: DataObjectId|
        0 <= i < g1.tasks@.len() implies ((#[trigger] g1.tasks@[i].waiting_for@.contains(oid))
        <==> ((exists|kk: int|
        0 <= kk < g1.tasks@[i].inputs@.len() && (#[trigger] g1.tasks@[i].inputs@[kk]).object
            == oid) && g1.object_at(oid).state == DataObjectState::Unfinished)) by {
        assert(g0.tasks@[i].waiting_for@.contains(oid) <==> ((exists|kk: int|
            0 <= kk < g0.tasks@[i].inputs@.len() && (#[trigger] g0.tasks@[i].inputs@[kk]).object
                == oid) && g0.object_at(oid).state == DataObjectState::Unfinished));
        if (exists|kk: int|
            0 <= kk < g1.tasks@[i].inputs@.len() && (#[trigger] g1.tasks@[i].inputs@[kk]).object
                == oid) {
            let kk = choose|kk: int|
                0 <= kk < g1.tasks@[i].inputs@.len() && (#[trigger] g1.tasks@[i].inputs@[kk]).object
                    == oid;
            assert(g0.has_object(oid));
            assert(g1.object_index(oid) == g0.object_index(oid));
            assert((g1.object_at(oid).state == DataObjectState::Unfinished) <==> (g0.object_at(
                oid,
            ).state == DataObjectState::Unfinished));
        }
    }
    assert(waiting_ok(g1));
    assert(sessions_ok(g1));
    assert(overbook_ok(g1));
}

/// Record one placement membership on both sides: the worker joins the
/// object's chosen set and the object joins the worker's matching set.
pub fn link_placement(g: &mut Graph, k: PlacementKind, oi: usize, wi: usize)
    requires
        wf(*old(g)),
        oi < old(g).objects@.len(),
        wi < old(g).workers@.len(),
        old(g).objects@[oi as int].state != DataObjectState::Removed,
    ensures
        wf(*final(g)),
        placement_frame(*old(g), *final(g), k, oi as int, wi as int),
        opset(final(g).objects@[oi as int], k) == set_insert(
            opset(old(g).objects@[oi as int], k),
            old(g).workers@[wi as int].id,
        ),
        wpset(final(g).workers@[wi as int], k) == set_insert(
            wpset(old(g).workers@[wi as int], k),
            old(g).objects@[oi as int].id,
        ),
{
    let wid = g.workers[wi].id;
    let oid = g.objects[oi].id;
    proof {
        assert(placement_sym(*g));
        assert(opset(g.objects@[oi as int], k).contains(wid) <==> wpset(
            g.workers@[wi as int],
            k,
        ).contains(oid));
    }
    match k {
        PlacementKind::Assigned => {
            addr_insert(&mut g.objects[oi].assigned, wid);
            oid_insert(&mut g.workers[wi].assigned_objects, oid);
        },
        PlacementKind::Located => {
            addr_insert(&mut g.objects[oi].located, wid);
            oid_insert(&mut g.workers[wi].located_objects, oid);
        },
        PlacementKind::Scheduled => {
            addr_insert(&mut g.objects[oi].scheduled, wid);
            oid_insert(&mut g.workers[wi].scheduled_objects, oid);
        },
    }
    proof {
        let g0 = *old(g);
        let g1 = *g;
        let o0 = g0.objects@[oi as int];
        let w0 = g0.workers@[wi as int];
        lemma_set_insert(opset(o0, k), w0.id);
        lemma_set_insert(wpset(w0, k), o0.id);
        lemma_wf_after_placement_change(g0, g1, k, oi as int, wi as int);
    }
}

/// Drop one placement membership on both sides.
pub fn unlink_placement(g: &mut Graph, k: PlacementKind, oi: usize, wi: usize)
    requires
        wf(*old(g)),
        oi < old(g).objects@.len(),
        wi < old(g).workers@.len(),
        k == PlacementKind::Located && old(g).objects@[oi as int].state
            == DataObjectState::Finished && old(g).objects@[oi as int].located@.contains(
            old(g).workers@[wi as int].id,
        ) ==> old(g).objects@[oi as int].data is Some || old(g).objects@[oi as int].located@.len()
            >= 2,
    ensures
        wf(*final(g)),
        placement_frame(*old(g), *final(g), k, oi as int, wi as int),
        opset(final(g).objects@[oi as int], k) == opset(old(g).objects@[oi as int], k).remove_value(
            old(g).workers@[wi as int].id,
        ),
        wpset(final(g).workers@[wi as int], k) == wpset(
            old(g).workers@[wi as int],
            k,
        ).remove_value(old(g).objects@[oi as int].id),
{
    let wid = g.workers[wi].id;
    let oid = g.objects[oi].id;
    proof {
        assert(placement_sym(*g));
        assert(opset(g.objects@[oi as int], k).contains(wid) <==> wpset(
            g.workers@[wi as int],
            k,
        ).contains(oid));
    }
    match k {
        PlacementKind::Assigned => {
            addr_remove(&mut g.objects[oi].assigned, wid);
            oid_remove(&mut g.workers[wi].assigned_objects, oid);
        },
        PlacementKind::Located => {
            addr_remove(&mut g.objects[oi].located, wid);
            oid_remove(&mut g.workers[wi].located_objects, oid);
        },
        PlacementKind::Scheduled => {
            addr_remove(&mut g.objects[oi].scheduled, wid);
            oid_remove(&mut g.workers[wi].scheduled_objects, oid);
        },
    }
    proof {
        let g0 = *old(g);
        let g1 = *g;
        let o0 = g0.objects@[oi as int];
        let w0 = g0.workers@[wi as int];
        lemma_set_remove(opset(o0, k), w0.id);
        lemma_set_remove(wpset(w0, k), o0.id);
        lemma_wf_after_placement_change(g0, g1, k, oi as int, wi as int);
    }
}

/// The frame of a change to one task alone.
pub open spec fn task_frame(g0: Graph, g1: Graph, ti: int) -> bool {
    &&& 0 <= ti < g0.tasks@.len()
    &&& g1.tasks@ == g0.tasks@.update(ti, g1.tasks@[ti])
    &&& g1.workers == g0.workers
    &&& g1.objects == g0.objects
    &&& g1.sessions == g0.sessions
    &&& g1.clients == g0.clients
    &&& g1.session_id_counter == g0.session_id_counter
    &&& task_core_eq(g0.tasks@[ti], g1.tasks@[ti])
}

/// State conditions a changed task must satisfy, phrased over the old
/// graph (whose objects the change leaves untouched).
pub open spec fn task_state_conds(g0: Graph, t1: Task) -> bool {
    &&& (t1.state == TaskState::Ready ==> t1.waiting_for@.len() == 0 && t1.assigned is None)
    &&& (t1.state == TaskState::NotAssigned ==> t1.waiting_for@.len() > 0 && t1.assigned is None)
    &&& (t1.state == TaskState::Assigned || t1.state == TaskState::Running ==> t1.assigned is Some
        && t1.waiting_for@.len() == 0)
    &&& (t1.state == TaskState::Finished ==> t1.assigned is None && t1.waiting_for@.len() == 0 && (
    forall|k: int|
        0 <= k < t1.outputs@.len() ==> g0.object_at(#[trigger] t1.outputs@[k]).state
            != DataObjectState::Unfinished))
    &&& t1.state != TaskState::Failed
    &&& (t1.assigned matches Some(x) ==> g0.has_worker(x))
    &&& (t1.scheduled matches Some(x) ==> g0.has_worker(x))
}

/// Well-formedness survives a change to one task that leaves its identity,
/// inputs, outputs, waiting set and assignment alone and stays off every
/// ready queue.
#[verifier::rlimit(80)]
#[verifier::spinoff_prover]
proof fn lemma_wf_after_task_change(g0: Graph, g1: Graph, ti: int)
    requires
        wf(g0),
        task_frame(g0, g1, ti),
        g1.tasks@[ti].waiting_for == g0.tasks@[ti].waiting_for,
        g1.tasks@[ti].assigned == g0.tasks@[ti].assigned,
        task_state_conds(g0, g1.tasks@[ti]),
        g0.tasks@[ti].scheduled is None || g0.tasks@[ti].state != TaskState::Ready || (
        g1.tasks@[ti].scheduled == g0.tasks@[ti].scheduled && g1.tasks@[ti].state
            == g0.tasks@[ti].state),
    ensures
        wf(g1),
{
    let t0 = g0.tasks@[ti];
    let t1 = g1.tasks@[ti];
    assert(same_shape(g0, g1));
    lemma_same_shape_lookup(g0, g1);
    assert(sets_no_dup(g1));
    assert forall|i: int|
        0 <= i < g1.tasks@.len() implies {
        let t = #[trigger] g1.tasks@[i];
        &&& g1.has_session(t.id.session_id)
        &&& (forall|kk: int|
            0 <= kk < t.inputs@.len() ==> {
                &&& g1.has_object((#[trigger] t.inputs@[kk]).object)
                &&& t.inputs@[kk].object.session_id == t.id.session_id
            })
        &&& (forall|kk: int|
            0 <= kk < t.outputs@.len() ==> {
                &&& g1.has_object(#[trigger] t.outputs@[kk])
                &&& t.outputs@[kk].session_id == t.id.session_id
            })
        &&& (forall|oid: DataObjectId| #[trigger]
            t.waiting_for@.contains(oid) ==> exists|kk: int|
                0 <= kk < t.inputs@.len() && t.inputs@[kk].object == oid)
        &&& (t.scheduled matches Some(w) ==> g1.has_worker(w))
        &&& (t.assigned matches Some(w) ==> g1.has_worker(w))
    } by {
        let t = g1.tasks@[i];
        let tt = g0.tasks@[i];
        assert(g0.has_session(tt.id.session_id));
        assert(t.inputs == tt.inputs);
        assert(t.outputs == tt.outputs);
        assert forall|kk: int| 0 <= kk < t.inputs@.len() implies g1.has_object(
            (#[trigger] t.inputs@[kk]).object,
        ) && t.inputs@[kk].object.session_id == t.id.session_id by {
            assert(g0.has_object(tt.inputs@[kk].object));
        }
        assert forall|kk: int| 0 <= kk < t.outputs@.len() implies g1.has_object(
            #[trigger] t.outputs@[kk],
        ) && t.outputs@[kk].session_id == t.id.session_id by {
            assert(g0.has_object(tt.outputs@[kk]));
        }
        if i != ti {
            assert(t == tt);
        }
    }
    assert(refs_closed(g1));
    assert forall|i: int, tid: TaskId|
        0 <= i < g1.sessions@.len() implies ((#[trigger] g1.sessions@[i].tasks@.contains(tid))
        <==> (g1.has_task(tid) && tid.session_id == g1.sessions@[i].id)) by {
        assert(g0.sessions@[i].tasks@.contains(tid) <==> (g0.has_task(tid) && tid.session_id
            == g0.sessions@[i].id));
    }
    assert forall|i: int, oid: DataObjectId|
        0 <= i < g1.sessions@.len() implies ((#[trigger] g1.sessions@[i].objects@.contains(oid))
        <==> (g1.has_object(oid) && oid.session_id == g1.sessions@[i].id)) by {
        assert(g0.sessions@[i].objects@.contains(oid) <==> (g0.has_object(oid) && oid.session_id
            == g0.sessions@[i].id));
    }
    assert forall|i: int, sid: crate::ids::SessionId|
        0 <= i < g1.clients@.len() implies ((#[trigger] g1.clients@[i].sessions@.contains(sid))
        <==> (g1.has_session(sid) && g1.session_at(sid).client == g1.clients@[i].id)) by {
        assert(g0.clients@[i].sessions@.contains(sid) <==> (g0.has_session(sid) && g0.session_at(
            sid,
        ).client == g0.clients@[i].id));
        if g1.has_session(sid) {
            assert(g1.session_at(sid) == g0.session_at(sid));
        }
    }
    assert(containment_ok(g1));
    assert(placement_sym(g1));
    assert forall|i: int, j: int|
        0 <= i < g1.tasks@.len() && 0 <= j < g1.workers@.len() implies {
        let t = #[trigger] g1.tasks@[i];
        let w = #[trigger] g1.workers@[j];
        &&& (t.assigned == Some(w.id) <==> w.assigned_tasks@.contains(t.id))
        &&& (w.scheduled_ready_tasks@.contains(t.id) ==> t.scheduled == Some(w.id) && t.state
            == TaskState::Ready)
    } by {
        let t = g1.tasks@[i];
        let tt = g0.tasks@[i];
        let w = g1.workers@[j];
        assert(w == g0.workers@[j]);
        assert(tt.assigned == Some(w.id) <==> w.assigned_tasks@.contains(tt.id));
        assert(w.scheduled_ready_tasks@.contains(tt.id) ==> tt.scheduled == Some(w.id) && tt.state
            == TaskState::Ready);
        if i == ti {
            assert(t.id == tt.id && t.assigned == tt.assigned);
            if w.scheduled_ready_tasks@.contains(t.id) {
                assert(tt.scheduled == Some(w.id) && tt.state == TaskState::Ready);
            }
        } else {
            assert(t == tt);
        }
    }
    assert(assignment_sym(g1));
    assert forall|i: int| 0 <= i < g1.tasks@.len() implies task_state_ok(
        g1,
        #[trigger] g1.tasks@[i],
    ) by {
        let t = g1.tasks@[i];
        assert(task_state_ok(g0, g0.tasks@[i]));
        if t.state == TaskState::Finished {
            assert forall|kk: int| 0 <= kk < t.outputs@.len() implies g1.object_at(
                #[trigger] t.outputs@[kk],
            ).state != DataObjectState::Unfinished by {
                if i == ti {
                    assert(g0.object_at(t.outputs@[kk]).state != DataObjectState::Unfinished);
                } else {
                    assert(g0.object_at(g0.tasks@[i].outputs@[kk]).state
                        != DataObjectState::Unfinished);
                }
                assert(g0.has_object(t.outputs@[kk]));
                assert(g1.object_at(t.outputs@[kk]) == g0.object_at(t.outputs@[kk]));
            }
        }
    }
    assert forall|i: int, kk: int|
        0 <= i < g1.tasks@.len() && 0 <= kk < g1.tasks@[i].outputs@.len() implies g1.object_at(
        #[trigger] g1.tasks@[i].outputs@[kk],
    ).producer == Some(g1.tasks@[i].id) by {
        assert(g1.tasks@[i].outputs == g0.tasks@[i].outputs);
        assert(g0.object_at(g0.tasks@[i].outputs@[kk]).producer == Some(g0.tasks@[i].id));
        assert(g0.has_object(g0.tasks@[i].outputs@[kk]));
    }
    assert forall|i: int|
        0 <= i < g1.objects@.len() implies ((#[trigger] g1.objects@[i]).producer matches Some(tid)
        ==> {
        &&& g1.has_task(tid)
        &&& g1.task_at(tid).outputs@.contains(g1.objects@[i].id)
    }) by {
        let o = g1.objects@[i];
        assert(o == g0.objects@[i]);
        match o.producer {
            Some(tid) => {
                assert(g0.has_task(tid) && g0.task_at(tid).outputs@.contains(o.id));
                assert(g1.task_at(tid).outputs == g0.task_at(tid).outputs);
            },
            None => {},
        }
    }
    assert forall|i: int, j: int|
        0 <= i < g1.objects@.len() && 0 <= j < g1.tasks@.len() implies ((
    #[trigger] g1.objects@[i].consumers@.contains(g1.tasks@[j].id)) <==> (exists|kk: int|
        0 <= kk < g1.tasks@[j].inputs@.len() && (#[trigger] g1.tasks@[j].inputs@[kk]).object
            == g1.objects@[i].id)) by {
        assert(g0.objects@[i].consumers@.contains(g0.tasks@[j].id) <==> (exists|kk: int|
            0 <= kk < g0.tasks@[j].inputs@.len() && (#[trigger] g0.tasks@[j].inputs@[kk]).object
                == g0.objects@[i].id));
        assert(g1.tasks@[j].inputs == g0.tasks@[j].inputs);
        assert(g1.tasks@[j].id == g0.tasks@[j].id);
    }
    assert(lineage_ok(g1));
    assert forall|i: int, oid: DataObjectId|
        0 <= i < g1.tasks@.len() implies ((#[trigger] g1.tasks@[i].waiting_for@.contains(oid))
        <==> ((exists|kk: int|
        0 <= kk < g1.tasks@[i].inputs@.len() && (#[trigger] g1.tasks@[i].inputs@[kk]).object
            == oid) && g1.object_at(oid).state == DataObjectState::Unfinished)) by {
        assert(g0.tasks@[i].waiting_for@.contains(oid) <==> ((exists|kk: int|
            0 <= kk < g0.tasks@[i].inputs@.len() && (#[trigger] g0.tasks@[i].inputs@[kk]).object
                == oid) && g0.object_at(oid).state == DataObjectState::Unfinished));
        assert(g1.tasks@[i].waiting_for == g0.tasks@[i].waiting_for);
        assert(g1.tasks@[i].inputs == g0.tasks@[i].inputs);
        if (exists|kk: int|
            0 <= kk < g0.tasks@[i].inputs@.len() && (#[trigger] g0.tasks@[i].inputs@[kk]).object
                == oid) {
            let kk = choose|kk: int|
                0 <= kk < g0.tasks@[i].inputs@.len() && (#[trigger] g0.tasks@[i].inputs@[kk]).object
                    == oid;
            assert(g0.has_object(oid));
            assert(g1.object_at(oid) == g0.object_at(oid));
        }
    }
    assert(waiting_ok(g1));
    assert(sessions_ok(g1));
    assert(overbook_ok(g1));
}

/// The frame of a coupled change to one task and one worker.
pub open spec fn task_worker_frame(g0: Graph, g1: Graph, ti: int, wi: int) -> bool {
    &&& 0 <= ti < g0.tasks@.len()
    &&& 0 <= wi < g0.workers@.len()
    &&& g1.tasks@ == g0.tasks@.update(ti, g1.tasks@[ti])
    &&& g1.workers@ == g0.workers@.update(wi, g1.workers@[wi])
    &&& g1.objects == g0.objects
    &&& g1.sessions == g0.sessions
    &&& g1.clients == g0.clients
    &&& g1.session_id_counter == g0.session_id_counter
    &&& task_core_eq(g0.tasks@[ti], g1.tasks@[ti])
    &&& g1.tasks@[ti].waiting_for == g0.tasks@[ti].waiting_for
    &&& worker_core_eq(g0.workers@[wi], g1.workers@[wi])
    &&& g1.workers@[wi].assigned_objects == g0.workers@[wi].assigned_objects
    &&& g1.workers@[wi].located_objects == g0.workers@[wi].located_objects
    &&& g1.workers@[wi].scheduled_objects == g0.workers@[wi].scheduled_objects
}

/// Well-formedness survives a coupled assignment change of one task and
/// one worker whose queue and assignment memberships move together.
#[verifier::rlimit(100)]
#[verifier::spinoff_prover]
proof fn lemma_wf_after_task_worker_change(g0: Graph, g1: Graph, ti: int, wi: int)
    requires
        wf(g0),
        task_worker_frame(g0, g1, ti, wi),
        g1.workers@[wi].assigned_tasks@.no_duplicates(),
        g1.workers@[wi].scheduled_ready_tasks@.no_duplicates(),
        g1.workers@[wi].assigned_tasks@.len() <= crate::graph::OVERBOOK_LIMIT,
        forall|y: TaskId|
            y != g0.tasks@[ti].id ==> (g1.workers@[wi].assigned_tasks@.contains(y)
                <==> g0.workers@[wi].assigned_tasks@.contains(y)),
        forall|y: TaskId|
            y != g0.tasks@[ti].id ==> (g1.workers@[wi].scheduled_ready_tasks@.contains(y)
                <==> g0.workers@[wi].scheduled_ready_tasks@.contains(y)),
        g1.workers@[wi].assigned_tasks@.contains(g0.tasks@[ti].id) <==> g1.tasks@[ti].assigned
            == Some(g0.workers@[wi].id),
        g1.workers@[wi].scheduled_ready_tasks@.contains(g0.tasks@[ti].id) ==> g1.tasks@[ti].scheduled
            == Some(g0.workers@[wi].id) && g1.tasks@[ti].state == TaskState::Ready,
        forall|y: WorkerId|
            y != g0.workers@[wi].id ==> ((g1.tasks@[ti].assigned == Some(y)) <==> (
            g0.tasks@[ti].assigned == Some(y))),
        task_state_conds(g0, g1.tasks@[ti]),
        g0.tasks@[ti].state != TaskState::Ready || g0.tasks@[ti].scheduled == Some(
            g0.workers@[wi].id,
        ) || g1.tasks@[ti] == g0.tasks@[ti],
    ensures
        wf(g1),
{
    let t0 = g0.tasks@[ti];
    let t1 = g1.tasks@[ti];
    let w0 = g0.workers@[wi];
    let w1 = g1.workers@[wi];
    assert(same_shape(g0, g1));
    lemma_same_shape_lookup(g0, g1);
    assert(sets_no_dup(g1));
    assert forall|i: int|
        0 <= i < g1.tasks@.len() implies {
        let t = #[trigger] g1.tasks@[i];
        &&& g1.has_session(t.id.session_id)
        &&& (forall|kk: int|
            0 <= kk < t.inputs@.len() ==> {
                &&& g1.has_object((#[trigger] t.inputs@[kk]).object)
                &&& t.inputs@[kk].object.session_id == t.id.session_id
            })
        &&& (forall|kk: int|
            0 <= kk < t.outputs@.len() ==> {
                &&& g1.has_object(#[trigger] t.outputs@[kk])
                &&& t.outputs@[kk].session_id == t.id.session_id
            })
        &&& (forall|oid: DataObjectId| #[trigger]
            t.waiting_for@.contains(oid) ==> exists|kk: int|
                0 <= kk < t.inputs@.len() && t.inputs@[kk].object == oid)
        &&& (t.scheduled matches Some(w) ==> g1.has_worker(w))
        &&& (t.assigned matches Some(w) ==> g1.has_worker(w))
    } by {
        let t = g1.tasks@[i];
        let tt = g0.tasks@[i];
        assert(g0.has_session(tt.id.session_id));
        assert(t.inputs == tt.inputs);
        assert(t.outputs == tt.outputs);
        assert forall|kk: int| 0 <= kk < t.inputs@.len() implies g1.has_object(
            (#[trigger] t.inputs@[kk]).object,
        ) && t.inputs@[kk].object.session_id == t.id.session_id by {
            assert(g0.has_object(tt.inputs@[kk].object));
        }
        assert forall|kk: int| 0 <= kk < t.outputs@.len() implies g1.has_object(
            #[trigger] t.outputs@[kk],
        ) && t.outputs@[kk].session_id == t.id.session_id by {
            assert(g0.has_object(tt.outputs@[kk]));
        }
        if i != ti {
            assert(t == tt);
        }
    }
    assert forall|i: int|
        0 <= i < g1.workers@.len() implies {
        let w = #[trigger] g1.workers@[i];
        &&& (forall|t: TaskId| #[trigger] w.assigned_tasks@.contains(t) ==> g1.has_task(t))
        &&& (forall|t: TaskId| #[trigger] w.scheduled_ready_tasks@.contains(t) ==> g1.has_task(t))
        &&& (forall|o: DataObjectId| #[trigger] w.assigned_objects@.contains(o) ==> g1.has_object(
            o,
        ))
        &&& (forall|o: DataObjectId| #[trigger] w.located_objects@.contains(o) ==> g1.has_object(
            o,
        ))
        &&& (forall|o: DataObjectId| #[trigger] w.scheduled_objects@.contains(o) ==> g1.has_object(
            o,
        ))
    } by {
        let w = g1.workers@[i];
        let ww = g0.workers@[i];
        assert(0 <= i < g0.workers@.len());
        assert((forall|t: TaskId| #[trigger] ww.assigned_tasks@.contains(t) ==> g0.has_task(t))
            && (forall|t: TaskId| #[trigger] ww.scheduled_ready_tasks@.contains(t) ==> g0.has_task(
            t,
        )) && (forall|o: DataObjectId| #[trigger] ww.assigned_objects@.contains(o)
            ==> g0.has_object(o)) && (forall|o: DataObjectId| #[trigger]
            ww.located_objects@.contains(o) ==> g0.has_object(o)) && (forall|o: DataObjectId|
            #[trigger] ww.scheduled_objects@.contains(o) ==> g0.has_object(o)));
        if i == wi {
            assert forall|t: TaskId| #[trigger] w.assigned_tasks@.contains(t) implies g1.has_task(
                t,
            ) by {
                if t != t0.id {
                    assert(ww.assigned_tasks@.contains(t));
                } else {
                    assert(g0.has_task(t0.id));
                }
            }
            assert forall|t: TaskId| #[trigger] w.scheduled_ready_tasks@.contains(
                t,
            ) implies g1.has_task(t) by {
                if t != t0.id {
                    assert(ww.scheduled_ready_tasks@.contains(t));
                } else {
                    assert(g0.has_task(t0.id));
                }
            }
        }
    }
    assert(refs_closed(g1));
    assert forall|i: int, tid: TaskId|
        0 <= i < g1.sessions@.len() implies ((#[trigger] g1.sessions@[i].tasks@.contains(tid))
        <==> (g1.has_task(tid) && tid.session_id == g1.sessions@[i].id)) by {
        assert(g0.sessions@[i].tasks@.contains(tid) <==> (g0.has_task(tid) && tid.session_id
            == g0.sessions@[i].id));
    }
    assert forall|i: int, oid: DataObjectId|
        0 <= i < g1.sessions@.len() implies ((#[trigger] g1.sessions@[i].objects@.contains(oid))
        <==> (g1.has_object(oid) && oid.session_id == g1.sessions@[i].id)) by {
        assert(g0.sessions@[i].objects@.contains(oid) <==> (g0.has_object(oid) && oid.session_id
            == g0.sessions@[i].id));
    }
    assert forall|i: int, sid: crate::ids::SessionId|
        0 <= i < g1.clients@.len() implies ((#[trigger] g1.clients@[i].sessions@.contains(sid))
        <==> (g1.has_session(sid) && g1.session_at(sid).client == g1.clients@[i].id)) by {
        assert(g0.clients@[i].sessions@.contains(sid) <==> (g0.has_session(sid) && g0.session_at(
            sid,
        ).client == g0.clients@[i].id));
        if g1.has_session(sid) {
            assert(g1.session_at(sid) == g0.session_at(sid));
        }
    }
    assert(containment_ok(g1));
    assert forall|i: int, j: int|
        0 <= i < g1.objects@.len() && 0 <= j < g1.workers@.len() implies {
        let o = #[trigger] g1.objects@[i];
        let w = #[trigger] g1.workers@[j];
        &&& (o.assigned@.contains(w.id) <==> w.assigned_objects@.contains(o.id))
        &&& (o.located@.contains(w.id) <==> w.located_objects@.contains(o.id))
        &&& (o.scheduled@.contains(w.id) <==> w.scheduled_objects@.contains(o.id))
    } by {
        let o = g1.objects@[i];
        let w = g1.workers@[j];
        let ww = g0.workers@[j];
        assert(o == g0.objects@[i]);
        assert(o.assigned@.contains(ww.id) <==> ww.assigned_objects@.contains(o.id));
        assert(o.located@.contains(ww.id) <==> ww.located_objects@.contains(o.id));
        assert(o.scheduled@.contains(ww.id) <==> ww.scheduled_objects@.contains(o.id));
        assert(w.id == ww.id);
        if j == wi {
            assert(w.assigned_objects == ww.assigned_objects);
            assert(w.located_objects == ww.located_objects);
            assert(w.scheduled_objects == ww.scheduled_objects);
        } else {
            assert(w == ww);
        }
    }
    assert(placement_sym(g1));
    assert forall|i: int, j: int|
        0 <= i < g1.tasks@.len() && 0 <= j < g1.workers@.len() implies {
        let t = #[trigger] g1.tasks@[i];
        let w = #[trigger] g1.workers@[j];
        &&& (t.assigned == Some(w.id) <==> w.assigned_tasks@.contains(t.id))
        &&& (w.scheduled_ready_tasks@.contains(t.id) ==> t.scheduled == Some(w.id) && t.state
            == TaskState::Ready)
    } by {
        let t = g1.tasks@[i];
        let tt = g0.tasks@[i];
        let w = g1.workers@[j];
        let ww = g0.workers@[j];
        assert(tt.assigned == Some(ww.id) <==> ww.assigned_tasks@.contains(tt.id));
        assert(ww.scheduled_ready_tasks@.contains(tt.id) ==> tt.scheduled == Some(ww.id)
            && tt.state == TaskState::Ready);
        assert(w.id == ww.id);
        assert(t.id == tt.id);
        if i == ti && j == wi {
        } else if i == ti {
            assert(w == ww);
            assert(ww.id != w0.id);
            if w.scheduled_ready_tasks@.contains(t.id) {
                assert(tt.scheduled == Some(ww.id) && tt.state == TaskState::Ready);
                assert(t0.state == TaskState::Ready);
                if t1 != t0 {
                    assert(t0.scheduled == Some(w0.id));
                    assert(Some(w0.id) == Some(ww.id));
                    assert(false);
                }
            }
        } else if j == wi {
            assert(t == tt);
            assert(t.id != t0.id);
            assert(w.assigned_tasks@.contains(t.id) <==> ww.assigned_tasks@.contains(t.id));
            assert(w.scheduled_ready_tasks@.contains(t.id) <==> ww.scheduled_ready_tasks@.contains(
                t.id,
            ));
        } else {
            assert(t == tt && w == ww);
        }
    }
    assert(assignment_sym(g1));
    assert forall|i: int| 0 <= i < g1.tasks@.len() implies task_state_ok(
        g1,
        #[trigger] g1.tasks@[i],
    ) by {
        let t = g1.tasks@[i];
        assert(task_state_ok(g0, g0.tasks@[i]));
        if t.state == TaskState::Finished {
            assert forall|kk: int| 0 <= kk < t.outputs@.len() implies g1.object_at(
                #[trigger] t.outputs@[kk],
            ).state != DataObjectState::Unfinished by {
                if i == ti {
                    assert(g0.object_at(t.outputs@[kk]).state != DataObjectState::Unfinished);
                } else {
                    assert(g0.object_at(g0.tasks@[i].outputs@[kk]).state
                        != DataObjectState::Unfinished);
                }
                assert(g0.has_object(t.outputs@[kk]));
                assert(g1.object_at(t.outputs@[kk]) == g0.object_at(t.outputs@[kk]));
            }
        }
    }
    assert forall|i: int, kk: int|
        0 <= i < g1.tasks@.len() && 0 <= kk < g1.tasks@[i].outputs@.len() implies g1.object_at(
        #[trigger] g1.tasks@[i].outputs@[kk],
    ).producer == Some(g1.tasks@[i].id) by {
        assert(g1.tasks@[i].outputs == g0.tasks@[i].outputs);
        assert(g0.object_at(g0.tasks@[i].outputs@[kk]).producer == Some(g0.tasks@[i].id));
        assert(g0.has_object(g0.tasks@[i].outputs@[kk]));
    }
    assert forall|i: int|
        0 <= i < g1.objects@.len() implies ((#[trigger] g1.objects@[i]).producer matches Some(tid)
        ==> {
        &&& g1.has_task(tid)
        &&& g1.task_at(tid).outputs@.contains(g1.objects@[i].id)
    }) by {
        let o = g1.objects@[i];
        assert(o == g0.objects@[i]);
        match o.producer {
            Some(tid) => {
                assert(g0.has_task(tid) && g0.task_at(tid).outputs@.contains(o.id));
                assert(g1.task_at(tid).outputs == g0.task_at(tid).outputs);
            },
            None => {},
        }
    }
    assert forall|i: int, j: int|
        0 <= i < g1.objects@.len() && 0 <= j < g1.tasks@.len() implies ((
    #[trigger] g1.objects@[i].consumers@.contains(g1.tasks@[j].id)) <==> (exists|kk: int|
        0 <= kk < g1.tasks@[j].inputs@.len() && (#[trigger] g1.tasks@[j].inputs@[kk]).object
            == g1.objects@[i].id)) by {
        assert(g0.objects@[i].consumers@.contains(g0.tasks@[j].id) <==> (exists|kk: int|
            0 <= kk < g0.tasks@[j].inputs@.len() && (#[trigger] g0.tasks@[j].inputs@[kk]).object
                == g0.objects@[i].id));
        assert(g1.tasks@[j].inputs == g0.tasks@[j].inputs);
        assert(g1.tasks@[j].id == g0.tasks@[j].id);
    }
    assert(lineage_ok(g1));
    assert forall|i: int, oid: DataObjectId|
        0 <= i < g1.tasks@.len() implies ((#[trigger] g1.tasks@[i].waiting_for@.contains(oid))
        <==> ((exists|kk: int|
        0 <= kk < g1.tasks@[i].inputs@.len() && (#[trigger] g1.tasks@[i].inputs@[kk]).object
            == oid) && g1.object_at(oid).state == DataObjectState::Unfinished)) by {
        assert(g0.tasks@[i].waiting_for@.contains(oid) <==> ((exists|kk: int|
            0 <= kk < g0.tasks@[i].inputs@.len() && (#[trigger] g0.tasks@[i].inputs@[kk]).object
                == oid) && g0.object_at(oid).state == DataObjectState::Unfinished));
        assert(g1.tasks@[i].waiting_for == g0.tasks@[i].waiting_for);
        assert(g1.tasks@[i].inputs == g0.tasks@[i].inputs);
        if (exists|kk: int|
            0 <= kk < g0.tasks@[i].inputs@.len() && (#[trigger] g0.tasks@[i].inputs@[kk]).object
                == oid) {
            let kk = choose|kk: int|
                0 <= kk < g0.tasks@[i].inputs@.len() && (#[trigger] g0.tasks@[i].inputs@[kk]).object
                    == oid;
            assert(g0.has_object(oid));
            assert(g1.object_at(oid) == g0.object_at(oid));
        }
    }
    assert(waiting_ok(g1));
    assert(sessions_ok(g1));
    assert forall|i: int|
        0 <= i < g1.workers@.len() implies (#[trigger] g1.workers@[i]).assigned_tasks@.len()
        <= crate::graph::OVERBOOK_LIMIT by {
        if i != wi {
            assert(g1.workers@[i] == g0.workers@[i]);
            assert(g0.workers@[i].assigned_tasks@.len() <= crate::graph::OVERBOOK_LIMIT);
        }
    }
    assert(overbook_ok(g1));
}

/// Queue a ready task on the worker its schedule names.
pub fn enqueue_ready(g: &mut Graph, ti: usize, wi: usize)
    requires
        wf(*old(g)),
        ti < old(g).tasks@.len(),
        wi < old(g).workers@.len(),
        old(g).tasks@[ti as int].state == TaskState::Ready,
        old(g).tasks@[ti as int].scheduled == Some(old(g).workers@[wi as int].id),
    ensures
        wf(*final(g)),
        task_worker_frame(*old(g), *final(g), ti as int, wi as int),
        final(g).tasks == old(g).tasks,
        final(g).workers@[wi as int].assigned_tasks == old(g).workers@[wi as int].assigned_tasks,
        final(g).workers@[wi as int].scheduled_ready_tasks@ == set_insert(
            old(g).workers@[wi as int].scheduled_ready_tasks@,
            old(g).tasks@[ti as int].id,
        ),
{
    let tid = g.tasks[ti].id;
    tid_insert(&mut g.workers[wi].scheduled_ready_tasks, tid);
    proof {
        let g0 = *old(g);
        let g1 = *g;
        let t0 = g0.tasks@[ti as int];
        let w0 = g0.workers@[wi as int];
        assert(g1.tasks@ =~= g0.tasks@.update(ti as int, g1.tasks@[ti as int]));
        lemma_set_insert(w0.scheduled_ready_tasks@, t0.id);
        assert(t0.assigned == Some(w0.id) <==> w0.assigned_tasks@.contains(t0.id));
        assert(task_state_ok(g0, t0));
        assert(g0.has_worker(w0.id));
        match t0.assigned {
            Some(x) => {
                assert(g0.has_worker(x));
            },
            None => {},
        }
        lemma_wf_after_task_worker_change(g0, g1, ti as int, wi as int);
    }
}

/// Take a task off a worker's ready queue.
pub fn dequeue_ready(g: &mut Graph, ti: usize, wi: usize)
    requires
        wf(*old(g)),
        ti < old(g).tasks@.len(),
        wi < old(g).workers@.len(),
    ensures
        wf(*final(g)),
        task_worker_frame(*old(g), *final(g), ti as int, wi as int),
        final(g).tasks == old(g).tasks,
        final(g).workers@[wi as int].assigned_tasks == old(g).workers@[wi as int].assigned_tasks,
        final(g).workers@[wi as int].scheduled_ready_tasks@ == old(
            g,
        ).workers@[wi as int].scheduled_ready_tasks@.remove_value(old(g).tasks@[ti as int].id),
{
    let tid = g.tasks[ti].id;
    tid_remove(&mut g.workers[wi].scheduled_ready_tasks, tid);
    proof {
        let g0 = *old(g);
        let g1 = *g;
        let t0 = g0.tasks@[ti as int];
        let w0 = g0.workers@[wi as int];
        assert(g1.tasks@ =~= g0.tasks@.update(ti as int, g1.tasks@[ti as int]));
        lemma_set_remove(w0.scheduled_ready_tasks@, t0.id);
        assert(t0.assigned == Some(w0.id) <==> w0.assigned_tasks@.contains(t0.id));
        assert(task_state_ok(g0, t0));
        match t0.assigned {
            Some(x) => {
                assert(g0.has_worker(x));
            },
            None => {},
        }
        match t0.scheduled {
            Some(x) => {
                assert(g0.has_worker(x));
            },
            None => {},
        }
        lemma_wf_after_task_worker_change(g0, g1, ti as int, wi as int);
    }
}

/// Dispatch a ready task to the worker it is scheduled on: the task turns
/// assigned, joins the worker's assigned set and leaves its ready queue.
pub fn mark_task_assigned(g: &mut Graph, ti: usize, wi: usize)
    requires
        wf(*old(g)),
        ti < old(g).tasks@.len(),
        wi < old(g).workers@.len(),
        old(g).tasks@[ti as int].state == TaskState::Ready,
        old(g).tasks@[ti as int].scheduled == Some(old(g).workers@[wi as int].id),
        old(g).workers@[wi as int].assigned_tasks@.len() < crate::graph::OVERBOOK_LIMIT,
    ensures
        wf(*final(g)),
        task_worker_frame(*old(g), *final(g), ti as int, wi as int),
        ({
            let t1 = final(g).tasks@[ti as int];
            let t0 = old(g).tasks@[ti as int];
            let w1 = final(g).workers@[wi as int];
            let w0 = old(g).workers@[wi as int];
            &&& t1.state == TaskState::Assigned
            &&& t1.assigned == Some(w0.id)
            &&& t1.scheduled == t0.scheduled
            &&& w1.assigned_tasks@ == set_insert(w0.assigned_tasks@, t0.id)
            &&& w1.scheduled_ready_tasks@ == w0.scheduled_ready_tasks@.remove_value(t0.id)
        }),
{
    let tid = g.tasks[ti].id;
    let wid = g.workers[wi].id;
    g.tasks[ti].state = TaskState::Assigned;
    g.tasks[ti].assigned = Some(wid);
    tid_insert(&mut g.workers[wi].assigned_tasks, tid);
    tid_remove(&mut g.workers[wi].scheduled_ready_tasks, tid);
    proof {
        let g0 = *old(g);
        let g1 = *g;
        let t0 = g0.tasks@[ti as int];
        let w0 = g0.workers@[wi as int];
        lemma_set_insert(w0.assigned_tasks@, t0.id);
        lemma_set_remove(w0.scheduled_ready_tasks@, t0.id);
        assert(g1.tasks@ =~= g0.tasks@.update(ti as int, g1.tasks@[ti as int]));
        assert(g1.workers@ =~= g0.workers@.update(wi as int, g1.workers@[wi as int]));

        assert(task_state_ok(g0, t0));
        assert(g0.has_worker(w0.id));
        lemma_wf_after_task_worker_change(g0, g1, ti as int, wi as int);
    }
}

/// Pull an assigned or running task back off its worker: it returns to the
/// ready state and leaves the worker's assigned set.
pub fn mark_task_unassigned(g: &mut Graph, ti: usize, wi: usize)
    requires
        wf(*old(g)),
        ti < old(g).tasks@.len(),
        wi < old(g).workers@.len(),
        old(g).tasks@[ti as int].assigned == Some(old(g).workers@[wi as int].id),
        old(g).tasks@[ti as int].state == TaskState::Assigned || old(g).tasks@[ti as int].state
            == TaskState::Running,
    ensures
        wf(*final(g)),
        task_worker_frame(*old(g), *final(g), ti as int, wi as int),
        ({
            let t1 = final(g).tasks@[ti as int];
            let t0 = old(g).tasks@[ti as int];
            let w1 = final(g).workers@[wi as int];
            let w0 = old(g).workers@[wi as int];
            &&& t1.state == TaskState::Ready
            &&& t1.assigned is None
            &&& t1.scheduled == t0.scheduled
            &&& w1.assigned_tasks@ == w0.assigned_tasks@.remove_value(t0.id)
            &&& w1.scheduled_ready_tasks == w0.scheduled_ready_tasks
        }),
{
    let tid = g.tasks[ti].id;
    g.tasks[ti].state = TaskState::Ready;
    g.tasks[ti].assigned = None;
    tid_remove(&mut g.workers[wi].assigned_tasks, tid);
    proof {
        let g0 = *old(g);
        let g1 = *g;
        let t0 = g0.tasks@[ti as int];
        let w0 = g0.workers@[wi as int];
        lemma_set_remove(w0.assigned_tasks@, t0.id);
        assert(g1.tasks@ =~= g0.tasks@.update(ti as int, g1.tasks@[ti as int]));
        assert(g1.workers@ =~= g0.workers@.update(wi as int, g1.workers@[wi as int]));
        assert(task_state_ok(g0, t0));
        assert(w0.scheduled_ready_tasks@.contains(t0.id) ==> t0.state == TaskState::Ready);
        match t0.scheduled {
            Some(x) => {
                assert(g0.has_worker(x));
            },
            None => {},
        }
        lemma_wf_after_task_worker_change(g0, g1, ti as int, wi as int);
    }
}

/// A worker reported the task running.
pub fn set_task_running(g: &mut Graph, ti: usize)
    requires
        wf(*old(g)),
        ti < old(g).tasks@.len(),
        old(g).tasks@[ti as int].state == TaskState::Assigned,
    ensures
        wf(*final(g)),
        task_frame(*old(g), *final(g), ti as int),
        ({
            let t1 = final(g).tasks@[ti as int];
            let t0 = old(g).tasks@[ti as int];
            &&& t1.state == TaskState::Running
            &&& t1.assigned == t0.assigned
            &&& t1.scheduled == t0.scheduled
            &&& t1.waiting_for == t0.waiting_for
        }),
{
    g.tasks[ti].state = TaskState::Running;
    proof {
        let g0 = *old(g);
        let g1 = *g;
        let t0 = g0.tasks@[ti as int];
        assert(task_state_ok(g0, t0));
        match t0.assigned {
            Some(x) => {
                assert(g0.has_worker(x));
            },
            None => {},
        }
        match t0.scheduled {
            Some(x) => {
                assert(g0.has_worker(x));
            },
            None => {},
        }
        lemma_wf_after_task_change(g0, g1, ti as int);
    }
}

/// A worker reported the task finished; all its outputs are finished
/// already. The task leaves its worker and drops its schedule.
pub fn mark_task_finished(g: &mut Graph, ti: usize, wi: usize)
    requires
        wf(*old(g)),
        ti < old(g).tasks@.len(),
        wi < old(g).workers@.len(),
        old(g).tasks@[ti as int].assigned == Some(old(g).workers@[wi as int].id),
        old(g).tasks@[ti as int].state == TaskState::Assigned || old(g).tasks@[ti as int].state
            == TaskState::Running,
        forall|k: int|
            0 <= k < old(g).tasks@[ti as int].outputs@.len() ==> old(g).object_at(
                #[trigger] old(g).tasks@[ti as int].outputs@[k],
            ).state == DataObjectState::Finished,
    ensures
        wf(*final(g)),
        task_worker_frame(*old(g), *final(g), ti as int, wi as int),
        ({
            let t1 = final(g).tasks@[ti as int];
            let t0 = old(g).tasks@[ti as int];
            let w1 = final(g).workers@[wi as int];
            let w0 = old(g).workers@[wi as int];
            &&& t1.state == TaskState::Finished
            &&& t1.assigned is None
            &&& t1.scheduled is None
            &&& w1.assigned_tasks@ == w0.assigned_tasks@.remove_value(t0.id)
            &&& w1.scheduled_ready_tasks == w0.scheduled_ready_tasks
        }),
{
    let tid = g.tasks[ti].id;
    g.tasks[ti].state = TaskState::Finished;
    g.tasks[ti].assigned = None;
    g.tasks[ti].scheduled = None;
    tid_remove(&mut g.workers[wi].assigned_tasks, tid);
    proof {
        let g0 = *old(g);
        let g1 = *g;
        let t0 = g0.tasks@[ti as int];
        let w0 = g0.workers@[wi as int];
        lemma_set_remove(w0.assigned_tasks@, t0.id);
        assert(g1.tasks@ =~= g0.tasks@.update(ti as int, g1.tasks@[ti as int]));
        assert(g1.workers@ =~= g0.workers@.update(wi as int, g1.workers@[wi as int]));
        assert(task_state_ok(g0, t0));
        assert(w0.scheduled_ready_tasks@.contains(t0.id) ==> t0.state == TaskState::Ready);
        lemma_wf_after_task_worker_change(g0, g1, ti as int, wi as int);
    }
}

/// Point a task's schedule somewhere else. The task must not sit on any
/// ready queue, which holds whenever it is unscheduled or not ready.
pub fn set_task_scheduled(g: &mut Graph, ti: usize, s: Option<WorkerId>)
    requires
        wf(*old(g)),
        ti < old(g).tasks@.len(),
        old(g).tasks@[ti as int].scheduled is None || old(g).tasks@[ti as int].state
            != TaskState::Ready,
        s matches Some(x) ==> old(g).has_worker(x),
    ensures
        wf(*final(g)),
        task_frame(*old(g), *final(g), ti as int),
        ({
            let t1 = final(g).tasks@[ti as int];
            let t0 = old(g).tasks@[ti as int];
            &&& t1.state == t0.state
            &&& t1.assigned == t0.assigned
            &&& t1.scheduled == s
            &&& t1.waiting_for == t0.waiting_for
        }),
{
    g.tasks[ti].scheduled = s;
    proof {
        let g0 = *old(g);
        let g1 = *g;
        let t0 = g0.tasks@[ti as int];
        assert(task_state_ok(g0, t0));
        match t0.assigned {
            Some(x) => {
                assert(g0.has_worker(x));
            },
            None => {},
        }
        lemma_wf_after_task_change(g0, g1, ti as int);
    }
}

/// The frame of a change to one object alone that leaves its links, its
/// placement sets and its "still unfinished" status untouched.
pub open spec fn object_frame(g0: Graph, g1: Graph, oi: int) -> bool {
    &&& 0 <= oi < g0.objects@.len()
    &&& g1.objects@ == g0.objects@.update(oi, g1.objects@[oi])
    &&& g1.workers == g0.workers
    &&& g1.tasks == g0.tasks
    &&& g1.sessions == g0.sessions
    &&& g1.clients == g0.clients
    &&& g1.session_id_counter == g0.session_id_counter
    &&& ({
        let o0 = g0.objects@[oi];
        let o1 = g1.objects@[oi];
        &&& o1.id == o0.id
        &&& o1.producer == o0.producer
        &&& o1.consumers == o0.consumers
        &&& o1.located == o0.located
        &&& o1.assigned == o0.assigned
        &&& o1.scheduled == o0.scheduled
        &&& ((o1.state == DataObjectState::Unfinished) <==> (o0.state
            == DataObjectState::Unfinished))
    })
}

/// Well-formedness survives such a change.
#[verifier::rlimit(80)]
#[verifier::spinoff_prover]
proof fn lemma_wf_after_object_change(g0: Graph, g1: Graph, oi: int)
    requires
        wf(g0),
        object_frame(g0, g1, oi),
        object_state_ok(g1.objects@[oi]),
    ensures
        wf(g1),
{
    let o0 = g0.objects@[oi];
    let o1 = g1.objects@[oi];
    assert(same_shape(g0, g1));
    lemma_same_shape_lookup(g0, g1);
    assert(sets_no_dup(g1));
    assert forall|i: int|
        0 <= i < g1.tasks@.len() implies {
        let t = #[trigger] g1.tasks@[i];
        &&& g1.has_session(t.id.session_id)
        &&& (forall|kk: int|
            0 <= kk < t.inputs@.len() ==> {
                &&& g1.has_object((#[trigger] t.inputs@[kk]).object)
                &&& t.inputs@[kk].object.session_id == t.id.session_id
            })
        &&& (forall|kk: int|
            0 <= kk < t.outputs@.len() ==> {
                &&& g1.has_object(#[trigger] t.outputs@[kk])
                &&& t.outputs@[kk].session_id == t.id.session_id
            })
        &&& (forall|oid: DataObjectId| #[trigger]
            t.waiting_for@.contains(oid) ==> exists|kk: int|
                0 <= kk < t.inputs@.len() && t.inputs@[kk].object == oid)
        &&& (t.scheduled matches Some(w) ==> g1.has_worker(w))
        &&& (t.assigned matches Some(w) ==> g1.has_worker(w))
    } by {
        let t = g1.tasks@[i];
        assert(t == g0.tasks@[i]);
        assert(g0.has_session(t.id.session_id));
        assert forall|kk: int| 0 <= kk < t.inputs@.len() implies g1.has_object(
            (#[trigger] t.inputs@[kk]).object,
        ) && t.inputs@[kk].object.session_id == t.id.session_id by {
            assert(g0.has_object(t.inputs@[kk].object));
        }
        assert forall|kk: int| 0 <= kk < t.outputs@.len() implies g1.has_object(
            #[trigger] t.outputs@[kk],
        ) && t.outputs@[kk].session_id == t.id.session_id by {
            assert(g0.has_object(t.outputs@[kk]));
        }
    }
    assert(refs_closed(g1));
    assert forall|i: int, tid: TaskId|
        0 <= i < g1.sessions@.len() implies ((#[trigger] g1.sessions@[i].tasks@.contains(tid))
        <==> (g1.has_task(tid) && tid.session_id == g1.sessions@[i].id)) by {
        assert(g0.sessions@[i].tasks@.contains(tid) <==> (g0.has_task(tid) && tid.session_id
            == g0.sessions@[i].id));
    }
    assert forall|i: int, oid: DataObjectId|
        0 <= i < g1.sessions@.len() implies ((#[trigger] g1.sessions@[i].objects@.contains(oid))
        <==> (g1.has_object(oid) && oid.session_id == g1.sessions@[i].id)) by {
        assert(g0.sessions@[i].objects@.contains(oid) <==> (g0.has_object(oid) && oid.session_id
            == g0.sessions@[i].id));
    }
    assert forall|i: int, sid: crate::ids::SessionId|
        0 <= i < g1.clients@.len() implies ((#[trigger] g1.clients@[i].sessions@.contains(sid))
        <==> (g1.has_session(sid) && g1.session_at(sid).client == g1.clients@[i].id)) by {
        assert(g0.clients@[i].sessions@.contains(sid) <==> (g0.has_session(sid) && g0.session_at(
            sid,
        ).client == g0.clients@[i].id));
        if g1.has_session(sid) {
            assert(g1.session_at(sid) == g0.session_at(sid));
        }
    }
    assert(containment_ok(g1));
    assert forall|i: int, j: int|
        0 <= i < g1.objects@.len() && 0 <= j < g1.workers@.len() implies {
        let o = #[trigger] g1.objects@[i];
        let w = #[trigger] g1.workers@[j];
        &&& (o.assigned@.contains(w.id) <==> w.assigned_objects@.contains(o.id))
        &&& (o.located@.contains(w.id) <==> w.located_objects@.contains(o.id))
        &&& (o.scheduled@.contains(w.id) <==> w.scheduled_objects@.contains(o.id))
    } by {
        let o = g1.objects@[i];
        let oo = g0.objects@[i];
        let w = g1.workers@[j];
        assert(w == g0.workers@[j]);
        assert(oo.assigned@.contains(w.id) <==> w.assigned_objects@.contains(oo.id));
        assert(oo.located@.contains(w.id) <==> w.located_objects@.contains(oo.id));
        assert(oo.scheduled@.contains(w.id) <==> w.scheduled_objects@.contains(oo.id));
        assert(o.id == oo.id);
        if i == oi {
            assert(o.assigned == oo.assigned && o.located == oo.located && o.scheduled
                == oo.scheduled);
        } else {
            assert(o == oo);
        }
    }
    assert(placement_sym(g1));
    assert(assignment_sym(g1));
    assert forall|i: int| 0 <= i < g1.tasks@.len() implies task_state_ok(
        g1,
        #[trigger] g1.tasks@[i],
    ) by {
        let t = g1.tasks@[i];
        assert(t == g0.tasks@[i]);
        assert(task_state_ok(g0, t));
        if t.state == TaskState::Finished {
            assert forall|kk: int| 0 <= kk < t.outputs@.len() implies g1.object_at(
                #[trigger] t.outputs@[kk],
            ).state != DataObjectState::Unfinished by {
                assert(g0.object_at(t.outputs@[kk]).state != DataObjectState::Unfinished);
                assert(g0.has_object(t.outputs@[kk]));
                assert(g1.object_index(t.outputs@[kk]) == g0.object_index(t.outputs@[kk]));
            }
        }
    }
    assert forall|i: int, kk: int|
        0 <= i < g1.tasks@.len() && 0 <= kk < g1.tasks@[i].outputs@.len() implies g1.object_at(
        #[trigger] g1.tasks@[i].outputs@[kk],
    ).producer == Some(g1.tasks@[i].id) by {
        assert(g0.object_at(g0.tasks@[i].outputs@[kk]).producer == Some(g0.tasks@[i].id));
        assert(g0.has_object(g0.tasks@[i].outputs@[kk]));
        assert(g1.object_index(g0.tasks@[i].outputs@[kk]) == g0.object_index(
            g0.tasks@[i].outputs@[kk],
        ));
    }
    assert forall|i: int|
        0 <= i < g1.objects@.len() implies ((#[trigger] g1.objects@[i]).producer matches Some(tid)
        ==> {
        &&& g1.has_task(tid)
        &&& g1.task_at(tid).outputs@.contains(g1.objects@[i].id)
    }) by {
        let o = g1.objects@[i];
        let oo = g0.objects@[i];
        assert(o.producer == oo.producer && o.id == oo.id);
        match oo.producer {
            Some(tid) => {
                assert(g0.has_task(tid) && g0.task_at(tid).outputs@.contains(oo.id));
                assert(g1.task_at(tid) == g0.task_at(tid));
            },
            None => {},
        }
    }
    assert forall|i: int, j: int|
        0 <= i < g1.objects@.len() && 0 <= j < g1.tasks@.len() implies ((
    #[trigger] g1.objects@[i].consumers@.contains(g1.tasks@[j].id)) <==> (exists|kk: int|
        0 <= kk < g1.tasks@[j].inputs@.len() && (#[trigger] g1.tasks@[j].inputs@[kk]).object
            == g1.objects@[i].id)) by {
        assert(g0.objects@[i].consumers@.contains(g0.tasks@[j].id) <==> (exists|kk: int|
            0 <= kk < g0.tasks@[j].inputs@.len() && (#[trigger] g0.tasks@[j].inputs@[kk]).object
                == g0.objects@[i].id));
        assert(g1.objects@[i].consumers == g0.objects@[i].consumers);
        assert(g1.objects@[i].id == g0.objects@[i].id);
        assert(g1.tasks@[j] == g0.tasks@[j]);
    }
    assert(lineage_ok(g1));
    assert forall|i: int, oid: DataObjectId|
        0 <= i < g1.tasks@.len() implies ((#[trigger] g1.tasks@[i].waiting_for@.contains(oid))
        <==> ((exists|kk: int|
        0 <= kk < g1.tasks@[i].inputs@.len() && (#[trigger] g1.tasks@[i].inputs@[kk]).object
            == oid) && g1.object_at(oid).state == DataObjectState::Unfinished)) by {
        assert(g0.tasks@[i].waiting_for@.contains(oid) <==> ((exists|kk: int|
            0 <= kk < g0.tasks@[i].inputs@.len() && (#[trigger] g0.tasks@[i].inputs@[kk]).object
                == oid) && g0.object_at(oid).state == DataObjectState::Unfinished));
        assert(g1.tasks@[i] == g0.tasks@[i]);
        if (exists|kk: int|
            0 <= kk < g0.tasks@[i].inputs@.len() && (#[trigger] g0.tasks@[i].inputs@[kk]).object
                == oid) {
            assert(g0.has_object(oid));
            assert(g1.object_index(oid) == g0.object_index(oid));
            assert((g1.object_at(oid).state == DataObjectState::Unfinished) <==> (g0.object_at(
                oid,
            ).state == DataObjectState::Unfinished));
        }
    }
    assert(waiting_ok(g1));
    assert(sessions_ok(g1));
    assert(overbook_ok(g1));
}

/// Retire a finished object nobody holds or needs any more.
pub fn set_object_removed(g: &mut Graph, oi: usize)
    requires
        wf(*old(g)),
        oi < old(g).objects@.len(),
        old(g).objects@[oi as int].state == DataObjectState::Finished,
        old(g).objects@[oi as int].assigned@.len() == 0,
        old(g).objects@[oi as int].located@.len() == 0,
    ensures
        wf(*final(g)),
        object_frame(*old(g), *final(g), oi as int),
        ({
            let o1 = final(g).objects@[oi as int];
            let o0 = old(g).objects@[oi as int];
            &&& o1.state == DataObjectState::Removed
            &&& o1.client_keep == o0.client_keep
            &&& o1.size == o0.size
            &&& o1.data == o0.data
            &&& o1.label == o0.label
            &&& o1.additional == o0.additional
            &&& o1.finish_hooks == o0.finish_hooks
        }),
{
    g.objects[oi].state = DataObjectState::Removed;
    proof {
        lemma_wf_after_object_change(*old(g), *g, oi as int);
    }
}

/// Record or clear the client's keep flag on an object.
pub fn set_object_keep(g: &mut Graph, oi: usize, keep: bool)
    requires
        wf(*old(g)),
        oi < old(g).objects@.len(),
    ensures
        wf(*final(g)),
        object_frame(*old(g), *final(g), oi as int),
        ({
            let o1 = final(g).objects@[oi as int];
            let o0 = old(g).objects@[oi as int];
            &&& o1.state == o0.state
            &&& o1.client_keep == keep
            &&& o1.size == o0.size
            &&& o1.data == o0.data
            &&& o1.label == o0.label
            &&& o1.additional == o0.additional
            &&& o1.finish_hooks == o0.finish_hooks
        }),
{
    g.objects[oi].client_keep = keep;
    proof {
        assert(object_state_ok(old(g).objects@[oi as int]));
        lemma_wf_after_object_change(*old(g), *g, oi as int);
    }
}

/// Take one pending finish hook off an object.
pub fn pop_object_hook(g: &mut Graph, oi: usize) -> (r: Option<u64>)
    requires
        wf(*old(g)),
        oi < old(g).objects@.len(),
    ensures
        wf(*final(g)),
        object_frame(*old(g), *final(g), oi as int),
        ({
            let o1 = final(g).objects@[oi as int];
            let o0 = old(g).objects@[oi as int];
            &&& o1.state == o0.state
            &&& o1.client_keep == o0.client_keep
            &&& o1.size == o0.size
            &&& o1.data == o0.data
            &&& o1.label == o0.label
            &&& o1.additional == o0.additional
            &&& (match r {
                Some(h) => o0.finish_hooks@.len() > 0 && h == o0.finish_hooks@.last()
                    && o1.finish_hooks@ == o0.finish_hooks@.drop_last(),
                None => o0.finish_hooks@.len() == 0 && o1.finish_hooks@ == o0.finish_hooks@,
            })
        }),
{
    let r = g.objects[oi].finish_hooks.pop();
    proof {
        assert(object_state_ok(old(g).objects@[oi as int]));
        lemma_wf_after_object_change(*old(g), *g, oi as int);
    }
    r
}

/// Take one pending finish hook off a task.
pub fn pop_task_hook(g: &mut Graph, ti: usize) -> (r: Option<u64>)
    requires
        wf(*old(g)),
        ti < old(g).tasks@.len(),
    ensures
        wf(*final(g)),
        task_frame(*old(g), *final(g), ti as int),
        ({
            let t1 = final(g).tasks@[ti as int];
            let t0 = old(g).tasks@[ti as int];
            &&& t1.state == t0.state
            &&& t1.assigned == t0.assigned
            &&& t1.scheduled == t0.scheduled
            &&& t1.waiting_for == t0.waiting_for
            &&& (match r {
                Some(h) => t0.finish_hooks@.len() > 0 && h == t0.finish_hooks@.last()
                    && t1.finish_hooks@ == t0.finish_hooks@.drop_last(),
                None => t0.finish_hooks@.len() == 0 && t1.finish_hooks@ == t0.finish_hooks@,
            })
        }),
{
    let r = g.tasks[ti].finish_hooks.pop();
    proof {
        let g0 = *old(g);
        let t0 = g0.tasks@[ti as int];
        assert(task_state_ok(g0, t0));
        match t0.assigned {
            Some(x) => {
                assert(g0.has_worker(x));
            },
            None => {},
        }
        match t0.scheduled {
            Some(x) => {
                assert(g0.has_worker(x));
            },
            None => {},
        }
        lemma_wf_after_task_change(g0, *g, ti as int);
    }
    r
}

/// The end-state relation of finishing an object: the object turns
/// finished and every consumer's waiting set loses it, tasks whose last
/// wait it was turning ready.
pub open spec fn finish_strip_rel(g0: Graph, g1: Graph, oi: int, processed: Seq<TaskId>) -> bool {
    &&& 0 <= oi < g0.objects@.len()
    &&& g1.objects@ == g0.objects@.update(oi, g1.objects@[oi])
    &&& ({
        let o0 = g0.objects@[oi];
        let o1 = g1.objects@[oi];
        &&& o1.id == o0.id
        &&& o1.object_type == o0.object_type
        &&& o1.client_keep == o0.client_keep
        &&& o1.producer == o0.producer
        &&& o1.consumers == o0.consumers
        &&& o1.state == DataObjectState::Finished
        &&& o1.size is Some
        &&& o1.data == o0.data
        &&& o1.label == o0.label
        &&& o1.located == o0.located
        &&& o1.assigned == o0.assigned
        &&& o1.scheduled == o0.scheduled
        &&& o1.finish_hooks == o0.finish_hooks
    })
    &&& g1.workers == g0.workers
    &&& g1.sessions == g0.sessions
    &&& g1.clients == g0.clients
    &&& g1.session_id_counter == g0.session_id_counter
    &&& g1.tasks@.len() == g0.tasks@.len()
    &&& (forall|i: int|
        0 <= i < g0.tasks@.len() ==> {
            let t0 = #[trigger] g0.tasks@[i];
            let t1 = g1.tasks@[i];
            &&& task_core_eq(t0, t1)
            &&& t1.finish_hooks == t0.finish_hooks
            &&& t1.scheduled == t0.scheduled
            &&& t1.assigned == t0.assigned
            &&& (if processed.contains(t0.id) {
                &&& t1.waiting_for@ == t0.waiting_for@.remove_value(g0.objects@[oi].id)
                &&& t1.state == (if t0.state == TaskState::NotAssigned && t1.waiting_for@.len()
                    == 0 {
                    TaskState::Ready
                } else {
                    t0.state
                })
            } else {
                t1 == t0
            })
        })
}

/// Well-formedness holds again once every consumer has been stripped.
#[verifier::rlimit(100)]
#[verifier::spinoff_prover]
proof fn lemma_wf_after_finish_object(g0: Graph, g1: Graph, oi: int)
    requires
        wf(g0),
        g0.objects@[oi].state == DataObjectState::Unfinished,
        g0.objects@[oi].data is Some || g0.objects@[oi].located@.len() > 0,
        finish_strip_rel(g0, g1, oi, g0.objects@[oi].consumers@),
    ensures
        wf(g1),
{
    let o0 = g0.objects@[oi];
    let o1 = g1.objects@[oi];
    let oid = o0.id;
    assert(same_shape(g0, g1));
    lemma_same_shape_lookup(g0, g1);
    assert forall|i: int|
        0 <= i < g1.tasks@.len() implies {
        &&& (#[trigger] g1.tasks@[i]).outputs@.no_duplicates()
        &&& g1.tasks@[i].waiting_for@.no_duplicates()
    } by {
        let t0 = g0.tasks@[i];
        assert(t0.outputs@.no_duplicates() && t0.waiting_for@.no_duplicates());
        if o0.consumers@.contains(t0.id) {
            lemma_set_remove(t0.waiting_for@, oid);
        }
    }
    assert(sets_no_dup(g1));
    assert forall|i: int|
        0 <= i < g1.tasks@.len() implies {
        let t = #[trigger] g1.tasks@[i];
        &&& g1.has_session(t.id.session_id)
        &&& (forall|kk: int|
            0 <= kk < t.inputs@.len() ==> {
                &&& g1.has_object((#[trigger] t.inputs@[kk]).object)
                &&& t.inputs@[kk].object.session_id == t.id.session_id
            })
        &&& (forall|kk: int|
            0 <= kk < t.outputs@.len() ==> {
                &&& g1.has_object(#[trigger] t.outputs@[kk])
                &&& t.outputs@[kk].session_id == t.id.session_id
            })
        &&& (forall|oid2: DataObjectId| #[trigger]
            t.waiting_for@.contains(oid2) ==> exists|kk: int|
                0 <= kk < t.inputs@.len() && t.inputs@[kk].object == oid2)
        &&& (t.scheduled matches Some(w) ==> g1.has_worker(w))
        &&& (t.assigned matches Some(w) ==> g1.has_worker(w))
    } by {
        let t = g1.tasks@[i];
        let t0 = g0.tasks@[i];
        assert(g0.has_session(t0.id.session_id));
        assert(t.inputs == t0.inputs);
        assert(t.outputs == t0.outputs);
        assert forall|kk: int| 0 <= kk < t.inputs@.len() implies g1.has_object(
            (#[trigger] t.inputs@[kk]).object,
        ) && t.inputs@[kk].object.session_id == t.id.session_id by {
            assert(g0.has_object(t0.inputs@[kk].object));
        }
        assert forall|kk: int| 0 <= kk < t.outputs@.len() implies g1.has_object(
            #[trigger] t.outputs@[kk],
        ) && t.outputs@[kk].session_id == t.id.session_id by {
            assert(g0.has_object(t0.outputs@[kk]));
        }
        if o0.consumers@.contains(t0.id) {
            lemma_set_remove(t0.waiting_for@, oid);
            assert forall|oid2: DataObjectId| #[trigger] t.waiting_for@.contains(
                oid2,
            ) implies exists|kk: int| 0 <= kk < t.inputs@.len() && t.inputs@[kk].object == oid2 by {
                assert(t0.waiting_for@.contains(oid2));
            }
        }
        match t0.scheduled {
            Some(x) => {
                assert(g0.has_worker(x));
            },
            None => {},
        }
        match t0.assigned {
            Some(x) => {
                assert(g0.has_worker(x));
            },
            None => {},
        }
    }
    assert(refs_closed(g1));
    assert forall|i: int, tid: TaskId|
        0 <= i < g1.sessions@.len() implies ((#[trigger] g1.sessions@[i].tasks@.contains(tid))
        <==> (g1.has_task(tid) && tid.session_id == g1.sessions@[i].id)) by {
        assert(g0.sessions@[i].tasks@.contains(tid) <==> (g0.has_task(tid) && tid.session_id
            == g0.sessions@[i].id));
    }
    assert forall|i: int, oid2: DataObjectId|
        0 <= i < g1.sessions@.len() implies ((#[trigger] g1.sessions@[i].objects@.contains(oid2))
        <==> (g1.has_object(oid2) && oid2.session_id == g1.sessions@[i].id)) by {
        assert(g0.sessions@[i].objects@.contains(oid2) <==> (g0.has_object(oid2)
            && oid2.session_id == g0.sessions@[i].id));
    }
    assert forall|i: int, sid: crate::ids::SessionId|
        0 <= i < g1.clients@.len() implies ((#[trigger] g1.clients@[i].sessions@.contains(sid))
        <==> (g1.has_session(sid) && g1.session_at(sid).client == g1.clients@[i].id)) by {
        assert(g0.clients@[i].sessions@.contains(sid) <==> (g0.has_session(sid) && g0.session_at(
            sid,
        ).client == g0.clients@[i].id));
        if g1.has_session(sid) {
            assert(g1.session_at(sid) == g0.session_at(sid));
        }
    }
    assert(containment_ok(g1));
    assert forall|i: int, j: int|
        0 <= i < g1.objects@.len() && 0 <= j < g1.workers@.len() implies {
        let o = #[trigger] g1.objects@[i];
        let w = #[trigger] g1.workers@[j];
        &&& (o.assigned@.contains(w.id) <==> w.assigned_objects@.contains(o.id))
        &&& (o.located@.contains(w.id) <==> w.located_objects@.contains(o.id))
        &&& (o.scheduled@.contains(w.id) <==> w.scheduled_objects@.contains(o.id))
    } by {
        let o = g1.objects@[i];
        let oo = g0.objects@[i];
        let w = g1.workers@[j];
        assert(w == g0.workers@[j]);
        assert(oo.assigned@.contains(w.id) <==> w.assigned_objects@.contains(oo.id));
        assert(oo.located@.contains(w.id) <==> w.located_objects@.contains(oo.id));
        assert(oo.scheduled@.contains(w.id) <==> w.scheduled_objects@.contains(oo.id));
        if i == oi {
            assert(o.id == oo.id && o.assigned == oo.assigned && o.located == oo.located
                && o.scheduled == oo.scheduled);
        } else {
            assert(o == oo);
        }
    }
    assert(placement_sym(g1));
    assert forall|i: int, j: int|
        0 <= i < g1.tasks@.len() && 0 <= j < g1.workers@.len() implies {
        let t = #[trigger] g1.tasks@[i];
        let w = #[trigger] g1.workers@[j];
        &&& (t.assigned == Some(w.id) <==> w.assigned_tasks@.contains(t.id))
        &&& (w.scheduled_ready_tasks@.contains(t.id) ==> t.scheduled == Some(w.id) && t.state
            == TaskState::Ready)
    } by {
        let t = g1.tasks@[i];
        let t0 = g0.tasks@[i];
        let w = g1.workers@[j];
        assert(w == g0.workers@[j]);
        assert(t0.assigned == Some(w.id) <==> w.assigned_tasks@.contains(t0.id));
        assert(w.scheduled_ready_tasks@.contains(t0.id) ==> t0.scheduled == Some(w.id) && t0.state
            == TaskState::Ready);
        assert(t.id == t0.id && t.assigned == t0.assigned && t.scheduled == t0.scheduled);
        if w.scheduled_ready_tasks@.contains(t.id) {
            assert(t0.state == TaskState::Ready);
            assert(t.state == t0.state);
        }
    }
    assert(assignment_sym(g1));
    assert forall|i: int| 0 <= i < g1.tasks@.len() implies task_state_ok(
        g1,
        #[trigger] g1.tasks@[i],
    ) by {
        let t = g1.tasks@[i];
        let t0 = g0.tasks@[i];
        assert(task_state_ok(g0, t0));
        if o0.consumers@.contains(t0.id) {
            lemma_set_remove(t0.waiting_for@, oid);
        }
        if t.state == TaskState::Finished {
            assert forall|kk: int| 0 <= kk < t.outputs@.len() implies g1.object_at(
                #[trigger] t.outputs@[kk],
            ).state != DataObjectState::Unfinished by {
                assert(t.outputs == t0.outputs);
                assert(g0.object_at(t0.outputs@[kk]).state != DataObjectState::Unfinished);
                assert(g0.has_object(t0.outputs@[kk]));
                assert(g1.object_index(t0.outputs@[kk]) == g0.object_index(t0.outputs@[kk]));
            }
        }
    }
    assert forall|i: int, kk: int|
        0 <= i < g1.tasks@.len() && 0 <= kk < g1.tasks@[i].outputs@.len() implies g1.object_at(
        #[trigger] g1.tasks@[i].outputs@[kk],
    ).producer == Some(g1.tasks@[i].id) by {
        assert(g1.tasks@[i].outputs == g0.tasks@[i].outputs);
        assert(g0.object_at(g0.tasks@[i].outputs@[kk]).producer == Some(g0.tasks@[i].id));
        assert(g0.has_object(g0.tasks@[i].outputs@[kk]));
        assert(g1.object_index(g0.tasks@[i].outputs@[kk]) == g0.object_index(
            g0.tasks@[i].outputs@[kk],
        ));
    }
    assert forall|i: int|
        0 <= i < g1.objects@.len() implies ((#[trigger] g1.objects@[i]).producer matches Some(tid)
        ==> {
        &&& g1.has_task(tid)
        &&& g1.task_at(tid).outputs@.contains(g1.objects@[i].id)
    }) by {
        let o = g1.objects@[i];
        let oo = g0.objects@[i];
        assert(o.producer == oo.producer && o.id == oo.id);
        match oo.producer {
            Some(tid) => {
                assert(g0.has_task(tid) && g0.task_at(tid).outputs@.contains(oo.id));
                assert(g1.task_at(tid).outputs == g0.task_at(tid).outputs);
                assert(g1.task_at(tid).id == g0.task_at(tid).id);
            },
            None => {},
        }
    }
    assert forall|i: int, j: int|
        0 <= i < g1.objects@.len() && 0 <= j < g1.tasks@.len() implies ((
    #[trigger] g1.objects@[i].consumers@.contains(g1.tasks@[j].id)) <==> (exists|kk: int|
        0 <= kk < g1.tasks@[j].inputs@.len() && (#[trigger] g1.tasks@[j].inputs@[kk]).object
            == g1.objects@[i].id)) by {
        assert(g0.objects@[i].consumers@.contains(g0.tasks@[j].id) <==> (exists|kk: int|
            0 <= kk < g0.tasks@[j].inputs@.len() && (#[trigger] g0.tasks@[j].inputs@[kk]).object
                == g0.objects@[i].id));
        assert(g1.objects@[i].consumers == g0.objects@[i].consumers);
        assert(g1.objects@[i].id == g0.objects@[i].id);
        assert(g1.tasks@[j].inputs == g0.tasks@[j].inputs);
        assert(g1.tasks@[j].id == g0.tasks@[j].id);
    }
    assert(lineage_ok(g1));
    assert forall|i: int, oid2: DataObjectId|
        0 <= i < g1.tasks@.len() implies ((#[trigger] g1.tasks@[i].waiting_for@.contains(oid2))
        <==> ((exists|kk: int|
        0 <= kk < g1.tasks@[i].inputs@.len() && (#[trigger] g1.tasks@[i].inputs@[kk]).object
            == oid2) && g1.object_at(oid2).state == DataObjectState::Unfinished)) by {
        let t = g1.tasks@[i];
        let t0 = g0.tasks@[i];
        assert(t0.waiting_for@.contains(oid2) <==> ((exists|kk: int|
            0 <= kk < t0.inputs@.len() && (#[trigger] t0.inputs@[kk]).object == oid2)
            && g0.object_at(oid2).state == DataObjectState::Unfinished));
        assert(t.inputs == t0.inputs);
        if (exists|kk: int|
            0 <= kk < t0.inputs@.len() && (#[trigger] t0.inputs@[kk]).object == oid2) {
            assert(g0.has_object(oid2));
            assert(g1.object_index(oid2) == g0.object_index(oid2));
            if oid2 == oid {
                assert(g1.object_at(oid2) == o1);
                assert((exists|kk: int|
                    0 <= kk < t0.inputs@.len() && (#[trigger] t0.inputs@[kk]).object == oid));
                assert(g0.objects@[oi].consumers@.contains(g0.tasks@[i].id));
                lemma_set_remove(t0.waiting_for@, oid);
                assert(!t.waiting_for@.contains(oid));
            } else {
                assert(g1.object_at(oid2) == g0.object_at(oid2));
                if o0.consumers@.contains(t0.id) {
                    lemma_set_remove(t0.waiting_for@, oid);
                    assert(t.waiting_for@.contains(oid2) <==> t0.waiting_for@.contains(oid2));
                }
            }
        } else {
            if o0.consumers@.contains(t0.id) {
                lemma_set_remove(t0.waiting_for@, oid);
            }
            assert(!t0.waiting_for@.contains(oid2));
            assert(!t.waiting_for@.contains(oid2));
        }
    }
    assert(waiting_ok(g1));
    assert(sessions_ok(g1));
    assert(overbook_ok(g1));
}

/// A task id names a task that this step turned from not-assigned to
/// ready.
pub open spec fn newly_ready(g0: Graph, g: Graph, tid: TaskId) -> bool {
    exists|i: int|
        0 <= i < g.tasks@.len() && #[trigger] g.tasks@[i].id == tid && g.tasks@[i].state
            == TaskState::Ready && 0 <= i < g0.tasks@.len() && g0.tasks@[i].state
            == TaskState::NotAssigned
}

/// Mark an unfinished object finished with its reported size, and release
/// every consumer that was waiting for it. Returns the tasks that became
/// ready.
pub fn finish_object(g: &mut Graph, oi: usize, size: u64, additional: Vec<u8>) -> (ready: Vec<
    TaskId,
>)
    requires
        wf(*old(g)),
        oi < old(g).objects@.len(),
        old(g).objects@[oi as int].state == DataObjectState::Unfinished,
        old(g).objects@[oi as int].data is Some || old(g).objects@[oi as int].located@.len() > 0,
    ensures
        wf(*final(g)),
        finish_strip_rel(*old(g), *final(g), oi as int, old(g).objects@[oi as int].consumers@),
        final(g).objects@[oi as int].size == Some(size),
        final(g).objects@[oi as int].additional@ == additional@,
        ready@.no_duplicates(),
        forall|k: int|
            0 <= k < ready@.len() ==> final(g).has_task(#[trigger] ready@[k])
                && final(g).task_at(ready@[k]).state == TaskState::Ready,
        forall|i: int|
            0 <= i < old(g).tasks@.len() && old(g).tasks@[i].state != final(g).tasks@[i].state
                ==> ready@.contains(old(g).tasks@[i].id),
{
    let ghost add0 = additional@;
    g.objects[oi].state = DataObjectState::Finished;
    g.objects[oi].size = Some(size);
    g.objects[oi].additional = additional;
    let oid = g.objects[oi].id;
    let ghost g0 = *old(g);
    let n = g.objects[oi].consumers.len();
    let mut ready: Vec<TaskId> = Vec::new();
    let mut c: usize = 0;
    proof {
        assert(g.objects@ =~= g0.objects@.update(oi as int, g.objects@[oi as int]));
        assert(g0.objects@[oi as int].consumers@.take(0) =~= Seq::<TaskId>::empty());
    }
    while c < n
        invariant
            wf(g0),
            oi < g0.objects@.len(),
            oid == g0.objects@[oi as int].id,
            n == g0.objects@[oi as int].consumers@.len(),
            c <= n,
            g0.objects@[oi as int].state == DataObjectState::Unfinished,
            g0.objects@[oi as int].data is Some || g0.objects@[oi as int].located@.len() > 0,
            finish_strip_rel(g0, *g, oi as int, g0.objects@[oi as int].consumers@.take(c as int)),
            g.objects@[oi as int].size == Some(size),
            g.objects@[oi as int].additional@ == add0,
            ready@.no_duplicates(),
            forall|k: int| 0 <= k < ready@.len() ==> newly_ready(g0, *g, #[trigger] ready@[k]),
            forall|i: int|
                0 <= i < g0.tasks@.len() && g0.tasks@[i].state != g.tasks@[i].state
                    ==> ready@.contains(g0.tasks@[i].id),
        decreases n - c,
    {
        let ghost gpre = *g;
        let ghost rpre = ready@;
        let tid = g.objects[oi].consumers[c];
        proof {
            assert(g0.objects@[oi as int].consumers@[c as int] == tid);
            assert(g0.has_object(g0.objects@[oi as int].id));
            crate::graph::lemma_object_index_of(g0, oi as int);
            assert(g0.objects@[oi as int].consumers@.contains(tid));
            assert(g0.has_task(tid));
        }
        let ti = match g.find_task(tid) {
            Some(i) => i,
            None => {
                proof {
                    let i = choose|i: int| 0 <= i < g0.tasks@.len() && g0.tasks@[i].id == tid;
                    assert(g.tasks@[i].id == tid);
                }
                proof {
                    assert(false);
                }
                0
            },
        };
        proof {
            let i = ti as int;
            assert(g.tasks@[i].id == tid);
            assert(g0.tasks@[i].id == tid);
            assert(!g0.objects@[oi as int].consumers@.take(c as int).contains(tid)) by {
                if g0.objects@[oi as int].consumers@.take(c as int).contains(tid) {
                    let j = choose|j: int|
                        0 <= j < c && #[trigger] g0.objects@[oi as int].consumers@.take(
                            c as int,
                        )[j] == tid;
                    assert(g0.objects@[oi as int].consumers@[j] == tid);
                    assert(g0.objects@[oi as int].consumers@.no_duplicates());
                }
            }
            assert(g.tasks@[i] == g0.tasks@[i]);
        }
        oid_remove(&mut g.tasks[ti].waiting_for, oid);
        let mut promoted = false;
        if g.tasks[ti].waiting_for.len() == 0 && g.tasks[ti].state == TaskState::NotAssigned {
            g.tasks[ti].state = TaskState::Ready;
            ready.push(tid);
            promoted = true;
        }
        c = c + 1;
        proof {
            let i = ti as int;
            let cons = g0.objects@[oi as int].consumers@;
            assert(cons.take(c as int) =~= cons.take(c as int - 1).push(tid));
            assert forall|y: TaskId| cons.take(c as int).contains(y) implies (cons.take(
                c as int - 1,
            ).contains(y) || y == tid) by {
                let j = choose|j: int| 0 <= j < c && #[trigger] cons.take(c as int)[j] == y;
                if j < c - 1 {
                    assert(cons.take(c as int - 1)[j] == y);
                }
            }
            assert forall|y: TaskId| (cons.take(c as int - 1).contains(y) || y == tid) implies
                cons.take(c as int).contains(y) by {
                if cons.take(c as int - 1).contains(y) {
                    let j = choose|j: int| 0 <= j < c - 1 && #[trigger] cons.take(c as int - 1)[j] == y;
                    assert(cons.take(c as int)[j] == y);
                } else {
                    assert(cons.take(c as int)[c - 1] == tid);
                }
            }
            assert(g.tasks@ =~= gpre.tasks@.update(i, g.tasks@[i]));
            assert forall|k2: int|
                0 <= k2 < g0.tasks@.len() implies {
                let t0 = #[trigger] g0.tasks@[k2];
                let t1 = g.tasks@[k2];
                &&& task_core_eq(t0, t1)
                &&& t1.finish_hooks == t0.finish_hooks
                &&& t1.scheduled == t0.scheduled
                &&& t1.assigned == t0.assigned
                &&& (if cons.take(c as int).contains(t0.id) {
                    &&& t1.waiting_for@ == t0.waiting_for@.remove_value(oid)
                    &&& t1.state == (if t0.state == TaskState::NotAssigned && t1.waiting_for@.len()
                        == 0 {
                        TaskState::Ready
                    } else {
                        t0.state
                    })
                } else {
                    t1 == t0
                })
            } by {
                let t0 = g0.tasks@[k2];
                let t1 = g.tasks@[k2];
                let tp = gpre.tasks@[k2];
                if k2 != i {
                    assert(t1 == tp);
                    assert(t0.id != tid);
                } else {
                    assert(tp == t0);
                }
            }
            assert(finish_strip_rel(g0, *g, oi as int, cons.take(c as int)));
            assert forall|k: int| 0 <= k < ready@.len() implies newly_ready(
                g0,
                *g,
                #[trigger] ready@[k],
            ) by {
                if k < rpre.len() {
                    assert(ready@[k] == rpre[k]);
                    assert(newly_ready(g0, gpre, rpre[k]));
                    let i2 = choose|i2: int|
                        0 <= i2 < gpre.tasks@.len() && #[trigger] gpre.tasks@[i2].id == rpre[k]
                            && gpre.tasks@[i2].state == TaskState::Ready && g0.tasks@[i2].state
                            == TaskState::NotAssigned;
                    if i2 != i {
                        assert(g.tasks@[i2] == gpre.tasks@[i2]);
                        assert(newly_ready(g0, *g, ready@[k]));
                    } else {
                        assert(gpre.tasks@[i] == g0.tasks@[i]);
                        assert(false);
                    }
                } else {
                    assert(ready@[k] == tid);
                    assert(g.tasks@[i].id == tid && g.tasks@[i].state == TaskState::Ready);
                    assert(gpre.tasks@[i] == g0.tasks@[i]);
                    assert(g0.tasks@[i].state == TaskState::NotAssigned);
                    assert(newly_ready(g0, *g, tid));
                }
            }
            assert forall|i3: int|
                0 <= i3 < g0.tasks@.len() && g0.tasks@[i3].state != g.tasks@[i3].state implies
                ready@.contains(g0.tasks@[i3].id) by {
                if i3 == i {
                    if promoted {
                        assert(ready@[ready@.len() - 1] == tid);
                        assert(g0.tasks@[i3].id == tid);
                    } else {
                        assert(g.tasks@[i3].state == gpre.tasks@[i3].state);
                        assert(gpre.tasks@[i3] == g0.tasks@[i3]);
                        assert(false);
                    }
                } else {
                    assert(g.tasks@[i3] == gpre.tasks@[i3]);
                    assert(rpre.contains(g0.tasks@[i3].id));
                    let j = choose|j: int| 0 <= j < rpre.len() && rpre[j] == g0.tasks@[i3].id;
                    assert(ready@[j] == g0.tasks@[i3].id);
                }
            }
        }
    }
    proof {
        let cons = g0.objects@[oi as int].consumers@;
        assert(cons.take(n as int) =~= cons);
        lemma_wf_after_finish_object(g0, *g, oi as int);
        assert forall|k: int| 0 <= k < ready@.len() implies g.has_task(#[trigger] ready@[k])
            && g.task_at(ready@[k]).state == TaskState::Ready by {
            assert(newly_ready(g0, *g, ready@[k]));
            let i2 = choose|i2: int|
                0 <= i2 < g.tasks@.len() && #[trigger] g.tasks@[i2].id == ready@[k]
                    && g.tasks@[i2].state == TaskState::Ready && 0 <= i2 < g0.tasks@.len()
                    && g0.tasks@[i2].state == TaskState::NotAssigned;
            assert(g.has_task(ready@[k]));
            crate::graph::lemma_task_index_of(*g, i2);
        }
    }
    ready
}

/// Register a new worker under a fresh id.
#[verifier::rlimit(100)]
#[verifier::spinoff_prover]
pub fn push_worker(g: &mut Graph, id: WorkerId, resources: crate::graph::Resources)
    requires
        wf(*old(g)),
        !old(g).has_worker(id),
    ensures
        wf(*final(g)),
        final(g).workers@.len() == old(g).workers@.len() + 1,
        final(g).workers@ == old(g).workers@.push(final(g).workers@.last()),
        ({
            let w = final(g).workers@.last();
            &&& w.id == id
            &&& w.resources == resources
            &&& w.error is None
            &&& w.assigned_tasks@.len() == 0
            &&& w.scheduled_ready_tasks@.len() == 0
            &&& w.assigned_objects@.len() == 0
            &&& w.located_objects@.len() == 0
            &&& w.scheduled_objects@.len() == 0
        }),
        final(g).tasks == old(g).tasks,
        final(g).objects == old(g).objects,
        final(g).sessions == old(g).sessions,
        final(g).clients == old(g).clients,
        final(g).session_id_counter == old(g).session_id_counter,
{
    let w = Worker {
        id,
        resources,
        error: None,
        assigned_tasks: Vec::new(),
        scheduled_ready_tasks: Vec::new(),
        assigned_objects: Vec::new(),
        located_objects: Vec::new(),
        scheduled_objects: Vec::new(),
    };
    g.workers.push(w);
    proof {
        let g0 = *old(g);
        let g1 = *g;
        let n = g0.workers@.len() as int;
        lemma_task_lookup_eq(g0, g1);
        lemma_object_lookup_eq(g0, g1);
        lemma_session_lookup_eq(g0, g1);
        lemma_client_lookup_eq(g0, g1);
        assert forall|id2: WorkerId| g0.has_worker(id2) implies g1.has_worker(id2) by {
            let i = choose|i: int| 0 <= i < g0.workers@.len() && g0.workers@[i].id == id2;
            assert(g1.workers@[i].id == id2);
        }
        assert(g1.workers@[n].id == id);
        assert(g1.has_worker(id));
        assert forall|i: int, j: int| 0 <= i < j < g1.workers@.len() implies g1.workers@[i].id
            != g1.workers@[j].id by {
            if j < n {
                assert(g0.workers@[i].id != g0.workers@[j].id);
            } else {
                assert(g1.workers@[i].id == g0.workers@[i].id);
                if g0.workers@[i].id == id {
                    assert(g0.has_worker(id));
                }
            }
        }
        assert forall|i: int|
            0 <= i < g1.tasks@.len() implies {
            let t = #[trigger] g1.tasks@[i];
            &&& g1.has_session(t.id.session_id)
            &&& (forall|kk: int|
                0 <= kk < t.inputs@.len() ==> {
                    &&& g1.has_object((#[trigger] t.inputs@[kk]).object)
                    &&& t.inputs@[kk].object.session_id == t.id.session_id
                })
            &&& (forall|kk: int|
                0 <= kk < t.outputs@.len() ==> {
                    &&& g1.has_object(#[trigger] t.outputs@[kk])
                    &&& t.outputs@[kk].session_id == t.id.session_id
                })
            &&& (forall|oid: DataObjectId| #[trigger]
                t.waiting_for@.contains(oid) ==> exists|kk: int|
                    0 <= kk < t.inputs@.len() && t.inputs@[kk].object == oid)
            &&& (t.scheduled matches Some(w2) ==> g1.has_worker(w2))
            &&& (t.assigned matches Some(w2) ==> g1.has_worker(w2))
        } by {
            let t = g1.tasks@[i];
            assert(t == g0.tasks@[i]);
            assert(g0.has_session(t.id.session_id));
            match t.scheduled {
                Some(x) => {
                    assert(g0.has_worker(x));
                },
                None => {},
            }
            match t.assigned {
                Some(x) => {
                    assert(g0.has_worker(x));
                },
                None => {},
            }
        }
        assert(refs_closed(g1));
        assert forall|i: int, tid: TaskId|
            0 <= i < g1.sessions@.len() implies ((#[trigger] g1.sessions@[i].tasks@.contains(tid))
            <==> (g1.has_task(tid) && tid.session_id == g1.sessions@[i].id)) by {
            assert(g0.sessions@[i].tasks@.contains(tid) <==> (g0.has_task(tid) && tid.session_id
                == g0.sessions@[i].id));
        }
        assert forall|i: int, oid: DataObjectId|
            0 <= i < g1.sessions@.len() implies ((#[trigger] g1.sessions@[i].objects@.contains(
            oid,
        )) <==> (g1.has_object(oid) && oid.session_id == g1.sessions@[i].id)) by {
            assert(g0.sessions@[i].objects@.contains(oid) <==> (g0.has_object(oid)
                && oid.session_id == g0.sessions@[i].id));
        }
        assert forall|i: int, sid: crate::ids::SessionId|
            0 <= i < g1.clients@.len() implies ((#[trigger] g1.clients@[i].sessions@.contains(sid))
            <==> (g1.has_session(sid) && g1.session_at(sid).client == g1.clients@[i].id)) by {
            assert(g0.clients@[i].sessions@.contains(sid) <==> (g0.has_session(sid)
                && g0.session_at(sid).client == g0.clients@[i].id));
        }
        assert(containment_ok(g1));
        assert forall|i: int, j: int|
            0 <= i < g1.objects@.len() && 0 <= j < g1.workers@.len() implies {
            let o = #[trigger] g1.objects@[i];
            let w2 = #[trigger] g1.workers@[j];
            &&& (o.assigned@.contains(w2.id) <==> w2.assigned_objects@.contains(o.id))
            &&& (o.located@.contains(w2.id) <==> w2.located_objects@.contains(o.id))
            &&& (o.scheduled@.contains(w2.id) <==> w2.scheduled_objects@.contains(o.id))
        } by {
            let o = g1.objects@[i];
            let w2 = g1.workers@[j];
            if j < n {
                assert(o.assigned@.contains(g0.workers@[j].id) <==> g0.workers@[j].assigned_objects@.contains(o.id));
                assert(o.located@.contains(g0.workers@[j].id) <==> g0.workers@[j].located_objects@.contains(o.id));
                assert(o.scheduled@.contains(g0.workers@[j].id) <==> g0.workers@[j].scheduled_objects@.contains(o.id));
            } else {
                assert(o == g0.objects@[i]);
                if o.assigned@.contains(id) {
                    assert(g0.has_worker(id));
                }
                if o.located@.contains(id) {
                    assert(g0.has_worker(id));
                }
                if o.scheduled@.contains(id) {
                    assert(g0.has_worker(id));
                }
            }
        }
        assert(placement_sym(g1));
        assert forall|i: int, j: int|
            0 <= i < g1.tasks@.len() && 0 <= j < g1.workers@.len() implies {
            let t = #[trigger] g1.tasks@[i];
            let w2 = #[trigger] g1.workers@[j];
            &&& (t.assigned == Some(w2.id) <==> w2.assigned_tasks@.contains(t.id))
            &&& (w2.scheduled_ready_tasks@.contains(t.id) ==> t.scheduled == Some(w2.id)
                && t.state == TaskState::Ready)
        } by {
            let t = g1.tasks@[i];
            let w2 = g1.workers@[j];
            if j < n {
                assert(t.assigned == Some(g0.workers@[j].id) <==> g0.workers@[j].assigned_tasks@.contains(t.id));
                assert(g0.workers@[j].scheduled_ready_tasks@.contains(t.id) ==> t.scheduled
                    == Some(g0.workers@[j].id) && t.state == TaskState::Ready);
            } else {
                if t.assigned == Some(id) {
                    assert(task_state_ok(g0, t));
                    assert(g0.has_worker(id));
                }
            }
        }
        assert(assignment_sym(g1));
        assert forall|i: int| 0 <= i < g1.tasks@.len() implies task_state_ok(
            g1,
            #[trigger] g1.tasks@[i],
        ) by {
            let t = g1.tasks@[i];
            assert(task_state_ok(g0, t));
            if t.state == TaskState::Finished {
                assert forall|kk: int| 0 <= kk < t.outputs@.len() implies g1.object_at(
                    #[trigger] t.outputs@[kk],
                ).state != DataObjectState::Unfinished by {
                    assert(g0.object_at(t.outputs@[kk]).state != DataObjectState::Unfinished);
                    assert(g0.has_object(t.outputs@[kk]));
                    assert(g1.object_at(t.outputs@[kk]) == g0.object_at(t.outputs@[kk]));
                }
            }
        }
        assert forall|i: int, kk: int|
            0 <= i < g1.tasks@.len() && 0 <= kk < g1.tasks@[i].outputs@.len() implies g1.object_at(
            #[trigger] g1.tasks@[i].outputs@[kk],
        ).producer == Some(g1.tasks@[i].id) by {
            assert(g0.object_at(g0.tasks@[i].outputs@[kk]).producer == Some(g0.tasks@[i].id));
            assert(g0.has_object(g0.tasks@[i].outputs@[kk]));
        }
        assert forall|i: int|
            0 <= i < g1.objects@.len() implies ((#[trigger] g1.objects@[i]).producer matches Some(
            tid,
        ) ==> {
            &&& g1.has_task(tid)
            &&& g1.task_at(tid).outputs@.contains(g1.objects@[i].id)
        }) by {
            let o = g1.objects@[i];
            match o.producer {
                Some(tid) => {
                    assert(g0.has_task(tid) && g0.task_at(tid).outputs@.contains(o.id));
                    assert(g1.task_at(tid) == g0.task_at(tid));
                },
                None => {},
            }
        }
        assert(lineage_ok(g1));
        assert forall|i: int, oid: DataObjectId|
            0 <= i < g1.tasks@.len() implies ((#[trigger] g1.tasks@[i].waiting_for@.contains(oid))
            <==> ((exists|kk: int|
            0 <= kk < g1.tasks@[i].inputs@.len() && (#[trigger] g1.tasks@[i].inputs@[kk]).object
                == oid) && g1.object_at(oid).state == DataObjectState::Unfinished)) by {
            assert(g0.tasks@[i].waiting_for@.contains(oid) <==> ((exists|kk: int|
                0 <= kk < g0.tasks@[i].inputs@.len() && (#[trigger] g0.tasks@[i].inputs@[kk]).object
                    == oid) && g0.object_at(oid).state == DataObjectState::Unfinished));
            if (exists|kk: int|
                0 <= kk < g0.tasks@[i].inputs@.len() && (#[trigger] g0.tasks@[i].inputs@[kk]).object
                    == oid) {
                assert(g0.has_object(oid));
                assert(g1.object_at(oid) == g0.object_at(oid));
            }
        }
        assert(waiting_ok(g1));
        assert(sessions_ok(g1));
        assert(overbook_ok(g1));
    }
}

/// Register a new client connection.
#[verifier::rlimit(100)]
#[verifier::spinoff_prover]
pub fn push_client(g: &mut Graph, id: crate::ids::ClientId)
    requires
        wf(*old(g)),
        !old(g).has_client(id),
    ensures
        wf(*final(g)),
        final(g).clients@.len() == old(g).clients@.len() + 1,
        final(g).clients@ == old(g).clients@.push(final(g).clients@.last()),
        final(g).clients@.last().id == id,
        final(g).clients@.last().sessions@.len() == 0,
        final(g).workers == old(g).workers,
        final(g).tasks == old(g).tasks,
        final(g).objects == old(g).objects,
        final(g).sessions == old(g).sessions,
        final(g).session_id_counter == old(g).session_id_counter,
{
    g.clients.push(Client { id, sessions: Vec::new() });
    proof {
        let g0 = *old(g);
        let g1 = *g;
        let n = g0.clients@.len() as int;
        lemma_task_lookup_eq(g0, g1);
        lemma_object_lookup_eq(g0, g1);
        lemma_session_lookup_eq(g0, g1);
        lemma_worker_lookup_eq(g0, g1);
        assert forall|i: int, j: int| 0 <= i < j < g1.clients@.len() implies g1.clients@[i].id
            != g1.clients@[j].id by {
            if j < n {
                assert(g0.clients@[i].id != g0.clients@[j].id);
            } else {
                assert(g1.clients@[i] == g0.clients@[i]);
                if g0.clients@[i].id == id {
                    assert(g0.has_client(id));
                }
            }
        }
        assert(unique_ids(g1));
        assert(sets_no_dup(g1));
        assert forall|i: int|
            0 <= i < g1.tasks@.len() implies {
            let t = #[trigger] g1.tasks@[i];
            &&& g1.has_session(t.id.session_id)
            &&& (forall|kk: int|
                0 <= kk < t.inputs@.len() ==> {
                    &&& g1.has_object((#[trigger] t.inputs@[kk]).object)
                    &&& t.inputs@[kk].object.session_id == t.id.session_id
                })
            &&& (forall|kk: int|
                0 <= kk < t.outputs@.len() ==> {
                    &&& g1.has_object(#[trigger] t.outputs@[kk])
                    &&& t.outputs@[kk].session_id == t.id.session_id
                })
            &&& (forall|oid: DataObjectId| #[trigger]
                t.waiting_for@.contains(oid) ==> exists|kk: int|
                    0 <= kk < t.inputs@.len() && t.inputs@[kk].object == oid)
            &&& (t.scheduled matches Some(w2) ==> g1.has_worker(w2))
            &&& (t.assigned matches Some(w2) ==> g1.has_worker(w2))
        } by {
            let t = g1.tasks@[i];
            assert(t == g0.tasks@[i]);
            assert(g0.has_session(t.id.session_id));
            match t.scheduled {
                Some(x) => {
                    assert(g0.has_worker(x));
                },
                None => {},
            }
            match t.assigned {
                Some(x) => {
                    assert(g0.has_worker(x));
                },
                None => {},
            }
        }
        assert(refs_closed(g1));
        assert forall|i: int, sid: crate::ids::SessionId|
            0 <= i < g1.clients@.len() implies ((#[trigger] g1.clients@[i].sessions@.contains(sid))
            <==> (g1.has_session(sid) && g1.session_at(sid).client == g1.clients@[i].id)) by {
            if i < n {
                assert(g0.clients@[i].sessions@.contains(sid) <==> (g0.has_session(sid)
                    && g0.session_at(sid).client == g0.clients@[i].id));
            } else {
                assert(g1.clients@[i].sessions@.len() == 0);
                if g1.has_session(sid) && g1.session_at(sid).client == id {
                    assert(g0.has_session(sid) && g0.session_at(sid).client == id);
                    let si = g0.session_index(sid);
                    assert(0 <= si < g0.sessions@.len());
                    assert(g0.has_client(g0.sessions@[si].client));
                    assert(g0.session_at(sid) == g0.sessions@[si]);
                    assert(false);
                }
            }
        }
        assert forall|i: int, tid: TaskId|
            0 <= i < g1.sessions@.len() implies ((#[trigger] g1.sessions@[i].tasks@.contains(tid))
            <==> (g1.has_task(tid) && tid.session_id == g1.sessions@[i].id)) by {
            assert(g0.sessions@[i].tasks@.contains(tid) <==> (g0.has_task(tid) && tid.session_id
                == g0.sessions@[i].id));
        }
        assert forall|i: int, oid: DataObjectId|
            0 <= i < g1.sessions@.len() implies ((#[trigger] g1.sessions@[i].objects@.contains(
            oid,
        )) <==> (g1.has_object(oid) && oid.session_id == g1.sessions@[i].id)) by {
            assert(g0.sessions@[i].objects@.contains(oid) <==> (g0.has_object(oid)
                && oid.session_id == g0.sessions@[i].id));
        }
        assert forall|i: int| 0 <= i < g1.sessions@.len() implies g1.has_client(
            (#[trigger] g1.sessions@[i]).client,
        ) by {
            assert(g0.has_client(g0.sessions@[i].client));
            let ci = choose|ci: int|
                0 <= ci < g0.clients@.len() && g0.clients@[ci].id == g0.sessions@[i].client;
            assert(g1.clients@[ci].id == g0.sessions@[i].client);
        }
        assert(containment_ok(g1));
        assert(placement_sym(g1));
        assert(assignment_sym(g1));
        assert forall|i: int| 0 <= i < g1.tasks@.len() implies task_state_ok(
            g1,
            #[trigger] g1.tasks@[i],
        ) by {
            let t = g1.tasks@[i];
            assert(task_state_ok(g0, t));
            if t.state == TaskState::Finished {
                assert forall|kk: int| 0 <= kk < t.outputs@.len() implies g1.object_at(
                    #[trigger] t.outputs@[kk],
                ).state != DataObjectState::Unfinished by {
                    assert(g0.object_at(t.outputs@[kk]).state != DataObjectState::Unfinished);
                    assert(g0.has_object(t.outputs@[kk]));
                }
            }
        }
        assert forall|i: int, kk: int|
            0 <= i < g1.tasks@.len() && 0 <= kk < g1.tasks@[i].outputs@.len() implies g1.object_at(
            #[trigger] g1.tasks@[i].outputs@[kk],
        ).producer == Some(g1.tasks@[i].id) by {
            assert(g0.object_at(g0.tasks@[i].outputs@[kk]).producer == Some(g0.tasks@[i].id));
            assert(g0.has_object(g0.tasks@[i].outputs@[kk]));
        }
        assert forall|i: int|
            0 <= i < g1.objects@.len() implies ((#[trigger] g1.objects@[i]).producer matches Some(
            tid,
        ) ==> {
            &&& g1.has_task(tid)
            &&& g1.task_at(tid).outputs@.contains(g1.objects@[i].id)
        }) by {
            let o = g1.objects@[i];
            match o.producer {
                Some(tid) => {
                    assert(g0.has_task(tid) && g0.task_at(tid).outputs@.contains(o.id));
                },
                None => {},
            }
        }
        assert(lineage_ok(g1));
        assert forall|i: int, oid: DataObjectId|
            0 <= i < g1.tasks@.len() implies ((#[trigger] g1.tasks@[i].waiting_for@.contains(oid))
            <==> ((exists|kk: int|
            0 <= kk < g1.tasks@[i].inputs@.len() && (#[trigger] g1.tasks@[i].inputs@[kk]).object
                == oid) && g1.object_at(oid).state == DataObjectState::Unfinished)) by {
            assert(g0.tasks@[i].waiting_for@.contains(oid) <==> ((exists|kk: int|
                0 <= kk < g0.tasks@[i].inputs@.len() && (#[trigger] g0.tasks@[i].inputs@[kk]).object
                    == oid) && g0.object_at(oid).state == DataObjectState::Unfinished));
            if (exists|kk: int|
                0 <= kk < g0.tasks@[i].inputs@.len() && (#[trigger] g0.tasks@[i].inputs@[kk]).object
                    == oid) {
                assert(g0.has_object(oid));
            }
        }
        assert(waiting_ok(g1));
        assert(sessions_ok(g1));
        assert(overbook_ok(g1));
    }
}

/// Open a new session for a client, registering it on both sides.
#[verifier::rlimit(100)]
#[verifier::spinoff_prover]
pub fn push_session(g: &mut Graph, ci: usize, sid: crate::ids::SessionId)
    requires
        wf(*old(g)),
        ci < old(g).clients@.len(),
        !old(g).has_session(sid),
        0 < sid <= old(g).session_id_counter,
    ensures
        wf(*final(g)),
        final(g).sessions@.len() == old(g).sessions@.len() + 1,
        final(g).sessions@ == old(g).sessions@.push(final(g).sessions@.last()),
        ({
            let s = final(g).sessions@.last();
            &&& s.id == sid
            &&& s.client == old(g).clients@[ci as int].id
            &&& s.tasks@.len() == 0
            &&& s.objects@.len() == 0
            &&& s.error is None
        }),
        final(g).clients@ == old(g).clients@.update(ci as int, final(g).clients@[ci as int]),
        final(g).clients@[ci as int].id == old(g).clients@[ci as int].id,
        final(g).clients@[ci as int].sessions@ == set_insert(
            old(g).clients@[ci as int].sessions@,
            sid,
        ),
        final(g).workers == old(g).workers,
        final(g).tasks == old(g).tasks,
        final(g).objects == old(g).objects,
        final(g).session_id_counter == old(g).session_id_counter,
{
    let cid = g.clients[ci].id;
    g.sessions.push(
        Session {
            id: sid,
            client: cid,
            tasks: Vec::new(),
            objects: Vec::new(),
            error: None,
            finish_hooks: Vec::new(),
        },
    );
    let mut cs: Vec<crate::ids::SessionId> = Vec::new();
    let k = g.clients[ci].sessions.len();
    let mut k2: usize = 0;
    while k2 < k
        invariant
            k == g.clients@[ci as int].sessions@.len(),
            ci < g.clients@.len(),
            k2 <= k,
            cs@ == g.clients@[ci as int].sessions@.take(k2 as int),
        decreases k - k2,
    {
        let x = g.clients[ci].sessions[k2];
        cs.push(x);
        proof {
            assert(cs@ =~= g.clients@[ci as int].sessions@.take(k2 as int + 1));
        }
        k2 = k2 + 1;
    }
    proof {
        assert(cs@ =~= g.clients@[ci as int].sessions@);
    }
    cs.push(sid);
    g.clients[ci].sessions = cs;
    proof {
        let g0 = *old(g);
        let g1 = *g;
        let n = g0.sessions@.len() as int;
        let c0 = g0.clients@[ci as int];
        let c1 = g1.clients@[ci as int];
        assert(c1.sessions@ =~= c0.sessions@.push(sid));
        assert(!c0.sessions@.contains(sid)) by {
            if c0.sessions@.contains(sid) {
                assert(g0.has_session(sid));
            }
        }
        assert(c1.sessions@ =~= set_insert(c0.sessions@, sid));
        lemma_set_insert(c0.sessions@, sid);
        lemma_task_lookup_eq(g0, g1);
        lemma_object_lookup_eq(g0, g1);
        lemma_worker_lookup_eq(g0, g1);
        assert forall|i: int, j: int| 0 <= i < j < g1.sessions@.len() implies g1.sessions@[i].id
            != g1.sessions@[j].id by {
            if j < n {
                assert(g0.sessions@[i].id != g0.sessions@[j].id);
            } else {
                assert(g1.sessions@[i] == g0.sessions@[i]);
                if g0.sessions@[i].id == sid {
                    assert(g0.has_session(sid));
                }
            }
        }
        assert forall|i: int, j: int| 0 <= i < j < g1.clients@.len() implies g1.clients@[i].id
            != g1.clients@[j].id by {
            assert(g0.clients@[i].id != g0.clients@[j].id);
        }
        assert(unique_ids(g1));
        assert forall|sid2: crate::ids::SessionId| g0.has_session(sid2) implies g1.has_session(
            sid2,
        ) && g1.session_index(sid2) == g0.session_index(sid2) by {
            let i = g0.session_index(sid2);
            assert(g1.sessions@[i].id == sid2);
            let j = g1.session_index(sid2);
            assert(g1.sessions@[j].id == sid2);
            if i != j {
                assert(g1.sessions@[i].id != g1.sessions@[j].id);
            }
        }
        assert(g1.sessions@[n].id == sid);
        assert(g1.has_session(sid));
        assert(g1.session_index(sid) == n) by {
            let j = g1.session_index(sid);
            assert(g1.sessions@[j].id == sid);
            if j != n {
                assert(g1.sessions@[j].id != g1.sessions@[n].id);
            }
        }
        assert forall|sid2: crate::ids::SessionId| g1.has_session(sid2) implies (g0.has_session(
            sid2,
        ) || sid2 == sid) by {
            let i = choose|i: int| 0 <= i < g1.sessions@.len() && g1.sessions@[i].id == sid2;
            if i < n {
                assert(g0.sessions@[i].id == sid2);
            }
        }
        assert(sets_no_dup(g1));
        assert forall|i: int|
            0 <= i < g1.tasks@.len() implies {
            let t = #[trigger] g1.tasks@[i];
            &&& g1.has_session(t.id.session_id)
            &&& (forall|kk: int|
                0 <= kk < t.inputs@.len() ==> {
                    &&& g1.has_object((#[trigger] t.inputs@[kk]).object)
                    &&& t.inputs@[kk].object.session_id == t.id.session_id
                })
            &&& (forall|kk: int|
                0 <= kk < t.outputs@.len() ==> {
                    &&& g1.has_object(#[trigger] t.outputs@[kk])
                    &&& t.outputs@[kk].session_id == t.id.session_id
                })
            &&& (forall|oid: DataObjectId| #[trigger]
                t.waiting_for@.contains(oid) ==> exists|kk: int|
                    0 <= kk < t.inputs@.len() && t.inputs@[kk].object == oid)
            &&& (t.scheduled matches Some(w2) ==> g1.has_worker(w2))
            &&& (t.assigned matches Some(w2) ==> g1.has_worker(w2))
        } by {
            let t = g1.tasks@[i];
            assert(t == g0.tasks@[i]);
            assert(g0.has_session(t.id.session_id));
            match t.scheduled {
                Some(x) => {
                    assert(g0.has_worker(x));
                },
                None => {},
            }
            match t.assigned {
                Some(x) => {
                    assert(g0.has_worker(x));
                },
                None => {},
            }
        }
        assert(refs_closed(g1));
        assert forall|i: int, tid: TaskId|
            0 <= i < g1.sessions@.len() implies ((#[trigger] g1.sessions@[i].tasks@.contains(tid))
            <==> (g1.has_task(tid) && tid.session_id == g1.sessions@[i].id)) by {
            if i < n {
                assert(g0.sessions@[i].tasks@.contains(tid) <==> (g0.has_task(tid)
                    && tid.session_id == g0.sessions@[i].id));
            } else {
                if g1.has_task(tid) && tid.session_id == sid {
                    assert(g0.has_task(tid));
                    let tj = g0.task_index(tid);
                    assert(g0.has_session(g0.tasks@[tj].id.session_id));
                    assert(g0.tasks@[tj].id == tid);
                    assert(g0.has_session(sid));
                    assert(false);
                }
            }
        }
        assert forall|i: int, oid: DataObjectId|
            0 <= i < g1.sessions@.len() implies ((#[trigger] g1.sessions@[i].objects@.contains(
            oid,
        )) <==> (g1.has_object(oid) && oid.session_id == g1.sessions@[i].id)) by {
            if i < n {
                assert(g0.sessions@[i].objects@.contains(oid) <==> (g0.has_object(oid)
                    && oid.session_id == g0.sessions@[i].id));
            } else {
                if g1.has_object(oid) && oid.session_id == sid {
                    assert(g0.has_object(oid));
                    let oj = g0.object_index(oid);
                    assert(g0.objects@[oj].id == oid);
                    assert(g0.has_session(g0.objects@[oj].id.session_id));
                    assert(false);
                }
            }
        }
        assert forall|i: int| 0 <= i < g1.sessions@.len() implies g1.has_client(
            (#[trigger] g1.sessions@[i]).client,
        ) by {
            if i < n {
                assert(g0.has_client(g0.sessions@[i].client));
                let cj = g0.client_index(g0.sessions@[i].client);
                assert(g1.clients@[cj].id == g0.sessions@[i].client);
            } else {
                assert(g1.clients@[ci as int].id == c0.id);
            }
        }
        assert forall|i: int, sid2: crate::ids::SessionId|
            0 <= i < g1.clients@.len() implies ((#[trigger] g1.clients@[i].sessions@.contains(
            sid2,
        )) <==> (g1.has_session(sid2) && g1.session_at(sid2).client == g1.clients@[i].id)) by {
            assert(g0.clients@[i].sessions@.contains(sid2) <==> (g0.has_session(sid2)
                && g0.session_at(sid2).client == g0.clients@[i].id));
            assert(g1.clients@[i].id == g0.clients@[i].id);
            if g0.has_session(sid2) {
                assert(g1.session_at(sid2) == g0.session_at(sid2));
            }
            if sid2 == sid {
                assert(g1.session_at(sid) == g1.sessions@[n]);
                if i == ci {
                    assert(g1.clients@[i].sessions@.contains(sid));
                } else {
                    assert(!g0.clients@[i].sessions@.contains(sid));
                    assert(g1.clients@[i].sessions@ == g0.clients@[i].sessions@);
                    assert(g1.sessions@[n].client == c0.id);
                    assert(g0.clients@[i].id != c0.id);
                }
            } else {
                if i == ci {
                    assert(c1.sessions@.contains(sid2) <==> c0.sessions@.contains(sid2));
                }
            }
        }
        assert(containment_ok(g1));
        assert(placement_sym(g1));
        assert(assignment_sym(g1));
        assert forall|i: int| 0 <= i < g1.tasks@.len() implies task_state_ok(
            g1,
            #[trigger] g1.tasks@[i],
        ) by {
            let t = g1.tasks@[i];
            assert(task_state_ok(g0, t));
            if t.state == TaskState::Finished {
                assert forall|kk: int| 0 <= kk < t.outputs@.len() implies g1.object_at(
                    #[trigger] t.outputs@[kk],
                ).state != DataObjectState::Unfinished by {
                    assert(g0.object_at(t.outputs@[kk]).state != DataObjectState::Unfinished);
                    assert(g0.has_object(t.outputs@[kk]));
                }
            }
        }
        assert forall|i: int, kk: int|
            0 <= i < g1.tasks@.len() && 0 <= kk < g1.tasks@[i].outputs@.len() implies g1.object_at(
            #[trigger] g1.tasks@[i].outputs@[kk],
        ).producer == Some(g1.tasks@[i].id) by {
            assert(g0.object_at(g0.tasks@[i].outputs@[kk]).producer == Some(g0.tasks@[i].id));
            assert(g0.has_object(g0.tasks@[i].outputs@[kk]));
        }
        assert forall|i: int|
            0 <= i < g1.objects@.len() implies ((#[trigger] g1.objects@[i]).producer matches Some(
            tid,
        ) ==> {
            &&& g1.has_task(tid)
            &&& g1.task_at(tid).outputs@.contains(g1.objects@[i].id)
        }) by {
            let o = g1.objects@[i];
            match o.producer {
                Some(tid) => {
                    assert(g0.has_task(tid) && g0.task_at(tid).outputs@.contains(o.id));
                },
                None => {},
            }
        }
        assert(lineage_ok(g1));
        assert forall|i: int, oid: DataObjectId|
            0 <= i < g1.tasks@.len() implies ((#[trigger] g1.tasks@[i].waiting_for@.contains(oid))
            <==> ((exists|kk: int|
            0 <= kk < g1.tasks@[i].inputs@.len() && (#[trigger] g1.tasks@[i].inputs@[kk]).object
                == oid) && g1.object_at(oid).state == DataObjectState::Unfinished)) by {
            assert(g0.tasks@[i].waiting_for@.contains(oid) <==> ((exists|kk: int|
                0 <= kk < g0.tasks@[i].inputs@.len() && (#[trigger] g0.tasks@[i].inputs@[kk]).object
                    == oid) && g0.object_at(oid).state == DataObjectState::Unfinished));
            if (exists|kk: int|
                0 <= kk < g0.tasks@[i].inputs@.len() && (#[trigger] g0.tasks@[i].inputs@[kk]).object
                    == oid) {
                assert(g0.has_object(oid));
            }
        }
        assert(waiting_ok(g1));
        assert(sessions_ok(g1));
        assert(overbook_ok(g1));
    }
}

/// Add a data object to the graph and to its session. An object arriving
/// with inline data is finished at once, with its size; one awaiting a
/// producer starts unfinished.
#[verifier::rlimit(100)]
#[verifier::spinoff_prover]
pub fn insert_object(
    g: &mut Graph,
    si: usize,
    id: DataObjectId,
    object_type: crate::graph::DataObjectType,
    client_keep: bool,
    label: String,
    data: Option<Vec<u8>>,
    additional: Vec<u8>,
)
    requires
        wf(*old(g)),
        si < old(g).sessions@.len(),
        !old(g).has_object(id),
        id.session_id == old(g).sessions@[si as int].id,
        old(g).sessions@[si as int].error is None,
        data matches Some(d) ==> d@.len() <= u64::MAX,
    ensures
        wf(*final(g)),
        final(g).objects@.len() == old(g).objects@.len() + 1,
        final(g).objects@ == old(g).objects@.push(final(g).objects@.last()),
        ({
            let o = final(g).objects@.last();
            &&& o.id == id
            &&& o.object_type == object_type
            &&& o.client_keep == client_keep
            &&& o.producer is None
            &&& o.consumers@.len() == 0
            &&& (match data {
                Some(d) => o.state == DataObjectState::Finished && o.size == Some(d@.len() as u64)
                    && o.data == Some(d),
                None => o.state == DataObjectState::Unfinished && o.size is None && o.data is None,
            })
            &&& o.label@ == label@
            &&& o.additional@ == additional@
            &&& o.located@.len() == 0
            &&& o.assigned@.len() == 0
            &&& o.scheduled@.len() == 0
        }),
        final(g).sessions@ == old(g).sessions@.update(si as int, final(g).sessions@[si as int]),
        final(g).sessions@[si as int].id == old(g).sessions@[si as int].id,
        final(g).sessions@[si as int].client == old(g).sessions@[si as int].client,
        final(g).sessions@[si as int].error == old(g).sessions@[si as int].error,
        final(g).sessions@[si as int].tasks == old(g).sessions@[si as int].tasks,
        final(g).sessions@[si as int].objects@ == set_insert(
            old(g).sessions@[si as int].objects@,
            id,
        ),
        final(g).workers == old(g).workers,
        final(g).tasks == old(g).tasks,
        final(g).clients == old(g).clients,
        final(g).session_id_counter == old(g).session_id_counter,
{
    let state: DataObjectState = match data {
        Some(_) => DataObjectState::Finished,
        None => DataObjectState::Unfinished,
    };
    let size: Option<u64> = match &data {
        Some(d) => Some(d.len() as u64),
        None => None,
    };
    g.objects.push(
        DataObject {
            id,
            object_type,
            client_keep,
            producer: None,
            consumers: Vec::new(),
            state,
            size,
            data,
            label,
            additional,
            located: Vec::new(),
            assigned: Vec::new(),
            scheduled: Vec::new(),
            finish_hooks: Vec::new(),
        },
    );
    let mut os: Vec<DataObjectId> = Vec::new();
    let k = g.sessions[si].objects.len();
    let mut k2: usize = 0;
    while k2 < k
        invariant
            k == g.sessions@[si as int].objects@.len(),
            si < g.sessions@.len(),
            k2 <= k,
            os@ == g.sessions@[si as int].objects@.take(k2 as int),
        decreases k - k2,
    {
        let x = g.sessions[si].objects[k2];
        os.push(x);
        proof {
            assert(os@ =~= g.sessions@[si as int].objects@.take(k2 as int + 1));
        }
        k2 = k2 + 1;
    }
    proof {
        assert(os@ =~= g.sessions@[si as int].objects@);
    }
    os.push(id);
    g.sessions[si].objects = os;
    proof {
        let g0 = *old(g);
        let g1 = *g;
        let n = g0.objects@.len() as int;
        let s0 = g0.sessions@[si as int];
        let s1 = g1.sessions@[si as int];
        assert(!s0.objects@.contains(id)) by {
            if s0.objects@.contains(id) {
                assert(g0.has_object(id));
            }
        }
        assert(s1.objects@ =~= set_insert(s0.objects@, id));
        lemma_set_insert(s0.objects@, id);
        lemma_task_lookup_eq(g0, g1);
        lemma_client_lookup_eq(g0, g1);
        lemma_worker_lookup_eq(g0, g1);
        assert forall|i: int, j: int| 0 <= i < j < g1.objects@.len() implies g1.objects@[i].id
            != g1.objects@[j].id by {
            if j < n {
                assert(g0.objects@[i].id != g0.objects@[j].id);
            } else {
                assert(g1.objects@[i] == g0.objects@[i]);
                if g0.objects@[i].id == id {
                    assert(g0.has_object(id));
                }
            }
        }
        assert forall|i: int, j: int| 0 <= i < j < g1.sessions@.len() implies g1.sessions@[i].id
            != g1.sessions@[j].id by {
            assert(g0.sessions@[i].id != g0.sessions@[j].id);
        }
        assert(unique_ids(g1));
        assert forall|sid2: crate::ids::SessionId| g0.has_session(sid2) implies g1.has_session(
            sid2,
        ) && g1.session_index(sid2) == g0.session_index(sid2) && g1.sessions@[g0.session_index(
            sid2,
        )].id == sid2 by {
            let i = g0.session_index(sid2);
            assert(g1.sessions@[i].id == sid2);
            let j = g1.session_index(sid2);
            assert(g1.sessions@[j].id == sid2);
            if i != j {
                assert(g1.sessions@[i].id != g1.sessions@[j].id);
            }
        }
        assert forall|sid2: crate::ids::SessionId| g1.has_session(sid2) implies g0.has_session(
            sid2,
        ) by {
            let i = choose|i: int| 0 <= i < g1.sessions@.len() && g1.sessions@[i].id == sid2;
            assert(g0.sessions@[i].id == sid2);
        }
        assert forall|oid2: DataObjectId| g0.has_object(oid2) implies g1.has_object(oid2)
            && g1.object_index(oid2) == g0.object_index(oid2) by {
            let i = g0.object_index(oid2);
            assert(g1.objects@[i].id == oid2);
            let j = g1.object_index(oid2);
            assert(g1.objects@[j].id == oid2);
            if i != j {
                assert(g1.objects@[i].id != g1.objects@[j].id);
            }
        }
        assert(g1.objects@[n].id == id);
        assert(g1.has_object(id));
        assert(g1.object_index(id) == n) by {
            let j = g1.object_index(id);
            assert(g1.objects@[j].id == id);
            if j != n {
                assert(g1.objects@[j].id != g1.objects@[n].id);
            }
        }
        assert forall|oid2: DataObjectId| g1.has_object(oid2) implies (g0.has_object(oid2) || oid2
            == id) by {
            let i = choose|i: int| 0 <= i < g1.objects@.len() && g1.objects@[i].id == oid2;
            if i < n {
                assert(g0.objects@[i].id == oid2);
            }
        }
        assert(sets_no_dup(g1));
        assert forall|i: int|
            0 <= i < g1.tasks@.len() implies {
            let t = #[trigger] g1.tasks@[i];
            &&& g1.has_session(t.id.session_id)
            &&& (forall|kk: int|
                0 <= kk < t.inputs@.len() ==> {
                    &&& g1.has_object((#[trigger] t.inputs@[kk]).object)
                    &&& t.inputs@[kk].object.session_id == t.id.session_id
                })
            &&& (forall|kk: int|
                0 <= kk < t.outputs@.len() ==> {
                    &&& g1.has_object(#[trigger] t.outputs@[kk])
                    &&& t.outputs@[kk].session_id == t.id.session_id
                })
            &&& (forall|oid: DataObjectId| #[trigger]
                t.waiting_for@.contains(oid) ==> exists|kk: int|
                    0 <= kk < t.inputs@.len() && t.inputs@[kk].object == oid)
            &&& (t.scheduled matches Some(w2) ==> g1.has_worker(w2))
            &&& (t.assigned matches Some(w2) ==> g1.has_worker(w2))
        } by {
            let t = g1.tasks@[i];
            assert(t == g0.tasks@[i]);
            assert(g0.has_session(t.id.session_id));
            assert forall|kk: int| 0 <= kk < t.inputs@.len() implies g1.has_object(
                (#[trigger] t.inputs@[kk]).object,
            ) && t.inputs@[kk].object.session_id == t.id.session_id by {
                assert(g0.has_object(t.inputs@[kk].object));
            }
            assert forall|kk: int| 0 <= kk < t.outputs@.len() implies g1.has_object(
                #[trigger] t.outputs@[kk],
            ) && t.outputs@[kk].session_id == t.id.session_id by {
                assert(g0.has_object(t.outputs@[kk]));
            }
            match t.scheduled {
                Some(x) => {
                    assert(g0.has_worker(x));
                },
                None => {},
            }
            match t.assigned {
                Some(x) => {
                    assert(g0.has_worker(x));
                },
                None => {},
            }
        }
        assert(refs_closed(g1));
        assert forall|i: int, tid: TaskId|
            0 <= i < g1.sessions@.len() implies ((#[trigger] g1.sessions@[i].tasks@.contains(tid))
            <==> (g1.has_task(tid) && tid.session_id == g1.sessions@[i].id)) by {
            assert(g0.sessions@[i].tasks@.contains(tid) <==> (g0.has_task(tid) && tid.session_id
                == g0.sessions@[i].id));
            assert(g1.sessions@[i].tasks == g0.sessions@[i].tasks);
            assert(g1.sessions@[i].id == g0.sessions@[i].id);
        }
        assert forall|i: int, oid: DataObjectId|
            0 <= i < g1.sessions@.len() implies ((#[trigger] g1.sessions@[i].objects@.contains(
            oid,
        )) <==> (g1.has_object(oid) && oid.session_id == g1.sessions@[i].id)) by {
            assert(g0.sessions@[i].objects@.contains(oid) <==> (g0.has_object(oid)
                && oid.session_id == g0.sessions@[i].id));
            assert(g1.sessions@[i].id == g0.sessions@[i].id);
            if i == si {
                if oid != id {
                    assert(s1.objects@.contains(oid) <==> s0.objects@.contains(oid));
                }
            } else {
                assert(g1.sessions@[i].objects == g0.sessions@[i].objects);
                if oid == id {
                    assert(!g0.has_object(id));
                    assert(!g0.sessions@[i].objects@.contains(id));
                    assert(id.session_id == s0.id);
                    assert(g0.sessions@[i].id != s0.id);
                }
            }
        }
        assert forall|i: int| 0 <= i < g1.sessions@.len() implies g1.has_client(
            (#[trigger] g1.sessions@[i]).client,
        ) by {
            assert(g0.has_client(g0.sessions@[i].client));
            assert(g1.sessions@[i].client == g0.sessions@[i].client);
        }
        assert forall|i: int, sid2: crate::ids::SessionId|
            0 <= i < g1.clients@.len() implies ((#[trigger] g1.clients@[i].sessions@.contains(
            sid2,
        )) <==> (g1.has_session(sid2) && g1.session_at(sid2).client == g1.clients@[i].id)) by {
            assert(g0.clients@[i].sessions@.contains(sid2) <==> (g0.has_session(sid2)
                && g0.session_at(sid2).client == g0.clients@[i].id));
            if g0.has_session(sid2) {
                assert(g1.session_at(sid2).client == g0.session_at(sid2).client);
            }
        }
        assert(containment_ok(g1));
        assert forall|i: int, j: int|
            0 <= i < g1.objects@.len() && 0 <= j < g1.workers@.len() implies {
            let o = #[trigger] g1.objects@[i];
            let w2 = #[trigger] g1.workers@[j];
            &&& (o.assigned@.contains(w2.id) <==> w2.assigned_objects@.contains(o.id))
            &&& (o.located@.contains(w2.id) <==> w2.located_objects@.contains(o.id))
            &&& (o.scheduled@.contains(w2.id) <==> w2.scheduled_objects@.contains(o.id))
        } by {
            let o = g1.objects@[i];
            let w2 = g1.workers@[j];
            if i < n {
                assert(g0.objects@[i].assigned@.contains(w2.id) <==> w2.assigned_objects@.contains(
                    g0.objects@[i].id,
                ));
                assert(g0.objects@[i].located@.contains(w2.id) <==> w2.located_objects@.contains(
                    g0.objects@[i].id,
                ));
                assert(g0.objects@[i].scheduled@.contains(w2.id)
                    <==> w2.scheduled_objects@.contains(g0.objects@[i].id));
            } else {
                if w2.assigned_objects@.contains(id) {
                    assert(g0.has_object(id));
                }
                if w2.located_objects@.contains(id) {
                    assert(g0.has_object(id));
                }
                if w2.scheduled_objects@.contains(id) {
                    assert(g0.has_object(id));
                }
            }
        }
        assert(placement_sym(g1));
        assert(assignment_sym(g1));
        assert forall|i: int| 0 <= i < g1.tasks@.len() implies task_state_ok(
            g1,
            #[trigger] g1.tasks@[i],
        ) by {
            let t = g1.tasks@[i];
            assert(task_state_ok(g0, t));
            if t.state == TaskState::Finished {
                assert forall|kk: int| 0 <= kk < t.outputs@.len() implies g1.object_at(
                    #[trigger] t.outputs@[kk],
                ).state != DataObjectState::Unfinished by {
                    assert(g0.object_at(t.outputs@[kk]).state != DataObjectState::Unfinished);
                    assert(g0.has_object(t.outputs@[kk]));
                }
            }
        }
        assert forall|i: int, kk: int|
            0 <= i < g1.tasks@.len() && 0 <= kk < g1.tasks@[i].outputs@.len() implies g1.object_at(
            #[trigger] g1.tasks@[i].outputs@[kk],
        ).producer == Some(g1.tasks@[i].id) by {
            assert(g0.object_at(g0.tasks@[i].outputs@[kk]).producer == Some(g0.tasks@[i].id));
            assert(g0.has_object(g0.tasks@[i].outputs@[kk]));
        }
        assert forall|i: int|
            0 <= i < g1.objects@.len() implies ((#[trigger] g1.objects@[i]).producer matches Some(
            tid,
        ) ==> {
            &&& g1.has_task(tid)
            &&& g1.task_at(tid).outputs@.contains(g1.objects@[i].id)
        }) by {
            let o = g1.objects@[i];
            if i < n {
                match o.producer {
                    Some(tid) => {
                        assert(g0.has_task(tid) && g0.task_at(tid).outputs@.contains(o.id));
                    },
                    None => {},
                }
            }
        }
        assert forall|i: int, j: int|
            0 <= i < g1.objects@.len() && 0 <= j < g1.tasks@.len() implies ((
        #[trigger] g1.objects@[i].consumers@.contains(g1.tasks@[j].id)) <==> (exists|kk: int|
            0 <= kk < g1.tasks@[j].inputs@.len() && (#[trigger] g1.tasks@[j].inputs@[kk]).object
                == g1.objects@[i].id)) by {
            let t = g1.tasks@[j];
            assert(t == g0.tasks@[j]);
            if i < n {
                assert(g0.objects@[i].consumers@.contains(t.id) <==> (exists|kk: int|
                    0 <= kk < t.inputs@.len() && (#[trigger] t.inputs@[kk]).object
                        == g0.objects@[i].id));
            } else {
                assert(g1.objects@[i].consumers@.len() == 0);
                if (exists|kk: int|
                    0 <= kk < t.inputs@.len() && (#[trigger] t.inputs@[kk]).object == id) {
                    let kk = choose|kk: int|
                        0 <= kk < t.inputs@.len() && (#[trigger] t.inputs@[kk]).object == id;
                    assert(g0.has_object(t.inputs@[kk].object));
                    assert(false);
                }
            }
        }
        assert(lineage_ok(g1));
        assert forall|i: int, oid: DataObjectId|
            0 <= i < g1.tasks@.len() implies ((#[trigger] g1.tasks@[i].waiting_for@.contains(oid))
            <==> ((exists|kk: int|
            0 <= kk < g1.tasks@[i].inputs@.len() && (#[trigger] g1.tasks@[i].inputs@[kk]).object
                == oid) && g1.object_at(oid).state == DataObjectState::Unfinished)) by {
            assert(g0.tasks@[i].waiting_for@.contains(oid) <==> ((exists|kk: int|
                0 <= kk < g0.tasks@[i].inputs@.len() && (#[trigger] g0.tasks@[i].inputs@[kk]).object
                    == oid) && g0.object_at(oid).state == DataObjectState::Unfinished));
            if (exists|kk: int|
                0 <= kk < g0.tasks@[i].inputs@.len() && (#[trigger] g0.tasks@[i].inputs@[kk]).object
                    == oid) {
                let kk = choose|kk: int|
                    0 <= kk < g0.tasks@[i].inputs@.len() && (
                    #[trigger] g0.tasks@[i].inputs@[kk]).object == oid;
                assert(g0.has_object(oid));
                assert(g1.object_index(oid) == g0.object_index(oid));
            }
        }
        assert(waiting_ok(g1));
        assert(sessions_ok(g1));
        assert(overbook_ok(g1));
    }
}

/// Drop the last replica of a finished object nobody is assigned, and
/// retire it in the same step: the worker forgets the replica and the
/// object turns Removed with nothing located.
pub fn drop_replica_retire(g: &mut Graph, oi: usize, wi: usize)
    requires
        wf(*old(g)),
        oi < old(g).objects@.len(),
        wi < old(g).workers@.len(),
        old(g).objects@[oi as int].state == DataObjectState::Finished,
        old(g).objects@[oi as int].assigned@.len() == 0,
        old(g).objects@[oi as int].located@.len() == 1,
        old(g).objects@[oi as int].located@[0] == old(g).workers@[wi as int].id,
    ensures
        wf(*final(g)),
        final(g).objects@ == old(g).objects@.update(oi as int, final(g).objects@[oi as int]),
        final(g).workers@ == old(g).workers@.update(wi as int, final(g).workers@[wi as int]),
        final(g).tasks == old(g).tasks,
        final(g).sessions == old(g).sessions,
        final(g).clients == old(g).clients,
        final(g).session_id_counter == old(g).session_id_counter,
        obj_core_eq_except_state(old(g).objects@[oi as int], final(g).objects@[oi as int]),
        ({
            let o1 = final(g).objects@[oi as int];
            let w1 = final(g).workers@[wi as int];
            let o0 = old(g).objects@[oi as int];
            let w0 = old(g).workers@[wi as int];
            &&& o1.state == DataObjectState::Removed
            &&& o1.located@.len() == 0
            &&& o1.assigned == o0.assigned
            &&& o1.scheduled == o0.scheduled
            &&& worker_core_eq(w0, w1)
            &&& w1.located_objects@ == w0.located_objects@.remove_value(o0.id)
            &&& w1.assigned_objects == w0.assigned_objects
            &&& w1.scheduled_objects == w0.scheduled_objects
            &&& w1.assigned_tasks == w0.assigned_tasks
            &&& w1.scheduled_ready_tasks == w0.scheduled_ready_tasks
        }),
{
    let wid = g.workers[wi].id;
    let oid = g.objects[oi].id;
    addr_remove(&mut g.objects[oi].located, wid);
    g.objects[oi].state = DataObjectState::Removed;
    oid_remove(&mut g.workers[wi].located_objects, oid);
    proof {
        let g0 = *old(g);
        let g1 = *g;
        let o0 = g0.objects@[oi as int];
        let w0 = g0.workers@[wi as int];
        assert(o0.located@.contains(w0.id)) by {
            assert(o0.located@[0] == w0.id);
        }
        lemma_set_remove(o0.located@, w0.id);
        lemma_set_remove(wpset(w0, PlacementKind::Located), o0.id);
        assert(g1.objects@ =~= g0.objects@.update(oi as int, g1.objects@[oi as int]));
        assert(g1.workers@ =~= g0.workers@.update(wi as int, g1.workers@[wi as int]));
        assert(g1.objects@[oi as int].located@.len() == 0) by {
            assert(o0.located@.no_duplicates());
            assert(g1.objects@[oi as int].located@ == o0.located@.remove_value(w0.id));
        }
        lemma_wf_after_placement_change(g0, g1, PlacementKind::Located, oi as int, wi as int);
    }
}

} // verus!
