use rain_core::graph::{DataObjectState, DataObjectType, Resources};
use rain_core::ids::{Address, DataObjectId};
use rain_core::state::{Action, RainError, State};
use rain_core::workdir::WorkDir;
use rain_core::text::{i32_to_dec, u64_to_dec};

fn w1() -> Address {
    Address::new(0x0a000001, 7210)
}

fn c1() -> Address {
    Address::new(0x0a000002, 40001)
}

#[test]
fn add_worker_rejects_duplicate() {
    let mut st = State::new();
    assert!(st.add_worker(w1(), Resources { cpus: 4 }).is_ok());
    assert_eq!(st.add_worker(w1(), Resources { cpus: 4 }), Err(RainError::Validation));
    assert_eq!(st.graph.workers.len(), 1);
}

#[test]
fn add_object_rejects_duplicate_id() {
    let mut st = State::new();
    st.add_client(c1()).unwrap();
    let sid = st.add_session(c1()).unwrap();
    let oid = DataObjectId::new(sid, 1);
    assert!(
        st.add_object(sid, oid, DataObjectType::Blob, true, String::new(), None, Vec::new())
            .is_ok()
    );
    let before = st.graph.objects.len();
    assert_eq!(
        st.add_object(sid, oid, DataObjectType::Blob, true, String::new(), None, Vec::new()),
        Err(RainError::Validation)
    );
    assert_eq!(st.graph.objects.len(), before);
}

#[test]
fn inline_data_objects_finish_at_once() {
    let mut st = State::new();
    st.add_client(c1()).unwrap();
    let sid = st.add_session(c1()).unwrap();
    let oid = DataObjectId::new(sid, 1);
    st.add_object(sid, oid, DataObjectType::Blob, true, String::new(), Some(b"hello".to_vec()), Vec::new())
        .unwrap();
    let o = st.object_by_id(oid).unwrap();
    assert_eq!(o.state, DataObjectState::Finished);
    assert_eq!(o.size, Some(5));
}

#[test]
fn assign_then_unassign_restores_assignment() {
    let mut st = State::new();
    st.add_worker(w1(), Resources { cpus: 4 }).unwrap();
    st.add_client(c1()).unwrap();
    let sid = st.add_session(c1()).unwrap();
    let oid = DataObjectId::new(sid, 1);
    st.add_object(sid, oid, DataObjectType::Blob, true, String::new(), Some(b"hello".to_vec()), Vec::new())
        .unwrap();
    st.assign_object(oid, w1());
    assert_eq!(st.object_by_id(oid).unwrap().assigned, vec![w1()]);
    assert!(st.worker_by_id(w1()).unwrap().assigned_objects.contains(&oid));
    st.unassign_object(oid, w1());
    assert!(st.object_by_id(oid).unwrap().assigned.is_empty());
    assert!(st.worker_by_id(w1()).unwrap().assigned_objects.is_empty());
    assert_eq!(st.outbox.len(), 2);
    match &st.outbox[0] {
        Action::AddNodes { worker, objects, tasks } => {
            assert_eq!(*worker, w1());
            assert!(tasks.is_empty());
            assert_eq!(objects.len(), 1);
            assert_eq!(objects[0].object, oid);
            assert!(objects[0].assigned);
            assert_eq!(objects[0].placement, Address::server());
        }
        _ => panic!("expected an add_nodes action"),
    }
    match &st.outbox[1] {
        Action::UnassignObjects { worker, objects } => {
            assert_eq!(*worker, w1());
            assert_eq!(objects, &vec![oid]);
        }
        _ => panic!("expected an unassign action"),
    }
}

#[test]
fn scheduler_on_empty_updates_is_a_noop() {
    let mut st = State::new();
    st.add_worker(w1(), Resources { cpus: 4 }).unwrap();
    let workers_before = st.graph.workers.len();
    let outbox_before = st.outbox.len();
    st.run_scheduler();
    assert_eq!(st.graph.workers.len(), workers_before);
    assert_eq!(st.outbox.len(), outbox_before);
    assert!(st.updates.is_empty());
}

#[test]
fn turn_reports_liveness() {
    let mut st = State::new();
    assert!(st.turn());
}

#[test]
fn unkeep_clears_the_flag() {
    let mut st = State::new();
    st.add_client(c1()).unwrap();
    let sid = st.add_session(c1()).unwrap();
    let oid = DataObjectId::new(sid, 1);
    st.add_object(sid, oid, DataObjectType::Blob, true, String::new(), Some(b"x".to_vec()), Vec::new())
        .unwrap();
    assert!(st.object_by_id(oid).unwrap().client_keep);
    st.unkeep_object(oid).unwrap();
    assert!(!st.object_by_id(oid).unwrap().client_keep);
    assert_eq!(st.unkeep_object(DataObjectId::new(sid, 9)), Err(RainError::NotFound));
}

#[test]
fn session_ids_are_minted_in_order() {
    let mut st = State::new();
    st.add_client(c1()).unwrap();
    assert_eq!(st.add_session(c1()).unwrap(), 1);
    assert_eq!(st.add_session(c1()).unwrap(), 2);
    assert_eq!(st.add_session(Address::new(9, 9)), Err(RainError::NotFound));
}

#[test]
fn workdir_paths() {
    let mut wd = WorkDir::new(String::from("/work"));
    assert_eq!(wd.subworker_listen_path(), "/work/subworkers/listen");
    assert_eq!(wd.new_path_for_dataobject(), "/work/data/0");
    assert_eq!(wd.new_path_for_dataobject(), "/work/data/1");
    assert_eq!(wd.new_id(), 2);
    assert_eq!(wd.subworker_work_dir_prefix(7), "/work/subworkers/work/7");
}

#[test]
fn decimal_rendering() {
    assert_eq!(u64_to_dec(0), "0");
    assert_eq!(u64_to_dec(1234567890), "1234567890");
    assert_eq!(u64_to_dec(u64::MAX), "18446744073709551615");
    assert_eq!(i32_to_dec(-42), "-42");
    assert_eq!(i32_to_dec(i32::MIN), "-2147483648");
}

#[test]
fn unkeep_retires_an_unneeded_object() {
    let mut st = State::new();
    st.add_worker(w1(), Resources { cpus: 4 }).unwrap();
    st.add_client(c1()).unwrap();
    let sid = st.add_session(c1()).unwrap();
    let oid = DataObjectId::new(sid, 1);
    st.add_object(sid, oid, DataObjectType::Blob, true, String::new(), Some(b"x".to_vec()), Vec::new())
        .unwrap();
    st.assign_object(oid, w1());
    st.unkeep_object(oid).unwrap();
    let o = st.object_by_id(oid).unwrap();
    assert_eq!(o.state, DataObjectState::Removed);
    assert!(o.assigned.is_empty());
    assert!(o.located.is_empty());
    assert!(!o.client_keep);
    match st.outbox.last().unwrap() {
        Action::UnassignObjects { worker, objects } => {
            assert_eq!(*worker, w1());
            assert_eq!(objects, &vec![oid]);
        }
        _ => panic!("expected an unassign action"),
    }
}
