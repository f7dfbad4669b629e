//! Layout of a worker's working directory: the fixed sub-paths and the
//! fresh names handed out for data objects and per-task scratch space.
//!
//! The directories themselves are created by the process around the
//! library; this module only decides the names.

use vstd::prelude::*;
use vstd::string::StringExecFns;
use crate::ids::TaskId;
use crate::text::{dec_string, i32_to_dec, u64_to_dec};

verus! {

/// A worker's working directory, with the counter that names new files.
pub struct WorkDir {
    pub path: String,
    pub id_counter: u64,
}

impl WorkDir {
    pub fn new(path: String) -> (r: WorkDir)
        ensures
            r.path@ == path@,
            r.id_counter == 0,
    {
        WorkDir { path, id_counter: 0 }
    }

    /// Path of the socket on which the worker listens for subworkers.
    pub fn subworker_listen_path(&self) -> (r: String)
        ensures
            r@ == self.path@ + "/subworkers/listen"@,
    {
            let mut s = self.path.clone();
        s.append("/subworkers/listen");
        s
    }

    /// Directory prefix for one subworker's scratch space.
    pub fn subworker_work_dir_prefix(&self, id: u64) -> (r: String)
        ensures
            r@ == self.path@ + "/subworkers/work/"@ + dec_string(id as nat),
    {
            let mut s = self.path.clone();
        s.append("/subworkers/work/");
        s.append(u64_to_dec(id).as_str());
        s
    }

    /// Directory prefix for one task's temporary space, named after the
    /// task's session and local id.
    pub fn task_temp_dir_prefix(&self, task_id: TaskId) -> (r: String)
        ensures
            task_id.session_id >= 0 && task_id.id >= 0 ==> r@ == self.path@ + "/tasks/"@
                + dec_string(task_id.session_id as nat) + "-"@ + dec_string(task_id.id as nat),
    {
            let mut s = self.path.clone();
        s.append("/tasks/");
        s.append(i32_to_dec(task_id.session_id).as_str());
        s.append("-");
        s.append(i32_to_dec(task_id.id).as_str());
        s
    }

    /// Hand out the next fresh number.
    pub fn new_id(&mut self) -> (r: u64)
        requires
            old(self).id_counter < u64::MAX,
        ensures
            r == old(self).id_counter,
            final(self).id_counter == old(self).id_counter + 1,
            final(self).path == old(self).path,
    {
        let value = self.id_counter;
        self.id_counter = self.id_counter + 1;
        value
    }

    /// A fresh path for a new data object's bytes.
    pub fn new_path_for_dataobject(&mut self) -> (r: String)
        requires
            old(self).id_counter < u64::MAX,
        ensures
            r@ == old(self).path@ + "/data/"@ + dec_string(old(self).id_counter as nat),
            final(self).id_counter == old(self).id_counter + 1,
            final(self).path == old(self).path,
    {
            let id = self.new_id();
        let mut s = self.path.clone();
        s.append("/data/");
        s.append(u64_to_dec(id).as_str());
        s
    }
}

} // verus!
