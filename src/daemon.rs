//! A Unix daemon's configuration: where it writes its process id and which
//! directory it works in.
use vstd::prelude::*;

verus! {

/// A Unix daemon process description.
pub struct Daemon {
    /// Path of the file that receives the daemon's process id.
    pub pid_file: String,
    /// Working directory of the daemon.
    pub work_dir: String,
}

impl Daemon {
    /// A daemon writing its process id to `pid_file` and working in `work_dir`.
    pub fn new(pid_file: String, work_dir: String) -> (r: Daemon)
        ensures
            r.pid_file == pid_file,
            r.work_dir == work_dir,
    {
        Daemon { pid_file, work_dir }
    }
}

} // verus!
