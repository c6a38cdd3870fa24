use vstd::prelude::*;

verus! {

/// The immutable server settings: the snapshot directory, the snapshot
/// file name, and the replication target. An empty replication target
/// means the server reports the master role.
pub struct Config {
    pub dir: String,
    pub db_file_name: String,
    pub replica_of: String,
}

impl Config {
    pub fn new(dir: &str, db_file_name: &str, replica_of: &str) -> (c: Config)
        ensures
            c.dir@ == dir@,
            c.db_file_name@ == db_file_name@,
            c.replica_of@ == replica_of@,
    {
        Config {
            dir: String::from_str(dir),
            db_file_name: String::from_str(db_file_name),
            replica_of: String::from_str(replica_of),
        }
    }

    pub fn dir(&self) -> (r: &str)
        ensures
            r@ == self.dir@,
    {
        self.dir.as_str()
    }

    pub fn db_file_name(&self) -> (r: &str)
        ensures
            r@ == self.db_file_name@,
    {
        self.db_file_name.as_str()
    }

    pub fn replica_of(&self) -> (r: &str)
        ensures
            r@ == self.replica_of@,
    {
        self.replica_of.as_str()
    }
}

} // verus!
