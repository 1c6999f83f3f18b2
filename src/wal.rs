//! Where the contingency log keeps the job creation requests it records.
use vstd::prelude::*;
use crate::text::{decimal, lemma_decimal_injective, push_decimal};

verus! {

/// Directories the contingency log is written under.
#[derive(Debug)]
pub struct SysPaths {
    /// The current directory.
    pub dir: String,
    /// The directory of the running executable.
    pub exe: String,
}

/// The directory of queue `queue`'s records under `exe`.
pub open spec fn wal_dir_of(exe: Seq<char>, queue: Seq<char>) -> Seq<char> {
    exe + "/queues/"@ + queue
}

/// The file of the record written at `ts` (Unix milliseconds).
pub open spec fn wal_path_of(exe: Seq<char>, queue: Seq<char>, ts: u64) -> Seq<char> {
    wal_dir_of(exe, queue) + "/"@ + decimal(ts as nat) + ".json"@
}

/// The directory that holds queue `queue`'s records.
pub fn wal_dir(paths: &SysPaths, queue: &str) -> (r: String)
    ensures
        r@ == wal_dir_of(paths.exe@, queue@),
{
    let mut s = paths.exe.clone();
    s.append("/queues/");
    s.append(queue);
    s
}

/// The file that holds the record of queue `queue` written at `ts`.
pub fn wal_path(paths: &SysPaths, queue: &str, ts: u64) -> (r: String)
    ensures
        r@ == wal_path_of(paths.exe@, queue@, ts),
{
    let mut s = wal_dir(paths, queue);
    s.append("/");
    push_decimal(&mut s, ts);
    s.append(".json");
    s
}

/// Records written at different instants go to different files, so removing
/// one record's file leaves every other record in place.
pub proof fn lemma_wal_paths_distinct(exe: Seq<char>, queue: Seq<char>, t1: u64, t2: u64)
    requires
        t1 != t2,
    ensures
        wal_path_of(exe, queue, t1) != wal_path_of(exe, queue, t2),
{
    let p = wal_dir_of(exe, queue) + "/"@;
    let e = ".json"@;
    if wal_path_of(exe, queue, t1) == wal_path_of(exe, queue, t2) {
        let a = wal_path_of(exe, queue, t1);
        let b = wal_path_of(exe, queue, t2);
        assert(a =~= p + decimal(t1 as nat) + e);
        assert(b =~= p + decimal(t2 as nat) + e);
        let n1 = decimal(t1 as nat).len();
        let n2 = decimal(t2 as nat).len();
        assert(a.len() == p.len() + n1 + e.len());
        assert(b.len() == p.len() + n2 + e.len());
        assert(decimal(t1 as nat) =~= a.subrange(p.len() as int, (p.len() + n1) as int));
        assert(decimal(t2 as nat) =~= b.subrange(p.len() as int, (p.len() + n2) as int));
        lemma_decimal_injective(t1 as nat, t2 as nat);
    }
}

} // verus!
