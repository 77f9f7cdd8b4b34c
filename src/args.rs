//! Start-up options: the configuration table and the replication identity
//! they give.
use vstd::prelude::*;
use vstd::string::{StrSliceExecFns, StringSliceAdditionalSpecFns};
use rand::Rng;
use crate::decimal::{decimal, write_decimal};
use crate::handler::{RedisReplicationInfo, RedisRole};
use crate::store::{entries_insert, Config};

verus! {

/// The options the server starts with.
pub struct RedisArgs {
    /// Directory of the snapshot file.
    pub dir: Option<String>,
    /// Name of the snapshot file.
    pub dbfilename: Option<String>,
    /// Port to listen on.
    pub port: i32,
    /// `"host port"` of the master, for a replica.
    pub replicaof: Option<String>,
}

/// The configuration table that `args` give: `dir` and `dbfilename` where
/// they are set, and `port`.
pub open spec fn config_of_args(args: RedisArgs) -> Seq<(Seq<u8>, Seq<u8>)> {
    let c1 = match args.dir {
        Some(d) => entries_insert(Seq::empty(), "dir".spec_bytes(), vstd::utf8::encode_utf8(d@)),
        None => Seq::empty(),
    };
    let c2 = match args.dbfilename {
        Some(f) => entries_insert(c1, "dbfilename".spec_bytes(), vstd::utf8::encode_utf8(f@)),
        None => c1,
    };
    entries_insert(c2, "port".spec_bytes(), decimal(args.port as int))
}

pub open spec fn is_alphanumeric(b: u8) -> bool {
    (48 <= b <= 57) || (65 <= b <= 90) || (97 <= b <= 122)
}

/// Relies on rand's `Alphanumeric` distribution, sampled from `thread_rng`:
/// one byte drawn from `A-Z`, `a-z` and `0-9`.
#[verifier::external_body]
fn random_alphanumeric() -> (r: u8)
    ensures
        is_alphanumeric(r),
{
    rand::thread_rng().sample(rand::distributions::Alphanumeric)
}

/// The length of a replication id.
pub const REPLID_LEN: usize = 40;

impl RedisArgs {
    /// The configuration table for these options.
    pub fn to_config_dict(&self) -> (r: Config)
        ensures
            r.wf(),
            r@ == config_of_args(*self),
    {
        let mut result = Config::new();
        match &self.dir {
            Some(dir) => result.insert("dir".as_bytes_vec(), dir.as_str().as_bytes_vec()),
            None => {},
        }
        match &self.dbfilename {
            Some(f) => result.insert("dbfilename".as_bytes_vec(), f.as_str().as_bytes_vec()),
            None => {},
        }
        let mut port: Vec<u8> = Vec::new();
        write_decimal(self.port as i64, &mut port);
        result.insert("port".as_bytes_vec(), port);
        result
    }
}

/// The replication identity for `args`, with `draws` as the master's id:
/// a replica where `replicaof` is set; otherwise a master with that id and
/// offset 0.
pub fn replication_info_with_id(args: &RedisArgs, draws: Vec<u8>) -> (r: RedisReplicationInfo)
    ensures
        r.connected_slaves == 0,
        r.master_repl_offset == 0,
        args.replicaof is Some ==> r.role == RedisRole::Slave && r.master_replid@.len() == 0,
        args.replicaof is None ==> r.role == RedisRole::Master && r.master_replid@ == draws@,
{
    let mut info = RedisReplicationInfo::default();
    match &args.replicaof {
        Some(_) => {
            info.role = RedisRole::Slave;
        },
        None => {
            info.role = RedisRole::Master;
            info.master_replid = draws;
            info.master_repl_offset = 0;
        },
    }
    info
}

/// A fresh replication id: `REPLID_LEN` random alphanumeric bytes.
pub fn random_replid() -> (r: Vec<u8>)
    ensures
        r@.len() == REPLID_LEN,
        forall|i: int| 0 <= i < r@.len() ==> is_alphanumeric(#[trigger] r@[i]),
{
    let mut id: Vec<u8> = Vec::new();
    let mut i: usize = 0;
    while i < REPLID_LEN
        invariant
            0 <= i <= REPLID_LEN,
            id@.len() == i,
            forall|j: int| 0 <= j < i ==> is_alphanumeric(#[trigger] id@[j]),
        decreases REPLID_LEN - i,
    {
        id.push(random_alphanumeric());
        i += 1;
    }
    id
}

/// The replication identity for `args`: a replica where `replicaof` is set;
/// otherwise a master with a fresh random id of alphanumeric bytes and
/// offset 0.
pub fn replication_info_from_args(args: &RedisArgs) -> (r: RedisReplicationInfo)
    ensures
        r.connected_slaves == 0,
        r.master_repl_offset == 0,
        args.replicaof is Some ==> r.role == RedisRole::Slave,
        args.replicaof is None ==> r.role == RedisRole::Master && r.master_replid@.len() == REPLID_LEN
            && forall|i: int| 0 <= i < r.master_replid@.len() ==> is_alphanumeric(
            #[trigger] r.master_replid@[i],
        ),
{
    match &args.replicaof {
        Some(_) => replication_info_with_id(args, Vec::new()),
        None => replication_info_with_id(args, random_replid()),
    }
}

} // verus!
