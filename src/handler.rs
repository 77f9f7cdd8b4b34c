//! The request evaluator: replies to requests against the keyspace, the
//! configuration and the replication identity.
use vstd::prelude::*;
use vstd::string::{StrSliceExecFns, StringSliceAdditionalSpecFns};
use crate::command::{command_of, parse_command_at, Request, RedisRequest};
use crate::decimal::{decimal, write_digits};
use crate::errors::{ErrorKind, RedisError};
use crate::resp::{encode, parse_all, Resp, RespError, RespParser, RespValue};
use crate::store::{
    entries_insert, entries_map, entry_keys, has_key, store_get, unique_keys, Config, DataStore,
    Stored, ValueType,
};

verus! {

/// The replication role of this server.
#[derive(PartialEq, Eq, Structural, Clone, Copy, Debug)]
pub enum RedisRole {
    Master,
    Slave,
}

/// The replication identity, fixed for the life of the process.
#[derive(Debug)]
pub struct RedisReplicationInfo {
    pub role: RedisRole,
    pub connected_slaves: u16,
    /// ASCII alphanumeric bytes.
    pub master_replid: Vec<u8>,
    pub master_repl_offset: u32,
}

/// The replication report that `INFO` returns.
pub open spec fn report(info: RedisReplicationInfo) -> Seq<u8> {
    match info.role {
        RedisRole::Master => "role:master\nmaster_replid:".spec_bytes() + info.master_replid@
            + "\nmaster_repl_offset:".spec_bytes() + decimal(info.master_repl_offset as int)
            + "\nconnected_slaves:".spec_bytes() + decimal(info.connected_slaves as int),
        RedisRole::Slave => "role:slave".spec_bytes(),
    }
}

impl RedisReplicationInfo {
    /// The replication report: newline-separated `name:value` fields, with no
    /// trailing newline.
    pub fn report(&self) -> (r: Vec<u8>)
        ensures
            r@ == report(*self),
    {
        match self.role {
            RedisRole::Master => {
                let mut out = "role:master\nmaster_replid:".as_bytes_vec();
                append(&mut out, &self.master_replid);
                append(&mut out, &"\nmaster_repl_offset:".as_bytes_vec());
                write_digits(self.master_repl_offset as u64, &mut out);
                append(&mut out, &"\nconnected_slaves:".as_bytes_vec());
                write_digits(self.connected_slaves as u64, &mut out);
                out
            },
            RedisRole::Slave => "role:slave".as_bytes_vec(),
        }
    }
}

impl Default for RedisReplicationInfo {
    fn default() -> (r: Self)
        ensures
            r.role == RedisRole::Master,
            r.connected_slaves == 0,
            r.master_replid@.len() == 0,
            r.master_repl_offset == 0,
    {
        RedisReplicationInfo {
            role: RedisRole::Master,
            connected_slaves: 0,
            master_replid: Vec::new(),
            master_repl_offset: 0,
        }
    }
}

fn append(out: &mut Vec<u8>, s: &Vec<u8>)
    ensures
        final(out)@ == old(out)@ + s@,
{
    let mut i: usize = 0;
    while i < s.len()
        invariant
            0 <= i <= s@.len(),
            out@ == old(out)@ + s@.subrange(0, i as int),
        decreases s@.len() - i,
    {
        out.push(s[i]);
        i += 1;
        proof {
            assert(out@ =~= old(out)@ + s@.subrange(0, i as int));
        }
    }
    proof {
        assert(s@.subrange(0, i as int) =~= s@);
    }
}

pub open spec fn bulk_all(ks: Seq<Seq<u8>>) -> Seq<Resp> {
    Seq::new(ks.len(), |i: int| Resp::Bulk(ks[i]))
}

/// The reply items of `CONFIG GET params`: each parameter that the
/// configuration holds, followed by its value, in the order asked.
pub open spec fn config_reply(params: Seq<Seq<u8>>, cfg: Seq<(Seq<u8>, Seq<u8>)>) -> Seq<Seq<u8>>
    decreases params.len(),
{
    if params.len() == 0 {
        Seq::empty()
    } else {
        let p = params.last();
        let before = config_reply(params.drop_last(), cfg);
        if has_key(cfg, p) {
            before + seq![p, entries_map(cfg)[p]]
        } else {
            before
        }
    }
}

pub open spec fn text_pong() -> Seq<u8> {
    seq![80u8, 79u8, 78u8, 71u8]
}

pub open spec fn text_ok() -> Seq<u8> {
    seq![79u8, 75u8]
}

pub open spec fn text_star() -> Seq<u8> {
    seq![42u8]
}

pub open spec fn text_replication() -> Seq<u8> {
    "replication".spec_bytes()
}

/// The reply to `req` and the keyspace after it, at time `now`.
pub open spec fn reply_of(
    req: Request,
    store: Seq<(Seq<u8>, Stored)>,
    cfg: Seq<(Seq<u8>, Seq<u8>)>,
    info: RedisReplicationInfo,
    now: int,
) -> (Result<Resp, ErrorKind>, Seq<(Seq<u8>, Stored)>) {
    match req {
        Request::Ping => (Ok(Resp::Simple(text_pong())), store),
        Request::Echo(x) => (Ok(Resp::Bulk(x)), store),
        Request::SetValue { key, value, expiration } => (
            Ok(Resp::Simple(text_ok())),
            entries_insert(store, key, Stored { value, expiration }),
        ),
        Request::Get(k) => {
            let (v, after) = store_get(store, k, now);
            (
                Ok(
                    match v {
                        Some(sv) => Resp::Bulk(sv.value),
                        None => Resp::NullBulk,
                    },
                ),
                after,
            )
        },
        Request::ConfigGet(params) => if params.len() == 0 {
            (Ok(Resp::NullArray), store)
        } else {
            (Ok(Resp::Array(bulk_all(config_reply(params, cfg)))), store)
        },
        Request::Keys(pattern) => if pattern == text_star() {
            (Ok(Resp::Array(bulk_all(entry_keys(store)))), store)
        } else {
            (Err(ErrorKind::UnknownRequest(pattern)), store)
        },
        Request::Info(section) => match section {
            None => (Ok(Resp::Bulk(report(info))), store),
            Some(name) => if name == text_replication() {
                (Ok(Resp::Bulk(report(info))), store)
            } else {
                (Ok(Resp::NullBulk), store)
            },
        },
    }
}

/// `s` with CR and LF replaced by spaces, so that it fits in a simple error.
pub open spec fn printable(s: Seq<u8>) -> Seq<u8> {
    Seq::new(s.len(), |i: int| if s[i] == 13u8 || s[i] == 10u8 { 32u8 } else { s[i] })
}

fn append_printable(out: &mut Vec<u8>, s: &Vec<u8>)
    ensures
        final(out)@ == old(out)@ + printable(s@),
{
    let mut i: usize = 0;
    while i < s.len()
        invariant
            0 <= i <= s@.len(),
            out@ == old(out)@ + printable(s@.subrange(0, i as int)),
        decreases s@.len() - i,
    {
        let b = s[i];
        out.push(if b == 13u8 || b == 10u8 { 32u8 } else { b });
        i += 1;
        proof {
            assert(out@ =~= old(out)@ + printable(s@.subrange(0, i as int)));
        }
    }
    proof {
        assert(s@.subrange(0, i as int) =~= s@);
    }
}

/// The payload of the error reply for an error of kind `k`: its kind, and
/// the offending bytes, count, position, byte or size.
pub open spec fn error_text(k: ErrorKind) -> Seq<u8> {
    match k {
        ErrorKind::Resp(e) => "RespParseError ".spec_bytes() + match e {
            RespError::UnexpectedEnd => "UnexpectedEnd".spec_bytes(),
            RespError::UnknownStartingByte(b) => "UnknownStartingByte ".spec_bytes() + decimal(
                b as int,
            ),
            RespError::IntParseFailure(_) => "IntParseFailure".spec_bytes(),
            RespError::Utf8Failure => "Utf8Failure".spec_bytes(),
            RespError::BadBulkStringSize(n) => "BadBulkStringSize ".spec_bytes() + decimal(
                n as int,
            ),
            RespError::BadArraySize(n) => "BadArraySize ".spec_bytes() + decimal(n as int),
        },
        ErrorKind::UnknownRequest(what) => "UnknownRequest ".spec_bytes() + printable(what),
        ErrorKind::UnexpectedNumberOfArgs(n) => "UnexpectedNumberOfArgs ".spec_bytes() + decimal(n as int),
        ErrorKind::UnexpectedArgumentType(i) => "UnexpectedArgumentType at ".spec_bytes() + decimal(i as int),
    }
}

/// The payload of the error reply for `e`: its kind, and the offending byte
/// or size where there is one.
pub fn error_message(e: &RedisError) -> (r: Vec<u8>)
    ensures
        r@ == error_text(e.kind()),
{
    match e {
        RedisError::RespParseError(inner) => {
            let mut out = "RespParseError ".as_bytes_vec();
            match inner {
                RespError::UnexpectedEnd => append(&mut out, &"UnexpectedEnd".as_bytes_vec()),
                RespError::UnknownStartingByte(b) => {
                    append(&mut out, &"UnknownStartingByte ".as_bytes_vec());
                    crate::decimal::write_decimal(*b as i64, &mut out);
                },
                RespError::IntParseFailure(_) => append(&mut out, &"IntParseFailure".as_bytes_vec()),
                RespError::Utf8Failure => append(&mut out, &"Utf8Failure".as_bytes_vec()),
                RespError::BadBulkStringSize(n) => {
                    append(&mut out, &"BadBulkStringSize ".as_bytes_vec());
                    crate::decimal::write_decimal(*n, &mut out);
                },
                RespError::BadArraySize(n) => {
                    append(&mut out, &"BadArraySize ".as_bytes_vec());
                    crate::decimal::write_decimal(*n, &mut out);
                },
            }
            proof {
                assert(out@ =~= error_text(e.kind()));
            }
            out
        },
        RedisError::UnknownRequest(what) => {
            let mut out = "UnknownRequest ".as_bytes_vec();
            append_printable(&mut out, what);
            out
        },
        RedisError::UnexpectedNumberOfArgs(n) => {
            let mut out = "UnexpectedNumberOfArgs ".as_bytes_vec();
            write_digits(*n as u64, &mut out);
            out
        },
        RedisError::UnexpectedArgumentType(i) => {
            let mut out = "UnexpectedArgumentType at ".as_bytes_vec();
            write_digits(*i as u64, &mut out);
            out
        },
    }
}

/// An `Array` of `BulkString`s, one for each of `items`.
fn bulk_array<'x>(items: &'x Vec<Vec<u8>>) -> (r: RespValue<'x>)
    ensures
        r@ == Resp::Array(bulk_all(Seq::new(items@.len(), |i: int| items@[i]@))),
{
    let mut vals: Vec<RespValue<'x>> = Vec::new();
    let mut i: usize = 0;
    while i < items.len()
        invariant
            0 <= i <= items@.len(),
            vals@.len() == i,
            forall|j: int| 0 <= j < i ==> (#[trigger] vals@[j])@ == Resp::Bulk(items@[j]@),
        decreases items@.len() - i,
    {
        vals.push(RespValue::BulkString(items[i].as_slice()));
        i += 1;
    }
    let r = RespValue::Array(vals);
    proof {
        assert(r@->Array_0 =~= bulk_all(Seq::new(items@.len(), |i: int| items@[i]@)));
    }
    r
}


/// The output of one RESP value of a batch, and the keyspace after it.
pub open spec fn step_of(
    v: Resp,
    store: Seq<(Seq<u8>, Stored)>,
    cfg: Seq<(Seq<u8>, Seq<u8>)>,
    info: RedisReplicationInfo,
    now: int,
) -> (Seq<u8>, Seq<(Seq<u8>, Stored)>) {
    match command_of(v, now) {
        Err(k) => (encode(Resp::Error(error_text(k))), store),
        Ok(q) => {
            let (rep, after) = reply_of(q, store, cfg, info, now);
            match rep {
                Ok(r) => (encode(r), after),
                Err(k) => (encode(Resp::Error(error_text(k))), after),
            }
        },
    }
}

/// The output of a batch of RESP values, each answered in order, and the
/// keyspace after them.
pub open spec fn session_of(
    vs: Seq<Resp>,
    store: Seq<(Seq<u8>, Stored)>,
    cfg: Seq<(Seq<u8>, Seq<u8>)>,
    info: RedisReplicationInfo,
    now: int,
) -> (Seq<u8>, Seq<(Seq<u8>, Stored)>)
    decreases vs.len(),
{
    if vs.len() == 0 {
        (Seq::empty(), store)
    } else {
        let (out, mid) = session_of(vs.drop_last(), store, cfg, info, now);
        let (more, after) = step_of(vs.last(), mid, cfg, info, now);
        (out + more, after)
    }
}

/// After `SET k v`, a `GET k` at any time replies with `v`.
pub proof fn lemma_set_then_get(
    store: Seq<(Seq<u8>, Stored)>,
    cfg: Seq<(Seq<u8>, Seq<u8>)>,
    info: RedisReplicationInfo,
    k: Seq<u8>,
    v: Seq<u8>,
    set_time: int,
    get_time: int,
)
    requires
        unique_keys(store),
    ensures
        ({
            let (set_reply, after_set) = reply_of(
                Request::SetValue { key: k, value: v, expiration: None },
                store,
                cfg,
                info,
                set_time,
            );
            let (get_reply, _) = reply_of(Request::Get(k), after_set, cfg, info, get_time);
            &&& set_reply == Ok::<Resp, ErrorKind>(Resp::Simple(text_ok()))
            &&& get_reply == Ok::<Resp, ErrorKind>(Resp::Bulk(v))
        }),
{
    crate::store::lemma_insert_unique(store, k, Stored { value: v, expiration: None });
}

/// After `SET k v` with a deadline `d` milliseconds after `set_time`, a
/// `GET k` later than that deadline replies null, and `KEYS *` no longer
/// lists `k`.
pub proof fn lemma_set_px_expires(
    store: Seq<(Seq<u8>, Stored)>,
    cfg: Seq<(Seq<u8>, Seq<u8>)>,
    info: RedisReplicationInfo,
    k: Seq<u8>,
    v: Seq<u8>,
    d: int,
    set_time: int,
    get_time: int,
    keys_time: int,
)
    requires
        unique_keys(store),
        0 <= d,
        get_time > set_time + d,
    ensures
        ({
            let (_, after_set) = reply_of(
                Request::SetValue { key: k, value: v, expiration: Some(set_time + d) },
                store,
                cfg,
                info,
                set_time,
            );
            let (get_reply, after_get) = reply_of(Request::Get(k), after_set, cfg, info, get_time);
            let (keys_reply, _) = reply_of(Request::Keys(text_star()), after_get, cfg, info, keys_time);
            &&& get_reply == Ok::<Resp, ErrorKind>(Resp::NullBulk)
            &&& keys_reply matches Ok(Resp::Array(ks)) && forall|i: int|
                0 <= i < ks.len() ==> #[trigger] ks[i] != Resp::Bulk(k)
        }),
{
    let stored = Stored { value: v, expiration: Some(set_time + d) };
    crate::store::lemma_insert_unique(store, k, stored);
    let after_set = entries_insert(store, k, stored);
    crate::store::lemma_remove_unique(after_set, k);
    let after_get = crate::store::entries_remove(after_set, k);
    assert forall|i: int| 0 <= i < after_get.len() implies #[trigger] after_get[i].0 != k by {
        if after_get[i].0 == k {
            assert(has_key(after_get, k));
        }
    }
}

/// The server state that requests read and write.
#[derive(Debug)]
pub struct RedisHandler {
    pub data: DataStore,
    pub replication_info: RedisReplicationInfo,
    pub config: Config,
}

impl Default for RedisHandler {
    fn default() -> (r: Self)
        ensures
            r.wf(),
            r.data@.len() == 0,
            r.config@.len() == 0,
            r.replication_info.role == RedisRole::Master,
    {
        RedisHandler::new()
    }
}

impl RedisHandler {
    pub open spec fn wf(&self) -> bool {
        self.data.wf() && self.config.wf()
    }

    /// A handler with no keys, no configuration, and the default replication
    /// identity.
    pub fn new() -> (r: Self)
        ensures
            r.wf(),
            r.data@.len() == 0,
            r.config@.len() == 0,
            r.replication_info.role == RedisRole::Master,
    {
        RedisHandler {
            data: DataStore::new(),
            replication_info: RedisReplicationInfo::default(),
            config: Config::new(),
        }
    }

    pub fn new_with_contents(
        config: Config,
        replication_info: RedisReplicationInfo,
        data: DataStore,
    ) -> (r: Self)
        requires
            config.wf(),
            data.wf(),
        ensures
            r.wf(),
            r.data == data,
            r.config == config,
            r.replication_info == replication_info,
    {
        RedisHandler { data, replication_info, config }
    }

    /// Answers `request` at time `now`, appending the reply to `out`. An
    /// error is returned, and nothing written, for `KEYS` with a pattern
    /// other than `*`.
    pub fn handle_request(&mut self, request: &RedisRequest, now: u64, out: &mut Vec<u8>) -> (r:
        Result<(), RedisError>)
        requires
            old(self).wf(),
        ensures
            final(self).wf(),
            final(self).config == old(self).config,
            final(self).replication_info == old(self).replication_info,
            ({
                let (rep, after) = reply_of(
                    request@,
                    old(self).data@,
                    old(self).config@,
                    old(self).replication_info,
                    now as int,
                );
                &&& final(self).data@ == after
                &&& match (r, rep) {
                    (Ok(_), Ok(v)) => final(out)@ == old(out)@ + encode(v),
                    (Err(e), Err(k)) => e.kind() == k && final(out)@ == old(out)@,
                    _ => false,
                }
            }),
    {
        match request {
            RedisRequest::Ping => {
                let pong: [u8; 4] = [80u8, 79u8, 78u8, 71u8];
                RespValue::SimpleString(&pong).write(out);
                assert(pong@ == text_pong());
            },
            RedisRequest::Echo(contents) => {
                RespValue::BulkString(*contents).write(out);
            },
            RedisRequest::SetValue { key, value, expiration } => {
                self.data.insert(
                    vstd::slice::slice_to_vec(*key),
                    ValueType::with_expiration(vstd::slice::slice_to_vec(*value), *expiration),
                );
                let ok: [u8; 2] = [79u8, 75u8];
                RespValue::SimpleString(&ok).write(out);
                assert(ok@ == text_ok());
            },
            RedisRequest::Get(key) => {
                // The value is copied out of the keyspace before the reply is
                // written.
                match self.data.get(*key, now) {
                    Some(v) => {
                        RespValue::BulkString(v.value.as_slice()).write(out);
                    },
                    None => {
                        RespValue::NullBulkString.write(out);
                    },
                }
            },
            RedisRequest::ConfigGet(params) => {
                if params.len() == 0 {
                    RespValue::NullArray.write(out);
                } else {
                    let mut values: Vec<Vec<u8>> = Vec::new();
                    let mut i: usize = 0;
                    while i < params.len()
                        invariant
                            0 <= i <= params@.len(),
                            self.config.wf(),
                            Seq::new(values@.len(), |j: int| values@[j]@) == config_reply(
                                Seq::new(i as nat, |j: int| params@[j]@),
                                self.config@,
                            ),
                        decreases params@.len() - i,
                    {
                        let ghost before = Seq::new(values@.len(), |j: int| values@[j]@);
                        let ghost ps = Seq::new((i + 1) as nat, |j: int| params@[j]@);
                        proof {
                            assert(ps.drop_last() =~= Seq::new(i as nat, |j: int| params@[j]@));
                        }
                        match self.config.get(params[i]) {
                            Some(v) => {
                                values.push(vstd::slice::slice_to_vec(params[i]));
                                values.push(vstd::slice::slice_to_vec(v.as_slice()));
                                proof {
                                    assert(crate::store::entries_map(self.config@).contains_key(params@[i as int]@));
                                    assert(Seq::new(values@.len(), |j: int| values@[j]@) =~= before
                                        + seq![params@[i as int]@, entries_map(self.config@)[params@[i as int]@]]);
                                }
                            },
                            None => {},
                        }
                        i += 1;
                    }
                    proof {
                        assert(Seq::new(i as nat, |j: int| params@[j]@) =~= request@->ConfigGet_0);
                    }
                    bulk_array(&values).write(out);
                }
            },
            RedisRequest::Keys(pattern) => {
                let star: [u8; 1] = [42u8];
                assert(star@ == text_star());
                if !crate::resp::bytes_equal(*pattern, &star) {
                    return Err(RedisError::unknown_name(*pattern));
                }
                let keys = self.data.keys();
                proof {
                    assert(Seq::new(keys@.len(), |i: int| keys@[i]@) =~= entry_keys(self.data@));
                }
                bulk_array(&keys).write(out);
            },
            RedisRequest::Info(section) => {
                let wanted = match section {
                    None => true,
                    Some(name) => {
                        let replication = "replication".as_bytes_vec();
                        crate::resp::bytes_equal(*name, replication.as_slice())
                    },
                };
                if wanted {
                    let report = self.replication_info.report();
                    RespValue::BulkString(report.as_slice()).write(out);
                } else {
                    RespValue::NullBulkString.write(out);
                }
            },
        }
        Ok(())
    }

    /// Answers one buffer of input at time `now`, returning the bytes to send
    /// back. Input that is not a sequence of RESP values gets one error
    /// reply. Otherwise each value gets one reply, in order; a value that is
    /// not a request, or a request that fails, gets an error reply.
    pub fn handle_input(&mut self, input: &[u8], now: u64) -> (r: Vec<u8>)
        requires
            old(self).wf(),
        ensures
            final(self).wf(),
            final(self).config == old(self).config,
            final(self).replication_info == old(self).replication_info,
            match parse_all(input@) {
                Err(e) => r@ == encode(Resp::Error(error_text(ErrorKind::Resp(e))))
                    && final(self).data@ == old(self).data@,
                Ok(vs) => (r@, final(self).data@) == session_of(
                    vs,
                    old(self).data@,
                    old(self).config@,
                    old(self).replication_info,
                    now as int,
                ),
            },
    {
        let mut out: Vec<u8> = Vec::new();
        let parser = RespParser::new();
        let values = match parser.get_values(input) {
            Ok(vs) => vs,
            Err(e) => {
                let msg = error_message(&RedisError::RespParseError(e));
                RespValue::SimpleError(msg.as_slice()).write(&mut out);
                proof {
                    assert(out@ =~= encode(Resp::Error(error_text(ErrorKind::Resp(e)))));
                }
                return out;
            },
        };
        let ghost vs = crate::resp::items_of(values@);
        proof {
            assert(vs.take(0) =~= Seq::<Resp>::empty());
            assert(out@ =~= Seq::<u8>::empty());
        }
        let mut i: usize = 0;
        while i < values.len()
            invariant
                0 <= i <= values@.len(),
                self.wf(),
                self.config == old(self).config,
                self.replication_info == old(self).replication_info,
                vs == crate::resp::items_of(values@),
                (out@, self.data@) == session_of(
                    vs.take(i as int),
                    old(self).data@,
                    old(self).config@,
                    old(self).replication_info,
                    now as int,
                ),
            decreases values@.len() - i,
        {
            proof {
                assert(vs.take(i + 1).drop_last() =~= vs.take(i as int));
                assert(vs.take(i + 1).last() == values@[i as int]@);
            }
            match parse_command_at(&values[i], now) {
                Ok(request) => {
                    match self.handle_request(&request, now, &mut out) {
                        Ok(()) => {},
                        Err(e) => {
                            let msg = error_message(&e);
                            RespValue::SimpleError(msg.as_slice()).write(&mut out);
                        },
                    }
                },
                Err(e) => {
                    let msg = error_message(&e);
                    RespValue::SimpleError(msg.as_slice()).write(&mut out);
                },
            }
            i += 1;
        }
        proof {
            assert(vs.take(i as int) =~= vs);
        }
        out
    }
}

} // verus!
