//! Requests: parsed from RESP arrays whose first element names a command.
use vstd::prelude::*;
use vstd::string::StringSliceAdditionalSpecFns;
use crate::clock::now_millis;
use crate::decimal::IntError;
use crate::errors::{ErrorKind, RedisError};
use crate::resp::{bytes_equal, integer_of, parse_all, parse_integer, Resp, RespError, RespParser, RespValue};

verus! {

/// A request, borrowing its arguments from the input buffer.
#[derive(PartialEq, Debug)]
pub enum RedisRequest<'a> {
    Ping,
    Echo(&'a [u8]),
    SetValue {
        key: &'a [u8],
        value: &'a [u8],
        /// Absolute deadline, in milliseconds since the UNIX epoch.
        expiration: Option<u64>,
    },
    ConfigGet(Vec<&'a [u8]>),
    Get(&'a [u8]),
    Keys(&'a [u8]),
    Info(Option<&'a [u8]>),
}

/// The mathematical model of a request.
pub enum Request {
    Ping,
    Echo(Seq<u8>),
    SetValue { key: Seq<u8>, value: Seq<u8>, expiration: Option<int> },
    ConfigGet(Seq<Seq<u8>>),
    Get(Seq<u8>),
    Keys(Seq<u8>),
    Info(Option<Seq<u8>>),
}

impl<'a> View for RedisRequest<'a> {
    type V = Request;

    open spec fn view(&self) -> Request {
        match self {
            RedisRequest::Ping => Request::Ping,
            RedisRequest::Echo(x) => Request::Echo(x@),
            RedisRequest::SetValue { key, value, expiration } => Request::SetValue {
                key: key@,
                value: value@,
                expiration: match expiration {
                    Some(d) => Some(*d as int),
                    None => None,
                },
            },
            RedisRequest::ConfigGet(params) => Request::ConfigGet(
                Seq::new(params.len() as nat, |i: int| params[i]@),
            ),
            RedisRequest::Get(k) => Request::Get(k@),
            RedisRequest::Keys(p) => Request::Keys(p@),
            RedisRequest::Info(s) => Request::Info(
                match s {
                    Some(x) => Some(x@),
                    None => None,
                },
            ),
        }
    }
}

/// ASCII upper case of one byte.
pub open spec fn upper(b: u8) -> u8 {
    if 97 <= b <= 122 {
        (b - 32) as u8
    } else {
        b
    }
}

pub open spec fn upper_seq(s: Seq<u8>) -> Seq<u8> {
    Seq::new(s.len(), |i: int| upper(s[i]))
}

pub open spec fn name_ping() -> Seq<u8> {
    seq![80u8, 73u8, 78u8, 71u8]
}

pub open spec fn name_echo() -> Seq<u8> {
    seq![69u8, 67u8, 72u8, 79u8]
}

pub open spec fn name_set() -> Seq<u8> {
    seq![83u8, 69u8, 84u8]
}

pub open spec fn name_get() -> Seq<u8> {
    seq![71u8, 69u8, 84u8]
}

pub open spec fn name_config() -> Seq<u8> {
    seq![67u8, 79u8, 78u8, 70u8, 73u8, 71u8]
}

pub open spec fn name_keys() -> Seq<u8> {
    seq![75u8, 69u8, 89u8, 83u8]
}

pub open spec fn name_info() -> Seq<u8> {
    seq![73u8, 78u8, 70u8, 79u8]
}

pub open spec fn name_px() -> Seq<u8> {
    seq![80u8, 88u8]
}

pub open spec fn ping_of(args: Seq<Resp>) -> Result<Request, ErrorKind> {
    if args.len() != 0 {
        Err(ErrorKind::UnexpectedNumberOfArgs(args.len()))
    } else {
        Ok(Request::Ping)
    }
}

/// The one bulk-string argument of ECHO, GET and KEYS.
pub open spec fn single_bulk(args: Seq<Resp>) -> Result<Seq<u8>, ErrorKind> {
    if args.len() != 1 {
        Err(ErrorKind::UnexpectedNumberOfArgs(args.len()))
    } else {
        match args[0] {
            Resp::Bulk(x) => Ok(x),
            _ => Err(ErrorKind::UnexpectedArgumentType(0)),
        }
    }
}

pub open spec fn info_of(args: Seq<Resp>) -> Result<Request, ErrorKind> {
    if args.len() == 0 {
        Ok(Request::Info(None))
    } else if args.len() == 1 {
        match args[0] {
            Resp::Bulk(x) => Ok(Request::Info(Some(x))),
            _ => Err(ErrorKind::UnexpectedArgumentType(0)),
        }
    } else {
        Err(ErrorKind::UnexpectedNumberOfArgs(args.len()))
    }
}

/// The deadline of `SET ... PX <millis>`, given the time `now`; saturates at
/// the largest `u64`.
pub open spec fn expiration_of(kind: Seq<u8>, millis: Seq<u8>, now: int) -> Result<int, ErrorKind> {
    if upper_seq(kind) != name_px() {
        Err(ErrorKind::UnknownRequest(kind))
    } else {
        match integer_of(millis) {
            Err(e) => Err(ErrorKind::Resp(e)),
            Ok(n) => if n < 0 {
                Err(ErrorKind::Resp(RespError::IntParseFailure(IntError::InvalidDigit)))
            } else if now + n > u64::MAX {
                Ok(u64::MAX as int)
            } else {
                Ok(now + n)
            },
        }
    }
}

pub open spec fn set_of(args: Seq<Resp>, now: int) -> Result<Request, ErrorKind> {
    if args.len() == 2 {
        match (args[0], args[1]) {
            (Resp::Bulk(k), Resp::Bulk(v)) => Ok(Request::SetValue { key: k, value: v, expiration: None }),
            _ => Err(ErrorKind::UnexpectedArgumentType(first_non_bulk(args))),
        }
    } else if args.len() == 4 {
        match (args[0], args[1], args[2], args[3]) {
            (Resp::Bulk(k), Resp::Bulk(v), Resp::Bulk(t), Resp::Bulk(m)) => match expiration_of(
                t,
                m,
                now,
            ) {
                Ok(d) => Ok(Request::SetValue { key: k, value: v, expiration: Some(d) }),
                Err(e) => Err(e),
            },
            _ => Err(ErrorKind::UnexpectedArgumentType(first_non_bulk(args))),
        }
    } else {
        Err(ErrorKind::UnexpectedNumberOfArgs(args.len()))
    }
}

pub open spec fn all_bulk(args: Seq<Resp>) -> bool {
    forall|i: int| 0 <= i < args.len() ==> #[trigger] args[i] is Bulk
}

/// The position of the first value of `args` that is not a bulk string.
pub open spec fn first_non_bulk(args: Seq<Resp>) -> nat
    decreases args.len(),
{
    if args.len() == 0 || !(args[0] is Bulk) {
        0
    } else {
        1 + first_non_bulk(args.subrange(1, args.len() as int))
    }
}

proof fn lemma_first_non_bulk(args: Seq<Resp>, i: int)
    requires
        0 <= i < args.len(),
        !(args[i] is Bulk),
        forall|j: int| 0 <= j < i ==> #[trigger] args[j] is Bulk,
    ensures
        first_non_bulk(args) == i,
    decreases i,
{
    if i > 0 {
        let tail = args.subrange(1, args.len() as int);
        assert(args[0] is Bulk);
        assert forall|j: int| 0 <= j < i - 1 implies #[trigger] tail[j] is Bulk by {
            assert(tail[j] == args[j + 1]);
        }
        assert(tail[i - 1] == args[i]);
        lemma_first_non_bulk(tail, i - 1);
    }
}

pub open spec fn bulk_payloads(args: Seq<Resp>) -> Seq<Seq<u8>> {
    Seq::new(args.len(), |i: int| args[i]->Bulk_0)
}

pub open spec fn config_of(args: Seq<Resp>) -> Result<Request, ErrorKind> {
    if args.len() < 2 {
        Err(ErrorKind::UnexpectedNumberOfArgs(args.len()))
    } else {
        match args[0] {
            Resp::Bulk(sub) => if upper_seq(sub) != name_get() {
                Err(ErrorKind::UnknownRequest(sub))
            } else {
                let params = args.subrange(1, args.len() as int);
                if all_bulk(params) {
                    Ok(Request::ConfigGet(bulk_payloads(params)))
                } else {
                    Err(ErrorKind::UnexpectedArgumentType(first_non_bulk(params)))
                }
            },
            _ => Err(ErrorKind::UnexpectedArgumentType(0)),
        }
    }
}

pub open spec fn map_single(r: Result<Seq<u8>, ErrorKind>, f: spec_fn(Seq<u8>) -> Request) -> Result<
    Request,
    ErrorKind,
> {
    match r {
        Ok(x) => Ok(f(x)),
        Err(e) => Err(e),
    }
}

/// The request that a RESP value stands for, at time `now`.
pub open spec fn command_of(v: Resp, now: int) -> Result<Request, ErrorKind> {
    match v {
        Resp::Array(items) => if items.len() == 0 {
            Err(ErrorKind::UnknownRequest("empty array".spec_bytes()))
        } else {
            match items[0] {
                Resp::Bulk(name) => {
                    let args = items.subrange(1, items.len() as int);
                    let u = upper_seq(name);
                    if u == name_ping() {
                        ping_of(args)
                    } else if u == name_echo() {
                        map_single(single_bulk(args), |x: Seq<u8>| Request::Echo(x))
                    } else if u == name_set() {
                        set_of(args, now)
                    } else if u == name_get() {
                        map_single(single_bulk(args), |x: Seq<u8>| Request::Get(x))
                    } else if u == name_config() {
                        config_of(args)
                    } else if u == name_keys() {
                        map_single(single_bulk(args), |x: Seq<u8>| Request::Keys(x))
                    } else if u == name_info() {
                        info_of(args)
                    } else {
                        Err(ErrorKind::UnknownRequest(name))
                    }
                },
                _ => Err(ErrorKind::UnknownRequest("command name is not a BulkString".spec_bytes())),
            }
        },
        _ => Err(ErrorKind::UnknownRequest("request is not an Array".spec_bytes())),
    }
}

pub open spec fn request_matches(r: Result<RedisRequest, RedisError>, s: Result<Request, ErrorKind>) -> bool {
    match (r, s) {
        (Ok(q), Ok(m)) => q@ == m,
        (Err(e), Err(k)) => e.kind() == k,
        _ => false,
    }
}

pub open spec fn views_of(vals: Seq<RespValue>) -> Seq<Resp> {
    Seq::new(vals.len(), |i: int| vals[i]@)
}

/// The ASCII upper case of `value`.
pub fn uppercase(value: &[u8]) -> (r: Vec<u8>)
    ensures
        r@ == upper_seq(value@),
{
    let mut out: Vec<u8> = Vec::new();
    let mut i: usize = 0;
    while i < value.len()
        invariant
            0 <= i <= value@.len(),
            out@ == upper_seq(value@.subrange(0, i as int)),
        decreases value@.len() - i,
    {
        let b = value[i];
        let u: u8 = if 97u8 <= b && b <= 122u8 {
            b - 32u8
        } else {
            b
        };
        out.push(u);
        i += 1;
        proof {
            assert(out@ =~= upper_seq(value@.subrange(0, i as int)));
        }
    }
    proof {
        assert(value@.subrange(0, i as int) =~= value@);
    }
    out
}

fn bulk_arg<'a>(v: &RespValue<'a>) -> (r: Option<&'a [u8]>)
    ensures
        match r {
            Some(x) => v@ == Resp::Bulk(x@),
            None => !(v@ is Bulk),
        },
{
    match v {
        RespValue::BulkString(x) => Some(*x),
        _ => None,
    }
}

pub fn parse_ping<'a>(values: &[RespValue<'a>]) -> (r: Result<RedisRequest<'a>, RedisError>)
    ensures
        request_matches(r, ping_of(views_of(values@))),
{
    if values.len() != 0 {
        Err(RedisError::number_of_args(values.len()))
    } else {
        Ok(RedisRequest::Ping)
    }
}

fn single_bulk_arg<'a>(values: &[RespValue<'a>]) -> (r: Result<&'a [u8], RedisError>)
    ensures
        match (r, single_bulk(views_of(values@))) {
            (Ok(x), Ok(y)) => x@ == y,
            (Err(e), Err(k)) => e.kind() == k,
            _ => false,
        },
{
    if values.len() != 1 {
        return Err(RedisError::number_of_args(values.len()));
    }
    match bulk_arg(&values[0]) {
        Some(x) => Ok(x),
        None => Err(RedisError::argument_type(0)),
    }
}

pub fn parse_echo<'a>(values: &[RespValue<'a>]) -> (r: Result<RedisRequest<'a>, RedisError>)
    ensures
        request_matches(
            r,
            map_single(single_bulk(views_of(values@)), |x: Seq<u8>| Request::Echo(x)),
        ),
{
    match single_bulk_arg(values) {
        Ok(x) => Ok(RedisRequest::Echo(x)),
        Err(e) => Err(e),
    }
}

pub fn parse_get<'a>(values: &[RespValue<'a>]) -> (r: Result<RedisRequest<'a>, RedisError>)
    ensures
        request_matches(
            r,
            map_single(single_bulk(views_of(values@)), |x: Seq<u8>| Request::Get(x)),
        ),
{
    match single_bulk_arg(values) {
        Ok(x) => Ok(RedisRequest::Get(x)),
        Err(e) => Err(e),
    }
}

pub fn parse_keys<'a>(values: &[RespValue<'a>]) -> (r: Result<RedisRequest<'a>, RedisError>)
    ensures
        request_matches(
            r,
            map_single(single_bulk(views_of(values@)), |x: Seq<u8>| Request::Keys(x)),
        ),
{
    match single_bulk_arg(values) {
        Ok(x) => Ok(RedisRequest::Keys(x)),
        Err(e) => Err(e),
    }
}

pub fn parse_info<'a>(values: &[RespValue<'a>]) -> (r: Result<RedisRequest<'a>, RedisError>)
    ensures
        request_matches(r, info_of(views_of(values@))),
{
    if values.len() == 0 {
        Ok(RedisRequest::Info(None))
    } else if values.len() == 1 {
        match bulk_arg(&values[0]) {
            Some(x) => Ok(RedisRequest::Info(Some(x))),
            None => Err(RedisError::argument_type(0)),
        }
    } else {
        Err(RedisError::number_of_args(values.len()))
    }
}

/// The deadline of `SET ... <kind> <millis>` at time `now`; only `PX` is
/// known.
pub fn parse_expiration(expiration_type: &[u8], expiration_value: &[u8], now: u64) -> (r: Result<
    u64,
    RedisError,
>)
    ensures
        match (r, expiration_of(expiration_type@, expiration_value@, now as int)) {
            (Ok(d), Ok(e)) => d == e,
            (Err(err), Err(k)) => err.kind() == k,
            _ => false,
        },
{
    let kind = uppercase(expiration_type);
    let px: [u8; 2] = [80u8, 88u8];
    if !bytes_equal(kind.as_slice(), &px) {
        return Err(RedisError::unknown_name(expiration_type));
    }
    match parse_integer(expiration_value) {
        Err(e) => Err(RedisError::RespParseError(e)),
        Ok(n) => if n < 0 {
            Err(RedisError::RespParseError(RespError::IntParseFailure(IntError::InvalidDigit)))
        } else {
            Ok(now.saturating_add(n as u64))
        },
    }
}

pub fn parse_set<'a>(values: &[RespValue<'a>], now: u64) -> (r: Result<RedisRequest<'a>, RedisError>)
    ensures
        request_matches(r, set_of(views_of(values@), now as int)),
{
    if values.len() != 2 && values.len() != 4 {
        return Err(RedisError::number_of_args(values.len()));
    }
    let ghost args = views_of(values@);
    let key = match bulk_arg(&values[0]) {
        Some(x) => x,
        None => {
            proof {
                assert(args[0] == values@[0]@);
                lemma_first_non_bulk(args, 0);
            }
            return Err(RedisError::argument_type(0));
        },
    };
    let value = match bulk_arg(&values[1]) {
        Some(x) => x,
        None => {
            proof {
                assert(args[0] == values@[0]@); assert(args[1] == values@[1]@);
                lemma_first_non_bulk(args, 1);
            }
            return Err(RedisError::argument_type(1));
        },
    };
    if values.len() == 2 {
        return Ok(RedisRequest::SetValue { key, value, expiration: None });
    }
    let kind = match bulk_arg(&values[2]) {
        Some(x) => x,
        None => {
            proof {
                assert(args[0] == values@[0]@); assert(args[1] == values@[1]@); assert(args[2] == values@[2]@);
                lemma_first_non_bulk(args, 2);
            }
            return Err(RedisError::argument_type(2));
        },
    };
    let millis = match bulk_arg(&values[3]) {
        Some(x) => x,
        None => {
            proof {
                assert(args[0] == values@[0]@); assert(args[1] == values@[1]@); assert(args[2] == values@[2]@); assert(args[3] == values@[3]@);
                lemma_first_non_bulk(args, 3);
            }
            return Err(RedisError::argument_type(3));
        },
    };
    match parse_expiration(kind, millis, now) {
        Ok(d) => Ok(RedisRequest::SetValue { key, value, expiration: Some(d) }),
        Err(e) => Err(e),
    }
}

pub fn parse_command_get<'a>(values: &[RespValue<'a>]) -> (r: Result<RedisRequest<'a>, RedisError>)
    ensures
        match r {
            Ok(q) => all_bulk(views_of(values@)) && q@ == Request::ConfigGet(
                bulk_payloads(views_of(values@)),
            ),
            Err(e) => !all_bulk(views_of(values@)) && e.kind()
                == ErrorKind::UnexpectedArgumentType(first_non_bulk(views_of(values@))),
        },
{
    let mut params: Vec<&'a [u8]> = Vec::new();
    let mut i: usize = 0;
    while i < values.len()
        invariant
            0 <= i <= values@.len(),
            params@.len() == i,
            forall|j: int| 0 <= j < i ==> (#[trigger] values@[j])@ == Resp::Bulk(params@[j]@),
        decreases values@.len() - i,
    {
        match bulk_arg(&values[i]) {
            Some(x) => params.push(x),
            None => {
                proof {
                    assert(views_of(values@)[i as int] == values@[i as int]@);
                    assert forall|j: int| 0 <= j < i implies #[trigger] views_of(values@)[j] is Bulk by {
                        assert(views_of(values@)[j] == values@[j]@);
                    }
                    lemma_first_non_bulk(views_of(values@), i as int);
                }
                return Err(RedisError::argument_type(i));
            },
        }
        i += 1;
    }
    let r = RedisRequest::ConfigGet(params);
    proof {
        assert(r@->ConfigGet_0 =~= bulk_payloads(views_of(values@)));
    }
    Ok(r)
}

pub fn parse_config<'a>(values: &[RespValue<'a>]) -> (r: Result<RedisRequest<'a>, RedisError>)
    ensures
        request_matches(r, config_of(views_of(values@))),
{
    if values.len() < 2 {
        return Err(RedisError::number_of_args(values.len()));
    }
    match bulk_arg(&values[0]) {
        Some(sub) => {
            let upper_sub = uppercase(sub);
            let get: [u8; 3] = [71u8, 69u8, 84u8];
            if !bytes_equal(upper_sub.as_slice(), &get) {
                Err(RedisError::unknown_name(sub))
            } else {
                let rest = vstd::slice::slice_subrange(values, 1, values.len());
                proof {
                    assert(views_of(rest@) =~= views_of(values@).subrange(1, values@.len() as int));
                }
                parse_command_get(rest)
            }
        },
        None => Err(RedisError::argument_type(0)),
    }
}

/// Parses a request from a RESP value, at time `now` (milliseconds since the
/// UNIX epoch), which fixes the deadline of `SET ... PX`.
pub fn parse_command_at<'a>(value: &RespValue<'a>, now: u64) -> (r: Result<RedisRequest<'a>, RedisError>)
    ensures
        request_matches(r, command_of(value@, now as int)),
{
    let ghost model = value@;
    match value {
        RespValue::Array(values) => {
            if values.len() == 0 {
                return Err(RedisError::unknown_request("empty array"));
            }
            let ghost items = model->Array_0;
            let name = match bulk_arg(&values[0]) {
                Some(x) => x,
                None => {
                    return Err(RedisError::unknown_request("command name is not a BulkString"));
                },
            };
            let args = vstd::slice::slice_subrange(values.as_slice(), 1, values.len());
            proof {
                assert(views_of(args@) =~= items.subrange(1, items.len() as int));
            }
            let u = uppercase(name);
            let ping: [u8; 4] = [80u8, 73u8, 78u8, 71u8];
            let echo: [u8; 4] = [69u8, 67u8, 72u8, 79u8];
            let set: [u8; 3] = [83u8, 69u8, 84u8];
            let get: [u8; 3] = [71u8, 69u8, 84u8];
            let config: [u8; 6] = [67u8, 79u8, 78u8, 70u8, 73u8, 71u8];
            let keys: [u8; 4] = [75u8, 69u8, 89u8, 83u8];
            let info: [u8; 4] = [73u8, 78u8, 70u8, 79u8];
            if bytes_equal(u.as_slice(), &ping) {
                parse_ping(args)
            } else if bytes_equal(u.as_slice(), &echo) {
                parse_echo(args)
            } else if bytes_equal(u.as_slice(), &set) {
                parse_set(args, now)
            } else if bytes_equal(u.as_slice(), &get) {
                parse_get(args)
            } else if bytes_equal(u.as_slice(), &config) {
                parse_config(args)
            } else if bytes_equal(u.as_slice(), &keys) {
                parse_keys(args)
            } else if bytes_equal(u.as_slice(), &info) {
                parse_info(args)
            } else {
                Err(RedisError::unknown_name(name))
            }
        },
        _ => Err(RedisError::unknown_request("request is not an Array")),
    }
}

/// Parses a request from a RESP value, reading the clock for the deadline of
/// `SET ... PX`.
pub fn parse_command<'a>(value: RespValue<'a>) -> (r: Result<RedisRequest<'a>, RedisError>)
    ensures
        exists|now: u64| request_matches(r, command_of(value@, now as int)),
{
    let now = now_millis();
    parse_command_at(&value, now)
}

/// The requests that a sequence of RESP values stands for, at time `now`; the
/// first value that is no request decides the error.
pub open spec fn commands_of(vs: Seq<Resp>, now: int) -> Result<Seq<Request>, ErrorKind>
    decreases vs.len(),
{
    if vs.len() == 0 {
        Ok(Seq::empty())
    } else {
        match commands_of(vs.drop_last(), now) {
            Err(k) => Err(k),
            Ok(qs) => match command_of(vs.last(), now) {
                Ok(q) => Ok(qs.push(q)),
                Err(k) => Err(k),
            },
        }
    }
}

/// The requests that the bytes `s` hold, at time `now`.
pub open spec fn requests_of(s: Seq<u8>, now: int) -> Result<Seq<Request>, ErrorKind> {
    match parse_all(s) {
        Err(e) => Err(ErrorKind::Resp(e)),
        Ok(vs) => commands_of(vs, now),
    }
}

pub open spec fn requests_view(qs: Seq<RedisRequest>) -> Seq<Request> {
    Seq::new(qs.len(), |i: int| qs[i]@)
}

pub open spec fn requests_match(r: Result<Vec<RedisRequest>, RedisError>, input: Seq<u8>, now: int) -> bool {
    match (r, requests_of(input, now)) {
        (Ok(qs), Ok(m)) => requests_view(qs@) == m,
        (Err(e), Err(k)) => e.kind() == k,
        _ => false,
    }
}

/// Parses every request in `input`, at time `now`.
pub fn parse_commands_at<'a>(input: &'a [u8], now: u64) -> (r: Result<Vec<RedisRequest<'a>>, RedisError>)
    ensures
        requests_match(r, input@, now as int),
{
    let mut requests: Vec<RedisRequest<'a>> = Vec::new();
    if input.len() == 0 {
        proof {
            assert(requests_view(requests@) =~= Seq::<Request>::empty());
        }
        return Ok(requests);
    }
    let parser = RespParser::new();
    let values = match parser.get_values(input) {
        Ok(vs) => vs,
        Err(e) => {
            return Err(RedisError::RespParseError(e));
        },
    };
    let ghost vs = views_of(values@);
    proof {
        assert(vs =~= crate::resp::items_of(values@));
        assert(vs.take(0) =~= Seq::<Resp>::empty());
        assert(requests_view(requests@) =~= Seq::<Request>::empty());
    }
    let mut i: usize = 0;
    while i < values.len()
        invariant
            0 <= i <= values@.len(),
            vs == views_of(values@),
            parse_all(input@) == Ok::<Seq<Resp>, RespError>(vs),
            commands_of(vs.take(i as int), now as int) == Ok::<Seq<Request>, ErrorKind>(
                requests_view(requests@),
            ),
        decreases values@.len() - i,
    {
        let ghost before = requests_view(requests@);
        proof {
            assert(vs.take(i + 1).drop_last() =~= vs.take(i as int));
            assert(vs.take(i + 1).last() == values@[i as int]@);
        }
        match parse_command_at(&values[i], now) {
            Ok(q) => {
                requests.push(q);
                proof {
                    assert(requests_view(requests@) =~= before.push(requests@.last()@));
                }
            },
            Err(e) => {
                proof {
                    assert(commands_of(vs.take(i + 1), now as int) == Err::<Seq<Request>, ErrorKind>(
                        e.kind(),
                    ));
                    lemma_commands_error_stays(vs, (i + 1) as nat, now as int);
                    assert(vs.take(values@.len() as int) =~= vs);
                }
                return Err(e);
            },
        }
        i += 1;
    }
    proof {
        assert(vs.take(i as int) =~= vs);
    }
    Ok(requests)
}

/// An error among the first `i` values is the error of all of them.
proof fn lemma_commands_error_stays(vs: Seq<Resp>, i: nat, now: int)
    requires
        i <= vs.len(),
        commands_of(vs.take(i as int), now) is Err,
    ensures
        commands_of(vs, now) == commands_of(vs.take(i as int), now),
    decreases vs.len() - i,
{
    if i < vs.len() {
        assert(vs.take(i as int + 1).drop_last() =~= vs.take(i as int));
        lemma_commands_error_stays(vs, i + 1, now);
    } else {
        assert(vs.take(i as int) =~= vs);
    }
}

/// Parses every request in `input`, reading the clock for the deadlines of
/// `SET ... PX`.
pub fn parse_commands<'a>(input: &'a [u8]) -> (r: Result<Vec<RedisRequest<'a>>, RedisError>)
    ensures
        exists|now: u64| #[trigger] requests_match(r, input@, now as int),
{
    let now = now_millis();
    parse_commands_at(input, now)
}

} // verus!
