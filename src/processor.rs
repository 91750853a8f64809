use vstd::prelude::*;
use vstd::string::*;

use crate::context::{
    arg_in, resolvable, resolve, resolve_error, resolved_from, value_of, ArgValue, Invocation, ResolvedContext,
    SessionConfig,
};
use crate::hex::{remove_0x, strip_all_0x};
use crate::number::str_eq;
use crate::primitives::{
    decode_address, decode_h256, fixed_hex_accepts, fixed_hex_value, parse_u256, u256_accepts,
    u256_value, Address, H256, U256,
};

verus! {

/// The leaves of the `amend` family.
#[derive(Clone, Copy, Debug, PartialEq, Eq, Structural)]
pub enum AmendLeaf {
    Code,
    Abi,
    SetH256,
    GetH256,
    Balance,
}

/// One call of the ledger client, with parsed arguments.
#[derive(Clone, Debug)]
pub enum Operation {
    AmendCode { address: Address, content: String, quota: Option<u64> },
    AmendAbi { address: Address, content: String, quota: Option<u64> },
    SetH256 { address: Address, kv: String, quota: Option<u64> },
    GetH256 { address: Address, key: H256, height: String },
    AmendBalance { address: Address, balance: U256, quota: Option<u64> },
}

/// What one invocation asks of the client: its settings and its one call.
#[derive(Clone, Debug)]
pub struct Request {
    pub context: ResolvedContext,
    pub operation: Operation,
}

pub open spec fn leaf_named(s: Seq<char>) -> Option<AmendLeaf> {
    if s == "code"@ {
        Some(AmendLeaf::Code)
    } else if s == "abi"@ {
        Some(AmendLeaf::Abi)
    } else if s == "set-h256"@ {
        Some(AmendLeaf::SetH256)
    } else if s == "get-h256"@ {
        Some(AmendLeaf::GetH256)
    } else if s == "balance"@ {
        Some(AmendLeaf::Balance)
    } else {
        None
    }
}

/// Reads a leaf name.
pub fn parse_leaf(s: &str) -> (r: Option<AmendLeaf>)
    ensures
        r == leaf_named(s@),
{
    if str_eq(s, "code") {
        Some(AmendLeaf::Code)
    } else if str_eq(s, "abi") {
        Some(AmendLeaf::Abi)
    } else if str_eq(s, "set-h256") {
        Some(AmendLeaf::SetH256)
    } else if str_eq(s, "get-h256") {
        Some(AmendLeaf::GetH256)
    } else if str_eq(s, "balance") {
        Some(AmendLeaf::Balance)
    } else {
        None
    }
}

/// The values of the first argument named `name` among `args`.
pub open spec fn values_in(args: Seq<ArgValue>, name: Seq<char>) -> Option<Seq<Seq<char>>>
    decreases args.len(),
{
    if args.len() == 0 {
        None
    } else if args[0].name@ == name {
        Some(args[0].values@.map_values(|v: String| v@))
    } else {
        values_in(args.drop_first(), name)
    }
}

/// The values with their hex markers stripped, joined in the order given.
pub open spec fn kv_payload(vs: Seq<Seq<char>>) -> Seq<char>
    decreases vs.len(),
{
    if vs.len() == 0 {
        seq![]
    } else {
        kv_payload(vs.drop_last()) + strip_all_0x(vs.last())
    }
}

/// The payload of values given in two runs is the payload of the first run
/// followed by that of the second: nothing is reordered or dropped.
pub proof fn lemma_kv_payload_append(a: Seq<Seq<char>>, b: Seq<Seq<char>>)
    ensures
        kv_payload(a + b) == kv_payload(a) + kv_payload(b),
    decreases b.len(),
{
    if b.len() == 0 {
        assert(a + b =~= a);
        assert(kv_payload(a) + kv_payload(b) =~= kv_payload(a));
    } else {
        assert((a + b).drop_last() =~= a + b.drop_last());
        assert((a + b).last() == b.last());
        lemma_kv_payload_append(a, b.drop_last());
        assert(kv_payload(a) + (kv_payload(b.drop_last()) + strip_all_0x(b.last())) =~= (kv_payload(a)
            + kv_payload(b.drop_last())) + strip_all_0x(b.last()));
    }
}

/// Joins the values, each without its hex marker, in the order given.
pub fn concat_kv(values: &Vec<String>) -> (r: String)
    ensures
        r@ == kv_payload(values@.map_values(|v: String| v@)),
{
    let ghost vs = values@.map_values(|v: String| v@);
    let mut out = String::new();
    let mut i: usize = 0;
    while i < values.len()
        invariant
            i <= values@.len(),
            vs == values@.map_values(|v: String| v@),
            out@ == kv_payload(vs.subrange(0, i as int)),
        decreases values.len() - i,
    {
        assert(vs.subrange(0, i + 1).drop_last() =~= vs.subrange(0, i as int));
        out.append(remove_0x(values[i].as_str()));
        i = i + 1;
    }
    assert(vs.subrange(0, values@.len() as int) =~= vs);
    out
}

fn values_of<'a>(args: &'a Vec<ArgValue>, name: &str) -> (r: Option<&'a Vec<String>>)
    ensures
        r matches Some(v) ==> values_in(args@, name@) == Some(v@.map_values(|s: String| s@)),
        r is None ==> values_in(args@, name@) is None,
{
    let mut i: usize = 0;
    assert(args@.subrange(0, args@.len() as int) =~= args@);
    while i < args.len()
        invariant
            i <= args@.len(),
            values_in(args@, name@) == values_in(args@.subrange(i as int, args@.len() as int), name@),
        decreases args.len() - i,
    {
        let ghost rest = args@.subrange(i as int, args@.len() as int);
        assert(rest.drop_first() =~= args@.subrange(i + 1, args@.len() as int));
        if str_eq(args[i].name.as_str(), name) {
            return Some(&args[i].values);
        }
        i = i + 1;
    }
    None
}

/// The ABI text: the inline `content` if given, else what was read from `path`.
pub open spec fn abi_content(args: Seq<ArgValue>, file: Option<Result<String, String>>) -> Option<
    Seq<char>,
> {
    match arg_in(args, "content"@) {
        Some(c) => Some(c),
        None => match file {
            Some(Ok(x)) => Some(x@),
            _ => None,
        },
    }
}

/// The file whose text an `abi` leaf needs: its `path`, when no inline
/// `content` is given.
pub open spec fn abi_file(path: Seq<crate::context::Level>) -> Option<Seq<char>> {
    if path.len() > 0 && leaf_named(path.last().name@) == Some(AmendLeaf::Abi) && arg_in(
        path.last().args@,
        "content"@,
    ) is None {
        arg_in(path.last().args@, "path"@)
    } else {
        None
    }
}

/// The file that must be read before the invocation can be processed, if
/// any; none is named while resolution would fail, since that error comes first.
pub fn file_to_read(m: &Invocation, config: &SessionConfig) -> (r: Option<String>)
    ensures
        r matches Some(p) ==> resolvable(m.path@, config.encryption) && abi_file(m.path@) == Some(
            p@,
        ),
        r is None ==> abi_file(m.path@) is None || !resolvable(m.path@, config.encryption),
{
    if m.path.len() == 0 {
        return None;
    }
    if resolve(m, config).is_err() {
        return None;
    }
    let leaf = &m.path[m.path.len() - 1];
    if parse_leaf(leaf.name.as_str()) != Some(AmendLeaf::Abi) {
        return None;
    }
    if value_of(&leaf.args, "content").is_some() {
        return None;
    }
    value_of(&leaf.args, "path")
}

/// The leaf's own arguments are present and well formed.
pub open spec fn leaf_args_valid(leaf: AmendLeaf, args: Seq<ArgValue>, file: Option<Result<String, String>>) -> bool {
    &&& (arg_in(args, "address"@) matches Some(a) && fixed_hex_accepts(a, 20))
    &&& match leaf {
        AmendLeaf::Code => arg_in(args, "content"@) is Some,
        AmendLeaf::Abi => abi_content(args, file) is Some,
        AmendLeaf::SetH256 => values_in(args, "kv"@) is Some,
        AmendLeaf::GetH256 => arg_in(args, "key"@) matches Some(k) && fixed_hex_accepts(k, 32),
        AmendLeaf::Balance => arg_in(args, "balance"@) matches Some(b) && u256_accepts(b),
    }
}

/// The invocation can be turned into a request.
pub open spec fn request_possible(m: Invocation, config: SessionConfig, file: Option<Result<String, String>>) -> bool {
    &&& m.path@.len() > 0
    &&& leaf_named(m.path@.last().name@) is Some
    &&& resolvable(m.path@, config.encryption)
    &&& leaf_args_valid(leaf_named(m.path@.last().name@).unwrap(), m.path@.last().args@, file)
}

/// The operation is the one that the leaf's arguments describe.
pub open spec fn operation_of(
    op: Operation,
    leaf: AmendLeaf,
    args: Seq<ArgValue>,
    file: Option<Result<String, String>>,
    quota: Option<u64>,
) -> bool {
    let address = fixed_hex_value(arg_in(args, "address"@).unwrap());
    match op {
        Operation::AmendCode { address: a, content, quota: q } => leaf == AmendLeaf::Code
            && a.bytes@ == address && content@ == arg_in(args, "content"@).unwrap() && q == quota,
        Operation::AmendAbi { address: a, content, quota: q } => leaf == AmendLeaf::Abi
            && a.bytes@ == address && content@ == abi_content(args, file).unwrap() && q == quota,
        Operation::SetH256 { address: a, kv, quota: q } => leaf == AmendLeaf::SetH256
            && a.bytes@ == address && kv@ == kv_payload(values_in(args, "kv"@).unwrap()) && q
            == quota,
        Operation::GetH256 { address: a, key, height } => leaf == AmendLeaf::GetH256
            && a.bytes@ == address && key.bytes@ == fixed_hex_value(arg_in(args, "key"@).unwrap())
            && height@ == (match arg_in(args, "height"@) {
            Some(h) => h,
            None => "latest"@,
        }),
        Operation::AmendBalance { address: a, balance, quota: q } => leaf == AmendLeaf::Balance
            && a.bytes@ == address && balance.value() == u256_value(
            arg_in(args, "balance"@).unwrap(),
        ) && q == quota,
    }
}

/// The error for an invocation that names no known leaf.
pub open spec fn usage_text() -> Seq<char> {
    "USAGE: amend <SUBCOMMAND>"@
}

/// Turns a validated `amend` invocation into the one client call it asks for.
/// `file` is the outcome of reading the file that `file_to_read` names, if any.
pub fn amend_processor(
    m: &Invocation,
    config: &SessionConfig,
    file: Option<Result<String, String>>,
) -> (r: Result<Request, String>)
    ensures
        r is Ok == request_possible(*m, *config, file),
        r matches Ok(req) ==> {
            let leaf = m.path@.last();
            &&& resolved_from(req.context, m.path@, *config)
            &&& operation_of(
                req.operation,
                leaf_named(leaf.name@).unwrap(),
                leaf.args@,
                file,
                req.context.quota,
            )
        },
        m.path@.len() > 0 && leaf_named(m.path@.last().name@) == Some(AmendLeaf::Abi)
            && resolvable(m.path@, config.encryption) && arg_in(m.path@.last().args@, "content"@)
            is None ==> (file matches Some(Err(e)) ==> r matches Err(x) && x@ == e@),
        m.path@.len() == 0 || leaf_named(m.path@.last().name@) is None ==> (r matches Err(e) && e@
            == usage_text()),
        m.path@.len() > 0 && leaf_named(m.path@.last().name@) is Some && !resolvable(
            m.path@,
            config.encryption,
        ) ==> (r matches Err(e) && e@ == resolve_error(m.path@, config.encryption)),
{
    proof {
        reveal_strlit("latest");
    }
    if m.path.len() == 0 {
        return Err(String::from_str("USAGE: amend <SUBCOMMAND>"));
    }
    let level = &m.path[m.path.len() - 1];
    let leaf = match parse_leaf(level.name.as_str()) {
        Some(l) => l,
        None => {
            return Err(String::from_str("USAGE: amend <SUBCOMMAND>"));
        },
    };
    let args = &level.args;
    let context = resolve(m, config)?;
    let quota = context.quota;
    let content = match leaf {
        AmendLeaf::Abi => match value_of(args, "content") {
            Some(c) => Some(c),
            None => match file {
                Some(Ok(x)) => Some(x),
                Some(Err(e)) => {
                    return Err(e);
                },
                None => {
                    return Err(String::from_str("The ABI file was not read"));
                },
            },
        },
        AmendLeaf::Code => match value_of(args, "content") {
            Some(c) => Some(c),
            None => {
                return Err(String::from_str("The argument '--content' is required"));
            },
        },
        _ => None,
    };
    let address = match value_of(args, "address") {
        Some(a) => decode_address(a.as_str())?,
        None => {
            return Err(String::from_str("The argument '--address' is required"));
        },
    };
    let operation = match leaf {
        AmendLeaf::Code => Operation::AmendCode { address, content: content.unwrap(), quota },
        AmendLeaf::Abi => Operation::AmendAbi { address, content: content.unwrap(), quota },
        AmendLeaf::SetH256 => match values_of(args, "kv") {
            Some(vs) => Operation::SetH256 { address, kv: concat_kv(vs), quota },
            None => {
                return Err(String::from_str("The argument '--kv' is required"));
            },
        },
        AmendLeaf::GetH256 => {
            let key = match value_of(args, "key") {
                Some(k) => decode_h256(k.as_str())?,
                None => {
                    return Err(String::from_str("The argument '--key' is required"));
                },
            };
            let height = match value_of(args, "height") {
                Some(h) => h,
                None => String::from_str("latest"),
            };
            Operation::GetH256 { address, key, height }
        },
        AmendLeaf::Balance => {
            let balance = match value_of(args, "balance") {
                Some(b) => parse_u256(b.as_str())?,
                None => {
                    return Err(String::from_str("The argument '--balance' is required"));
                },
            };
            Operation::AmendBalance { address, balance, quota }
        },
    };
    Ok(Request { context, operation })
}

/// Records a successful response in the session.
pub fn record_response(config: &mut SessionConfig, resp: String)
    ensures
        final(config).last_response == Some(resp),
        final(config).url == old(config).url,
        final(config).debug == old(config).debug,
        final(config).color == old(config).color,
        final(config).encryption == old(config).encryption,
{
    config.last_response = Some(resp);
}

} // verus!
