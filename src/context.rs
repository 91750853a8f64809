use vstd::prelude::*;
use vstd::string::*;

use crate::number::{debug_text_of, parse_chain_id, parse_u64, parses_unsigned, str_eq, u64_accepts, u64_error_text, u64_value, unsigned_error, unsigned_value};
use crate::primitives::{marked_hex_error, fixed_hex_accepts, fixed_hex_value, key_width, parse_privkey, Encryption, PrivateKey};

verus! {

/// One named argument of a matched command, with the raw values given for it.
#[derive(Clone, Debug)]
pub struct ArgValue {
    pub name: String,
    pub values: Vec<String>,
}

/// One level of a matched command path: a node name and its raw arguments.
#[derive(Clone, Debug)]
pub struct Level {
    pub name: String,
    pub args: Vec<ArgValue>,
}

/// The matched path of a command line, from the root to the selected leaf.
#[derive(Clone, Debug)]
pub struct Invocation {
    pub path: Vec<Level>,
}

/// Process-wide defaults and the last successful response.
#[derive(Clone, Debug)]
pub struct SessionConfig {
    pub url: String,
    pub debug: bool,
    pub color: bool,
    pub encryption: Encryption,
    pub last_response: Option<String>,
}

/// The effective settings of one command execution.
#[derive(Clone, Debug)]
pub struct ResolvedContext {
    pub url: String,
    pub debug: bool,
    pub color: bool,
    pub encryption: Encryption,
    pub chain_id: Option<u32>,
    pub quota: Option<u64>,
    pub private_key: Option<PrivateKey>,
}

/// The first raw value given for `name` among `args`, if any.
pub open spec fn arg_in(args: Seq<ArgValue>, name: Seq<char>) -> Option<Seq<char>>
    decreases args.len(),
{
    if args.len() == 0 {
        None
    } else if args[0].name@ == name && args[0].values@.len() > 0 {
        Some(args[0].values@[0]@)
    } else {
        arg_in(args.drop_first(), name)
    }
}

/// `name` is given, with or without a value, among `args`.
pub open spec fn flag_in(args: Seq<ArgValue>, name: Seq<char>) -> bool {
    exists|i: int| 0 <= i < args.len() && (#[trigger] args[i]).name@ == name
}

/// The value of `name` at the deepest level of `path` that gives one.
pub open spec fn deepest_value(path: Seq<Level>, name: Seq<char>) -> Option<Seq<char>>
    decreases path.len(),
{
    if path.len() == 0 {
        None
    } else {
        match arg_in(path.last().args@, name) {
            Some(v) => Some(v),
            None => deepest_value(path.drop_last(), name),
        }
    }
}

/// The value of `name` at the deepest level that gives one, else `default`.
pub open spec fn resolve_value(path: Seq<Level>, name: Seq<char>, default: Seq<char>) -> Seq<char> {
    match deepest_value(path, name) {
        Some(v) => v,
        None => default,
    }
}

/// The flag `name` is given at some level of `path`.
pub open spec fn flag_on_path(path: Seq<Level>, name: Seq<char>) -> bool {
    exists|i: int| 0 <= i < path.len() && flag_in((#[trigger] path[i]).args@, name)
}

/// The scheme that a name selects.
pub open spec fn encryption_named(s: Seq<char>) -> Option<Encryption> {
    if s == "secp256k1"@ {
        Some(Encryption::Secp256k1)
    } else if s == "ed25519"@ {
        Some(Encryption::Ed25519)
    } else if s == "sm2"@ {
        Some(Encryption::Sm2)
    } else {
        None
    }
}

/// The scheme of an invocation: the deepest `algorithm` given, else the session's.
pub open spec fn resolved_encryption(path: Seq<Level>, session: Encryption) -> Option<Encryption> {
    match deepest_value(path, "algorithm"@) {
        Some(v) => encryption_named(v),
        None => Some(session),
    }
}

/// Every value that resolution parses is well formed.
pub open spec fn resolvable(path: Seq<Level>, session: Encryption) -> bool {
    let leaf = path.last().args@;
    &&& resolved_encryption(path, session) is Some
    &&& (arg_in(leaf, "chain-id"@) matches Some(c) ==> parses_unsigned(c, 10, u32::MAX as nat))
    &&& (arg_in(leaf, "quota"@) matches Some(q) ==> u64_accepts(q))
    &&& (arg_in(leaf, "admin-private"@) matches Some(k) ==> fixed_hex_accepts(
        k,
        key_width(resolved_encryption(path, session).unwrap()),
    ))
}

/// `c` holds the invocation's explicit values merged over the session's defaults.
pub open spec fn resolved_from(c: ResolvedContext, path: Seq<Level>, config: SessionConfig) -> bool {
    let leaf = path.last().args@;
    &&& c.url@ == resolve_value(path, "url"@, config.url@)
    &&& c.debug == (flag_on_path(path, "debug"@) || config.debug)
    &&& c.color == (!flag_on_path(path, "no-color"@) && config.color)
    &&& c.encryption == resolved_encryption(path, config.encryption).unwrap()
    &&& (c.chain_id matches Some(id) ==> arg_in(leaf, "chain-id"@) matches Some(s) && id as nat
        == unsigned_value(s, 10))
    &&& (c.chain_id is None <==> arg_in(leaf, "chain-id"@) is None)
    &&& (c.quota matches Some(q) ==> arg_in(leaf, "quota"@) matches Some(s) && q as nat == u64_value(
        s,
    ))
    &&& (c.quota is None <==> arg_in(leaf, "quota"@) is None)
    &&& (c.private_key matches Some(k) ==> arg_in(leaf, "admin-private"@) matches Some(s)
        && k.bytes@ == fixed_hex_value(s) && k.encryption == c.encryption)
    &&& (c.private_key is None <==> arg_in(leaf, "admin-private"@) is None)
}

/// The error that resolution reports: the first malformed value among the
/// scheme, the chain id, the quota and the private key.
pub open spec fn resolve_error(path: Seq<Level>, session: Encryption) -> Seq<char> {
    let leaf = path.last().args@;
    if resolved_encryption(path, session) is None {
        "Invalid encryption algorithm"@
    } else if arg_in(leaf, "chain-id"@) matches Some(c) && !parses_unsigned(c, 10, u32::MAX as nat) {
        debug_text_of(unsigned_error(arg_in(leaf, "chain-id"@).unwrap(), 10, u32::MAX as nat))
    } else if arg_in(leaf, "quota"@) matches Some(q) && !u64_accepts(q) {
        u64_error_text(arg_in(leaf, "quota"@).unwrap())
    } else {
        marked_hex_error(arg_in(leaf, "admin-private"@).unwrap())
    }
}

/// Reads a scheme name.
pub fn parse_encryption(s: &str) -> (r: Option<Encryption>)
    ensures
        r == encryption_named(s@),
{
    if str_eq(s, "secp256k1") {
        Some(Encryption::Secp256k1)
    } else if str_eq(s, "ed25519") {
        Some(Encryption::Ed25519)
    } else if str_eq(s, "sm2") {
        Some(Encryption::Sm2)
    } else {
        None
    }
}

/// The first raw value given for `name` at one level.
pub fn value_of(args: &Vec<ArgValue>, name: &str) -> (r: Option<String>)
    ensures
        r matches Some(v) ==> arg_in(args@, name@) == Some(v@),
        r is None ==> arg_in(args@, name@) is None,
{
    let mut i: usize = 0;
    assert(args@.subrange(0, args@.len() as int) =~= args@);
    while i < args.len()
        invariant
            i <= args@.len(),
            arg_in(args@, name@) == arg_in(args@.subrange(i as int, args@.len() as int), name@),
        decreases args.len() - i,
    {
        let ghost rest = args@.subrange(i as int, args@.len() as int);
        assert(rest.drop_first() =~= args@.subrange(i + 1, args@.len() as int));
        let a = &args[i];
        if str_eq(a.name.as_str(), name) && a.values.len() > 0 {
            return Some(a.values[0].clone());
        }
        i = i + 1;
    }
    None
}

/// `name` is given, with or without a value, at one level.
pub fn is_present(args: &Vec<ArgValue>, name: &str) -> (r: bool)
    ensures
        r == flag_in(args@, name@),
{
    let mut i: usize = 0;
    while i < args.len()
        invariant
            i <= args@.len(),
            forall|j: int| 0 <= j < i ==> (#[trigger] args@[j]).name@ != name@,
        decreases args.len() - i,
    {
        if str_eq(args[i].name.as_str(), name) {
            return true;
        }
        i = i + 1;
    }
    false
}

/// The value of `name` at the deepest level of the path that gives one.
pub fn deepest_value_of(path: &Vec<Level>, name: &str) -> (r: Option<String>)
    ensures
        r matches Some(v) ==> deepest_value(path@, name@) == Some(v@),
        r is None ==> deepest_value(path@, name@) is None,
{
    let mut i: usize = path.len();
    assert(path@.subrange(0, path@.len() as int) =~= path@);
    while i > 0
        invariant
            i <= path@.len(),
            deepest_value(path@, name@) == deepest_value(path@.subrange(0, i as int), name@),
        decreases i,
    {
        let ghost pre = path@.subrange(0, i as int);
        assert(pre.drop_last() =~= path@.subrange(0, i - 1));
        match value_of(&path[i - 1].args, name) {
            Some(v) => {
                return Some(v);
            },
            None => {},
        }
        i = i - 1;
    }
    None
}

/// The flag `name` is given at some level of the path.
pub fn present_on_path(path: &Vec<Level>, name: &str) -> (r: bool)
    ensures
        r == flag_on_path(path@, name@),
{
    let mut i: usize = 0;
    while i < path.len()
        invariant
            i <= path@.len(),
            forall|j: int| 0 <= j < i ==> !flag_in((#[trigger] path@[j]).args@, name@),
        decreases path.len() - i,
    {
        if is_present(&path[i].args, name) {
            return true;
        }
        i = i + 1;
    }
    false
}

/// The endpoint of an invocation: the deepest `url` given, else the session's.
pub fn get_url(m: &Invocation, config: &SessionConfig) -> (r: String)
    ensures
        r@ == resolve_value(m.path@, "url"@, config.url@),
{
    match deepest_value_of(&m.path, "url") {
        Some(u) => u,
        None => config.url.clone(),
    }
}

/// The scheme of an invocation: the deepest `algorithm` given, else the session's.
pub fn encryption(m: &Invocation, config: &SessionConfig) -> (r: Option<Encryption>)
    ensures
        r == resolved_encryption(m.path@, config.encryption),
{
    match deepest_value_of(&m.path, "algorithm") {
        Some(a) => parse_encryption(a.as_str()),
        None => Some(config.encryption),
    }
}

/// Whether the blake2b hash is chosen; this build hashes with the default only.
pub fn blake2b(_m: &Invocation, _config: &SessionConfig) -> (r: bool)
    ensures
        !r,
{
    false
}

/// Merges the invocation's explicit values over the session's defaults.
pub fn resolve(m: &Invocation, config: &SessionConfig) -> (r: Result<ResolvedContext, String>)
    requires
        m.path@.len() > 0,
    ensures
        r is Ok == resolvable(m.path@, config.encryption),
        r matches Ok(c) ==> resolved_from(c, m.path@, *config),
        r matches Err(e) ==> e@ == resolve_error(m.path@, config.encryption),
{
    proof {
        reveal_strlit("Invalid encryption algorithm");
    }
    let url = get_url(m, config);
    let debug = present_on_path(&m.path, "debug") || config.debug;
    let color = !present_on_path(&m.path, "no-color") && config.color;
    let enc = match encryption(m, config) {
        Some(e) => e,
        None => {
            return Err(String::from_str("Invalid encryption algorithm"));
        },
    };
    let leaf = &m.path[m.path.len() - 1].args;
    let chain_id = match value_of(leaf, "chain-id") {
        Some(s) => Some(parse_chain_id(s.as_str())?),
        None => None,
    };
    let quota = match value_of(leaf, "quota") {
        Some(s) => Some(parse_u64(s.as_str())?),
        None => None,
    };
    let private_key = match value_of(leaf, "admin-private") {
        Some(s) => Some(parse_privkey(s.as_str(), enc)?),
        None => None,
    };
    Ok(ResolvedContext { url, debug, color, encryption: enc, chain_id, quota, private_key })
}

/// A value given at the leaf wins over the session's default.
pub proof fn lemma_leaf_wins(path: Seq<Level>, name: Seq<char>, default: Seq<char>)
    requires
        path.len() > 0,
        arg_in(path.last().args@, name) is Some,
    ensures
        resolve_value(path, name, default) == arg_in(path.last().args@, name).unwrap(),
{
}

/// A value given at no level comes from the session.
pub proof fn lemma_session_default(path: Seq<Level>, name: Seq<char>, default: Seq<char>)
    requires
        forall|i: int| 0 <= i < path.len() ==> arg_in((#[trigger] path[i]).args@, name) is None,
    ensures
        deepest_value(path, name) is None,
        resolve_value(path, name, default) == default,
    decreases path.len(),
{
    if path.len() > 0 {
        let pre = path.drop_last();
        assert forall|i: int| 0 <= i < pre.len() implies arg_in((#[trigger] pre[i]).args@, name) is None by {
            assert(pre[i] == path[i]);
        }
        lemma_session_default(pre, name, default);
        assert(arg_in(path[path.len() - 1].args@, name) is None);
    }
}

} // verus!
