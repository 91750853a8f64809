use vstd::prelude::*;
use vstd::string::*;

use crate::context::{ArgValue, flag_in, is_present};
use crate::number::{height_accepts, parse_chain_id, parse_height, parse_u64, parses_unsigned, str_eq, u64_accepts};
use crate::primitives::{fixed_hex_accepts, h256_validator, parse_address, parse_u256, privkey_validator, u256_accepts};

verus! {

/// The check that a raw argument value must pass.
#[derive(Clone, Copy, Debug, PartialEq, Eq, Structural)]
pub enum Validator {
    ChainId,
    PrivateKey,
    Quota,
    Address,
    H256,
    Height,
    Balance,
}

/// The declaration of one argument of a command.
#[derive(Clone, Debug)]
pub struct ArgDecl {
    pub name: String,
    pub takes_value: bool,
    pub required: bool,
    pub multiple: bool,
    /// Values taken by each occurrence; zero when not fixed.
    pub number_of_values: usize,
    pub default_value: Option<String>,
    pub validator: Option<Validator>,
    pub help: String,
}

/// Exactly one of the named arguments must be supplied.
#[derive(Clone, Debug)]
pub struct ArgGroup {
    pub name: String,
    pub args: Vec<String>,
}

/// A node of the command tree; a node without children is a leaf.
#[derive(Debug)]
pub struct CommandNode {
    pub name: String,
    pub about: String,
    pub args: Vec<ArgDecl>,
    /// The node also takes the shared arguments of its family.
    pub with_common: bool,
    pub groups: Vec<ArgGroup>,
    pub children: Vec<CommandNode>,
}

/// A command family: its tree and the arguments that its leaves share.
#[derive(Debug)]
pub struct CommandFamily {
    pub root: CommandNode,
    pub common: Vec<ArgDecl>,
}

pub open spec fn names_view(v: Seq<String>) -> Seq<Seq<char>> {
    v.map_values(|s: String| s@)
}

pub open spec fn paths_view(v: Seq<Vec<String>>) -> Seq<Seq<Seq<char>>> {
    v.map_values(|p: Vec<String>| names_view(p@))
}

/// The leaf paths below `nodes`, each led by `prefix`, depth first in declaration order.
pub open spec fn leaf_paths(nodes: Seq<CommandNode>, prefix: Seq<Seq<char>>) -> Seq<
    Seq<Seq<char>>,
>
    decreases nodes,
{
    if nodes.len() == 0 {
        seq![]
    } else {
        let c = nodes[0];
        let path = prefix.push(c.name@);
        let here = if c.children@.len() == 0 {
            seq![path]
        } else {
            leaf_paths(c.children@, path)
        };
        here + leaf_paths(nodes.drop_first(), prefix)
    }
}

pub open spec fn prefix_view(p: Option<Vec<String>>) -> Seq<Seq<char>> {
    match p {
        Some(v) => names_view(v@),
        None => seq![],
    }
}


proof fn lemma_leaf_paths_append(a: Seq<CommandNode>, b: Seq<CommandNode>, prefix: Seq<Seq<char>>)
    ensures
        leaf_paths(a + b, prefix) == leaf_paths(a, prefix) + leaf_paths(b, prefix),
    decreases a.len(),
{
    if a.len() == 0 {
        assert(a + b =~= b);
        assert(leaf_paths(a, prefix) + leaf_paths(b, prefix) =~= leaf_paths(b, prefix));
    } else {
        assert((a + b).drop_first() =~= a.drop_first() + b);
        assert((a + b)[0] == a[0]);
        lemma_leaf_paths_append(a.drop_first(), b, prefix);
        let c = a[0];
        let path = prefix.push(c.name@);
        let here = if c.children@.len() == 0 {
            seq![path]
        } else {
            leaf_paths(c.children@, path)
        };
        assert(here + (leaf_paths(a.drop_first(), prefix) + leaf_paths(b, prefix)) =~= (here
            + leaf_paths(a.drop_first(), prefix)) + leaf_paths(b, prefix));
    }
}

fn extend_path(prefix: &Option<Vec<String>>, name: &String) -> (r: Vec<String>)
    ensures
        names_view(r@) == prefix_view(*prefix).push(name@),
{
    let mut r: Vec<String> = Vec::new();
    match prefix {
        Some(p) => {
            let mut i: usize = 0;
            while i < p.len()
                invariant
                    i <= p@.len(),
                    names_view(r@) =~= names_view(p@).subrange(0, i as int),
                decreases p.len() - i,
            {
                let c = p[i].clone();
                let ghost before = r@;
                r.push(c);
                assert(names_view(r@) =~= names_view(before).push(p@[i as int]@));
                assert(names_view(p@).subrange(0, i + 1) =~= names_view(p@).subrange(0, i as int).push(
                    p@[i as int]@,
                ));
                i = i + 1;
            }
            assert(names_view(p@).subrange(0, p@.len() as int) =~= names_view(p@));
        },
        None => {},
    }
    r.push(name.clone());
    assert(names_view(r@) =~= prefix_view(*prefix).push(name@));
    r
}

/// Appends every leaf path below `app`, each led by `prefix`, depth first in
/// declaration order.
pub fn search_app(app: &CommandNode, prefix: &Option<Vec<String>>, commands: &mut Vec<Vec<String>>)
    ensures
        paths_view(final(commands)@) == paths_view(old(commands)@) + leaf_paths(
            app.children@,
            prefix_view(*prefix),
        ),
    decreases app,
{
    let ghost pv = prefix_view(*prefix);
    let mut i: usize = 0;
    assert(paths_view(commands@) =~= paths_view(commands@) + leaf_paths(
        app.children@.subrange(0, 0),
        pv,
    ));
    while i < app.children.len()
        invariant
            i <= app.children@.len(),
            pv == prefix_view(*prefix),
            paths_view(commands@) == paths_view(old(commands)@) + leaf_paths(
                app.children@.subrange(0, i as int),
                pv,
            ),
        decreases app.children.len() - i,
    {
        let inner = &app.children[i];
        let path = extend_path(prefix, &inner.name);
        let ghost before = commands@;
        let ghost here = if inner.children@.len() == 0 {
            seq![pv.push(inner.name@)]
        } else {
            leaf_paths(inner.children@, pv.push(inner.name@))
        };
        if inner.children.len() == 0 {
            commands.push(path);
            assert(paths_view(commands@) =~= paths_view(before) + here);
        } else {
            let next = Some(path);
            assert(prefix_view(next) == pv.push(inner.name@));
            search_app(inner, &next, commands);
        }
        proof {
            let s = app.children@;
            assert(s.subrange(0, i + 1) =~= s.subrange(0, i as int) + seq![s[i as int]]);
            lemma_leaf_paths_append(s.subrange(0, i as int), seq![s[i as int]], pv);
            assert(s[i as int] == *inner);
            let one = seq![s[i as int]];
            assert(one.drop_first() =~= Seq::<CommandNode>::empty());
            assert(one[0] == *inner);
            assert(leaf_paths(one.drop_first(), pv) =~= Seq::<Seq<Seq<char>>>::empty());
            assert(leaf_paths(one, pv) =~= here);
        }
        i = i + 1;
    }
    assert(app.children@.subrange(0, app.children@.len() as int) =~= app.children@);
}

/// Every leaf path of the tree, in declaration order.
pub fn flatten(root: &CommandNode) -> (r: Vec<Vec<String>>)
    ensures
        paths_view(r@) == leaf_paths(root.children@, seq![]),
{
    let mut commands: Vec<Vec<String>> = Vec::new();
    search_app(root, &None, &mut commands);
    assert(paths_view(commands@) =~= leaf_paths(root.children@, seq![]));
    commands
}



/// The raw values that a validator accepts.
pub open spec fn validator_accepts(v: Validator, s: Seq<char>) -> bool {
    match v {
        Validator::ChainId => parses_unsigned(s, 10, u32::MAX as nat),
        Validator::PrivateKey => fixed_hex_accepts(s, 32) || fixed_hex_accepts(s, 64),
        Validator::Quota => u64_accepts(s),
        Validator::Address => fixed_hex_accepts(s, 20),
        Validator::H256 => fixed_hex_accepts(s, 32),
        Validator::Height => height_accepts(s),
        Validator::Balance => u256_accepts(s),
    }
}

/// Runs one validator on a raw value.
pub fn run_validator(v: Validator, s: &str) -> (r: Result<(), String>)
    ensures
        r is Ok == validator_accepts(v, s@),
{
    match v {
        Validator::ChainId => match parse_chain_id(s) {
            Ok(_) => Ok(()),
            Err(e) => Err(e),
        },
        Validator::PrivateKey => privkey_validator(s),
        Validator::Quota => match parse_u64(s) {
            Ok(_) => Ok(()),
            Err(e) => Err(e),
        },
        Validator::Address => parse_address(s),
        Validator::H256 => h256_validator(s),
        Validator::Height => parse_height(s),
        Validator::Balance => match parse_u256(s) {
            Ok(_) => Ok(()),
            Err(e) => Err(e),
        },
    }
}

/// How many of `members` are given.
pub open spec fn group_count(members: Seq<String>, given: Seq<ArgValue>) -> nat
    decreases members.len(),
{
    if members.len() == 0 {
        0
    } else {
        group_count(members.drop_last(), given) + if flag_in(given, members.last()@) {
            1nat
        } else {
            0nat
        }
    }
}

/// Every group of the node has exactly one of its members given.
pub open spec fn groups_satisfied(groups: Seq<ArgGroup>, given: Seq<ArgValue>) -> bool {
    forall|g: int| 0 <= g < groups.len() ==> group_count((#[trigger] groups[g]).args@, given) == 1
}

/// Every value given under `name` passes `v`.
pub open spec fn values_pass(given: Seq<ArgValue>, name: Seq<char>, v: Validator) -> bool {
    forall|i: int, j: int|
        0 <= i < given.len() && given[i].name@ == name && 0 <= j < given[i].values@.len()
            ==> validator_accepts(v, #[trigger] given[i].values@[j]@)
}

/// Every occurrence of `name` carries a non-zero multiple of `n` values.
pub open spec fn counts_fit(given: Seq<ArgValue>, name: Seq<char>, n: nat) -> bool {
    forall|i: int|
        0 <= i < given.len() && (#[trigger] given[i]).name@ == name ==> given[i].values@.len() > 0
            && given[i].values@.len() % n == 0
}

/// The declaration is met: given if required, every value valid, and as many
/// values as it fixes per occurrence.
pub open spec fn decl_satisfied(d: ArgDecl, given: Seq<ArgValue>) -> bool {
    &&& (d.required ==> flag_in(given, d.name@))
    &&& (d.validator matches Some(v) ==> values_pass(given, d.name@, v))
    &&& (d.number_of_values > 0 ==> counts_fit(given, d.name@, d.number_of_values as nat))
}

fn check_counts(given: &Vec<ArgValue>, name: &str, n: usize) -> (r: Result<(), String>)
    requires
        n > 0,
    ensures
        r is Ok == counts_fit(given@, name@, n as nat),
{
    let mut i: usize = 0;
    while i < given.len()
        invariant
            i <= given@.len(),
            n > 0,
            forall|a: int|
                0 <= a < i && (#[trigger] given@[a]).name@ == name@ ==> given@[a].values@.len() > 0
                    && given@[a].values@.len() % (n as nat) == 0,
        decreases given.len() - i,
    {
        if str_eq(given[i].name.as_str(), name) {
            let k = given[i].values.len();
            if k == 0 || k % n != 0 {
                let mut msg = String::from_str("Wrong number of values for '--");
                msg.append(name);
                msg.append("'");
                return Err(msg);
            }
        }
        i = i + 1;
    }
    Ok(())
}

pub open spec fn decls_satisfied(decls: Seq<ArgDecl>, given: Seq<ArgValue>) -> bool {
    forall|k: int| 0 <= k < decls.len() ==> decl_satisfied(#[trigger] decls[k], given)
}

/// The arguments given to a leaf meet its declarations, the shared ones where
/// it takes them, and its groups.
pub open spec fn invocation_valid(node: CommandNode, common: Seq<ArgDecl>, given: Seq<ArgValue>) -> bool {
    &&& decls_satisfied(node.args@, given)
    &&& (node.with_common ==> decls_satisfied(common, given))
    &&& groups_satisfied(node.groups@, given)
}

fn count_given(members: &Vec<String>, given: &Vec<ArgValue>) -> (r: usize)
    ensures
        r as nat == group_count(members@, given@),
{
    let mut n: usize = 0;
    let mut i: usize = 0;
    while i < members.len()
        invariant
            i <= members@.len(),
            n <= i,
            n as nat == group_count(members@.subrange(0, i as int), given@),
        decreases members.len() - i,
    {
        assert(members@.subrange(0, i + 1).drop_last() =~= members@.subrange(0, i as int));
        if is_present(given, members[i].as_str()) {
            n = n + 1;
        }
        i = i + 1;
    }
    assert(members@.subrange(0, members@.len() as int) =~= members@);
    n
}

/// Checks that each group of the node has exactly one member given.
pub fn check_groups(groups: &Vec<ArgGroup>, given: &Vec<ArgValue>) -> (r: Result<(), String>)
    ensures
        r is Ok == groups_satisfied(groups@, given@),
{
    let mut g: usize = 0;
    while g < groups.len()
        invariant
            g <= groups@.len(),
            forall|h: int| 0 <= h < g ==> group_count((#[trigger] groups@[h]).args@, given@) == 1,
        decreases groups.len() - g,
    {
        let c = count_given(&groups[g].args, given);
        if c == 0 {
            let mut msg = String::from_str("One of the arguments of group '");
            msg.append(groups[g].name.as_str());
            msg.append("' is required");
            return Err(msg);
        }
        if c > 1 {
            let mut msg = String::from_str("Only one of the arguments of group '");
            msg.append(groups[g].name.as_str());
            msg.append("' may be used");
            return Err(msg);
        }
        g = g + 1;
    }
    Ok(())
}

fn check_values(given: &Vec<ArgValue>, name: &str, v: Validator) -> (r: Result<(), String>)
    ensures
        r is Ok == values_pass(given@, name@, v),
{
    let mut i: usize = 0;
    while i < given.len()
        invariant
            i <= given@.len(),
            forall|a: int, b: int|
                0 <= a < i && given@[a].name@ == name@ && 0 <= b < given@[a].values@.len()
                    ==> validator_accepts(v, #[trigger] given@[a].values@[b]@),
        decreases given.len() - i,
    {
        if str_eq(given[i].name.as_str(), name) {
            let mut j: usize = 0;
            while j < given[i].values.len()
                invariant
                    i < given@.len(),
                    j <= given@[i as int].values@.len(),
                    given@[i as int].name@ == name@,
                    forall|a: int, b: int|
                        0 <= a < i && given@[a].name@ == name@ && 0 <= b < given@[a].values@.len()
                            ==> validator_accepts(v, #[trigger] given@[a].values@[b]@),
                    forall|b: int|
                        0 <= b < j ==> validator_accepts(v, #[trigger] given@[i as int].values@[b]@),
                decreases given[i as int].values@.len() - j,
            {
                run_validator(v, given[i].values[j].as_str())?;
                j = j + 1;
            }
        }
        i = i + 1;
    }
    Ok(())
}

fn check_decls(decls: &Vec<ArgDecl>, given: &Vec<ArgValue>) -> (r: Result<(), String>)
    ensures
        r is Ok == decls_satisfied(decls@, given@),
{
    let mut k: usize = 0;
    while k < decls.len()
        invariant
            k <= decls@.len(),
            forall|h: int| 0 <= h < k ==> decl_satisfied(#[trigger] decls@[h], given@),
        decreases decls.len() - k,
    {
        let d = &decls[k];
        if d.required && !is_present(given, d.name.as_str()) {
            let mut msg = String::from_str("The argument '--");
            msg.append(d.name.as_str());
            msg.append("' is required");
            return Err(msg);
        }
        match d.validator {
            Some(v) => {
                check_values(given, d.name.as_str(), v)?;
            },
            None => {},
        }
        if d.number_of_values > 0 {
            check_counts(given, d.name.as_str(), d.number_of_values)?;
        }
        k = k + 1;
    }
    Ok(())
}

/// Checks the arguments given to a leaf against its declarations, the shared
/// declarations where it takes them, and its exclusive groups.
pub fn validate_leaf(node: &CommandNode, common: &Vec<ArgDecl>, given: &Vec<ArgValue>) -> (r: Result<(), String>)
    ensures
        r is Ok == invocation_valid(*node, common@, given@),
{
    check_decls(&node.args, given)?;
    if node.with_common {
        check_decls(common, given)?;
    }
    check_groups(&node.groups, given)
}

/// Two members of a group given at once break it.
pub proof fn lemma_group_both_given(members: Seq<String>, given: Seq<ArgValue>, i: int, j: int)
    requires
        0 <= i < j < members.len(),
        flag_in(given, members[i]@),
        flag_in(given, members[j]@),
    ensures
        group_count(members, given) >= 2,
    decreases members.len(),
{
    lemma_group_count_member(members.drop_last(), given, i);
    if j < members.len() - 1 {
        assert(members.drop_last()[i] == members[i]);
        assert(members.drop_last()[j] == members[j]);
        lemma_group_both_given(members.drop_last(), given, i, j);
    } else {
        assert(members.drop_last()[i] == members[i]);
    }
}

proof fn lemma_group_count_member(members: Seq<String>, given: Seq<ArgValue>, i: int)
    requires
        0 <= i < members.len(),
        flag_in(given, members[i]@),
    ensures
        group_count(members, given) >= 1,
    decreases members.len(),
{
    if i < members.len() - 1 {
        assert(members.drop_last()[i] == members[i]);
        lemma_group_count_member(members.drop_last(), given, i);
    }
}

/// A group none of whose members is given is broken too.
pub proof fn lemma_group_none_given(members: Seq<String>, given: Seq<ArgValue>)
    requires
        forall|i: int| 0 <= i < members.len() ==> !flag_in(given, (#[trigger] members[i])@),
    ensures
        group_count(members, given) == 0,
    decreases members.len(),
{
    if members.len() > 0 {
        let pre = members.drop_last();
        assert forall|i: int| 0 <= i < pre.len() implies !flag_in(given, (#[trigger] pre[i])@) by {
            assert(pre[i] == members[i]);
        }
        lemma_group_none_given(pre, given);
        assert(!flag_in(given, members[members.len() - 1]@));
    }
}


/// A single-valued argument declaration.
pub fn value_arg(name: &str, required: bool, validator: Option<Validator>, help: &str) -> (r: ArgDecl)
    ensures
        r.name@ == name@,
        r.help@ == help@,
        r.takes_value,
        r.required == required,
        !r.multiple,
        r.number_of_values == 0,
        r.default_value is None,
        r.validator == validator,
{
    ArgDecl {
        name: String::from_str(name),
        takes_value: true,
        required,
        multiple: false,
        number_of_values: 0,
        default_value: None,
        validator,
        help: String::from_str(help),
    }
}

fn leaf(name: &str, about: &str, args: Vec<ArgDecl>, with_common: bool, groups: Vec<ArgGroup>) -> (r: CommandNode)
    ensures
        r.name@ == name@,
        r.about@ == about@,
        r.args@ == args@,
        r.with_common == with_common,
        r.groups@ == groups@,
        r.children@.len() == 0,
{
    CommandNode {
        name: String::from_str(name),
        about: String::from_str(about),
        args,
        with_common,
        groups,
        children: Vec::new(),
    }
}

/// The names of `nodes`, in order.
pub open spec fn node_names(nodes: Seq<CommandNode>) -> Seq<Seq<char>> {
    nodes.map_values(|c: CommandNode| c.name@)
}

/// No two of `nodes` share a name.
pub open spec fn names_unique(nodes: Seq<CommandNode>) -> bool {
    forall|i: int, j: int| 0 <= i < j < nodes.len() ==> nodes[i].name@ != nodes[j].name@
}

/// `d` is a single-valued argument with no default.
pub open spec fn single_decl(d: ArgDecl, name: Seq<char>, required: bool, validator: Option<Validator>) -> bool {
    &&& d.name@ == name
    &&& d.takes_value
    &&& d.required == required
    &&& !d.multiple
    &&& d.number_of_values == 0
    &&& d.default_value is None
    &&& d.validator == validator
}

/// `n` is a leaf with the shared arguments or not, with no groups and with
/// `k` declarations of its own.
pub open spec fn leaf_shape(n: CommandNode, with_common: bool, k: nat) -> bool {
    &&& n.children@.len() == 0
    &&& n.with_common == with_common
    &&& n.args@.len() == k
}

/// The declarations of the five `amend` leaves, in order: code, abi, set-h256,
/// get-h256, balance.
pub open spec fn amend_leaves_declared(c: Seq<CommandNode>) -> bool {
    &&& c.len() == 5
    &&& leaf_shape(c[0], true, 2) && c[0].groups@.len() == 0
    &&& single_decl(c[0].args@[0], "address"@, true, Some(Validator::Address))
    &&& single_decl(c[0].args@[1], "content"@, true, None)
    &&& leaf_shape(c[1], true, 3) && c[1].groups@.len() == 1
    &&& c[1].groups@[0].name@ == "the-abi"@
    &&& names_view(c[1].groups@[0].args@) == seq!["content"@, "path"@]
    &&& single_decl(c[1].args@[0], "address"@, true, Some(Validator::Address))
    &&& single_decl(c[1].args@[1], "content"@, false, None)
    &&& single_decl(c[1].args@[2], "path"@, false, None)
    &&& leaf_shape(c[2], true, 2) && c[2].groups@.len() == 0
    &&& single_decl(c[2].args@[0], "address"@, true, Some(Validator::Address))
    &&& c[2].args@[1].name@ == "kv"@ && c[2].args@[1].takes_value && c[2].args@[1].required
        && c[2].args@[1].multiple && c[2].args@[1].number_of_values == 2
        && c[2].args@[1].default_value is None && c[2].args@[1].validator == Some(Validator::H256)
    &&& leaf_shape(c[3], false, 3) && c[3].groups@.len() == 0
    &&& single_decl(c[3].args@[0], "address"@, true, Some(Validator::Address))
    &&& single_decl(c[3].args@[1], "key"@, true, Some(Validator::H256))
    &&& c[3].args@[2].name@ == "height"@ && c[3].args@[2].takes_value && !c[3].args@[2].required
        && !c[3].args@[2].multiple && c[3].args@[2].number_of_values == 0
        && c[3].args@[2].validator == Some(Validator::Height)
    &&& (c[3].args@[2].default_value matches Some(h) && h@ == "latest"@)
    &&& leaf_shape(c[4], true, 2) && c[4].groups@.len() == 0
    &&& single_decl(c[4].args@[0], "address"@, true, Some(Validator::Address))
    &&& single_decl(c[4].args@[1], "balance"@, true, Some(Validator::Balance))
}

/// The shared declarations: chain id, the admin's private key (required), quota.
pub open spec fn amend_common_declared(c: Seq<ArgDecl>) -> bool {
    &&& c.len() == 3
    &&& single_decl(c[0], "chain-id"@, false, Some(Validator::ChainId))
    &&& single_decl(c[1], "admin-private"@, true, Some(Validator::PrivateKey))
    &&& single_decl(c[2], "quota"@, false, Some(Validator::Quota))
}

/// The `amend` family: five leaves that update contract code, ABI, key/value
/// storage and balances, and read key/value storage.
pub fn amend_command() -> (r: CommandFamily)
    ensures
        r.root.name@ == "amend"@,
        node_names(r.root.children@) == seq!["code"@, "abi"@, "set-h256"@, "get-h256"@, "balance"@],
        forall|i: int| 0 <= i < r.root.children@.len() ==> (#[trigger] r.root.children@[i]).children@.len() == 0,
        names_unique(r.root.children@),
        amend_leaves_declared(r.root.children@),
        amend_common_declared(r.common@),
        r.root.args@.len() == 0,
        r.root.groups@.len() == 0,
{
    let mut common: Vec<ArgDecl> = Vec::new();
    common.push(value_arg("chain-id", false, Some(Validator::ChainId), "The chain_id of transaction"));
    common.push(
        value_arg("admin-private", true, Some(Validator::PrivateKey), "The private key of super admin"),
    );
    common.push(
        value_arg("quota", false, Some(Validator::Quota), "Transaction quota costs, default is 1_000_000"),
    );

    let mut code_args: Vec<ArgDecl> = Vec::new();
    code_args.push(
        value_arg("address", true, Some(Validator::Address), "The contract address of the code"),
    );
    code_args.push(value_arg("content", true, None, "The contract code to amend"));
    let code = leaf("code", "Amend contract code", code_args, true, Vec::new());
    assert(leaf_shape(code, true, 2) && single_decl(code.args@[1], "content"@, true, None));

    let mut abi_args: Vec<ArgDecl> = Vec::new();
    abi_args.push(value_arg("address", true, Some(Validator::Address), "The contract address of the ABI"));
    abi_args.push(value_arg("content", false, None, "The content of ABI data to amend (json)"));
    abi_args.push(value_arg("path", false, None, "The path of ABI json file to amend (.json)"));
    let mut abi_members: Vec<String> = Vec::new();
    abi_members.push(String::from_str("content"));
    abi_members.push(String::from_str("path"));
    let mut abi_groups: Vec<ArgGroup> = Vec::new();
    abi_groups.push(ArgGroup { name: String::from_str("the-abi"), args: abi_members });
    let abi = leaf("abi", "Amend contract ABI data", abi_args, true, abi_groups);
    assert(names_view(abi.groups@[0].args@) =~= seq!["content"@, "path"@]);
    assert(leaf_shape(abi, true, 3) && single_decl(abi.args@[2], "path"@, false, None));

    let mut set_args: Vec<ArgDecl> = Vec::new();
    set_args.push(value_arg("address", true, Some(Validator::Address), "The account address"));
    set_args.push(ArgDecl {
        name: String::from_str("kv"),
        takes_value: true,
        required: true,
        multiple: true,
        number_of_values: 2,
        default_value: None,
        validator: Some(Validator::H256),
        help: String::from_str("The key value pair"),
    });
    let set_h256 = leaf("set-h256", "Amend H256 Key,Value pair", set_args, true, Vec::new());

    let mut get_args: Vec<ArgDecl> = Vec::new();
    get_args.push(value_arg("address", true, Some(Validator::Address), "The account address"));
    get_args.push(value_arg("key", true, Some(Validator::H256), "The key of pair"));
    let mut height = value_arg(
        "height",
        false,
        Some(Validator::Height),
        "The height of chain, hex string or tag 'latest'",
    );
    height.default_value = Some(String::from_str("latest"));
    get_args.push(height);
    let get_h256 = leaf("get-h256", "Get H256 Value", get_args, false, Vec::new());
    assert(leaf_shape(get_h256, false, 3) && get_h256.args@[2].default_value is Some);

    let mut balance_args: Vec<ArgDecl> = Vec::new();
    balance_args.push(value_arg("address", true, Some(Validator::Address), "The account address"));
    balance_args.push(value_arg("balance", true, Some(Validator::Balance), "Account balance"));
    let balance = leaf("balance", "Amend account balance", balance_args, true, Vec::new());

    let mut children: Vec<CommandNode> = Vec::new();
    children.push(code);
    children.push(abi);
    children.push(set_h256);
    children.push(get_h256);
    children.push(balance);
    let root = CommandNode {
        name: String::from_str("amend"),
        about: String::from_str("Amend(update) ABI/contract code/H256KV"),
        args: Vec::new(),
        with_common: false,
        groups: Vec::new(),
        children,
    };
    assert(root.children@[0] == code && root.children@[1] == abi && root.children@[2] == set_h256);
    assert(root.children@[3] == get_h256 && root.children@[4] == balance);
    assert(amend_leaves_declared(root.children@));
    assert(node_names(root.children@) =~= seq!["code"@, "abi"@, "set-h256"@, "get-h256"@, "balance"@]);
    assert(names_view(root.children@[1].groups@[0].args@) =~= seq!["content"@, "path"@]);
    proof {
        reveal_strlit("code");
        reveal_strlit("abi");
        reveal_strlit("set-h256");
        reveal_strlit("get-h256");
        reveal_strlit("balance");
        let ns = node_names(root.children@);
        assert("code"@.len() == 4 && "abi"@.len() == 3 && "set-h256"@.len() == 8);
        assert("get-h256"@.len() == 8 && "balance"@.len() == 7);
        assert("set-h256"@[0] == 's' && "get-h256"@[0] == 'g');
        assert(ns == seq!["code"@, "abi"@, "set-h256"@, "get-h256"@, "balance"@]);
        assert forall|i: int, j: int| 0 <= i < j < root.children@.len() implies root.children@[i].name@
            != root.children@[j].name@ by {
            assert(ns[i] == root.children@[i].name@);
            assert(ns[j] == root.children@[j].name@);
            assert(ns[i] != ns[j]);
        }
    }
    CommandFamily { root, common }
}

} // verus!
