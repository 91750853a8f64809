use cita_cli::context::{get_url, resolve, ArgValue, Invocation, Level, SessionConfig};
use cita_cli::grammar::{amend_command, flatten, search_app, validate_leaf, CommandNode};
use cita_cli::primitives::{Encryption, U256};
use cita_cli::processor::{amend_processor, concat_kv, file_to_read, record_response, Operation};

const ADDR: &str = "0xffffffffffffffffffffffffffffffffff020004";
const KEY: &str = "0x0000000000000000000000000000000000000000000000000000000000000001";

fn arg(name: &str, values: &[&str]) -> ArgValue {
    ArgValue {
        name: name.to_string(),
        values: values.iter().map(|v| v.to_string()).collect(),
    }
}

fn level(name: &str, args: Vec<ArgValue>) -> Level {
    Level { name: name.to_string(), args }
}

fn session() -> SessionConfig {
    SessionConfig {
        url: "http://127.0.0.1:1337".to_string(),
        debug: false,
        color: true,
        encryption: Encryption::Secp256k1,
        last_response: None,
    }
}

fn node(name: &str, children: Vec<CommandNode>) -> CommandNode {
    CommandNode {
        name: name.to_string(),
        about: String::new(),
        args: Vec::new(),
        with_common: false,
        groups: Vec::new(),
        children,
    }
}

#[test]
fn leaf_url_overrides_session() {
    let m = Invocation {
        path: vec![
            level("amend", vec![arg("url", &["http://root:1"])]),
            level("code", vec![arg("url", &["http://leaf:2"])]),
        ],
    };
    assert_eq!(get_url(&m, &session()), "http://leaf:2");
    let only_root = Invocation {
        path: vec![
            level("amend", vec![arg("url", &["http://root:1"])]),
            level("code", vec![]),
        ],
    };
    assert_eq!(get_url(&only_root, &session()), "http://root:1");
    let none = Invocation { path: vec![level("amend", vec![]), level("code", vec![])] };
    assert_eq!(get_url(&none, &session()), "http://127.0.0.1:1337");
}

#[test]
fn resolve_merges_flags_and_leaf_values() {
    let m = Invocation {
        path: vec![
            level("amend", vec![arg("debug", &[]), arg("algorithm", &["ed25519"])]),
            level(
                "code",
                vec![
                    arg("no-color", &[]),
                    arg("algorithm", &["sm2"]),
                    arg("chain-id", &["7"]),
                    arg("quota", &["0x10"]),
                    arg("admin-private", &[KEY]),
                ],
            ),
        ],
    };
    let c = resolve(&m, &session()).unwrap();
    assert!(c.debug);
    assert!(!c.color);
    assert_eq!(c.encryption, Encryption::Sm2);
    assert_eq!(c.chain_id, Some(7));
    assert_eq!(c.quota, Some(16));
    assert_eq!(c.private_key.unwrap().bytes[31], 1);

    let plain = Invocation { path: vec![level("amend", vec![]), level("code", vec![])] };
    let c = resolve(&plain, &session()).unwrap();
    assert!(!c.debug);
    assert!(c.color);
    assert_eq!(c.encryption, Encryption::Secp256k1);
    assert_eq!(c.chain_id, None);
    assert_eq!(c.quota, None);
    assert!(c.private_key.is_none());

    let bad = Invocation {
        path: vec![level("code", vec![arg("algorithm", &["rsa"])])],
    };
    assert!(resolve(&bad, &session()).is_err());
}

#[test]
fn abi_group_rejects_both_and_neither() {
    let family = amend_command();
    let abi = &family.root.children[1];
    assert_eq!(abi.name, "abi");
    let both = vec![
        arg("address", &[ADDR]),
        arg("admin-private", &[KEY]),
        arg("content", &["[]"]),
        arg("path", &["/tmp/abi.json"]),
    ];
    assert!(validate_leaf(abi, &family.common, &both).is_err());
    let neither = vec![arg("address", &[ADDR]), arg("admin-private", &[KEY])];
    assert!(validate_leaf(abi, &family.common, &neither).is_err());
    let one = vec![arg("address", &[ADDR]), arg("admin-private", &[KEY]), arg("path", &["a.json"])];
    assert_eq!(validate_leaf(abi, &family.common, &one), Ok(()));
}

#[test]
fn leaf_validation_checks_required_and_values() {
    let family = amend_command();
    let balance = &family.root.children[4];
    let ok = vec![arg("address", &[ADDR]), arg("balance", &["100"]), arg("admin-private", &[KEY])];
    assert_eq!(validate_leaf(balance, &family.common, &ok), Ok(()));
    let no_key = vec![arg("address", &[ADDR]), arg("balance", &["100"])];
    assert!(validate_leaf(balance, &family.common, &no_key).is_err());
    let bad_balance = vec![arg("address", &[ADDR]), arg("balance", &["1x"]), arg("admin-private", &[KEY])];
    assert!(validate_leaf(balance, &family.common, &bad_balance).is_err());
    let bad_chain = vec![
        arg("address", &[ADDR]),
        arg("balance", &["1"]),
        arg("admin-private", &[KEY]),
        arg("chain-id", &["-3"]),
    ];
    assert!(validate_leaf(balance, &family.common, &bad_chain).is_err());
}

#[test]
fn amend_tree_lists_five_leaves() {
    let family = amend_command();
    let names: Vec<Vec<String>> = flatten(&family.root);
    let expected: Vec<Vec<String>> = ["code", "abi", "set-h256", "get-h256", "balance"]
        .iter()
        .map(|n| vec![n.to_string()])
        .collect();
    assert_eq!(names, expected);
}

#[test]
fn flatten_two_by_two() {
    let root = node(
        "root",
        vec![
            node("a", vec![node("a1", vec![]), node("a2", vec![])]),
            node("b", vec![node("b1", vec![]), node("b2", vec![])]),
        ],
    );
    let first = flatten(&root);
    let expected: Vec<Vec<String>> = vec![
        vec!["a".to_string(), "a1".to_string()],
        vec!["a".to_string(), "a2".to_string()],
        vec!["b".to_string(), "b1".to_string()],
        vec!["b".to_string(), "b2".to_string()],
    ];
    assert_eq!(first, expected);
    assert!(first.iter().all(|p| p.len() == 2));
    assert_eq!(flatten(&root), first);
    let mut commands = vec![vec!["x".to_string()]];
    search_app(&root, &Some(vec!["p".to_string()]), &mut commands);
    assert_eq!(commands.len(), 5);
    assert_eq!(commands[1], vec!["p".to_string(), "a".to_string(), "a1".to_string()]);
}

#[test]
fn kv_values_join_in_order() {
    let vs = vec!["a".to_string(), "1".to_string(), "b".to_string(), "2".to_string()];
    assert_eq!(concat_kv(&vs), "a1b2");
    let hex = vec!["0xb".to_string(), "0x2".to_string(), "0xa".to_string(), "0x2".to_string()];
    assert_eq!(concat_kv(&hex), "b2a2");
    let twice = vec!["0x0x1".to_string()];
    let once = vec!["0x1".to_string()];
    assert_eq!(concat_kv(&twice), concat_kv(&once));
    assert_eq!(concat_kv(&vec![]), "");
}

#[test]
fn set_h256_sends_joined_payload() {
    let m = Invocation {
        path: vec![
            level("amend", vec![]),
            level(
                "set-h256",
                vec![
                    arg("address", &[ADDR]),
                    arg("kv", &["0xaa", "0x01", "0xbb", "0x02"]),
                    arg("admin-private", &[KEY]),
                ],
            ),
        ],
    };
    let req = amend_processor(&m, &session(), None).unwrap();
    match req.operation {
        Operation::SetH256 { kv, quota, .. } => {
            assert_eq!(kv, "aa01bb02");
            assert_eq!(quota, None);
        }
        _ => panic!("wrong operation"),
    }
}

#[test]
fn abi_content_from_file() {
    let m = Invocation {
        path: vec![
            level("amend", vec![]),
            level(
                "abi",
                vec![arg("address", &[ADDR]), arg("path", &["abi.json"]), arg("admin-private", &[KEY])],
            ),
        ],
    };
    assert_eq!(file_to_read(&m, &session()), Some("abi.json".to_string()));
    let text = "  [{\"type\":\"function\"}]\n".to_string();
    let req = amend_processor(&m, &session(), Some(Ok(text.clone()))).unwrap();
    match req.operation {
        Operation::AmendAbi { content, .. } => assert_eq!(content, text),
        _ => panic!("wrong operation"),
    }
    let err = amend_processor(&m, &session(), Some(Err("No such file".to_string())));
    assert_eq!(err.err(), Some("No such file".to_string()));
}

#[test]
fn abi_inline_content_needs_no_file() {
    let m = Invocation {
        path: vec![
            level("amend", vec![]),
            level(
                "abi",
                vec![arg("address", &[ADDR]), arg("content", &["[]"]), arg("admin-private", &[KEY])],
            ),
        ],
    };
    assert_eq!(file_to_read(&m, &session()), None);
    let req = amend_processor(&m, &session(), None).unwrap();
    match req.operation {
        Operation::AmendAbi { content, .. } => assert_eq!(content, "[]"),
        _ => panic!("wrong operation"),
    }
}

#[test]
fn balance_request_carries_parsed_values() {
    let m = Invocation {
        path: vec![
            level("amend", vec![]),
            level(
                "balance",
                vec![
                    arg("address", &[ADDR]),
                    arg("balance", &["1000"]),
                    arg("admin-private", &[KEY]),
                    arg("chain-id", &["1"]),
                ],
            ),
        ],
    };
    let req = amend_processor(&m, &session(), None).unwrap();
    assert_eq!(req.context.chain_id, Some(1));
    assert_eq!(req.context.private_key.as_ref().unwrap().bytes.len(), 32);
    match req.operation {
        Operation::AmendBalance { address, balance, quota } => {
            assert_eq!(address.bytes.len(), 20);
            assert_eq!(address.bytes[18], 0x00);
            assert_eq!(address.bytes[19], 0x04);
            assert_eq!(balance, U256::from_u64(1000));
            assert_eq!(quota, None);
        }
        _ => panic!("wrong operation"),
    }
}

#[test]
fn get_h256_defaults_height() {
    let m = Invocation {
        path: vec![
            level("amend", vec![]),
            level("get-h256", vec![arg("address", &[ADDR]), arg("key", &[KEY])]),
        ],
    };
    let req = amend_processor(&m, &session(), None).unwrap();
    match req.operation {
        Operation::GetH256 { key, height, .. } => {
            assert_eq!(key.bytes[31], 1);
            assert_eq!(height, "latest");
        }
        _ => panic!("wrong operation"),
    }
}

#[test]
fn unknown_leaf_is_usage_error() {
    let m = Invocation { path: vec![level("amend", vec![]), level("nope", vec![])] };
    assert_eq!(
        amend_processor(&m, &session(), None).err(),
        Some("USAGE: amend <SUBCOMMAND>".to_string())
    );
    let bad_addr = Invocation {
        path: vec![
            level("amend", vec![]),
            level("code", vec![arg("address", &["0x12"]), arg("content", &["0x00"])]),
        ],
    };
    assert!(amend_processor(&bad_addr, &session(), None).is_err());
}

#[test]
fn undecodable_key_fails_before_file_read() {
    let m = Invocation {
        path: vec![
            level("amend", vec![]),
            level(
                "abi",
                vec![arg("address", &[ADDR]), arg("path", &["abi.json"]), arg("admin-private", &["0x12"])],
            ),
        ],
    };
    assert_eq!(file_to_read(&m, &session()), None);
    assert_eq!(
        amend_processor(&m, &session(), None).err(),
        Some("Invalid input length".to_string())
    );
}

#[test]
fn kv_needs_pairs() {
    let family = amend_command();
    let set = &family.root.children[2];
    let odd = vec![
        arg("address", &[ADDR]),
        arg("admin-private", &[KEY]),
        arg("kv", &[KEY, KEY, KEY]),
    ];
    assert!(validate_leaf(set, &family.common, &odd).is_err());
    let pairs = vec![
        arg("address", &[ADDR]),
        arg("admin-private", &[KEY]),
        arg("kv", &[KEY, KEY, KEY, KEY]),
    ];
    assert_eq!(validate_leaf(set, &family.common, &pairs), Ok(()));
}

#[test]
fn get_h256_takes_no_shared_arguments() {
    let family = amend_command();
    let get = &family.root.children[3];
    let given = vec![arg("address", &[ADDR]), arg("key", &[KEY])];
    assert_eq!(validate_leaf(get, &family.common, &given), Ok(()));
    let code = &family.root.children[0];
    let no_key = vec![arg("address", &[ADDR]), arg("content", &["0x00"])];
    assert!(validate_leaf(code, &family.common, &no_key).is_err());
    assert_eq!(get.args[2].default_value, Some("latest".to_string()));
}

#[test]
fn session_keeps_last_response() {
    let mut s = session();
    record_response(&mut s, "0xabc".to_string());
    assert_eq!(s.last_response, Some("0xabc".to_string()));
    assert_eq!(s.url, "http://127.0.0.1:1337");
}
