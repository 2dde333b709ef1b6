use ce_protocol_ws::settings::{config_path, link_config, registration, var, ConfigError};
use ce_protocol_ws::transport::{run, RunError};
use ce_protocol_ws::vars::{load_env_file, Vars};

fn vars(pairs: &[(&str, &str)]) -> Vars {
    let mut v = Vars::new();
    for (name, value) in pairs {
        v.insert(name.to_string(), value.to_string());
    }
    v
}

#[test]
fn the_environment_wins() {
    let file = vars(&[("A", "file"), ("B", "file")]);
    let env = vars(&[("A", " env "), ("C", "env")]);
    assert_eq!(var(&env, &file, "A").unwrap(), " env ");
    assert_eq!(var(&env, &file, "B").unwrap(), "file");
    assert_eq!(var(&env, &file, "C").unwrap(), "env");
    assert_eq!(var(&env, &file, "D"), None);
}

#[test]
fn a_blank_variable_is_none() {
    let file = vars(&[("A", "file")]);
    let env = vars(&[("A", " \t"), ("B", "")]);
    assert_eq!(var(&env, &file, "A").unwrap(), "file");
    assert_eq!(var(&env, &file, "B"), None);
}

#[test]
fn settings_are_not_blank() {
    let file = load_env_file(Some("A= \nB= x \n"));
    let env = vars(&[("A", "  "), ("B", " ")]);
    assert_eq!(var(&env, &file, "A"), None);
    assert_eq!(var(&env, &file, "B").unwrap(), "x");
}

#[test]
fn a_blank_line_shadows_nothing() {
    let env = vars(&[]);
    for noise in ["A=", "# A=2", "A", ""] {
        let file = load_env_file(Some(&format!("A=1\n{}", noise)));
        assert_eq!(var(&env, &file, "A").unwrap(), "1");
    }
}

#[test]
fn the_path_of_the_file_is_taken_as_it_stands() {
    assert_eq!(config_path(&vars(&[("CE_WS_CONFIG", "/etc/ws.env")])).unwrap(), "/etc/ws.env");
    assert_eq!(config_path(&vars(&[("CE_WS_CONFIG", " ")])).unwrap(), " ");
    assert_eq!(config_path(&vars(&[])), None);
}

#[test]
fn the_adapter_presents_itself() {
    let file = vars(&[("CE_LANE_SOCK", "/run/lane.sock"), ("CE_TRANSPORT_NAME", "from-file")]);
    let env = vars(&[("CE_API_TOKEN", " secret\n"), ("CE_TRANSPORT_CAPS", "00ff")]);
    let r = registration(&env, &file);
    assert_eq!(r.sock.unwrap(), "/run/lane.sock");
    assert_eq!(r.token.unwrap(), "secret");
    assert_eq!(r.name, "from-file");
    assert_eq!(r.caps.unwrap(), "00ff");
    let r = registration(&vars(&[]), &vars(&[]));
    assert_eq!(r.sock, None);
    assert_eq!(r.token, None);
    assert_eq!(r.name, "ce-protocol-ws");
    assert_eq!(r.caps, None);
}

#[test]
fn settings_make_a_configuration() {
    let a = "aa".repeat(32);
    let b = "BB".repeat(32);
    let file = load_env_file(Some(&format!("CE_WS_PEERS={}, {},\nCE_WS_LISTEN=0.0.0.0:4820", a, b)));
    let env = vars(&[("CE_WS_DIAL", "ws://relay:4820, ,ws://b")]);
    let cfg = link_config(&env, &file).unwrap();
    assert_eq!(cfg.listen.unwrap(), "0.0.0.0:4820");
    assert_eq!(cfg.dial, vec!["ws://relay:4820", "ws://b"]);
    assert_eq!(cfg.peers, vec![[0xAA; 32], [0xBB; 32]]);
}

#[test]
fn the_first_bad_peer_is_named() {
    let env = vars(&[("CE_WS_PEERS", &format!("{},zz,abc", "aa".repeat(32)))]);
    let e = link_config(&env, &vars(&[])).unwrap_err();
    assert!(matches!(e, ConfigError::BadPeer(_)));
    assert_eq!(
        e.message("unused"),
        "CE_WS_PEERS entry 'zz' is not hex: Invalid character 'z' at position 0"
    );
}

#[test]
fn settings_without_a_link_are_refused() {
    let env = vars(&[("CE_WS_PEERS", &"aa".repeat(32)), ("CE_WS_DIAL", " , ")]);
    let e = link_config(&env, &vars(&[])).unwrap_err();
    assert!(matches!(e, ConfigError::NothingToDo));
    assert_eq!(
        e.message("/data/protocol-ws.env"),
        "no CE_WS_LISTEN and no CE_WS_DIAL — set env vars or write /data/protocol-ws.env (KEY=VALUE lines)"
    );
}

#[test]
fn settings_give_work_but_may_name_no_peers() {
    let cfg = link_config(&vars(&[("CE_WS_LISTEN", "0.0.0.0:1")]), &vars(&[])).unwrap();
    assert!(matches!(run(cfg), Err(RunError::PeersRequired)));
}
