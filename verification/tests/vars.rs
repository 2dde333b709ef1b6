use std::collections::HashMap;

use ce_protocol_ws::vars::{load_env_file, Vars};

#[test]
fn env_file_parses_pairs_and_ignores_noise() {
    let m = load_env_file(Some(
        "# link config\nCE_WS_LISTEN = 0.0.0.0:4820\n\nCE_WS_PEERS=aa,bb\nBROKEN LINE\nEMPTY=\n",
    ));
    assert_eq!(m.get("CE_WS_LISTEN").unwrap(), "0.0.0.0:4820");
    assert_eq!(m.get("CE_WS_PEERS").unwrap(), "aa,bb");
    assert!(!m.contains_key("BROKEN LINE"));
    assert!(!m.contains_key("EMPTY"), "empty values must not shadow env defaults");
    assert!(load_env_file(None).is_empty());
}

#[test]
fn names_have_the_value_that_they_were_given_last() {
    let mut m = Vars::new();
    assert!(m.is_empty());
    assert_eq!(m.get("a"), None);
    m.insert("a".to_string(), "1".to_string());
    m.insert("b".to_string(), "2".to_string());
    m.insert("a".to_string(), "3".to_string());
    assert!(!m.is_empty());
    assert_eq!(m.get("a").unwrap(), "3");
    assert_eq!(m.get("b").unwrap(), "2");
    assert!(m.contains_key("b"));
    assert!(!m.contains_key("c"));
}

fn expected(text: &str) -> HashMap<String, String> {
    text.lines()
        .map(str::trim)
        .filter(|l| !l.is_empty() && !l.starts_with('#'))
        .filter_map(|l| l.split_once('=').map(|(k, v)| (k.trim().to_string(), v.trim().to_string())))
        .filter(|(_, v)| !v.is_empty())
        .collect()
}

#[test]
fn files_are_read_line_by_line() {
    let texts = [
        "",
        "\n\n",
        "A=1",
        "A=1\r\nB=2\r\n",
        "A=1\nA=2\n",
        "A=1\nA=\n",
        "  # A=1\n#B=2\n C = 3 # not a comment\n",
        "=x\n",
        "A=b=c\n\u{3000}D\t=\u{a0}é \n",
        "A\r=1\rB=2",
        "no pair\n= \n==\n",
    ];
    let names = ["A", "B", "C", "D", "", "#B", "# A", "A\r", "no pair"];
    for text in texts {
        let m = load_env_file(Some(text));
        let e = expected(text);
        assert_eq!(m.is_empty(), e.is_empty(), "{:?}", text);
        for name in names {
            assert_eq!(m.get(name), e.get(name), "{:?} in {:?}", name, text);
        }
    }
}

#[test]
fn added_lines_win() {
    let m = load_env_file(Some("A=1\nB=2\nA=3\nC="));
    assert_eq!(m.get("A").unwrap(), "3");
    assert_eq!(m.get("B").unwrap(), "2");
    assert!(!m.contains_key("C"));
}

#[test]
fn a_line_is_cut_at_its_first_equals() {
    let m = load_env_file(Some("  URL =  ws://h/?a=b  "));
    assert_eq!(m.get("URL").unwrap(), "ws://h/?a=b");
    assert!(load_env_file(Some(" #X = y")).is_empty());
    assert!(load_env_file(Some("X = \t")).is_empty());
}

#[test]
fn a_pair_is_read_back() {
    let m = load_env_file(Some(&format!("{}={}", "CE_WS_DIAL", "ws://relay:4820, ws://b")));
    assert_eq!(m.get("CE_WS_DIAL").unwrap(), "ws://relay:4820, ws://b");
}

#[test]
fn pairs_are_read_back() {
    let pairs = [("CE_WS_LISTEN", "0.0.0.0:4820"), ("CE_WS_PEERS", "aa, bb"), ("", "x=y"), ("é", "#")];
    let lines: Vec<String> = pairs.iter().map(|(k, v)| format!("{}={}", k, v)).collect();
    let m = load_env_file(Some(&lines.join("\n")));
    for (name, value) in pairs {
        assert_eq!(m.get(name).unwrap(), value);
    }
    assert!(!m.contains_key("CE_WS_DIAL"));
    assert!(load_env_file(Some("")).is_empty());
}

#[test]
fn a_silent_line_is_ignored_anywhere() {
    for line in ["", "  ", "# C=3", "C=", "C", " C = \t\r"] {
        for text in [
            format!("{}\nA=1\nB=2", line),
            format!("A=1\n{}\nB=2", line),
            format!("A=1\nB=2\n{}", line),
        ] {
            let m = load_env_file(Some(&text));
            assert_eq!(m.get("A").unwrap(), "1", "{:?}", text);
            assert_eq!(m.get("B").unwrap(), "2", "{:?}", text);
            assert!(!m.contains_key("C"), "{:?}", text);
        }
        assert!(load_env_file(Some(line)).is_empty());
    }
}
