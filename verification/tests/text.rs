use ce_protocol_ws::text::{characters, cut, parts, split_csv, trim, white_space};

const SAMPLES: [&str; 14] = [
    "",
    " ",
    "a",
    " a b ",
    "\t\u{a0}x\u{3000}\r\n",
    ",",
    ",,a,,",
    " a , b,c ",
    "a=b=c",
    "=",
    "é=ü, ß ,日本",
    "one\ntwo\r\n\nthree",
    "\n",
    "ws://relay.example:4820, ws://b:1",
];

#[test]
fn white_space_is_what_the_standard_library_takes_for_it() {
    for n in 0..=0x10ffffu32 {
        if let Some(c) = char::from_u32(n) {
            assert_eq!(white_space(c), c.is_whitespace(), "{:x}", n);
        }
    }
}

#[test]
fn characters_come_in_order() {
    assert_eq!(characters("aé日"), vec!['a', 'é', '日']);
    assert!(characters("").is_empty());
}

#[test]
fn trimming_takes_white_space_from_both_ends() {
    assert_eq!(trim("  a b\t"), "a b");
    assert_eq!(trim("\u{2003}é\u{85}"), "é");
    assert_eq!(trim(" \n "), "");
    for s in SAMPLES {
        assert_eq!(trim(s), s.trim());
        assert_eq!(trim(trim(s)), trim(s));
    }
}

#[test]
fn texts_are_split_at_a_separator() {
    assert_eq!(parts("a,b,,c", ','), vec!["a", "b", "", "c"]);
    assert_eq!(parts("", ','), vec![""]);
    assert_eq!(parts(",", ','), vec!["", ""]);
    for s in SAMPLES {
        assert_eq!(parts(s, ','), s.split(',').collect::<Vec<_>>());
        assert_eq!(parts(s, '\n'), s.split('\n').collect::<Vec<_>>());
    }
}

#[test]
fn texts_are_cut_at_the_first_separator() {
    assert_eq!(cut("a=b=c", '='), Some(("a", "b=c")));
    assert_eq!(cut("=b", '='), Some(("", "b")));
    assert_eq!(cut("a=", '='), Some(("a", "")));
    assert_eq!(cut("ab", '='), None);
    for s in SAMPLES {
        assert_eq!(cut(s, '='), s.split_once('='));
    }
}

#[test]
fn lists_keep_their_entries_and_nothing_blank() {
    assert_eq!(split_csv(" a, b ,,c "), vec!["a", "b", "c"]);
    assert!(split_csv("").is_empty());
    assert!(split_csv(" , ,").is_empty());
    for s in SAMPLES {
        let expected: Vec<String> =
            s.split(',').map(str::trim).filter(|p| !p.is_empty()).map(str::to_string).collect();
        assert_eq!(split_csv(s), expected);
    }
}

#[test]
fn entries_of_a_list_are_clean() {
    for entry in split_csv(" a b , c\u{a0},, d,") {
        assert!(!entry.is_empty());
        assert_eq!(entry.trim(), entry);
        assert!(!entry.contains(','));
    }
}

#[test]
fn a_list_is_read_back() {
    let list = vec!["ws://a:1", "ws://b:2", "c d"];
    assert_eq!(split_csv(&list.join(",")), list);
    assert_eq!(split_csv(&list[..1].join(",")), list[..1]);
}
