use hyprkill::clients::{client_pid, client_title, decode_clients, ClientRecord};
use hyprkill::errors::Errors;
use hyprkill::registry::{input_parser, TitleRegistry};
use hyprkill::resolver::{cmd_out_json_parser, hyprctl_parser, record_clients, resolve_document};

fn registry(names: &[&str]) -> TitleRegistry {
    input_parser(names.iter().map(|s| s.to_string()).collect())
}

fn output(text: &str) -> Result<Vec<u8>, String> {
    Ok(text.as_bytes().to_vec())
}

fn record(title: &str, pid: usize) -> ClientRecord {
    ClientRecord { title: title.to_string(), pid }
}

fn all_unresolved(reg: &TitleRegistry) -> bool {
    (0..reg.len()).all(|i| reg.pid_at(i).is_none())
}

#[test]
fn resolves_requested_titles_from_the_client_list() {
    let mut reg = registry(&["A", "B", "D"]);
    let r = hyprctl_parser(
        &mut reg,
        output(r#"[{"title":"A","pid":100},{"title":"B","pid":0},{"title":"C","pid":200}]"#),
    );
    assert!(r.is_ok());
    assert_eq!(reg.get("A"), Some(Some(100)));
    assert_eq!(reg.get("B"), Some(None));
    assert_eq!(reg.get("D"), Some(None));
    assert_eq!(reg.get("C"), None);
    assert_eq!(reg.len(), 3);
}

#[test]
fn last_window_with_a_title_wins() {
    let mut reg = registry(&["A"]);
    let r = hyprctl_parser(
        &mut reg,
        output(r#"[{"title":"A","pid":100},{"title":"A","pid":300}]"#),
    );
    assert!(r.is_ok());
    assert_eq!(reg.get("A"), Some(Some(300)));
}

#[test]
fn last_window_wins_also_with_pid_zero() {
    let mut reg = registry(&["A"]);
    let r = hyprctl_parser(
        &mut reg,
        output(r#"[{"title":"A","pid":100},{"title":"A","pid":0}]"#),
    );
    assert!(r.is_ok());
    assert_eq!(reg.get("A"), Some(None));
}

#[test]
fn title_with_embedded_quotes_resolves() {
    let mut reg = registry(&["My \"Game\"", "\"", "\"quoted\""]);
    let r = hyprctl_parser(
        &mut reg,
        output(
            r#"[{"title":"My \"Game\"","pid":42},{"title":"\"","pid":43},{"title":"\"quoted\"","pid":44}]"#,
        ),
    );
    assert!(r.is_ok());
    assert_eq!(reg.get("My \"Game\""), Some(Some(42)));
    assert_eq!(reg.get("\""), Some(Some(43)));
    assert_eq!(reg.get("\"quoted\""), Some(Some(44)));
}

#[test]
fn title_with_escaped_unicode_resolves() {
    let mut reg = registry(&["caf\u{e9} \u{2603}"]);
    let r = hyprctl_parser(
        &mut reg,
        output(r#"[{"title":"café ☃","pid":9}]"#),
    );
    assert!(r.is_ok());
    assert_eq!(reg.get("caf\u{e9} \u{2603}"), Some(Some(9)));
}

#[test]
fn malformed_json_is_a_parse_failure_and_changes_nothing() {
    let mut reg = registry(&["A", "B"]);
    let r = hyprctl_parser(&mut reg, output(r#"[{"title":"A","pid":100},{"title":"B""#));
    assert!(matches!(r, Err(Errors::SerdeParseError(_))));
    assert_eq!(reg.len(), 2);
    assert!(all_unresolved(&reg));
    assert_eq!(reg.get("A"), Some(None));
    assert_eq!(reg.get("B"), Some(None));
}

#[test]
fn empty_output_is_a_parse_failure() {
    let mut reg = registry(&["A"]);
    let r = hyprctl_parser(&mut reg, output(""));
    assert!(matches!(r, Err(Errors::SerdeParseError(_))));
    assert!(all_unresolved(&reg));
}

#[test]
fn text_that_is_not_json_is_a_parse_failure() {
    let mut reg = registry(&["A"]);
    let r = hyprctl_parser(&mut reg, output("no clients here"));
    assert!(matches!(r, Err(Errors::SerdeParseError(_))));
    assert!(all_unresolved(&reg));
}

#[test]
fn failure_of_the_query_tool_is_reported_with_its_message() {
    let mut reg = registry(&["A"]);
    let r = hyprctl_parser(&mut reg, Err("hyprctl: command not found".to_string()));
    match r {
        Err(Errors::HprctlError(message)) => assert_eq!(message, "hyprctl: command not found"),
        _ => panic!("expected the tool's failure"),
    }
    assert!(all_unresolved(&reg));
}

#[test]
fn json_that_is_no_array_is_a_parse_failure() {
    for text in ["{}", r#"{"title":"A","pid":1}"#, "null", "5", r#""A""#, "true"] {
        let mut reg = registry(&["A"]);
        let r = hyprctl_parser(&mut reg, output(text));
        match r {
            Err(Errors::SerdeParseError(cause)) => {
                assert!(cause.is_data());
                assert!(cause.to_string().contains("expected an array"));
            }
            _ => panic!("expected a parse failure"),
        }
        assert!(all_unresolved(&reg));
        assert_eq!(reg.get("A"), Some(None));
    }
}

#[test]
fn client_without_a_string_title_is_a_parse_failure() {
    for text in [
        r#"[{"title":"A","pid":1},{"pid":2}]"#,
        r#"[{"title":"A","pid":1},{"title":5,"pid":2}]"#,
        r#"[{"title":"A","pid":1},{"title":null,"pid":2}]"#,
        r#"[{"title":"A","pid":1},"A"]"#,
        r#"[{"title":"A","pid":1},["title","A"]]"#,
    ] {
        let mut reg = registry(&["A"]);
        let r = hyprctl_parser(&mut reg, output(text));
        match r {
            Err(Errors::SerdeParseError(cause)) => {
                assert!(cause.is_data());
                assert!(cause.to_string().contains("title"));
            }
            _ => panic!("expected a parse failure"),
        }
        assert_eq!(reg.get("A"), Some(None));
    }
}

#[test]
fn malformed_json_has_a_cause_that_names_the_place() {
    let mut reg = registry(&["A"]);
    match hyprctl_parser(&mut reg, output(r#"[{"title":"A","pid":100},{"title":"B""#)) {
        Err(Errors::SerdeParseError(cause)) => {
            assert!(cause.is_eof());
            assert_eq!(cause.line(), 1);
        }
        _ => panic!("expected a parse failure"),
    }
    match hyprctl_parser(&mut reg, output("[}")) {
        Err(Errors::SerdeParseError(cause)) => assert!(cause.is_syntax()),
        _ => panic!("expected a parse failure"),
    }
}

#[test]
fn empty_client_list_resolves_nothing() {
    let mut reg = registry(&["A"]);
    let r = hyprctl_parser(&mut reg, output("[]"));
    assert!(r.is_ok());
    assert_eq!(reg.get("A"), Some(None));
}

#[test]
fn pid_written_as_a_string_is_read() {
    let mut reg = registry(&["A", "B"]);
    let r = hyprctl_parser(
        &mut reg,
        output(r#"[{"title":"A","pid":"123"},{"title":"B","pid":"0"}]"#),
    );
    assert!(r.is_ok());
    assert_eq!(reg.get("A"), Some(Some(123)));
    assert_eq!(reg.get("B"), Some(None));
}

#[test]
fn missing_or_non_numeric_pid_counts_as_zero() {
    for text in [
        r#"[{"title":"A"}]"#,
        r#"[{"title":"A","pid":"abc"}]"#,
        r#"[{"title":"A","pid":""}]"#,
        r#"[{"title":"A","pid":null}]"#,
        r#"[{"title":"A","pid":true}]"#,
        r#"[{"title":"A","pid":-5}]"#,
        r#"[{"title":"A","pid":1.5}]"#,
        r#"[{"title":"A","pid":[100]}]"#,
        r#"[{"title":"A","pid":{"pid":100}}]"#,
        r#"[{"title":"A","pid":99999999999999999999999}]"#,
    ] {
        let mut reg = registry(&["A"]);
        reg.record_client("A", 77);
        let r = hyprctl_parser(&mut reg, output(text));
        assert!(r.is_ok());
        assert_eq!(reg.get("A"), Some(None));
    }
}

#[test]
fn other_fields_of_a_client_are_ignored() {
    let mut reg = registry(&["kitty"]);
    let r = hyprctl_parser(
        &mut reg,
        output(
            r#"[{"address":"0x55d0","mapped":true,"hidden":false,"at":[10,20],"size":[800,600],
               "workspace":{"id":1,"name":"1"},"floating":false,"monitor":0,"class":"kitty",
               "title":"kitty","initialClass":"kitty","initialTitle":"kitty","pid":4242,
               "xwayland":false,"pinned":false,"fullscreen":false,"fullscreenMode":0,
               "fakeFullscreen":false,"grouped":[],"swallowing":"0x0"}]"#,
        ),
    );
    assert!(r.is_ok());
    assert_eq!(reg.get("kitty"), Some(Some(4242)));
}

#[test]
fn resolving_twice_gives_the_same_mapping() {
    let text = r#"[{"title":"A","pid":100},{"title":"B","pid":0},{"title":"A","pid":300}]"#;
    let mut once = registry(&["A", "B", "D"]);
    assert!(hyprctl_parser(&mut once, output(text)).is_ok());
    let mut twice = registry(&["A", "B", "D"]);
    assert!(hyprctl_parser(&mut twice, output(text)).is_ok());
    assert!(hyprctl_parser(&mut twice, output(text)).is_ok());
    assert_eq!(once.len(), twice.len());
    for i in 0..once.len() {
        assert_eq!(once.title_at(i), twice.title_at(i));
        assert_eq!(once.pid_at(i), twice.pid_at(i));
    }
    assert_eq!(twice.get("A"), Some(Some(300)));
    assert_eq!(twice.get("B"), Some(None));
    assert_eq!(twice.get("D"), Some(None));
}

#[test]
fn resolution_keeps_the_order_of_the_titles() {
    let mut reg = registry(&["C", "A", "B"]);
    let r = hyprctl_parser(
        &mut reg,
        output(r#"[{"title":"A","pid":1},{"title":"B","pid":2},{"title":"C","pid":3}]"#),
    );
    assert!(r.is_ok());
    assert_eq!(reg.title_at(0).as_str(), "C");
    assert_eq!(reg.title_at(1).as_str(), "A");
    assert_eq!(reg.title_at(2).as_str(), "B");
    assert_eq!(reg.pid_at(0), Some(3));
    assert_eq!(reg.pid_at(1), Some(1));
    assert_eq!(reg.pid_at(2), Some(2));
}

#[test]
fn record_clients_takes_the_clients_in_order() {
    let mut reg = registry(&["A", "B", "D"]);
    let clients = vec![record("A", 100), record("B", 5), record("C", 200), record("B", 0), record("A", 300)];
    record_clients(&mut reg, &clients);
    assert_eq!(reg.get("A"), Some(Some(300)));
    assert_eq!(reg.get("B"), Some(None));
    assert_eq!(reg.get("D"), Some(None));
    assert_eq!(reg.get("C"), None);
}

#[test]
fn cmd_out_json_parser_accepts_json_and_rejects_the_rest() {
    let doc = cmd_out_json_parser(b"[1, 2, 3]".to_vec());
    match doc {
        Ok(v) => assert_eq!(v.as_array().map(|a| a.len()), Some(3)),
        Err(_) => panic!("expected a document"),
    }
    assert!(matches!(cmd_out_json_parser(b"[1, 2".to_vec()), Err(Errors::SerdeParseError(_))));
    assert!(matches!(cmd_out_json_parser(b"[] []".to_vec()), Err(Errors::SerdeParseError(_))));
    assert!(matches!(cmd_out_json_parser(vec![0xff, 0xfe]), Err(Errors::SerdeParseError(_))));
}

#[test]
fn decode_clients_reads_titles_and_pids() {
    let doc: serde_json::Value =
        serde_json::from_str(r#"[{"title":"A","pid":100},{"title":"","pid":"12"},{"title":"C"}]"#)
            .unwrap();
    let clients = decode_clients(&doc).unwrap();
    assert!(decode_clients(&doc).is_ok());
    assert_eq!(clients.len(), 3);
    assert_eq!(clients[0].title, "A");
    assert_eq!(clients[0].pid, 100);
    assert_eq!(clients[1].title, "");
    assert_eq!(clients[1].pid, 12);
    assert_eq!(clients[2].title, "C");
    assert_eq!(clients[2].pid, 0);
}

#[test]
fn decode_clients_rejects_what_is_no_client_list() {
    let no_array: serde_json::Value = serde_json::from_str(r#"{"title":"A"}"#).unwrap();
    assert!(matches!(decode_clients(&no_array), Err(Errors::SerdeParseError(_))));
    let untitled: serde_json::Value = serde_json::from_str(r#"[{"pid":1}]"#).unwrap();
    assert!(matches!(decode_clients(&untitled), Err(Errors::SerdeParseError(_))));
}

#[test]
fn client_title_and_pid_read_the_members() {
    let item: serde_json::Value =
        serde_json::from_str(r#"{"title":"T \"x\"","pid":18446744073709551615}"#).unwrap();
    assert_eq!(client_title(&item), Some("T \"x\"".to_string()));
    assert_eq!(client_pid(&item), usize::MAX);
    let bare: serde_json::Value = serde_json::from_str(r#"{"name":"T"}"#).unwrap();
    assert_eq!(client_title(&bare), None);
    assert_eq!(client_pid(&bare), 0);
    let number: serde_json::Value = serde_json::from_str("17").unwrap();
    assert_eq!(client_title(&number), None);
    assert_eq!(client_pid(&number), 0);
}

#[test]
fn resolve_document_leaves_the_registry_alone_on_failure() {
    let mut reg = registry(&["A"]);
    reg.record_client("A", 5);
    let doc: serde_json::Value = serde_json::from_str(r#"[{"title":"A","pid":9},{"pid":1}]"#).unwrap();
    assert!(matches!(resolve_document(&mut reg, &doc), Err(Errors::SerdeParseError(_))));
    assert_eq!(reg.get("A"), Some(Some(5)));
    let good: serde_json::Value = serde_json::from_str(r#"[{"title":"A","pid":9}]"#).unwrap();
    assert!(resolve_document(&mut reg, &good).is_ok());
    assert_eq!(reg.get("A"), Some(Some(9)));
}
