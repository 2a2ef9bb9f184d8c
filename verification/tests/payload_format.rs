use fam_core_lib::db::payload::{
    account_payload_text, operation_payload_text, state_payload_text, Entity,
};
use fam_core_lib::db::{serialize_entity, Account, Operation, State};

#[test]
fn account_snapshot_is_exact() {
    let account = Account {
        id: 1,
        name: "Test".to_string(),
        acc_type: "cash".to_string(),
        created_at: 123456,
    };
    assert_eq!(
        serialize_entity(&account).unwrap(),
        "{\"id\":1,\"name\":\"Test\",\"type\":\"cash\",\"created_at\":123456}"
    );
    assert_eq!(account.entity_kind(), "account");
}

#[test]
fn operation_snapshot_is_exact() {
    let operation = Operation {
        id: 456,
        account_id: 123,
        amount: -10_050,
        description: "Lunch".to_string(),
        ts: 1700000100,
    };
    assert_eq!(
        serialize_entity(&operation).unwrap(),
        "{\"id\":456,\"account_id\":123,\"amount\":-100.5,\"description\":\"Lunch\",\"ts\":1700000100}"
    );
    assert_eq!(operation.entity_kind(), "operation");
}

#[test]
fn state_snapshot_is_exact() {
    let state = State { id: 789, account_id: 123, balance: 100_000, ts: 1700000200 };
    assert_eq!(
        serialize_entity(&state).unwrap(),
        "{\"id\":789,\"account_id\":123,\"balance\":1000.0,\"ts\":1700000200}"
    );
    assert_eq!(state_payload_text(&state), serialize_entity(&state).unwrap());
    assert_eq!(state.entity_kind(), "state");
}

#[test]
fn texts_are_escaped_as_json_strings() {
    let account = Account {
        id: 2,
        name: "He said \"hi\"\n\\ \t\u{1}".to_string(),
        acc_type: "".to_string(),
        created_at: -1,
    };
    assert_eq!(
        serialize_entity(&account).unwrap(),
        "{\"id\":2,\"name\":\"He said \\\"hi\\\"\\n\\\\ \\t\\u0001\",\"type\":\"\",\"created_at\":-1}"
    );
}

#[test]
fn snapshots_are_what_a_json_reader_expects() {
    let operation = Operation {
        id: 3,
        account_id: 9,
        amount: 5,
        description: "a \"quoted\" café ☕".to_string(),
        ts: 42,
    };
    let text = serialize_entity(&operation).unwrap();
    let value: serde_json::Value = serde_json::from_str(&text).unwrap();
    assert_eq!(value["id"].as_i64(), Some(3));
    assert_eq!(value["account_id"].as_i64(), Some(9));
    assert_eq!(value["amount"].as_f64(), Some(0.05));
    assert_eq!(value["description"].as_str(), Some("a \"quoted\" café ☕"));
    assert_eq!(value["ts"].as_i64(), Some(42));
}

#[test]
fn frames_are_written_around_the_given_strings() {
    assert_eq!(
        account_payload_text(7, "\"n\"", "\"t\"", 8),
        "{\"id\":7,\"name\":\"n\",\"type\":\"t\",\"created_at\":8}"
    );
    assert_eq!(
        operation_payload_text(1, 2, 300, "\"d\"", 4),
        "{\"id\":1,\"account_id\":2,\"amount\":3.0,\"description\":\"d\",\"ts\":4}"
    );
}

fn json_string_by_the_rules(text: &str) -> String {
    let mut out = String::from("\"");
    for c in text.chars() {
        match c {
            '"' => out.push_str("\\\""),
            '\\' => out.push_str("\\\\"),
            '\u{8}' => out.push_str("\\b"),
            '\u{c}' => out.push_str("\\f"),
            '\n' => out.push_str("\\n"),
            '\r' => out.push_str("\\r"),
            '\t' => out.push_str("\\t"),
            c if (c as u32) < 0x20 => out.push_str(&format!("\\u{:04x}", c as u32)),
            c => out.push(c),
        }
    }
    out.push('"');
    out
}

#[test]
fn every_character_is_escaped_by_the_rules() {
    let mut samples: Vec<char> = (0u32..=0x100).filter_map(char::from_u32).collect();
    samples.extend(['\u{7ff}', '\u{800}', '\u{2028}', '\u{2029}', '\u{ffff}', '\u{1f600}']);
    for c in samples {
        let text = format!("a{}b{}", c, c);
        let state_free = Operation { id: 1, account_id: 2, amount: 0, description: text.clone(), ts: 3 };
        let expected = format!(
            "{{\"id\":1,\"account_id\":2,\"amount\":0.0,\"description\":{},\"ts\":3}}",
            json_string_by_the_rules(&text)
        );
        assert_eq!(serialize_entity(&state_free).unwrap(), expected, "{:?}", c);
    }
    assert_eq!(json_string_by_the_rules("\u{1f}\u{7f}"), "\"\\u001f\u{7f}\"");
}
