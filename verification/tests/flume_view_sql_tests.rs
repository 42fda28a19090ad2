use flumedb::flume_view_sql::{FlumeViewError, FlumeViewSql, SsbMessage};

fn parse_ssb_message(bytes: &[u8]) -> Option<SsbMessage> {
    let parsed: serde_json::Value = serde_json::from_slice(bytes).ok()?;
    let key = parsed.get("key")?.as_str()?.to_string();
    let received_time = parsed.get("timestamp")?.as_i64()?;
    let value = parsed.get("value")?;
    let author = value.get("author")?.as_str()?.to_string();
    let seq = u32::try_from(value.get("sequence")?.as_u64()?).ok()?;
    let asserted_time = value.get("timestamp")?.as_i64()?;
    let content = value.get("content")?;
    if !content.is_object() {
        return None;
    }
    let content_type = content.get("type").and_then(|v| v.as_str()).map(String::from);
    let root = content.get("root").and_then(|v| v.as_str()).map(String::from);
    let branch = content.get("branch").and_then(|v| v.as_str()).map(String::from);
    Some(SsbMessage {
        key,
        author,
        seq,
        received_time,
        asserted_time,
        root,
        branch,
        content_type,
        content: content.to_string(),
    })
}

#[test]
fn open_connection() {
    FlumeViewSql::new("/tmp/test.sqlite3", 0).unwrap();
    assert!(true)
}

#[test]
fn append() {
    let expected_seq = 1234;
    let filename = "/tmp/test.sqlite3";
    {
        // start from an empty store, as deleting the file would
        let conn = rusqlite::Connection::open(filename).unwrap();
        conn.execute("DROP TABLE IF EXISTS message", ()).unwrap();
        conn.execute("DROP TABLE IF EXISTS links", ()).unwrap();
        conn.execute("DROP TABLE IF EXISTS heads", ()).unwrap();
    }

    let mut view = FlumeViewSql::new(filename, 0).unwrap();
    let jsn = r#####"{
  "key": "%KKPLj1tWfuVhCvgJz2hG/nIsVzmBRzUJaqHv+sb+n1c=.sha256",
  "value": {
    "previous": "%xsMQA2GrsZew0GSxmDSBaoxDafVaUJ07YVaDGcp65a4=.sha256",
    "author": "@QlCTpvY7p9ty2yOFrv1WU1AE88aoQc4Y7wYal7PFc+w=.ed25519",
    "sequence": 4797,
    "timestamp": 1543958997985,
    "hash": "sha256",
    "content": {
      "type": "post",
      "root": "%9EdpeKC5CgzpQs/x99CcnbD3n6ugUlwm19F7ZTqMh5w=.sha256",
      "branch": "%sQV8QpyUNvh7fBAs2ts00Qo2gj44CQBmwonWJzm+AeM=.sha256",
      "reply": {
        "%9EdpeKC5CgzpQs/x99CcnbD3n6ugUlwm19F7ZTqMh5w=.sha256": "@+UMKhpbzXAII+2/7ZlsgkJwIsxdfeFi36Z5Rk1gCfY0=.ed25519",
        "%sQV8QpyUNvh7fBAs2ts00Qo2gj44CQBmwonWJzm+AeM=.sha256": "@vzoU7/XuBB5B0xueC9NHFr9Q76VvPktD9GUkYgN9lAc=.ed25519"
      },
      "channel": null,
      "recps": null,
      "text": "If I understand correctly, cjdns overlaying over old IP (which is basically all of the cjdns uses so far) still requires old IP addresses to introduce you to the cjdns network, so the chicken and egg problem is still there.",
      "mentions": []
    },
    "signature": "mi5j/buYZdsiH8l6CVWRqdBKe+0UG6tVTOoVVjMhYl38Nkmb8wiIEfe7zu0JWuiHkaAIq+0/ZqYr6aV14j4fAw==.sig.ed25519"
  },
  "timestamp": 1543959001933
}
"#####;
    let message = parse_ssb_message(jsn.as_bytes());
    assert!(message.is_some());
    view.append(expected_seq, message).unwrap();
    let seq = view
        .get_seq_by_key("%KKPLj1tWfuVhCvgJz2hG/nIsVzmBRzUJaqHv+sb+n1c=.sha256".to_string())
        .unwrap();
    assert_eq!(seq, expected_seq as i64);

    let seqs = view.get_seqs_by_type("post".to_string()).unwrap();
    assert_eq!(seqs[0], expected_seq as i64);
}

#[test]
fn non_json_payload_leaves_the_view_unchanged() {
    let mut view = FlumeViewSql::new(":memory:", 0).unwrap();
    let message = parse_ssb_message(b"not json at all");
    assert!(message.is_none());
    view.append(77, message).unwrap();
    assert_eq!(
        view.get_seq_by_key("anything".to_string()).unwrap_err(),
        FlumeViewError::NotFound
    );
    let seqs = view.get_seqs_by_type("post".to_string()).unwrap();
    assert!(seqs.is_empty());
}

#[test]
fn message_without_expected_shape_is_not_a_message() {
    let message = parse_ssb_message(b"{\"value\": 1}");
    assert!(message.is_none());
}

#[test]
fn latest_is_what_the_view_was_opened_with() {
    let view = FlumeViewSql::new(":memory:", 42).unwrap();
    assert_eq!(view.latest(), 42);
}

#[test]
fn opening_a_directory_as_a_store_fails() {
    match FlumeViewSql::new("/tmp", 0) {
        Err(e) => assert_eq!(e, FlumeViewError::Sql),
        Ok(_) => panic!("opening a directory should fail"),
    }
}
