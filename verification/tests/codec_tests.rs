use threadstore::codec::decode_reply;
use threadstore::codec::decode_thread;
use threadstore::codec::encode_reply;
use threadstore::codec::encode_thread;
use threadstore::keys::reply_key_exec;
use threadstore::keys::reply_prefix_exec;
use threadstore::keys::thread_key_exec;
use threadstore::keys::thread_scan_prefix_exec;
use threadstore::model::Reply;
use threadstore::model::Thread;

fn sample_thread() -> Thread {
    Thread {
        id: 7,
        title: "quote \" back\\slash".to_string(),
        message: "line\nbreak\ttab \u{1} ctrl é€ \u{1F600}".to_string(),
        last_updated: -1234567890123,
        image_url: Some("/uploads/x.jpg".to_string()),
    }
}

#[test]
fn thread_round_trips_with_escapes_and_unicode() {
    let t = sample_thread();
    let bytes = encode_thread(&t);
    let back = decode_thread(&bytes).expect("decodes");
    assert_eq!(back.id, t.id);
    assert_eq!(back.title, t.title);
    assert_eq!(back.message, t.message);
    assert_eq!(back.last_updated, t.last_updated);
    assert_eq!(back.image_url, t.image_url);
}

#[test]
fn thread_round_trips_without_image() {
    let t = Thread {
        id: -2147483648,
        title: "t".to_string(),
        message: "m".to_string(),
        last_updated: i64::MIN,
        image_url: None,
    };
    let bytes = encode_thread(&t);
    let back = decode_thread(&bytes).expect("decodes");
    assert_eq!(back.id, t.id);
    assert_eq!(back.last_updated, i64::MIN);
    assert!(back.image_url.is_none());
}

#[test]
fn reply_round_trips() {
    let r = Reply {
        id: 2147483647,
        message: "reply with \"escapes\" and \\ and \r\n".to_string(),
    };
    let bytes = encode_reply(&r);
    let back = decode_reply(&bytes).expect("decodes");
    assert_eq!(back.id, r.id);
    assert_eq!(back.message, r.message);
}

#[test]
fn encoded_thread_is_plain_canonical_json() {
    let t = Thread {
        id: 1,
        title: "hi".to_string(),
        message: "there".to_string(),
        last_updated: 42,
        image_url: None,
    };
    let bytes = encode_thread(&t);
    assert_eq!(
        String::from_utf8(bytes).expect("utf8"),
        "{\"id\":1,\"title\":\"hi\",\"message\":\"there\",\"last_updated\":42,\"image_url\":null}"
    );
}

#[test]
fn encoded_record_parses_with_a_stock_json_parser() {
    let t = sample_thread();
    let bytes = encode_thread(&t);
    let v: serde_json::Value = serde_json::from_slice(&bytes).expect("valid JSON");
    assert_eq!(v["id"].as_i64(), Some(7));
    assert_eq!(v["title"].as_str(), Some(t.title.as_str()));
    assert_eq!(v["message"].as_str(), Some(t.message.as_str()));
    assert_eq!(v["last_updated"].as_i64(), Some(t.last_updated));
    assert_eq!(v["image_url"].as_str(), Some("/uploads/x.jpg"));
}

#[test]
fn decoder_accepts_stock_serializer_output() {
    let bytes =
        "{\"id\":3,\"title\":\"a\\nb\",\"message\":\"c\\u0001d\",\"last_updated\":-3,\"image_url\":\"/u/x.jpg\"}"
            .as_bytes()
            .to_vec();
    let t = decode_thread(&bytes).expect("decodes");
    assert_eq!(t.id, 3);
    assert_eq!(t.title, "a\nb");
    assert_eq!(t.message, "c\u{1}d");
    assert_eq!(t.last_updated, -3);
    assert_eq!(t.image_url.as_deref(), Some("/u/x.jpg"));
    let rb = "{\"id\":1,\"message\":\"ok\"}".as_bytes().to_vec();
    let r = decode_reply(&rb).expect("decodes");
    assert_eq!(r.id, 1);
    assert_eq!(r.message, "ok");
}

#[test]
fn malformed_records_are_rejected() {
    let cases: Vec<&str> = vec![
        "",
        "{",
        "{\"id\":1}",
        "{\"id\":x,\"title\":\"a\",\"message\":\"b\",\"last_updated\":1,\"image_url\":null}",
        "{\"id\":1,\"title\":\"a\",\"message\":\"b\",\"last_updated\":1,\"image_url\":null} ",
        "{\"id\":1,\"title\":\"a\",\"message\":\"b\",\"last_updated\":1,\"image_url\":nul}",
        "{\"id\":1,\"name\":\"a\",\"message\":\"b\",\"last_updated\":1,\"image_url\":null}",
        "{\"id\":99999999999,\"title\":\"a\",\"message\":\"b\",\"last_updated\":1,\"image_url\":null}",
        "{\"id\":1,\"title\":\"a,\"message\":\"b\",\"last_updated\":1,\"image_url\":null}",
    ];
    for c in cases {
        assert!(decode_thread(&c.as_bytes().to_vec()).is_none());
    }
    assert!(decode_reply(&"{\"id\":1,\"message\":3}".as_bytes().to_vec()).is_none());
}

#[test]
fn keys_have_the_documented_byte_layout() {
    assert_eq!(thread_key_exec(42), b"thread_42".to_vec());
    assert_eq!(thread_key_exec(-5), b"thread_-5".to_vec());
    assert_eq!(thread_scan_prefix_exec(), b"thread_".to_vec());
    assert_eq!(reply_key_exec(7, 3), b"reply_7_3".to_vec());
    assert_eq!(reply_key_exec(12, 10), b"reply_12_10".to_vec());
    assert_eq!(reply_prefix_exec(10), b"reply_10_".to_vec());
}
