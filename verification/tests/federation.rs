use seamless_fs::debounce::Debouncer;
use seamless_fs::codec::{decode_payload, encode_payload};
use seamless_fs::merge::{merge_listing, LocalEntry};
use seamless_fs::scan::RawEntry;
use seamless_fs::model::{Env, File_, Payload};
use seamless_fs::protocol::{delete_origin, handle_delete_origin, handle_insert_origin, handle_update_notify, send_files};
use seamless_fs::registry::{MyState, OriginRegistry};

fn file(origin: Option<&str>, parent: &str, url: Option<&str>, name: &str, size: u64) -> File_ {
    File_ {
        origin: origin.map(|s| s.to_string()),
        parent: parent.to_string(),
        url: url.map(|s| s.to_string()),
        name: name.to_string(),
        size,
    }
}

fn registry_files<'a>(reg: &'a OriginRegistry, id: &str) -> Option<&'a Vec<File_>> {
    for e in reg.snapshot() {
        if e.id == id {
            return Some(&e.files);
        }
    }
    None
}

#[test]
fn last_write_wins_per_origin() {
    let mut reg = OriginRegistry::new();
    reg.upsert("a".to_string(), vec![file(None, "/", None, "one.txt", 1)]);
    reg.upsert("b".to_string(), vec![file(None, "/", None, "two.txt", 2)]);
    reg.upsert("a".to_string(), vec![file(None, "/", None, "three.txt", 3)]);
    reg.remove(&"b".to_string());
    // Only the last operation per id matters.
    let a = registry_files(&reg, "a").expect("origin a must be present");
    assert_eq!(a.len(), 1);
    assert_eq!(a[0].name, "three.txt");
    assert_eq!(a[0].size, 3);
    assert!(registry_files(&reg, "b").is_none());
    assert_eq!(reg.snapshot().len(), 1);
}

#[test]
fn repeated_identical_push_is_idempotent() {
    let token = "SECRET-REDACTED".to_string();
    let mut reg = OriginRegistry::new();
    for _ in 0..5 {
        let payload = Payload {
            origin: "peer".to_string(),
            files: Some(vec![file(None, "/x/", None, "f.bin", 9)]),
        };
        let accepted = handle_insert_origin(&mut reg, &token, Some(&token), payload);
        assert!(accepted);
        let fs = registry_files(&reg, "peer").expect("peer must be present");
        assert_eq!(fs.len(), 1);
        assert_eq!(fs[0].name, "f.bin");
        assert_eq!(fs[0].parent, "/x/");
        assert_eq!(fs[0].size, 9);
        assert_eq!(reg.snapshot().len(), 1);
    }
}

#[test]
fn wrong_secret_never_mutates() {
    let token = "SECRET-REDACTED".to_string();
    let wrong = "guess".to_string();
    let mut reg = OriginRegistry::new();
    reg.upsert("keep".to_string(), vec![file(None, "/", None, "kept.txt", 4)]);

    let push = Payload {
        origin: "evil".to_string(),
        files: Some(vec![file(None, "/", None, "bad.txt", 1)]),
    };
    assert!(!handle_insert_origin(&mut reg, &token, Some(&wrong), push));
    let push2 = Payload {
        origin: "evil".to_string(),
        files: Some(vec![file(None, "/", None, "bad.txt", 1)]),
    };
    assert!(!handle_insert_origin(&mut reg, &token, None, push2));

    let withdraw = Payload { origin: "keep".to_string(), files: None };
    assert!(!handle_delete_origin(&mut reg, &token, Some(&wrong), &withdraw));
    assert!(!handle_delete_origin(&mut reg, &token, None, &withdraw));

    assert_eq!(reg.snapshot().len(), 1);
    assert!(registry_files(&reg, "keep").is_some());
    assert!(registry_files(&reg, "evil").is_none());
}

#[test]
fn push_without_file_list_is_accepted_noop() {
    let token = "t".to_string();
    let mut reg = OriginRegistry::new();
    let payload = Payload { origin: "peer".to_string(), files: None };
    assert!(handle_insert_origin(&mut reg, &token, Some(&token), payload));
    assert_eq!(reg.snapshot().len(), 0);
}

#[test]
fn burst_of_events_triggers_exactly_one_cycle() {
    let mut d = Debouncer::new();
    // One quiet interval: nothing owed.
    assert!(!d.on_tick());
    // Many events inside one interval.
    for _ in 0..100 {
        d.on_event(true);
    }
    // The interval's tick owes exactly one rescan cycle.
    assert!(d.on_tick());
    // The next quiet interval owes none.
    assert!(!d.on_tick());
    // Irrelevant events never make the machine dirty.
    d.on_event(false);
    assert!(!d.on_tick());
}

#[test]
fn wire_round_trip_preserves_every_field() {
    let full = Payload {
        origin: "node-1".to_string(),
        files: Some(vec![
            file(Some("peer2"), "/d e/", Some("/d%20e/x.txt"), "x \"q\" \\ y", 18446744073709551615),
            file(None, "/", None, "plain.txt", 0),
        ]),
    };
    let wire = encode_payload(&full);
    let back = decode_payload(wire.as_str()).expect("own encoding must decode");
    assert_eq!(back.origin, "node-1");
    let fs = back.files.expect("file list must round-trip as present");
    assert_eq!(fs.len(), 2);
    assert_eq!(fs[0].origin.as_deref(), Some("peer2"));
    assert_eq!(fs[0].parent, "/d e/");
    assert_eq!(fs[0].url.as_deref(), Some("/d%20e/x.txt"));
    assert_eq!(fs[0].name, "x \"q\" \\ y");
    assert_eq!(fs[0].size, 18446744073709551615);
    assert!(fs[1].origin.is_none(), "absent origin must stay absent");
    assert!(fs[1].url.is_none(), "absent url must stay absent");
    assert_eq!(fs[1].name, "plain.txt");

    let bare = Payload { origin: "node-1".to_string(), files: None };
    let wire2 = encode_payload(&bare);
    assert_eq!(wire2, "{\"origin\":\"node-1\"}");
    let back2 = decode_payload(wire2.as_str()).expect("withdrawal body must decode");
    assert!(back2.files.is_none(), "absent file list must stay absent");
}

#[test]
fn wire_format_matches_expected_text() {
    let p = Payload {
        origin: "o".to_string(),
        files: Some(vec![file(None, "/a/", None, "n.txt", 12)]),
    };
    assert_eq!(
        encode_payload(&p),
        "{\"origin\":\"o\",\"files\":[{\"parent\":\"/a/\",\"name\":\"n.txt\",\"size\":12}]}"
    );
}

#[test]
fn decode_rejects_malformed_input() {
    assert!(decode_payload("").is_none());
    assert!(decode_payload("{\"origin\":\"x\"").is_none());
    assert!(decode_payload("{\"origin\":\"x\"}trailing").is_none());
    assert!(decode_payload("{\"files\":[]}").is_none());
    // A size beyond the 64-bit range is refused.
    assert!(
        decode_payload(
            "{\"origin\":\"o\",\"files\":[{\"parent\":\"/\",\"name\":\"n\",\"size\":18446744073709551616}]}"
        )
        .is_none()
    );
}

#[test]
fn outbound_requests_carry_secret_and_marker() {
    let origin = "me".to_string();
    let relay = "http://relay/".to_string();
    let token = "SECRET-REDACTED".to_string();
    let first = send_files(&origin, &relay, &token, true, vec![]);
    assert!(first.put);
    assert_eq!(first.url, "http://relay/?first=true");
    assert_eq!(first.token, "SECRET-REDACTED");
    assert_eq!(first.body, "{\"origin\":\"me\",\"files\":[]}");
    let routine = send_files(&origin, &relay, &token, false, vec![]);
    assert_eq!(routine.url, "http://relay/");
    let bye = delete_origin(&origin, &relay, &token);
    assert!(!bye.put);
    assert_eq!(bye.url, "http://relay/");
    assert_eq!(bye.body, "{\"origin\":\"me\"}");
}

#[test]
fn merge_orders_files_and_breaks_ties_local_first() {
    let base = "/".to_string();
    let locals = vec![
        LocalEntry { name: "b.txt".to_string(), is_dir: false, size: 2 },
        LocalEntry { name: "a.txt".to_string(), is_dir: false, size: 1 },
    ];
    let mut reg = OriginRegistry::new();
    reg.upsert("zeta".to_string(), vec![file(None, "/", None, "a.txt", 7)]);
    reg.upsert("alpha".to_string(), vec![file(None, "/", None, "a.txt", 8)]);
    let (folders, files) = merge_listing(&base, &locals, reg.snapshot());
    assert!(folders.is_empty());
    let names: Vec<(String, Option<String>)> =
        files.iter().map(|f| (f.name.clone(), f.origin.clone())).collect();
    assert_eq!(
        names,
        vec![
            ("a.txt".to_string(), None),
            ("a.txt".to_string(), Some("alpha".to_string())),
            ("a.txt".to_string(), Some("zeta".to_string())),
            ("b.txt".to_string(), None),
        ]
    );
}

#[test]
fn merge_puts_local_folders_before_virtual_ones() {
    let base = "/".to_string();
    let locals = vec![LocalEntry { name: "zlocal".to_string(), is_dir: true, size: 0 }];
    let mut reg = OriginRegistry::new();
    reg.upsert("peer".to_string(), vec![file(None, "/aaa/deep/", None, "f.txt", 1)]);
    let (folders, files) = merge_listing(&base, &locals, reg.snapshot());
    assert!(files.is_empty());
    assert_eq!(folders.len(), 2);
    assert_eq!(folders[0].name, "zlocal");
    assert!(folders[0].origin.is_none());
    assert_eq!(folders[1].name, "aaa");
    assert_eq!(folders[1].origin.as_deref(), Some("peer"));
}

#[test]
fn update_notify_packs_the_scanned_inventory() {
    let raw = vec![
        RawEntry { parent: ".".to_string(), name: "a.txt".to_string(), size: 1 },
        RawEntry { parent: "./sub".to_string(), name: ".skip".to_string(), size: 2 },
    ];
    let req = handle_update_notify(
        &"me".to_string(),
        &"http://relay/".to_string(),
        &"t".to_string(),
        false,
        &raw,
    );
    assert!(req.put);
    assert_eq!(req.url, "http://relay/");
    assert_eq!(
        req.body,
        "{\"origin\":\"me\",\"files\":[{\"parent\":\"/\",\"name\":\"a.txt\",\"size\":1}]}"
    );
}

#[test]
fn state_starts_with_an_empty_registry() {
    let st = MyState::from_env(Env {
        host: "0.0.0.0".to_string(),
        port: 8080,
        workers: 4,
        origin: "me".to_string(),
        relay_url: "http://relay/".to_string(),
        token: "t".to_string(),
    });
    assert_eq!(st.port, 8080);
    assert_eq!(st.origin, "me");
    assert!(st.origins.snapshot().is_empty());
}

#[test]
fn wire_round_trip_keeps_non_ascii_names() {
    let p = Payload {
        origin: "n\u{f8}de".to_string(),
        files: Some(vec![file(None, "/", None, "h\u{e9}llo \u{1f680}.txt", 3)]),
    };
    let back = decode_payload(encode_payload(&p).as_str()).expect("must decode");
    assert_eq!(back.origin, "n\u{f8}de");
    assert_eq!(back.files.unwrap()[0].name, "h\u{e9}llo \u{1f680}.txt");
}
