use seamless_fs::merge::LocalEntry;
use seamless_fs::model::File_;
use seamless_fs::paths::or_insert;
use seamless_fs::registry::OriginRegistry;
use seamless_fs::render::{directory_listing, normalize_request_path};
use seamless_fs::scan::{collect_inventory, local_descriptor, RawEntry};

fn local(name: &str, is_dir: bool, size: u64) -> LocalEntry {
    LocalEntry { name: name.to_string(), is_dir, size }
}

fn remote(parent: &str, name: &str, size: u64) -> File_ {
    File_ {
        origin: None,
        parent: parent.to_string(),
        url: None,
        name: name.to_string(),
        size,
    }
}

#[test]
fn scenario_a_local_files_only() {
    let base = "/".to_string();
    let locals = vec![local("z.txt", false, 5), local("a.txt", false, 100)];
    let reg = OriginRegistry::new();
    let html = directory_listing(&base, &locals, reg.snapshot());
    assert_eq!(
        html,
        "<html><head><title>Index of /</title>\
         <style>.external::marker { content: '\u{1f517} ' }</style></head>\
         <body><h1>Index of /</h1>\
         <p>\u{1f517} = File from another server</p>\
         <ul><li><a href=\"/a.txt\">a.txt</a> 100 B</li>\
         <li><a href=\"/z.txt\">z.txt</a> 5 B</li></ul></body></html>"
    );
}

#[test]
fn scenario_b_virtual_folder_then_remote_file() {
    let locals = vec![local("z.txt", false, 5), local("a.txt", false, 100)];
    let mut reg = OriginRegistry::new();
    reg.upsert("peer1".to_string(), vec![remote("/docs/", "guide.pdf", 2048)]);

    // The root shows the virtual folder first, then the local files.
    let root = directory_listing(&"/".to_string(), &locals, reg.snapshot());
    let folder_pos = root.find("<li class=\"external\"><a href=\"peer1/docs/\">docs/</a></li>")
        .expect("virtual folder row must be present");
    let a_pos = root.find("<li><a href=\"/a.txt\">a.txt</a> 100 B</li>").expect("a.txt row");
    let z_pos = root.find("<li><a href=\"/z.txt\">z.txt</a> 5 B</li>").expect("z.txt row");
    assert!(folder_pos < a_pos && a_pos < z_pos);

    // Browsing the virtual folder shows the remote file under its origin.
    let docs = directory_listing(&"/docs/".to_string(), &Vec::new(), reg.snapshot());
    assert!(docs.contains(
        "<li class=\"external\"><a href=\"peer1/docs/guide.pdf\">guide.pdf</a> 2.05 kB</li>"
    ));
}

#[test]
fn scenario_c_one_shared_folder_first_seen_wins() {
    let mut reg = OriginRegistry::new();
    reg.upsert("alpha".to_string(), vec![remote("/shared/a/", "one.txt", 1)]);
    reg.upsert("beta".to_string(), vec![remote("/shared/b/", "two.txt", 2)]);
    let html = directory_listing(&"/".to_string(), &Vec::new(), reg.snapshot());
    let occurrences = html.matches(">shared/</a>").count();
    assert_eq!(occurrences, 1, "exactly one shared folder entry");
    // First-seen origin wins the tag.
    assert!(html.contains("<li class=\"external\"><a href=\"alpha/shared/\">shared/</a></li>"));
}

#[test]
fn request_path_is_percent_decoded_and_slashed() {
    assert_eq!(normalize_request_path("/my%20dir"), "/my dir/");
    assert_eq!(normalize_request_path("/docs/"), "/docs/");
}

#[test]
fn rendering_escapes_html_and_encodes_links() {
    let base = "/".to_string();
    let locals = vec![local("a&b\n.txt", false, 1)];
    let reg = OriginRegistry::new();
    let html = directory_listing(&base, &locals, reg.snapshot());
    // The visible name is HTML-escaped; the link percent-encodes the control byte.
    assert!(html.contains("a&amp;b"));
    assert!(html.contains("%0A"));
}

#[test]
fn or_insert_adds_only_missing_slashes() {
    assert_eq!(or_insert("docs", true, true), "/docs/");
    assert_eq!(or_insert("/docs", true, true), "/docs/");
    assert_eq!(or_insert("/docs/", true, true), "/docs/");
    assert_eq!(or_insert("docs", false, false), "docs");
    assert_eq!(or_insert("", true, true), "/");
    assert_eq!(or_insert("docs", false, true), "docs/");
}

#[test]
fn scanner_skips_hidden_and_normalizes_parents() {
    assert!(local_descriptor("./docs", ".hidden", 3).is_none());
    let f = local_descriptor("./docs", "guide.pdf", 2048).expect("visible file");
    assert_eq!(f.parent, "/docs/");
    assert_eq!(f.name, "guide.pdf");
    assert_eq!(f.size, 2048);
    assert!(f.origin.is_none() && f.url.is_none());

    let top = local_descriptor(".", "a.txt", 100).expect("top-level file");
    assert_eq!(top.parent, "/");

    let raw = vec![
        RawEntry { parent: ".".to_string(), name: "a.txt".to_string(), size: 100 },
        RawEntry { parent: "./x".to_string(), name: ".git".to_string(), size: 1 },
        RawEntry { parent: "./x".to_string(), name: "b.txt".to_string(), size: 7 },
    ];
    let inv = collect_inventory(&raw);
    assert_eq!(inv.len(), 2);
    assert_eq!(inv[0].name, "a.txt");
    assert_eq!(inv[1].parent, "/x/");
}
