use moklog::asset::{new_filename, parse_filename};
use moklog::builder::{build_tree, join_segments, publish_assets, published_bytes, WalkEntry};
use moklog::render::title_make_url_safe;
use moklog::store::AssetStore;

#[test]
fn parse_filename_reads_back_new_filename() {
    for (bytes, name) in [(&b"abc"[..], "logo.png"), (&b""[..], "a.b.c"), (&b"\x00\xff"[..], "x.tar.gz")] {
        let (h, published) = new_filename(bytes, name).unwrap();
        assert_eq!(parse_filename(&published), Some((h, name.to_string())));
    }
}

#[test]
fn parse_filename_rejects_unpublished_names() {
    assert_eq!(parse_filename("logo"), None);
    assert_eq!(parse_filename("logo.png"), None);
    assert_eq!(parse_filename("logo.!!!!!!!!!!!!.png"), None);
}

#[test]
fn titles_become_url_segments() {
    assert_eq!(title_make_url_safe("Hello World"), "Hello-World");
    assert_eq!(title_make_url_safe("a b?c"), "a-b%3Fc");
    assert_eq!(title_make_url_safe("plain"), "plain");
}

#[test]
fn segments_join_with_slashes() {
    let segs: Vec<String> = vec!["a".into(), "b".into(), "c.png".into()];
    assert_eq!(join_segments(&segs, 3), "a/b/c.png");
    assert_eq!(join_segments(&segs, 1), "a");
    assert_eq!(join_segments(&segs, 0), "");
}

#[test]
fn assets_publish_their_compiled_bytes() {
    assert_eq!(published_bytes("doc/manual.pdf", vec![1, 2]), Some(vec![1, 2]));
    assert_eq!(published_bytes("img/a.png", vec![3]), Some(vec![3]));
    assert_eq!(published_bytes("js/bad.js", b"let = ;".to_vec()), None);
    let css = published_bytes("style/a.css", b"a {  color : red ; }".to_vec()).unwrap();
    assert_ne!(css, b"a {  color : red ; }".to_vec());

    let mut store = AssetStore::new();
    let entries = vec![
        WalkEntry { segments: vec!["blog".into()], is_dir: true, bytes: vec![] },
        WalkEntry { segments: vec!["blog".into(), "index.md".into()], is_dir: false, bytes: b"x===y".to_vec() },
        WalkEntry {
            segments: vec!["blog".into(), "a.css".into()],
            is_dir: false,
            bytes: b"a {  color : red ; }".to_vec(),
        },
    ];
    let entries = publish_assets(entries);
    assert_eq!(entries[1].bytes, b"x===y".to_vec());
    build_tree("site", "en", &entries, &mut store).unwrap();
    let rec = store.lookup_path("blog/a.css").unwrap();
    assert_eq!(rec.content_hash, seahash::hash(&css));
}
