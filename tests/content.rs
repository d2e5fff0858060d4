use moklog::builder::{build_tree, WalkEntry};
use moklog::categories::resolve_categories;
use moklog::front::{
    split_front_matter, CategoryMeta, ConfigMeta, ConfigurationType, FrontMatterError, PageMeta,
    SeriesMeta,
};
use moklog::names::{classify_file, file_stem, validate_folder_name, FileClass, LeafPathType, TreeError};
use moklog::store::AssetStore;
use moklog::tree::{ContentTree, FileRole};

fn dir(path: &[&str]) -> WalkEntry {
    WalkEntry { segments: path.iter().map(|s| s.to_string()).collect(), is_dir: true, bytes: vec![] }
}

fn file(path: &[&str], body: &str) -> WalkEntry {
    WalkEntry {
        segments: path.iter().map(|s| s.to_string()).collect(),
        is_dir: false,
        bytes: body.as_bytes().to_vec(),
    }
}

fn page() -> PageMeta {
    PageMeta {
        group: None,
        translations: vec![],
        rss: false,
        index: true,
        redirect_from: vec![],
        redirect_to: None,
        display: String::new(),
        children_template: None,
        template: None,
    }
}

fn config(title: &str) -> ConfigMeta {
    ConfigMeta {
        title: title.to_string(),
        authors: vec![],
        tags: vec![],
        date: None,
        page: page(),
        category: None,
        subcategory: None,
        series: None,
        external: None,
    }
}

fn category(title: &str) -> CategoryMeta {
    CategoryMeta { title: title.to_string(), pinned_posts: vec![] }
}

fn node(tree: &ContentTree, path: &[&str]) -> Option<usize> {
    let mut id = 0;
    for seg in path {
        id = tree.find_child(id, seg)?;
    }
    Some(id)
}

#[test]
fn reserved_and_language_folders_fail_the_build() {
    for (name, err) in [
        ("admin", TreeError::ReservedName),
        ("static", TreeError::ReservedName),
        ("en", TreeError::LanguageTagFolder),
        ("ko-KR", TreeError::LanguageTagFolder),
        ("my posts", TreeError::ReservedCharacter),
        ("a?b", TreeError::ReservedCharacter),
    ] {
        let mut store = AssetStore::new();
        let entries = vec![dir(&["blog"]), file(&["blog", "index.md"], "x===y"), dir(&["blog", name])];
        let r = build_tree("site", "en", &entries, &mut store).map(|(t, _)| t);
        assert_eq!(r.err(), Some(err), "folder {name}");
    }
}

#[test]
fn folder_name_rules() {
    assert_eq!(validate_folder_name("blog"), Ok(()));
    assert_eq!(validate_folder_name("rust_notes"), Ok(()));
    assert_eq!(validate_folder_name("feed"), Err(TreeError::ReservedName));
    assert_eq!(validate_folder_name("ja"), Err(TreeError::LanguageTagFolder));
    assert_eq!(validate_folder_name("a#b"), Err(TreeError::ReservedCharacter));
}

#[test]
fn file_classes() {
    assert_eq!(classify_file("index.md"), FileClass::Primary(LeafPathType::Page));
    assert_eq!(classify_file("index.html"), FileClass::Primary(LeafPathType::PreBuilt));
    assert_eq!(classify_file(".moklog"), FileClass::Primary(LeafPathType::Moklog));
    assert_eq!(classify_file("ko.md"), FileClass::Alternate(LeafPathType::Page));
    assert_eq!(classify_file("notes.moklog"), FileClass::Alternate(LeafPathType::Moklog));
    assert_eq!(classify_file("logo.png"), FileClass::Asset);
    assert_eq!(classify_file("README"), FileClass::Asset);
    assert_eq!(file_stem("ko.md"), "ko");
    assert_eq!(file_stem("a.tar.gz"), "a.tar");
    assert_eq!(file_stem(".moklog"), ".moklog");
}

#[test]
fn pruning_drops_undocumented_folders_and_is_idempotent() {
    let mut store = AssetStore::new();
    let entries = vec![
        dir(&["blog"]),
        file(&["blog", "index.md"], "title = 'b'\n===\nbody"),
        dir(&["blog", "empty"]),
        dir(&["blog", "empty", "deep"]),
        file(&["blog", "empty", "deep", "index.md"], "x===y"),
        dir(&["drafts"]),
    ];
    let mut tree = build_tree("site", "en", &entries, &mut store).unwrap().0;
    assert!(tree.is_alive(0));
    let blog = node(&tree, &["blog"]).unwrap();
    assert!(tree.document(blog).is_some());
    assert!(node(&tree, &["blog", "empty"]).is_none());
    assert!(node(&tree, &["drafts"]).is_none());
    let before: Vec<bool> = (0..tree.node_count()).map(|i| tree.is_alive(i)).collect();
    assert_eq!(before.iter().filter(|a| **a).count(), 2);
    tree.prune();
    let after: Vec<bool> = (0..tree.node_count()).map(|i| tree.is_alive(i)).collect();
    assert_eq!(before, after);
}

#[test]
fn root_survives_without_document() {
    let mut store = AssetStore::new();
    let tree = build_tree("site", "en", &vec![dir(&["a"])], &mut store).unwrap().0;
    assert!(tree.is_alive(0));
    assert!(!tree.is_alive(1));
}

#[test]
fn translations_attach_to_the_document() {
    let mut store = AssetStore::new();
    let mut tree = ContentTree::new("site", "en");
    let blog = tree.add_dir(0, "blog").unwrap();
    assert_eq!(tree.ingest_file(&mut store, blog, "ko.md", "blog/ko.md", b"a===b".to_vec()), FileRole::Orphan);
    assert_eq!(tree.ingest_file(&mut store, blog, "index.md", "blog/index.md", b"a===b".to_vec()), FileRole::Document);
    assert_eq!(tree.ingest_file(&mut store, blog, "ko.md", "blog/ko.md", b"a===b".to_vec()), FileRole::Translation);
    assert_eq!(tree.ingest_file(&mut store, blog, "ko.html", "blog/ko.html", b"<p>".to_vec()), FileRole::Translation);
    assert_eq!(tree.ingest_file(&mut store, blog, "en.md", "blog/en.md", b"a===b".to_vec()), FileRole::Orphan);
    assert_eq!(tree.ingest_file(&mut store, blog, "notes.md", "blog/notes.md", b"a===b".to_vec()), FileRole::Orphan);
    let doc = tree.document(blog).unwrap();
    assert_eq!(doc.typ, LeafPathType::Page);
    assert_eq!(doc.translations.len(), 1);
    assert_eq!(doc.translations[0].lang, "ko");
    assert_eq!(doc.translations[0].typ, LeafPathType::PreBuilt);
    match tree.ingest_file(&mut store, blog, "pic.png", "blog/pic.png", b"png".to_vec()) {
        FileRole::Asset(h) => assert_eq!(h, seahash::hash(b"png")),
        other => panic!("unexpected {other:?}"),
    }
    assert_eq!(tree.ingest_file(&mut store, blog, "empty.png", "blog/empty.png", vec![]), FileRole::Skipped);
    assert_eq!(store.len(), 1);
}

#[test]
fn add_dir_tracks_depth_and_parent() {
    let mut tree = ContentTree::new("site", "en");
    let a = tree.add_dir(0, "blog").unwrap();
    let b = tree.add_dir(a, "rust").unwrap();
    assert_eq!(tree.depth(b), 2);
    assert_eq!(tree.parent(b), Some(a));
    assert_eq!(tree.parent(0), None);
    assert_eq!(tree.name(b), "rust");
    assert_eq!(tree.add_dir(a, "admin"), Err(TreeError::ReservedName));
    assert_eq!(tree.node_count(), 3);
}

#[test]
fn split_front_matter_at_first_delimiter() {
    let (c, b) = split_front_matter("title = \"X\"\n===\nHello === there").unwrap();
    assert_eq!(c, "title = \"X\"\n");
    assert_eq!(b, "\nHello === there");
    assert_eq!(split_front_matter("=="), None);
    assert_eq!(split_front_matter("==="), Some((String::new(), String::new())));
}

#[test]
fn plus_delimited_front_matter_is_skipped() {
    assert_eq!(split_front_matter("+++\ntitle=\"X\"\n+++\nHello"), None);
    let mut store = AssetStore::new();
    let entries = vec![
        dir(&["good"]),
        file(&["good", "index.md"], "title = \"G\"\n===\nok"),
        dir(&["page"]),
        file(&["page", "index.md"], "+++\ntitle=\"X\"\n+++\nHello"),
    ];
    let mut tree = build_tree("site", "en", &entries, &mut store).unwrap().0;
    let bad = node(&tree, &["page"]).unwrap();
    let good = node(&tree, &["good"]).unwrap();
    assert_eq!(tree.front_matter(bad), None);
    assert_eq!(tree.front_matter(good), Some("title = \"G\"\n".to_string()));
    tree.detach_document(bad);
    tree.prune();
    assert!(node(&tree, &["page"]).is_none());
    assert!(node(&tree, &["good"]).is_some());
}

#[test]
fn plain_page_front_matter_declares_nothing() {
    let c = config("A");
    assert_eq!(c.config_type(), Ok(ConfigurationType::Page));
    let mut store = AssetStore::new();
    let entries = vec![dir(&["blog"]), file(&["blog", "index.md"], "title = \"A\"\n===\n")];
    let tree = build_tree("site", "en", &entries, &mut store).unwrap().0;
    let blog = node(&tree, &["blog"]).unwrap();
    let cats = resolve_categories(&tree, &vec![(blog, c)]);
    assert_eq!(cats.category_count(), 0);
    assert_eq!(cats.subcategory_count(), 0);
}

#[test]
fn exclusive_kinds() {
    let mut c = config("A");
    c.category = Some(category("A"));
    assert_eq!(c.config_type(), Ok(ConfigurationType::Category));
    c.page.redirect_to = Some("/b".to_string());
    assert_eq!(c.config_type(), Err(FrontMatterError::ConflictingKinds));
    let mut s = config("S");
    s.series = Some(SeriesMeta { on_going: true, title: "S".into(), authors: vec![], tags: vec![] });
    assert_eq!(s.config_type(), Ok(ConfigurationType::Series));
    let mut r = config("R");
    r.page.redirect_to = Some("/x".into());
    assert_eq!(r.config_type(), Ok(ConfigurationType::Redirect));
}

#[test]
fn category_and_subcategory_scenario() {
    let mut store = AssetStore::new();
    let entries = vec![
        dir(&["blog"]),
        file(&["blog", "index.md"], "[category]\ntitle = \"Blog\"\n===\n"),
        dir(&["blog", "rust"]),
        file(&["blog", "rust", "index.md"], "[subcategory]\ntitle = \"Rust\"\n===\n"),
        dir(&["notes"]),
        file(&["notes", "index.md"], "x===y"),
        dir(&["notes", "orphan"]),
        file(&["notes", "orphan", "index.md"], "x===y"),
    ];
    let tree = build_tree("site", "en", &entries, &mut store).unwrap().0;
    let blog = node(&tree, &["blog"]).unwrap();
    let rust = node(&tree, &["blog", "rust"]).unwrap();
    let orphan = node(&tree, &["notes", "orphan"]).unwrap();
    let candidates = tree.category_candidates();
    assert!(candidates.contains(&blog) && candidates.contains(&rust) && candidates.contains(&orphan));
    let mut b = config("Blog");
    b.category = Some(category("Blog"));
    let mut r = config("Rust");
    r.subcategory = Some(category("Rust"));
    let mut o = config("O");
    o.subcategory = Some(category("O"));
    let cats = resolve_categories(&tree, &vec![(rust, r), (blog, b), (orphan, o)]);
    assert!(cats.has_category("blog"));
    assert!(!cats.has_category("notes"));
    assert_eq!(cats.parent_of("rust"), Some("blog".to_string()));
    assert_eq!(cats.parent_of("orphan"), None);
    assert_eq!(cats.members("blog"), vec!["rust".to_string()]);
    assert_eq!(cats.category_count(), 1);
    assert_eq!(cats.subcategory_count(), 1);
}

#[test]
fn placement_follows_the_walk() {
    let mut store = AssetStore::new();
    let entries = vec![
        dir(&["blog"]),
        file(&["blog", "index.md"], "a===b"),
        file(&["blog", "index.html"], "<p>later</p>"),
        file(&["ghost", "index.md"], "a===b"),
        dir(&["blog", "img"]),
        file(&["blog", "img", "cat.png"], "png"),
        file(&["top.png"], "top"),
    ];
    let (tree, placement) = build_tree("site", "en", &entries, &mut store).unwrap();
    let blog = placement[0].unwrap();
    assert_eq!(placement[1], Some(blog));
    assert_eq!(placement[2], Some(blog));
    assert_eq!(placement[3], None);
    assert_eq!(placement[5], placement[4]);
    assert_eq!(placement[6], Some(0));
    assert_eq!(tree.document(blog).unwrap().typ, LeafPathType::PreBuilt);
    assert!(tree.is_alive(blog));
    assert!(!tree.is_alive(placement[4].unwrap()));
    assert_eq!(store.len(), 2);
    assert!(store.lookup_path("blog/img/cat.png").is_some());
    assert!(store.lookup_path("top.png").is_some());
}
