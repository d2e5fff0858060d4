use moklog::builder::{build_tree, WalkEntry};
use moklog::code::{frame_code_events, highlight_html, render_code_block, HlEvent, MdEvent, MdOut};
use moklog::paths::{link_path, top_folder};
use moklog::store::AssetStore;

#[test]
fn fenced_blocks_are_gathered() {
    let ev = vec![
        MdEvent::Other(0),
        MdEvent::FenceText("outside".into()),
        MdEvent::FenceStart("rust".into()),
        MdEvent::FenceText("fn a() {}\n".into()),
        MdEvent::Other(1),
        MdEvent::FenceText("fn b() {}\n".into()),
        MdEvent::FenceEnd,
        MdEvent::Other(2),
        MdEvent::FenceEnd,
    ];
    let out = frame_code_events(&ev);
    assert_eq!(out.len(), 3);
    assert!(matches!(out[0], MdOut::Keep(0)));
    match &out[1] {
        MdOut::Block { lang, code } => {
            assert_eq!(lang, "rust");
            assert_eq!(code, "fn a() {}\nfn b() {}\n");
        }
        _ => panic!("expected a block"),
    }
    assert!(matches!(out[2], MdOut::Keep(2)));
}

#[test]
fn highlight_events_become_html() {
    let ev = vec![HlEvent::Start(4), HlEvent::Source(0, 2), HlEvent::End, HlEvent::Source(2, 6), HlEvent::Start(12), HlEvent::End];
    assert_eq!(
        highlight_html("fn <a>", &ev),
        Some("<i class=chl-4>fn</i> &lt;a&gt;<i class=chl-12></i>".to_string())
    );
    assert_eq!(highlight_html("ab", &vec![HlEvent::Source(1, 3)]), None);
    assert_eq!(highlight_html("ab", &vec![HlEvent::Source(2, 1)]), None);
}

#[test]
fn code_blocks_fall_back_to_escaped_text() {
    assert_eq!(
        render_code_block("rust", "a<b", &Some("<i class=chl-1>a</i>".to_string())),
        "<pre><div class=\"lang-tag\">rust</div><div class=\"code-block\"><code><i class=chl-1>a</i></code></div></pre>"
    );
    assert_eq!(
        render_code_block("", "a<b", &None),
        "<pre><div class=\"code-block\"><code>a&lt;b</code></div></pre>"
    );
}

#[test]
fn link_paths_and_top_folders() {
    let mut store = AssetStore::new();
    let entries = vec![
        WalkEntry { segments: vec!["my blog".into()], is_dir: true, bytes: vec![] },
        WalkEntry { segments: vec!["my blog".into(), "index.md".into()], is_dir: false, bytes: b"a===b".to_vec() },
        WalkEntry { segments: vec!["my blog".into(), "rust".into()], is_dir: true, bytes: vec![] },
        WalkEntry {
            segments: vec!["my blog".into(), "rust".into(), "index.md".into()],
            is_dir: false,
            bytes: b"a===b".to_vec(),
        },
    ];
    let r = build_tree("site", "en", &entries, &mut store);
    assert!(r.is_err());
    let entries: Vec<WalkEntry> = entries
        .into_iter()
        .map(|e| WalkEntry {
            segments: e.segments.into_iter().map(|s| if s == "my blog" { "blog".to_string() } else { s }).collect(),
            is_dir: e.is_dir,
            bytes: e.bytes,
        })
        .collect();
    let (tree, pl) = build_tree("site", "en", &entries, &mut store).unwrap();
    let blog = pl[0].unwrap();
    let rust = pl[2].unwrap();
    assert_eq!(link_path(&tree, rust), "/blog/rust");
    assert_eq!(link_path(&tree, 0), "");
    assert_eq!(top_folder(&tree, rust), blog);
    assert_eq!(top_folder(&tree, blog), blog);
    assert_eq!(top_folder(&tree, 0), 0);
}
