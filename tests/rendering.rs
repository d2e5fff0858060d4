use moklog::markdown::{heading_candidates, split_lines, table_of_contents, DocumentStatistics};
use moklog::render::{
    canonical_language, code_block_html, plain_code_block, rewrite_link,
    template_name, translation_link, SummaryCutter,
};
use moklog::store::AssetStore;

#[test]
fn lines_split_like_text_lines() {
    assert_eq!(split_lines("a\r\nb\n\nc"), vec!["a", "b", "", "c"]);
    assert_eq!(split_lines("a\n"), vec!["a"]);
    assert_eq!(split_lines(""), Vec::<String>::new());
    assert_eq!(split_lines("\n"), vec![""]);
}

#[test]
fn fenced_lines_are_not_headings() {
    let lines: Vec<String> = ["# A", "```rust", "# not", "```", "## B", "~~~", "# no", "```", "# still no", "~~~", "# C"]
        .iter()
        .map(|s| s.to_string())
        .collect();
    assert_eq!(
        heading_candidates(&lines),
        vec![true, false, false, false, true, false, false, false, false, false, true]
    );
}

#[test]
fn unclosed_fence_hides_the_rest() {
    let toc = table_of_contents("# Alpha\n```\n# Beta\n## Gamma\n");
    assert!(toc.contains("Alpha"));
    assert!(!toc.contains("Beta"));
    assert!(!toc.contains("Gamma"));
}

#[test]
fn table_of_contents_lists_headings() {
    let toc = table_of_contents("# One\ntext\n## Two\n");
    assert!(toc.contains("<ul>"));
    assert!(toc.contains("href=\"#one\""));
    assert!(toc.contains("href=\"#two\""));
    assert_eq!(table_of_contents("no headings here"), "");
}

#[test]
fn statistics_and_reading_time() {
    let s = DocumentStatistics::of("hello brave new world");
    assert_eq!(s.words, 4);
    for (words, minutes) in [(0u64, 0u64), (74, 0), (75, 1), (150, 1), (224, 1), (225, 2), (1500, 10)] {
        assert_eq!(DocumentStatistics { characters: 0, words }.reading_minutes(), minutes);
    }
    assert_eq!(DocumentStatistics { characters: 0, words: u64::MAX }.reading_minutes(), (u64::MAX - 75) / 150 + 1);
}

#[test]
fn template_choice() {
    assert_eq!(template_name(&Some("special.html".into()), &Some("blog".into()), "post"), "special.html");
    assert_eq!(template_name(&None, &Some("blog".into()), "post"), "blog.html");
    assert_eq!(template_name(&None, &None, "post"), "post.html");
}

#[test]
fn translation_links() {
    assert_eq!(translation_link("en", "en", "/blog/a"), "/blog/a");
    assert_eq!(translation_link("ko", "en", "/blog/a"), "/ko/blog/a");
}

#[test]
fn links_are_rewritten_to_published_names() {
    let mut s = AssetStore::new();
    let rec = s.register("img/cat.png", b"meow").unwrap();
    assert_eq!(rewrite_link(&s, "img/cat.png"), Some(format!("/{}", rec.rewritten_name)));
    assert_eq!(rewrite_link(&s, "https://example.com/img/cat.png"), None);
    assert_eq!(rewrite_link(&s, "img/dog.png"), None);
    let rec2 = s.register("/abs.png", b"abs").unwrap();
    assert!(!rec2.rewritten_name.is_empty());
    assert_eq!(rewrite_link(&s, "/abs.png"), None);
}

#[test]
fn summary_stops_at_paragraph_after_limit() {
    let mut c = SummaryCutter::new();
    assert!(!c.on_element(true));
    c.on_text(150);
    assert!(!c.on_element(true));
    c.on_text(51);
    assert!(!c.on_element(false));
    assert!(c.on_element(true));
    assert!(c.on_element(false));
    c.on_text(u64::MAX);
    assert_eq!(c.seen, u64::MAX);
}

#[test]
fn code_blocks_are_framed() {
    assert_eq!(
        code_block_html("rust", "<i>x</i>"),
        "<pre><div class=\"lang-tag\">rust</div><div class=\"code-block\"><code><i>x</i></code></div></pre>"
    );
    assert_eq!(code_block_html("", "x"), "<pre><div class=\"code-block\"><code>x</code></div></pre>");
    assert_eq!(
        plain_code_block("", "a < b"),
        "<pre><div class=\"code-block\"><code>a &lt; b</code></div></pre>"
    );
    assert_eq!(
        plain_code_block("c<", "<a href='x'>\"/&"),
        "<pre><div class=\"lang-tag\">c&lt;</div><div class=\"code-block\"><code>&lt;a href=&#x27;x&#x27;&gt;&quot;&#x2F;&amp;</code></div></pre>"
    );
}

#[test]
fn language_aliases() {
    assert_eq!(canonical_language("Python"), Some("py".to_string()));
    assert_eq!(canonical_language("C++"), Some("cpp".to_string()));
    assert_eq!(canonical_language("rust"), Some("rust".to_string()));
    assert_eq!(canonical_language("JavaScript"), Some("js".to_string()));
    assert_eq!(canonical_language("clj"), Some("el".to_string()));
    assert_eq!(canonical_language("cobol"), None);
    assert_eq!(canonical_language("rs"), None);
    assert_eq!(canonical_language(""), None);
}
