use moklog::hooks::HookKind;
use moklog::theme::{SiteTheme, ThemeError, ThemeFileOutcome, ThemeSection};

#[test]
fn templates_take_html_and_tera_only() {
    let mut t = SiteTheme::new();
    assert_eq!(
        t.add_file(ThemeSection::Templates, "blog.html", "blog.html", b"<p>{{ title }}</p>".to_vec()),
        Ok(ThemeFileOutcome::Template)
    );
    assert_eq!(
        t.add_file(ThemeSection::Templates, "base.tera", "base.tera", b"x".to_vec()),
        Ok(ThemeFileOutcome::Template)
    );
    assert_eq!(
        t.add_file(ThemeSection::Templates, "notes.txt", "notes.txt", b"x".to_vec()),
        Ok(ThemeFileOutcome::Ignored)
    );
    assert_eq!(
        t.add_file(ThemeSection::Templates, "bad.html", "bad.html", vec![0xff]),
        Err(ThemeError::InvalidText)
    );
    assert_eq!(t.template("blog.html").map(|s| s.as_str()), Some("<p>{{ title }}</p>"));
    assert!(t.template("notes.txt").is_none());
    assert_eq!(t.counts(), (2, 0, 0));
}

#[test]
fn stylesheets_are_compiled_and_optimized() {
    let mut t = SiteTheme::new();
    assert_eq!(
        t.add_file(ThemeSection::Stylesheets, "site.scss", "site.scss", b"$c: red;\na { b { color: $c; } }".to_vec()),
        Ok(ThemeFileOutcome::Style)
    );
    assert!(t.styles[0].1.contains("a b"));
    assert!(!t.styles[0].1.contains("$c"));
    assert_eq!(
        t.add_file(ThemeSection::Stylesheets, "plain.css", "plain.css", b"a {  color : red ; }".to_vec()),
        Ok(ThemeFileOutcome::Style)
    );
    assert_eq!(
        t.add_file(ThemeSection::Stylesheets, "empty.css", "empty.css", vec![]),
        Ok(ThemeFileOutcome::Ignored)
    );
    assert_eq!(
        t.add_file(ThemeSection::Stylesheets, "broken.scss", "broken.scss", b"a { color: $missing; }".to_vec()),
        Err(ThemeError::CompileFailed)
    );
    assert_eq!(t.counts(), (0, 2, 0));
}

#[test]
fn scripts_are_minified() {
    let mut t = SiteTheme::new();
    let src = b"let answer = 40 + 2;\nconsole.log( answer );\n".to_vec();
    assert_eq!(t.add_file(ThemeSection::Scripts, "app.js", "app.js", src.clone()), Ok(ThemeFileOutcome::Script));
    assert!(t.scripts[0].1.len() < src.len());
    assert_eq!(
        t.add_file(ThemeSection::Scripts, "bad.js", "bad.js", b"let = ;".to_vec()),
        Err(ThemeError::CompileFailed)
    );
}

#[test]
fn hooks_are_named_after_their_files() {
    let mut t = SiteTheme::new();
    assert_eq!(
        t.add_file(ThemeSection::Filters, "upper.rhai", "upper.rhai", b"fn filter(v, a, n) { v }".to_vec()),
        Ok(ThemeFileOutcome::Hook)
    );
    assert_eq!(
        t.add_file(ThemeSection::Filters, "upper.js", "upper.js", b"x".to_vec()),
        Ok(ThemeFileOutcome::Ignored)
    );
    assert_eq!(
        t.add_file(ThemeSection::Shortcodes, "note.html", "note.html", b"<aside>{{ text }}</aside>".to_vec()),
        Ok(ThemeFileOutcome::Hook)
    );
    assert_eq!(
        t.add_file(ThemeSection::Filters, "upper.rhai", "upper.rhai", b"fn filter(v, a, n) { v }".to_vec()),
        Err(ThemeError::DuplicateHook)
    );
    assert_eq!(t.hooks.invoke(HookKind::Filter, "upper"), Some(0));
    assert_eq!(t.hooks.invoke(HookKind::Shortcode, "note"), Some(0));
    assert_eq!(t.hooks.invoke(HookKind::Shortcode, "note"), Some(1));
}

#[test]
fn static_files_go_to_the_asset_store() {
    let mut t = SiteTheme::new();
    assert_eq!(
        t.add_file(ThemeSection::Static, "img/logo.png", "logo.png", b"png".to_vec()),
        Ok(ThemeFileOutcome::Asset)
    );
    assert_eq!(t.files.len(), 1);
    assert_eq!(t.files.lookup_path("img/logo.png").unwrap().content_hash, seahash::hash(b"png"));
}

#[test]
fn identical_theme_files_share_one_record() {
    let mut t = SiteTheme::new();
    let bytes = b"same logo bytes".to_vec();
    assert_eq!(
        t.add_file(ThemeSection::Static, "a/logo.png", "logo.png", bytes.clone()),
        Ok(ThemeFileOutcome::Asset)
    );
    assert_eq!(
        t.add_file(ThemeSection::Static, "b/logo.png", "logo.png", bytes.clone()),
        Ok(ThemeFileOutcome::Asset)
    );
    assert_eq!(t.files.len(), 1);
    let a = t.files.lookup_path("a/logo.png").unwrap();
    let b = t.files.lookup_path("b/logo.png").unwrap();
    assert_eq!(a.rewritten_name, b.rewritten_name);
    assert_eq!(a.content_hash, seahash::hash(&bytes));
}
