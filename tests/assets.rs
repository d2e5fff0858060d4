use moklog::asset::{hash_file, new_filename};
use moklog::files::{process_file, CompiledFileType, DataType, ProcessError};
use moklog::store::AssetStore;

fn expected_name(stem: &str, bytes: &[u8], ext: &str) -> String {
    let h = seahash::hash(bytes);
    format!("{}.{}.{}", stem, base64::encode(h.to_le_bytes()), ext)
}

#[test]
fn hash_file_is_seahash() {
    assert_eq!(hash_file(b"hello"), seahash::hash(b"hello"));
    assert_ne!(hash_file(b"hello"), hash_file(b"hellp"));
}

#[test]
fn new_filename_puts_hash_after_stem() {
    let (h, name) = new_filename(b"abc", "static/logo.png").unwrap();
    assert_eq!(h, seahash::hash(b"abc"));
    assert_eq!(name, expected_name("logo", b"abc", "png"));
    assert!(name.starts_with("logo."));
    assert!(name.ends_with(".png"));
    assert_eq!(name.len(), "logo.".len() + 12 + ".png".len());
}

#[test]
fn new_filename_keeps_everything_after_first_dot() {
    let (_, name) = new_filename(b"x", "bundle.min.js").unwrap();
    assert_eq!(name, expected_name("bundle", b"x", "min.js"));
}

#[test]
fn new_filename_without_dot_is_none() {
    assert!(new_filename(b"abc", "dir.d/README").is_none());
}

#[test]
fn register_is_deterministic() {
    let mut a = AssetStore::new();
    let mut b = AssetStore::new();
    let ra = a.register("img/cat.png", b"meow").unwrap();
    let rb = b.register("img/cat.png", b"meow").unwrap();
    assert_eq!(ra.rewritten_name, rb.rewritten_name);
    let again = a.register("img/cat.png", b"meow").unwrap();
    assert_eq!(again.rewritten_name, ra.rewritten_name);
    assert_eq!(a.len(), 1);
}

#[test]
fn register_changed_byte_changes_name() {
    let mut s = AssetStore::new();
    let r1 = s.register("img/cat.png", b"meow").unwrap();
    let r2 = s.register("img/cat.png", b"meox").unwrap();
    assert_ne!(r1.rewritten_name, r2.rewritten_name);
    assert_eq!(s.len(), 2);
}

#[test]
fn register_skips_empty_and_extensionless_files() {
    let mut s = AssetStore::new();
    assert!(s.register("img/empty.png", b"").is_none());
    assert!(s.register("img/LICENSE", b"text").is_none());
    assert_eq!(s.len(), 0);
    assert!(s.lookup_path("img/empty.png").is_none());
}

#[test]
fn identical_files_share_one_record() {
    let mut s = AssetStore::new();
    let bytes = b"\x89PNG same bytes";
    let a = s.register("a/logo.png", bytes).unwrap();
    let b = s.register("b/logo.png", bytes).unwrap();
    assert_eq!(s.len(), 1);
    assert_eq!(a.content_hash, b.content_hash);
    assert_eq!(a.rewritten_name, b.rewritten_name);
    assert_eq!(b.source_path, "a/logo.png");
    let la = s.lookup_path("a/logo.png").unwrap();
    let lb = s.lookup_path("b/logo.png").unwrap();
    assert_eq!(la.rewritten_name, lb.rewritten_name);
    assert_eq!(s.lookup_hash(a.content_hash).unwrap().rewritten_name, a.rewritten_name);
}

#[test]
fn process_raw_binary_keeps_bytes() {
    let f = process_file("img/a.png", vec![1, 2, 3]).unwrap();
    assert_eq!(f.ftype, CompiledFileType::RawBinary);
    assert_eq!(f.hash, seahash::hash(&[1, 2, 3]));
    assert!(matches!(f.data, DataType::Binary(ref b) if b == &vec![1u8, 2, 3]));
    assert_eq!(f.path, "img/a.png");
}

#[test]
fn process_unknown_format_is_refused() {
    assert_eq!(process_file("notes.txt", vec![1]).unwrap_err(), ProcessError::UnknownFormat);
    assert_eq!(process_file("Makefile", vec![1]).unwrap_err(), ProcessError::UnknownFormat);
}

#[test]
fn process_html_requires_utf8() {
    assert_eq!(process_file("a.html", vec![0xff, 0xfe]).unwrap_err(), ProcessError::InvalidText);
    let f = process_file("a.html", b"<p>hi</p>".to_vec()).unwrap();
    assert_eq!(f.ftype, CompiledFileType::Html);
    assert_eq!(f.hash, seahash::hash(b"<p>hi</p>"));
}

#[test]
fn process_css_hashes_the_optimized_text() {
    let f = process_file("style/site.css", b"a {  color : red ; }".to_vec()).unwrap();
    assert_eq!(f.ftype, CompiledFileType::Css);
    match f.data {
        DataType::String(s) => {
            assert_eq!(f.hash, seahash::hash(s.as_bytes()));
            assert_ne!(s, "a {  color : red ; }");
        }
        _ => panic!("css must be text"),
    }
}

#[test]
fn process_js_hashes_the_minified_script() {
    let src = b"let answer = 40 + 2;\nconsole.log( answer );\n".to_vec();
    let f = process_file("js/app.js", src.clone()).unwrap();
    assert_eq!(f.ftype, CompiledFileType::Js);
    match f.data {
        DataType::Binary(b) => {
            assert_eq!(f.hash, seahash::hash(&b));
            assert!(b.len() < src.len());
        }
        _ => panic!("js must be bytes"),
    }
}

#[test]
fn process_broken_script_fails_to_compile() {
    assert_eq!(process_file("x.js", b"let = ;".to_vec()).unwrap_err(), ProcessError::CompileFailed);
}
