//! Turning a static file into its published form: HTML is checked, scripts
//! are minified, stylesheets compiled and optimized, binaries kept as they
//! are. The hash is always taken on the published bytes.
use vstd::prelude::*;
use vstd::utf8::{decode_utf8, encode_utf8, valid_utf8};
use crate::asset::{base_name, hash_file, seahash_of};
use crate::front::utf8_text;
use crate::names::extension_dot;
use crate::text::{chars_of, str_eq, string_of};
use lightningcss::printer::PrinterOptions;
use lightningcss::stylesheet::{MinifyOptions, ParserOptions, StyleSheet};

verus! {

/// The published form of a static file.
#[derive(Clone, Copy, Debug, PartialEq, Eq, PartialOrd, Ord)]
pub enum CompiledFileType {
    Html,
    Js,
    Css,
    Scss,
    RawBinary,
}

/// The content of a processed file.
#[derive(Debug)]
pub enum DataType {
    Direct,
    Binary(Vec<u8>),
    String(String),
}

/// The bytes that a processed file publishes.
pub open spec fn data_bytes(d: DataType) -> Seq<u8> {
    match d {
        DataType::Direct => Seq::empty(),
        DataType::Binary(b) => b@,
        DataType::String(s) => encode_utf8(s@),
    }
}

/// The content is the text `t`.
pub open spec fn holds_text(d: DataType, t: Seq<char>) -> bool {
    d matches DataType::String(s) && s@ == t
}

/// The content is the bytes `b`.
pub open spec fn holds_bytes(d: DataType, b: Seq<u8>) -> bool {
    d matches DataType::Binary(v) && v@ == b
}

/// A static file ready to publish.
#[derive(Debug)]
pub struct ProcessedFile {
    pub path: String,
    pub ftype: CompiledFileType,
    pub hash: u64,
    pub data: DataType,
}

/// Why a static file cannot be published.
#[derive(Clone, Copy, Debug, PartialEq, Eq)]
pub enum ProcessError {
    /// Its extension names no known format.
    UnknownFormat,
    /// A text format that is not valid UTF-8.
    InvalidText,
    /// The script or stylesheet could not be compiled.
    CompileFailed,
}

/// The extension of the last segment of a path, empty when there is none.
pub open spec fn extension_spec(path: Seq<char>) -> Seq<char> {
    let name = base_name(path);
    match extension_dot(name) {
        Some(i) => name.subrange(i + 1, name.len() as int),
        None => Seq::empty(),
    }
}

/// The format an extension stands for.
pub open spec fn compiled_type_spec(ext: Seq<char>) -> Option<CompiledFileType> {
    if ext == "html"@ {
        Some(CompiledFileType::Html)
    } else if ext == "js"@ {
        Some(CompiledFileType::Js)
    } else if ext == "css"@ {
        Some(CompiledFileType::Css)
    } else if ext == "sass"@ || ext == "scss"@ {
        Some(CompiledFileType::Scss)
    } else if ext == "png"@ || ext == "jpg"@ || ext == "jpeg"@ || ext == "gif"@ || ext == "webp"@
        || ext == "wasm"@ {
        Some(CompiledFileType::RawBinary)
    } else {
        None
    }
}

/// The format an extension stands for.
pub fn compiled_type(ext: &str) -> (r: Option<CompiledFileType>)
    ensures
        r == compiled_type_spec(ext@),
{
    if str_eq(ext, "html") {
        Some(CompiledFileType::Html)
    } else if str_eq(ext, "js") {
        Some(CompiledFileType::Js)
    } else if str_eq(ext, "css") {
        Some(CompiledFileType::Css)
    } else if str_eq(ext, "sass") || str_eq(ext, "scss") {
        Some(CompiledFileType::Scss)
    } else if str_eq(ext, "png") || str_eq(ext, "jpg") || str_eq(ext, "jpeg") || str_eq(ext, "gif")
        || str_eq(ext, "webp") || str_eq(ext, "wasm") {
        Some(CompiledFileType::RawBinary)
    } else {
        None
    }
}

/// The extension of the last segment of a path.
pub fn path_extension(path: &str) -> (r: String)
    ensures
        r@ == extension_spec(path@),
{
    let cs = chars_of(path);
    proof {
        crate::text::lemma_last_index_props(cs@, '/');
    }
    let start = match crate::text::find_last(&cs, '/') {
        Some(i) => {
            assert(i < cs.len());
            i + 1
        },
        None => 0,
    };
    let name = string_of(&cs, start, cs.len());
    let nc = chars_of(name.as_str());
    assert(nc@ == base_name(path@));
    proof {
        crate::text::lemma_last_index_props(nc@, '.');
    }
    match crate::text::find_last(&nc, '.') {
        Some(i) => {
            assert(i < nc.len());
            if i > 0 {
                string_of(&nc, i + 1, nc.len())
            } else {
                String::new()
            }
        },
        None => String::new(),
    }
}

/// Relies on minify_js::minify in global top-level mode: the minified
/// script, or none when the source does not parse. The minifier orders
/// hoisted declarations by walking a map whose hasher is seeded per process,
/// so nothing is stated of the result.
#[verifier::external_body]
pub(crate) fn minify_js(src: &[u8]) -> (r: Option<Vec<u8>>) {
    let session = minify_js::Session::new();
    let mut out = Vec::new();
    match minify_js::minify(&session, minify_js::TopLevelMode::Global, src, &mut out) {
        Ok(()) => Some(out),
        Err(_) => None,
    }
}

/// Relies on lightningcss's StyleSheet::parse, StyleSheet::minify and
/// StyleSheet::to_css with default options: the optimized stylesheet, or none
/// when it does not parse. Nothing is stated of the result: whether the
/// minifier's output depends on the text alone is not shown here.
#[verifier::external_body]
pub fn optimize_css(css: &str) -> (r: Option<String>) {
    let mut sheet = match StyleSheet::parse(css, ParserOptions::default()) {
        Ok(s) => s,
        Err(_) => return None,
    };
    match sheet.minify(MinifyOptions::default()) {
        Ok(()) => sheet.to_css(PrinterOptions::default()).ok().map(|r| r.code),
        Err(_) => None,
    }
}

/// Relies on rsass::compile_scss with the default format, whose output is
/// taken as UTF-8 text. Imports are read from the working directory, so
/// nothing is stated of the result.
#[verifier::external_body]
pub fn compile_sass(data: &[u8]) -> (r: Option<String>) {
    match rsass::compile_scss(data, rsass::output::Format::default()) {
        Ok(bytes) => String::from_utf8(bytes).ok(),
        Err(_) => None,
    }
}

fn string_file(path: &str, ftype: CompiledFileType, text: String) -> (r: ProcessedFile)
    ensures
        r.path@ == path@,
        r.ftype == ftype,
        holds_text(r.data, text@),
        r.hash == seahash_of(encode_utf8(text@)),
{
    let hash = hash_file(text.as_str().as_bytes());
    ProcessedFile { path: path.to_owned(), ftype, hash, data: DataType::String(text) }
}

fn binary_file(path: &str, ftype: CompiledFileType, bytes: Vec<u8>) -> (r: ProcessedFile)
    ensures
        r.path@ == path@,
        r.ftype == ftype,
        holds_bytes(r.data, bytes@),
        r.hash == seahash_of(bytes@),
{
    let hash = hash_file(bytes.as_slice());
    ProcessedFile { path: path.to_owned(), ftype, hash, data: DataType::Binary(bytes) }
}

/// Processes the file at `path` with content `bytes` by its extension. The
/// hash of the result is always that of the bytes it publishes.
pub fn process_file(path: &str, bytes: Vec<u8>) -> (r: Result<ProcessedFile, ProcessError>)
    ensures
        compiled_type_spec(extension_spec(path@)) is None <==> r == Err::<ProcessedFile, ProcessError>(
            ProcessError::UnknownFormat,
        ),
        r matches Ok(f) ==> f.path@ == path@ && f.hash == seahash_of(data_bytes(f.data)),
        compiled_type_spec(extension_spec(path@)) == Some(CompiledFileType::Html) ==> (r is Ok
            <==> valid_utf8(bytes@)) && (r is Ok ==> r->Ok_0.ftype == CompiledFileType::Html
            && holds_text(r->Ok_0.data, decode_utf8(bytes@))),
        compiled_type_spec(extension_spec(path@)) == Some(CompiledFileType::Js) ==> (r is Ok
            ==> r->Ok_0.ftype == CompiledFileType::Js && r->Ok_0.data is Binary),
        compiled_type_spec(extension_spec(path@)) == Some(CompiledFileType::Css) ==> (r is Ok
            ==> valid_utf8(bytes@) && r->Ok_0.ftype == CompiledFileType::Css && r->Ok_0.data is String),
        compiled_type_spec(extension_spec(path@)) == Some(CompiledFileType::Css) && !valid_utf8(bytes@)
            ==> r == Err::<ProcessedFile, ProcessError>(ProcessError::InvalidText),
        compiled_type_spec(extension_spec(path@)) == Some(CompiledFileType::Scss) ==> (r is Ok
            ==> r->Ok_0.ftype == CompiledFileType::Css && r->Ok_0.data is String),
        compiled_type_spec(extension_spec(path@)) == Some(CompiledFileType::RawBinary) ==> (r is Ok
            && r->Ok_0.ftype == CompiledFileType::RawBinary && holds_bytes(r->Ok_0.data, bytes@)),
{
    let ext = path_extension(path);
    let ftype = match compiled_type(ext.as_str()) {
        Some(t) => t,
        None => return Err(ProcessError::UnknownFormat),
    };
    match ftype {
        CompiledFileType::Html => match utf8_text(bytes) {
            Some(text) => Ok(string_file(path, CompiledFileType::Html, text)),
            None => Err(ProcessError::InvalidText),
        },
        CompiledFileType::Js => match minify_js(bytes.as_slice()) {
            Some(min) => Ok(binary_file(path, CompiledFileType::Js, min)),
            None => Err(ProcessError::CompileFailed),
        },
        CompiledFileType::Css => match utf8_text(bytes) {
            Some(text) => match optimize_css(text.as_str()) {
                Some(css) => Ok(string_file(path, CompiledFileType::Css, css)),
                None => Err(ProcessError::CompileFailed),
            },
            None => Err(ProcessError::InvalidText),
        },
        CompiledFileType::Scss => match compile_sass(bytes.as_slice()) {
            Some(text) => match optimize_css(text.as_str()) {
                Some(css) => Ok(string_file(path, CompiledFileType::Css, css)),
                None => Err(ProcessError::CompileFailed),
            },
            None => Err(ProcessError::CompileFailed),
        },
        CompiledFileType::RawBinary => Ok(binary_file(path, CompiledFileType::RawBinary, bytes)),
    }
}

} // verus!
