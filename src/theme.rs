//! A theme bundle: templates, scripting hooks, compiled stylesheets,
//! minified scripts and static files, gathered file by file.
use vstd::prelude::*;
use crate::files::{compile_sass, optimize_css};
use crate::front::utf8_text;
use crate::hooks::{HookError, HookKind, ThemeHooks};
use crate::names::{extension_dot, file_stem, stem_of};
use crate::store::AssetStore;
use crate::text::{chars_of, str_eq, string_of};
use vstd::utf8::{decode_utf8, valid_utf8};

verus! {

/// The subdirectory of a theme bundle a file comes from.
#[derive(Clone, Copy, Debug, PartialEq, Eq)]
pub enum ThemeSection {
    Templates,
    Stylesheets,
    Scripts,
    Shortcodes,
    Functions,
    Filters,
    Testers,
    Static,
}

/// Why a theme cannot be loaded; any of these fails the whole theme.
#[derive(Clone, Copy, Debug, PartialEq, Eq)]
pub enum ThemeError {
    /// A text file of the theme is not valid UTF-8.
    InvalidText,
    /// A stylesheet or script does not compile.
    CompileFailed,
    /// Two hooks of one kind share a name.
    DuplicateHook,
}

/// What became of one file of a theme bundle.
#[derive(Clone, Copy, Debug, PartialEq, Eq)]
pub enum ThemeFileOutcome {
    Template,
    Hook,
    Style,
    Script,
    Asset,
    /// Not a file this section takes, or empty.
    Ignored,
}

/// The extension of a file name, empty when there is none.
pub open spec fn name_extension(name: Seq<char>) -> Seq<char> {
    match extension_dot(name) {
        Some(i) => name.subrange(i + 1, name.len() as int),
        None => Seq::empty(),
    }
}

/// The hook kind of a scripting section.
pub open spec fn section_hook(s: ThemeSection) -> Option<HookKind> {
    match s {
        ThemeSection::Shortcodes => Some(HookKind::Shortcode),
        ThemeSection::Functions => Some(HookKind::Function),
        ThemeSection::Filters => Some(HookKind::Filter),
        ThemeSection::Testers => Some(HookKind::Tester),
        _ => None,
    }
}

/// Whether a section takes a file with this name.
pub open spec fn accepts(s: ThemeSection, name: Seq<char>) -> bool {
    let e = name_extension(name);
    match s {
        ThemeSection::Templates => e == "html"@ || e == "tera"@,
        ThemeSection::Stylesheets => e == "css"@ || e == "scss"@,
        ThemeSection::Scripts => e == "js"@,
        ThemeSection::Shortcodes => true,
        ThemeSection::Functions | ThemeSection::Filters | ThemeSection::Testers => e == "rhai"@,
        ThemeSection::Static => true,
    }
}

/// `after` is `before` with one more entry, named `name`.
pub open spec fn appended(
    before: Seq<(Seq<char>, Seq<char>)>,
    after: Seq<(Seq<char>, Seq<char>)>,
    name: Seq<char>,
) -> bool {
    after.len() == before.len() + 1 && after.subrange(0, before.len() as int) == before
        && after[before.len() as int].0 == name
}

/// The theme being gathered.
pub struct SiteTheme {
    pub templates: Vec<(String, String)>,
    pub hooks: ThemeHooks,
    pub styles: Vec<(String, String)>,
    pub scripts: Vec<(String, String)>,
    pub files: AssetStore,
}

impl SiteTheme {
    pub open spec fn template_names(&self) -> Seq<Seq<char>> {
        self.templates@.map_values(|t: (String, String)| t.0@)
    }

    /// Each template's name and text.
    pub open spec fn template_entries(&self) -> Seq<(Seq<char>, Seq<char>)> {
        self.templates@.map_values(|t: (String, String)| (t.0@, t.1@))
    }

    pub open spec fn style_entries(&self) -> Seq<(Seq<char>, Seq<char>)> {
        self.styles@.map_values(|t: (String, String)| (t.0@, t.1@))
    }

    pub open spec fn script_entries(&self) -> Seq<(Seq<char>, Seq<char>)> {
        self.scripts@.map_values(|t: (String, String)| (t.0@, t.1@))
    }

    pub open spec fn wf(&self) -> bool {
        self.hooks.wf() && self.files.wf()
    }

    pub fn new() -> (r: SiteTheme)
        ensures
            r.wf(),
            r.template_names().len() == 0,
            r.style_entries().len() == 0,
            r.script_entries().len() == 0,
            r.hooks.keys().len() == 0,
            r.files.records().len() == 0,
    {
        let r = SiteTheme {
            templates: Vec::new(),
            hooks: ThemeHooks::new(),
            styles: Vec::new(),
            scripts: Vec::new(),
            files: AssetStore::new(),
        };
        assert(r.template_names() =~= Seq::<Seq<char>>::empty());
        assert(r.style_entries() =~= Seq::<(Seq<char>, Seq<char>)>::empty());
        assert(r.script_entries() =~= Seq::<(Seq<char>, Seq<char>)>::empty());
        r
    }

    /// The source of template `name`.
    pub fn template(&self, name: &str) -> (r: Option<&String>)
        ensures
            r is Some <==> self.template_names().contains(name@),
    {
        let mut i: usize = 0;
        while i < self.templates.len()
            invariant
                i <= self.templates.len(),
                forall|j: int| 0 <= j < i ==> self.template_names()[j] != name@,
            decreases self.templates.len() - i,
        {
            if str_eq(self.templates[i].0.as_str(), name) {
                assert(self.template_names()[i as int] == name@);
                return Some(&self.templates[i].1);
            }
            i = i + 1;
        }
        None
    }

    /// Number of templates, stylesheets and scripts.
    pub fn counts(&self) -> (r: (usize, usize, usize))
        ensures
            r.0 == self.template_names().len(),
            r.1 == self.style_entries().len(),
            r.2 == self.script_entries().len(),
    {
        (self.templates.len(), self.styles.len(), self.scripts.len())
    }

    /// Takes one file of the bundle: `name` is its path below the section
    /// directory, `file_name` its last segment. A file the section does not
    /// take is ignored; one that fails to read or compile fails the theme.
    pub fn add_file(
        &mut self,
        section: ThemeSection,
        name: &str,
        file_name: &str,
        bytes: Vec<u8>,
    ) -> (r: Result<ThemeFileOutcome, ThemeError>)
        requires
            old(self).wf(),
        ensures
            final(self).wf(),
            !accepts(section, file_name@) ==> r == Ok::<ThemeFileOutcome, ThemeError>(
                ThemeFileOutcome::Ignored,
            ),
            accepts(section, file_name@) && section == ThemeSection::Templates ==> (r is Ok <==> valid_utf8(
                bytes@,
            )) && (r is Ok ==> r == Ok::<ThemeFileOutcome, ThemeError>(ThemeFileOutcome::Template)
                && final(self).template_entries() == old(self).template_entries().push(
                (name@, decode_utf8(bytes@)),
            )),
            accepts(section, file_name@) && section_hook(section) is Some ==> (r is Ok <==> valid_utf8(
                bytes@,
            ) && !old(self).hooks.keys().contains((section_hook(section)->0, stem_of(file_name@))))
                && (r is Ok ==> final(self).hooks.keys() == old(self).hooks.keys().push(
                (section_hook(section)->0, stem_of(file_name@)),
            ) && final(self).hooks.sources() == old(self).hooks.sources().push(decode_utf8(bytes@))),
            accepts(section, file_name@) && section == ThemeSection::Scripts && bytes@.len() > 0
                ==> (r is Ok ==> appended(old(self).script_entries(), final(self).script_entries(), name@)),
            accepts(section, file_name@) && section == ThemeSection::Stylesheets && bytes@.len() > 0
                ==> (r is Ok ==> appended(old(self).style_entries(), final(self).style_entries(), name@)),
            accepts(section, file_name@) && section == ThemeSection::Stylesheets && bytes@.len() > 0
                && name_extension(file_name@) == "css"@ && !valid_utf8(bytes@) ==> r
                == Err::<ThemeFileOutcome, ThemeError>(ThemeError::InvalidText),
            (section == ThemeSection::Stylesheets || section == ThemeSection::Scripts) && bytes@.len()
                == 0 ==> r == Ok::<ThemeFileOutcome, ThemeError>(ThemeFileOutcome::Ignored),
            section == ThemeSection::Static ==> r == Ok::<ThemeFileOutcome, ThemeError>(
                ThemeFileOutcome::Asset,
            ) && final(self).files.records() == crate::store::register_spec(
                old(self).files.records(),
                name@,
                bytes@,
            ).0,
    {
        let stem = file_stem(file_name);
        let cs = chars_of(file_name);
        let ext = match crate::names::extension_position(&cs) {
            Some(i) => string_of(&cs, i + 1, cs.len()),
            None => String::new(),
        };
        assert(ext@ == name_extension(file_name@));
        let e = ext.as_str();
        match section {
            ThemeSection::Templates => {
                if !(str_eq(e, "html") || str_eq(e, "tera")) {
                    return Ok(ThemeFileOutcome::Ignored);
                }
                match utf8_text(bytes) {
                    Some(text) => {
                        let ghost before = self.template_names();
                        let ghost entries = self.template_entries();
                        let ghost v = text@;
                        self.templates.push((name.to_owned(), text));
                        assert(self.template_names() =~= before.push(name@));
                        assert(self.template_entries() =~= entries.push((name@, v)));
                        Ok(ThemeFileOutcome::Template)
                    },
                    None => Err(ThemeError::InvalidText),
                }
            },
            ThemeSection::Stylesheets => {
                if !(str_eq(e, "css") || str_eq(e, "scss")) {
                    return Ok(ThemeFileOutcome::Ignored);
                }
                if bytes.len() == 0 {
                    return Ok(ThemeFileOutcome::Ignored);
                }
                let css = if str_eq(e, "css") {
                    match utf8_text(bytes) {
                        Some(t) => t,
                        None => return Err(ThemeError::InvalidText),
                    }
                } else {
                    match compile_sass(bytes.as_slice()) {
                        Some(t) => t,
                        None => return Err(ThemeError::CompileFailed),
                    }
                };
                match optimize_css(css.as_str()) {
                    Some(out) => {
                        let ghost before = self.style_entries();
                        let ghost v = out@;
                        self.styles.push((name.to_owned(), out));
                        assert(self.style_entries() =~= before.push((name@, v)));
                        assert(self.style_entries().subrange(0, before.len() as int) =~= before);
                        Ok(ThemeFileOutcome::Style)
                    },
                    None => Err(ThemeError::CompileFailed),
                }
            },
            ThemeSection::Scripts => {
                if !str_eq(e, "js") {
                    return Ok(ThemeFileOutcome::Ignored);
                }
                if bytes.len() == 0 {
                    return Ok(ThemeFileOutcome::Ignored);
                }
                match crate::files::minify_js(bytes.as_slice()) {
                    Some(min) => match utf8_text(min) {
                        Some(text) => {
                            let ghost before = self.script_entries();
                            let ghost v = text@;
                            self.scripts.push((name.to_owned(), text));
                            assert(self.script_entries() =~= before.push((name@, v)));
                            assert(self.script_entries().subrange(0, before.len() as int) =~= before);
                            Ok(ThemeFileOutcome::Script)
                        },
                        None => Err(ThemeError::InvalidText),
                    },
                    None => Err(ThemeError::CompileFailed),
                }
            },
            ThemeSection::Static => {
                let _ = self.files.register(name, bytes.as_slice());
                Ok(ThemeFileOutcome::Asset)
            },
            _ => {
                let kind = match section {
                    ThemeSection::Shortcodes => HookKind::Shortcode,
                    ThemeSection::Functions => HookKind::Function,
                    ThemeSection::Filters => HookKind::Filter,
                    _ => HookKind::Tester,
                };
                if kind != HookKind::Shortcode && !str_eq(e, "rhai") {
                    return Ok(ThemeFileOutcome::Ignored);
                }
                match utf8_text(bytes) {
                    Some(source) => match self.hooks.add(kind, stem, source) {
                        Ok(()) => Ok(ThemeFileOutcome::Hook),
                        Err(HookError::Duplicate) => Err(ThemeError::DuplicateHook),
                    },
                    None => Err(ThemeError::InvalidText),
                }
            },
        }
    }
}

} // verus!
