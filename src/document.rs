//! The line markers of a template settings document, and how a line is
//! told apart from the others.
use vstd::prelude::*;
use crate::pattern::{Pattern, regex_compiles, regex_matches, regex_first_group};
use crate::text::{trimmed, trim_text};

verus! {

/// The name attribute on the opening of a template definition.
pub const TEMPLATE_NAME_REGEX: &'static str = "<template name=\"(.+?)\"";
/// A template definition that opens and closes on one line.
pub const SINGLE_LINE_TEMPLATE_REGEX: &'static str = "<template name=\"(.+?)\".+?/>";
/// The opening line of a template definition that spans several lines: it
/// ends with a bare `>`, after nothing but whitespace.
pub const MULTI_LINE_TEMPLATE_START_REGEX: &'static str = "<template name=\"(.+?)\".+?\">\\s*$";
/// The closing line of a template definition that spans several lines.
pub const MULTI_LINE_TEMPLATE_END_REGEX: &'static str = "</template>";
/// The region of the shared definitions document that holds its templates.
pub const SHARED_TEMPLATES_REGEX: &'static str = "<shared_templates>\\n([\\S\\s]+?)</shared_templates>";
/// The line that closes the list of templates in a settings document.
pub const TEMPLATES_BLOCK_END: &'static str = "</default_templates>";
/// What a settings document written from scratch holds before the templates.
pub const TEMPLATE_SETTINGS_START: &'static str = "<application>\n\t<component name=\"ExportableFileTemplateSettings\">\n\t\t<default_templates>\n";
/// What a settings document written from scratch holds after the templates.
pub const TEMPLATE_SETTINGS_END: &'static str = "\t</default_templates>\n\t</component>\n</application>";

/// Why a run cannot go on.
#[derive(Debug, Clone, Copy, PartialEq, Eq, Structural)]
pub enum SyncError {
    /// One of the library's own patterns did not compile.
    BadPattern,
    /// The shared definitions document has no shared templates region.
    MissingSharedRegion,
    /// No installation directory was found.
    NoInstallation,
    /// The operator's choice of installation is not a number.
    InvalidSelection,
    /// The operator's choice of installation is a number outside the list.
    SelectionOutOfRange,
}

/// What a line of a settings document is, in the abstract.
pub enum Marker {
    /// Closes a multi-line template definition.
    Close,
    /// Opens a multi-line template definition with this name.
    Open(Seq<char>),
    /// A whole template definition with this name, on one line.
    Single(Seq<char>),
    /// Closes the list of templates.
    ListEnd,
    /// Anything else.
    Plain,
}

/// What a line of a settings document is.
#[derive(Debug, PartialEq, Eq)]
pub enum LineKind {
    Close,
    Open(String),
    Single(String),
    ListEnd,
    Plain,
}

impl View for LineKind {
    type V = Marker;

    open spec fn view(&self) -> Marker {
        match self {
            LineKind::Close => Marker::Close,
            LineKind::Open(n) => Marker::Open(n@),
            LineKind::Single(n) => Marker::Single(n@),
            LineKind::ListEnd => Marker::ListEnd,
            LineKind::Plain => Marker::Plain,
        }
    }
}

/// The marker of a line: the closing pattern is tried first, then the
/// multi-line opening, then the single-line definition, then the end of the
/// list (the line without surrounding whitespace).
pub open spec fn marker_of(line: Seq<char>) -> Marker {
    if regex_matches(MULTI_LINE_TEMPLATE_END_REGEX@, line) {
        Marker::Close
    } else if regex_first_group(MULTI_LINE_TEMPLATE_START_REGEX@, line) is Some {
        Marker::Open(regex_first_group(MULTI_LINE_TEMPLATE_START_REGEX@, line)->Some_0)
    } else if regex_first_group(SINGLE_LINE_TEMPLATE_REGEX@, line) is Some {
        Marker::Single(regex_first_group(SINGLE_LINE_TEMPLATE_REGEX@, line)->Some_0)
    } else if trimmed(line) == TEMPLATES_BLOCK_END@ {
        Marker::ListEnd
    } else {
        Marker::Plain
    }
}

pub open spec fn markers_of(lines: Seq<Seq<char>>) -> Seq<Marker> {
    lines.map_values(|l: Seq<char>| marker_of(l))
}

/// The compiled patterns a run works with.
pub struct Markers {
    pub name: Pattern,
    pub single: Pattern,
    pub open: Pattern,
    pub close: Pattern,
    pub shared: Pattern,
}

impl Markers {
    /// Each pattern was compiled from its own source.
    pub open spec fn wf(&self) -> bool {
        &&& self.name@ == TEMPLATE_NAME_REGEX@
        &&& self.single@ == SINGLE_LINE_TEMPLATE_REGEX@
        &&& self.open@ == MULTI_LINE_TEMPLATE_START_REGEX@
        &&& self.close@ == MULTI_LINE_TEMPLATE_END_REGEX@
        &&& self.shared@ == SHARED_TEMPLATES_REGEX@
    }

    /// Compiles the library's patterns.
    pub fn new() -> (r: Result<Markers, SyncError>)
        ensures
            r is Ok <==> {
                &&& regex_compiles(TEMPLATE_NAME_REGEX@)
                &&& regex_compiles(SINGLE_LINE_TEMPLATE_REGEX@)
                &&& regex_compiles(MULTI_LINE_TEMPLATE_START_REGEX@)
                &&& regex_compiles(MULTI_LINE_TEMPLATE_END_REGEX@)
                &&& regex_compiles(SHARED_TEMPLATES_REGEX@)
            },
            r matches Ok(m) ==> m.wf(),
            r matches Err(e) ==> e == SyncError::BadPattern,
    {
        let name = match Pattern::compile(TEMPLATE_NAME_REGEX) {
            Ok(p) => p,
            Err(_) => return Err(SyncError::BadPattern),
        };
        let single = match Pattern::compile(SINGLE_LINE_TEMPLATE_REGEX) {
            Ok(p) => p,
            Err(_) => return Err(SyncError::BadPattern),
        };
        let open = match Pattern::compile(MULTI_LINE_TEMPLATE_START_REGEX) {
            Ok(p) => p,
            Err(_) => return Err(SyncError::BadPattern),
        };
        let close = match Pattern::compile(MULTI_LINE_TEMPLATE_END_REGEX) {
            Ok(p) => p,
            Err(_) => return Err(SyncError::BadPattern),
        };
        let shared = match Pattern::compile(SHARED_TEMPLATES_REGEX) {
            Ok(p) => p,
            Err(_) => return Err(SyncError::BadPattern),
        };
        Ok(Markers { name, single, open, close, shared })
    }

    /// Tells what a line of a settings document is.
    pub fn classify(&self, line: &str) -> (r: LineKind)
        requires
            self.wf(),
        ensures
            r@ == marker_of(line@),
    {
        if self.close.is_match(line) {
            return LineKind::Close;
        }
        if let Some(n) = self.open.first_group(line) {
            return LineKind::Open(n);
        }
        if let Some(n) = self.single.first_group(line) {
            return LineKind::Single(n);
        }
        let t = trim_text(line).to_owned();
        let end = TEMPLATES_BLOCK_END.to_owned();
        if t == end {
            LineKind::ListEnd
        } else {
            LineKind::Plain
        }
    }
}

} // verus!
