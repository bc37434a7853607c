//! File-type detection and the shared shape of a scan result.
//!
//! A path is classified by its extension alone: `.md`, `.py`, `.ts`/`.tsx`
//! and `.cs` select a scanner, anything else is unknown and scans to an
//! empty result.  Classification never fails.

use vstd::prelude::*;
use crate::names::{NameSet, spec_merge_names};
use crate::parser::{
    ClassLink, LinkModel, links_view, MarkdownParser, md_classes_of, md_links_of,
    lemma_md_sources_declared,
};
use crate::python_parser::{PythonParser, py_classes_of, py_links_of, lemma_py_sources_declared};
use crate::typescript_parser::{
    TypeScriptParser, ts_classes_of, ts_links_of, lemma_ts_sources_declared,
};
use crate::csharp_parser::{CSharpParser, cs_classes_of, cs_links_of, lemma_cs_sources_declared};
use crate::text::{to_chars, capture_string, str_eq};

verus! {

/// The languages the scanners understand, and `Unknown` for the rest.
#[derive(Debug, PartialEq, Eq, Structural)]
pub enum FileType {
    Markdown,
    Python,
    TypeScript,
    CSharp,
    Unknown,
}

/// The index after the last `'/'` strictly before position `p`, or `0`.
pub open spec fn spec_name_start(s: Seq<char>, p: int) -> int
    decreases p,
{
    if p <= 0 {
        0
    } else if s[p - 1] == '/' {
        p
    } else {
        spec_name_start(s, p - 1)
    }
}

/// The index after the last `'.'` strictly before position `p` and at or
/// after `ns`, or `ns`.
pub open spec fn spec_ext_start(s: Seq<char>, ns: int, p: int) -> int
    decreases p - ns,
{
    if p <= ns {
        ns
    } else if s[p - 1] == '.' {
        p
    } else {
        spec_ext_start(s, ns, p - 1)
    }
}

/// The extension of a path: the part of its final `'/'`-separated component
/// after the component's last `'.'`, provided that dot is neither the
/// component's first character nor missing.
pub open spec fn spec_ext_of(path: Seq<char>) -> Option<Seq<char>> {
    let ns = spec_name_start(path, path.len() as int);
    let es = spec_ext_start(path, ns, path.len() as int);
    if es > ns + 1 {
        Option::Some(path.subrange(es, path.len() as int))
    } else {
        Option::None
    }
}

/// The file type a path's extension selects.
pub open spec fn spec_file_type(path: Seq<char>) -> FileType {
    match spec_ext_of(path) {
        Option::None => FileType::Unknown,
        Option::Some(e) => if e == "md"@ {
            FileType::Markdown
        } else if e == "py"@ {
            FileType::Python
        } else if e == "ts"@ || e == "tsx"@ {
            FileType::TypeScript
        } else if e == "cs"@ {
            FileType::CSharp
        } else {
            FileType::Unknown
        },
    }
}

/// Every link starts at a declared name and carries a positive line number.
pub open spec fn links_sources_ok(classes: Seq<Seq<char>>, links: Seq<LinkModel>) -> bool {
    forall|j: int|
        0 <= j < links.len() ==> classes.contains(#[trigger] links[j].from) && links[j].line >= 1
}

/// What one file's scan produced: its declared names and its links.
pub struct AnalysisResult {
    pub classes: NameSet,
    pub links: Vec<ClassLink>,
}

impl AnalysisResult {
    /// The declared names form a set.
    pub open spec fn wf(&self) -> bool {
        self.classes.wf()
    }

    /// An empty result.
    pub fn new() -> (r: AnalysisResult)
        ensures
            r.classes@ == Seq::<Seq<char>>::empty(),
            r.links@ == Seq::<ClassLink>::empty(),
            r.wf(),
    {
        AnalysisResult { classes: NameSet::new(), links: Vec::new() }
    }

    /// Folds another result in: set union of the declared names, in order,
    /// and concatenation of the links.  Aggregation over many files is a
    /// fold of this operation, which is associative on the produced values.
    pub fn merge(&mut self, other: AnalysisResult)
        ensures
            final(self).classes@ == spec_merge_names(old(self).classes@, other.classes@),
            final(self).links@ == old(self).links@ + other.links@,
            old(self).wf() ==> final(self).wf(),
    {
        let mut other = other;
        self.classes.merge_from(&other.classes);
        self.links.append(&mut other.links);
    }
}

/// A language scanner: text in, declarations and links out.  Each
/// implementation fixes, as the two spec functions, exactly what it extracts.
pub trait FileAnalyzer {
    spec fn spec_classes(content: Seq<char>) -> Seq<Seq<char>>;

    spec fn spec_links(content: Seq<char>) -> Seq<LinkModel>;

    fn analyze(&self, content: &str, file_path: &str) -> (r: AnalysisResult)
        ensures
            r.classes@ == Self::spec_classes(content@),
            links_view(r.links@) == Self::spec_links(content@),
            r.wf(),
    ;
}

/// Routes a file's text to the scanner its path selects.
pub struct UnifiedAnalyzer;

impl UnifiedAnalyzer {
    pub fn new() -> (r: UnifiedAnalyzer) {
        UnifiedAnalyzer
    }

    /// Classifies a path by its extension, case-sensitively.
    pub fn detect_file_type(path: &str) -> (t: FileType)
        ensures
            t == spec_file_type(path@),
    {
        let chars = to_chars(path);
        let len = chars.len();
        // the final path component starts after the last '/'
        let mut ns: usize = len;
        while ns > 0 && chars[ns - 1] != '/'
            invariant
                0 <= ns <= len,
                len == chars@.len(),
                spec_name_start(chars@, len as int) == spec_name_start(chars@, ns as int),
            decreases ns,
        {
            ns = ns - 1;
        }
        // the extension starts after the component's last '.'
        let mut es: usize = len;
        while es > ns && chars[es - 1] != '.'
            invariant
                ns <= es <= len,
                len == chars@.len(),
                spec_ext_start(chars@, ns as int, len as int) == spec_ext_start(
                    chars@,
                    ns as int,
                    es as int,
                ),
            decreases es,
        {
            es = es - 1;
        }
        if es - ns <= 1 {
            return FileType::Unknown;
        }
        let ext = capture_string(&chars, es, len);
        if str_eq(ext.as_str(), "md") {
            FileType::Markdown
        } else if str_eq(ext.as_str(), "py") {
            FileType::Python
        } else if str_eq(ext.as_str(), "ts") || str_eq(ext.as_str(), "tsx") {
            FileType::TypeScript
        } else if str_eq(ext.as_str(), "cs") {
            FileType::CSharp
        } else {
            FileType::Unknown
        }
    }

    /// Routes the text to the scanner its path selects; an unknown path
    /// scans to the empty result.  Never fails.  Whatever the language, a
    /// scanner only reports references from a declaration it itself recorded,
    /// and every line number is positive.
    #[verifier::rlimit(60)]
    pub fn analyze_file(&self, content: &str, path: &str) -> (r: AnalysisResult)
        ensures
            r.wf(),
            links_sources_ok(r.classes@, links_view(r.links@)),
            spec_file_type(path@) == FileType::Markdown ==> r.classes@ == md_classes_of(content@)
                && links_view(r.links@) == md_links_of(content@),
            spec_file_type(path@) == FileType::Python ==> r.classes@ == py_classes_of(content@)
                && links_view(r.links@) == py_links_of(content@),
            spec_file_type(path@) == FileType::TypeScript ==> r.classes@ == ts_classes_of(
                content@,
            ) && links_view(r.links@) == ts_links_of(content@),
            spec_file_type(path@) == FileType::CSharp ==> r.classes@ == cs_classes_of(content@)
                && links_view(r.links@) == cs_links_of(content@),
            spec_file_type(path@) == FileType::Unknown ==> r.classes@ == Seq::<Seq<char>>::empty()
                && r.links@ == Seq::<ClassLink>::empty(),
    {
        let file_type = Self::detect_file_type(path);
        match file_type {
            FileType::Markdown => {
                let parser = MarkdownParser::new();
                let classes = parser.extract_classes(content);
                let links = parser.parse_file(content);
                let r = AnalysisResult { classes, links };
                proof {
                    lemma_md_sources_declared(content@);
                    assert forall|j: int|
                        0 <= j < links_view(r.links@).len() implies r.classes@.contains(
                        #[trigger] links_view(r.links@)[j].from,
                    ) && links_view(r.links@)[j].line >= 1 by {
                        assert(links_view(r.links@)[j] == md_links_of(content@)[j]);
                        assert(md_classes_of(content@).contains(md_links_of(content@)[j].from));
                    }
                    assert(links_sources_ok(r.classes@, links_view(r.links@)));
                }
                r
            },
            FileType::Python => {
                let parser = PythonParser::new();
                let r = parser.analyze(content, path);
                proof {
                    lemma_py_sources_declared(content@);
                    assert forall|j: int|
                        0 <= j < links_view(r.links@).len() implies r.classes@.contains(
                        #[trigger] links_view(r.links@)[j].from,
                    ) && links_view(r.links@)[j].line >= 1 by {
                        assert(links_view(r.links@)[j] == py_links_of(content@)[j]);
                        assert(py_classes_of(content@).contains(py_links_of(content@)[j].from));
                    }
                    assert(links_sources_ok(r.classes@, links_view(r.links@)));
                }
                r
            },
            FileType::TypeScript => {
                let parser = TypeScriptParser::new();
                let r = parser.analyze(content, path);
                proof {
                    lemma_ts_sources_declared(content@);
                    assert forall|j: int|
                        0 <= j < links_view(r.links@).len() implies r.classes@.contains(
                        #[trigger] links_view(r.links@)[j].from,
                    ) && links_view(r.links@)[j].line >= 1 by {
                        assert(links_view(r.links@)[j] == ts_links_of(content@)[j]);
                        assert(ts_classes_of(content@).contains(ts_links_of(content@)[j].from));
                    }
                    assert(links_sources_ok(r.classes@, links_view(r.links@)));
                }
                r
            },
            FileType::CSharp => {
                let parser = CSharpParser::new();
                let r = parser.analyze(content, path);
                proof {
                    lemma_cs_sources_declared(content@);
                    assert forall|j: int|
                        0 <= j < links_view(r.links@).len() implies r.classes@.contains(
                        #[trigger] links_view(r.links@)[j].from,
                    ) && links_view(r.links@)[j].line >= 1 by {
                        assert(links_view(r.links@)[j] == cs_links_of(content@)[j]);
                        assert(cs_classes_of(content@).contains(cs_links_of(content@)[j].from));
                    }
                    assert(links_sources_ok(r.classes@, links_view(r.links@)));
                }
                r
            },
            FileType::Unknown => AnalysisResult::new(),
        }
    }
}

} // verus!
