//! The TypeScript scanner.
//!
//! `class Name` and `interface Name` lines (optionally `export`ed) declare
//! names and set the current context.  References are colon type annotations
//! `: Name`, constructor-parameter forms `modifier? name: Name`, and generic
//! forms `<Name>`; a reference becomes an edge only when the name was
//! imported or declared in the same file.  `import { A, B } from ...` lines
//! gather uppercase-initial candidates.

use vstd::prelude::*;
use crate::text::{
    spec_upper_char, spec_space_char, spec_skip_spaces, spec_word_end,
    spec_trim_end, spec_find_char, spec_pat_at, spec_advance, spec_lines_of, names_view,
    upper_char, space_char, skip_spaces, word_end, trim_end, find_char, pat_at,
    to_chars, split_lines, capture_string, str_eq, lines_view, lemma_skip_spaces,
    lemma_word_end, lemma_find_char,
};
use crate::names::{NameSet, spec_insert_name, spec_merge_names};
use crate::parser::{
    ClassLink, LinkModel, links_view, lemma_links_view_push, spec_has_pair, has_pair,
    opt_name_view,
};
use crate::scan::{
    ScanState, colon_refs_from, scan_colon_refs, generic_refs_from, scan_generic_refs,
};
use crate::file_analyzer::{FileAnalyzer, AnalysisResult};

verus! {

/// A declaration line: optional indentation, optional `export` plus at least
/// one space, the keyword, at least one space, then a nonempty word run.
pub open spec fn ts_decl_capture(line: Seq<char>, kw: Seq<char>) -> Option<Seq<char>> {
    let p0 = spec_skip_spaces(line, 0);
    let s = if spec_pat_at(line, p0, "export"@) && p0 + 6 < line.len() && spec_space_char(
        line[p0 + 6],
    ) {
        spec_skip_spaces(line, p0 + 6)
    } else {
        p0
    };
    if spec_pat_at(line, s, kw) && s + kw.len() < line.len() && spec_space_char(
        line[s + kw.len()],
    ) {
        let q = spec_skip_spaces(line, s + kw.len());
        let e = spec_word_end(line, q);
        if q < line.len() && e > q {
            Option::Some(line.subrange(q, e))
        } else {
            Option::None
        }
    } else {
        Option::None
    }
}

/// The length of the access-modifier keyword at `p`, or zero.
pub open spec fn ts_kw_len(line: Seq<char>, p: int) -> int {
    if spec_pat_at(line, p, "private"@) {
        7
    } else if spec_pat_at(line, p, "protected"@) {
        9
    } else if spec_pat_at(line, p, "public"@) {
        6
    } else {
        0
    }
}

/// A constructor-parameter reference without the modifier: optional spaces,
/// a nonempty word run, a colon, optional spaces, then an uppercase word of
/// length at least two, which is the capture; yields it and its end.
pub open spec fn ts_ctor_plain_at(line: Seq<char>, p: int) -> Option<(Seq<char>, int)> {
    let q = spec_skip_spaces(line, p);
    let e = spec_word_end(line, q);
    if q < line.len() && e > q && e < line.len() && line[e] == ':' {
        let q2 = spec_skip_spaces(line, e + 1);
        if q2 < line.len() && spec_upper_char(line[q2]) {
            let e2 = spec_word_end(line, q2);
            if e2 - q2 >= 2 {
                Option::Some((line.subrange(q2, e2), e2))
            } else {
                Option::None
            }
        } else {
            Option::None
        }
    } else {
        Option::None
    }
}

/// A constructor-parameter reference at `p`: with the modifier consumed when
/// that reading succeeds, without it otherwise.
pub open spec fn ts_ctor_at(line: Seq<char>, p: int) -> Option<(Seq<char>, int)> {
    let kw = ts_kw_len(line, p);
    if kw > 0 && ts_ctor_plain_at(line, p + kw) is Some {
        ts_ctor_plain_at(line, p + kw)
    } else {
        ts_ctor_plain_at(line, p)
    }
}

/// Every constructor-parameter reference from position `p` on.
pub open spec fn ts_ctor_from(line: Seq<char>, p: int) -> Seq<Seq<char>>
    decreases line.len() - p,
{
    if p < 0 || p >= line.len() {
        Seq::empty()
    } else {
        match ts_ctor_at(line, p) {
            Option::Some(m) => seq![m.0] + ts_ctor_from(
                line,
                spec_advance(line.len() as int, p, m.1),
            ),
            Option::None => ts_ctor_from(line, p + 1),
        }
    }
}

/// All references of one line: annotations, constructor parameters, generics.
pub open spec fn ts_refs(line: Seq<char>) -> Seq<Seq<char>> {
    colon_refs_from(line, 0) + ts_ctor_from(line, 0) + generic_refs_from(line, 0)
}

/// The bounds of the brace group of the first `import { ... } from` on the
/// line: `import`, optional spaces, `{`, a nonempty run up to the next `}`,
/// optional spaces, then `from`.
pub open spec fn ts_import_content(line: Seq<char>, p: int) -> Option<(int, int)>
    decreases line.len() - p,
{
    if p < 0 || p >= line.len() {
        Option::None
    } else {
        if spec_pat_at(line, p, "import"@) && {
            let q = spec_skip_spaces(line, p + 6);
            q < line.len() && line[q] == '{' && {
                let j = spec_find_char(line, q + 1, '}');
                j < line.len() && j > q + 1 && {
                    let q2 = spec_skip_spaces(line, j + 1);
                    spec_pat_at(line, q2, "from"@)
                }
            }
        } {
            let q = spec_skip_spaces(line, p + 6);
            let j = spec_find_char(line, q + 1, '}');
            Option::Some((q + 1, j))
        } else {
            ts_import_content(line, p + 1)
        }
    }
}

/// The trimmed comma-separated pieces of `line[p..bound)` that begin with an
/// uppercase letter.
pub open spec fn ts_comma_trimmed(line: Seq<char>, p: int, bound: int) -> Seq<Seq<char>>
    decreases bound - p,
{
    if p < 0 || p >= bound || bound > line.len() {
        Seq::empty()
    } else {
        let c = spec_find_char(line, p, ',');
        let c2 = if c > bound {
            bound
        } else {
            c
        };
        let a = spec_skip_spaces(line, p);
        let a2 = if a > c2 {
            c2
        } else {
            a
        };
        let b = spec_trim_end(line, a2, c2);
        let out = if b > a2 && spec_upper_char(line[a2]) {
            seq![line.subrange(a2, b)]
        } else {
            Seq::empty()
        };
        if c2 >= bound {
            out
        } else {
            out + ts_comma_trimmed(line, spec_advance(bound, p, c2 + 1), bound)
        }
    }
}

/// The import candidates of a line: from its first `import { ... } from`
/// group, the trimmed pieces beginning uppercase.
pub open spec fn ts_import_candidates(line: Seq<char>) -> Seq<Seq<char>> {
    match ts_import_content(line, 0) {
        Option::None => Seq::empty(),
        Option::Some(bounds) => ts_comma_trimmed(line, bounds.0, bounds.1),
    }
}

/// The first `k` references appended as edges from `from` at line `n`,
/// keeping only names declared or imported so far, skipping the context
/// itself and pairs already present.
pub open spec fn ts_add_refs(
    links: Seq<LinkModel>,
    from: Seq<char>,
    classes: Seq<Seq<char>>,
    imports: Seq<Seq<char>>,
    ts: Seq<Seq<char>>,
    n: int,
    k: int,
) -> Seq<LinkModel>
    decreases k,
{
    if k <= 0 {
        links
    } else {
        let prev = ts_add_refs(links, from, classes, imports, ts, n, k - 1);
        let t = ts[k - 1];
        if t != from && (imports.contains(t) || classes.contains(t)) && !spec_has_pair(
            prev,
            from,
            t,
        ) {
            prev.push(LinkModel { from: from, to: t, line: n })
        } else {
            prev
        }
    }
}

/// One line of the scan: class then interface declarations (the later one
/// becomes the context), import gathering, then the filtered references.
pub open spec fn ts_step(st: ScanState, line: Seq<char>, n: int) -> ScanState {
    let c1 = ts_decl_capture(line, "class"@);
    let c2 = ts_decl_capture(line, "interface"@);
    let classes1 = match c1 {
        Option::Some(c) => spec_insert_name(st.classes, c),
        Option::None => st.classes,
    };
    let classes2 = match c2 {
        Option::Some(c) => spec_insert_name(classes1, c),
        Option::None => classes1,
    };
    let current1 = match c2 {
        Option::Some(c) => Option::Some(c),
        Option::None => match c1 {
            Option::Some(c) => Option::Some(c),
            Option::None => st.current,
        },
    };
    let imports1 = spec_merge_names(st.imports, ts_import_candidates(line));
    let links1 = match current1 {
        Option::Some(from) => {
            let ts = ts_refs(line);
            ts_add_refs(st.links, from, classes2, imports1, ts, n, ts.len() as int)
        },
        Option::None => st.links,
    };
    ScanState { classes: classes2, links: links1, current: current1, imports: imports1 }
}

/// Scanner state after the first `i` lines.
pub open spec fn ts_scan(lines: Seq<Seq<char>>, i: int) -> ScanState
    decreases i,
{
    if i <= 0 {
        ScanState {
            classes: Seq::empty(),
            links: Seq::empty(),
            current: Option::None,
            imports: Seq::empty(),
        }
    } else {
        ts_step(ts_scan(lines, i - 1), lines[i - 1], i)
    }
}

/// The declarations of a TypeScript text.
pub open spec fn ts_classes_of(content: Seq<char>) -> Seq<Seq<char>> {
    let ls = spec_lines_of(content);
    ts_scan(ls, ls.len() as int).classes
}

/// The links of a TypeScript text.
pub open spec fn ts_links_of(content: Seq<char>) -> Seq<LinkModel> {
    let ls = spec_lines_of(content);
    ts_scan(ls, ls.len() as int).links
}

/// Scans TypeScript text for class and interface declarations, imports and
/// filtered references.
pub struct TypeScriptParser;

impl TypeScriptParser {
    pub fn new() -> (r: TypeScriptParser) {
        TypeScriptParser
    }

    /// The declaration of one line for the given keyword, if any.
    fn decl_capture(&self, line: &Vec<char>, kw: &str) -> (r: Option<String>)
        ensures
            opt_name_view(r) == ts_decl_capture(line@, kw@),
    {
        let len = line.len();
        let kl = kw.unicode_len();
        let p0 = skip_spaces(line, 0);
        let mut s = p0;
        if pat_at(line, p0, "export") {
            proof {
                reveal_strlit("export");
            }
            if p0 + 6 < len && space_char(line[p0 + 6]) {
                s = skip_spaces(line, p0 + 6);
            }
        }
        if pat_at(line, s, kw) && s + kl < len && space_char(line[s + kl]) {
            let q = skip_spaces(line, s + kl);
            let e = word_end(line, q);
            if q < len && e > q {
                return Option::Some(capture_string(line, q, e));
            }
        }
        Option::None
    }

    /// The constructor-parameter reference starting without a modifier.
    fn ctor_plain(&self, line: &Vec<char>, p: usize) -> (r: Option<(String, usize)>)
        requires
            p <= line@.len(),
        ensures
            match r {
                Option::None => ts_ctor_plain_at(line@, p as int) is None,
                Option::Some(m) => ts_ctor_plain_at(line@, p as int) == Option::Some(
                    (m.0@, m.1 as int),
                ),
            },
    {
        let len = line.len();
        let q = skip_spaces(line, p);
        let e = word_end(line, q);
        if q < len && e > q && e < len && line[e] == ':' {
            let q2 = skip_spaces(line, e + 1);
            if q2 < len && upper_char(line[q2]) {
                let e2 = word_end(line, q2);
                if e2 - q2 >= 2 {
                    return Option::Some((capture_string(line, q2, e2), e2));
                }
            }
        }
        Option::None
    }

    /// The length of the access modifier at `p`, or zero.
    fn kw_len(&self, line: &Vec<char>, p: usize) -> (k: usize)
        requires
            p <= line@.len(),
        ensures
            k == ts_kw_len(line@, p as int),
            p + k <= line@.len(),
    {
        if pat_at(line, p, "private") {
            proof {
                reveal_strlit("private");
            }
            7
        } else if pat_at(line, p, "protected") {
            proof {
                reveal_strlit("protected");
            }
            9
        } else if pat_at(line, p, "public") {
            proof {
                reveal_strlit("public");
            }
            6
        } else {
            0
        }
    }

    /// Every constructor-parameter reference from position `p` on.
    fn scan_ctor_refs(&self, line: &Vec<char>, p: usize) -> (r: Vec<String>)
        requires
            p <= line@.len(),
        ensures
            names_view(r@) == ts_ctor_from(line@, p as int),
        decreases line@.len() - p,
    {
        let len = line.len();
        if p >= len {
            let r: Vec<String> = Vec::new();
            proof {
                assert(names_view(r@) =~= ts_ctor_from(line@, p as int));
            }
            return r;
        }
        let kw = self.kw_len(line, p);
        let hit: Option<(String, usize)> = if kw > 0 {
            match self.ctor_plain(line, p + kw) {
                Option::Some(m) => Option::Some(m),
                Option::None => self.ctor_plain(line, p),
            }
        } else {
            self.ctor_plain(line, p)
        };
        match hit {
            Option::Some(m) => {
                let (cap, e2) = m;
                proof {
                    assert(ts_ctor_at(line@, p as int) == Option::Some((cap@, e2 as int)));
                    lemma_word_end(line@, p as int);
                }
                let nxt = if e2 > p {
                    if e2 > len {
                        len
                    } else {
                        e2
                    }
                } else {
                    p + 1
                };
                proof {
                    assert(nxt as int == spec_advance(line@.len() as int, p as int, e2 as int));
                }
                let mut r = self.scan_ctor_refs(line, nxt);
                let ghost rest = names_view(r@);
                r.insert(0, cap);
                proof {
                    assert(names_view(r@) =~= seq![cap@] + rest);
                }
                r
            },
            Option::None => {
                proof {
                    assert(ts_ctor_at(line@, p as int) is None);
                }
                self.scan_ctor_refs(line, p + 1)
            },
        }
    }

    /// All references of one line: annotations, constructor parameters,
    /// then generics.
    fn extract_class_references(&self, line: &Vec<char>) -> (r: Vec<String>)
        ensures
            names_view(r@) == ts_refs(line@),
    {
        let mut refs = scan_colon_refs(line, 0);
        let ghost a = names_view(refs@);
        let mut ctors = self.scan_ctor_refs(line, 0);
        let ghost b = names_view(ctors@);
        refs.append(&mut ctors);
        let mut gens = scan_generic_refs(line, 0);
        let ghost c = names_view(gens@);
        refs.append(&mut gens);
        proof {
            assert(names_view(refs@) =~= a + b + c);
        }
        refs
    }

    /// The bounds of the first import brace group from position `p` on.
    fn find_import_content(&self, line: &Vec<char>, p: usize) -> (r: Option<(usize, usize)>)
        requires
            p <= line@.len(),
        ensures
            match r {
                Option::None => ts_import_content(line@, p as int) is None,
                Option::Some(m) => ts_import_content(line@, p as int) == Option::Some(
                    (m.0 as int, m.1 as int),
                ) && m.0 <= m.1 < line@.len(),
            },
        decreases line@.len() - p,
    {
        let len = line.len();
        if p >= len {
            return Option::None;
        }
        if pat_at(line, p, "import") {
            proof {
                reveal_strlit("import");
            }
            let q = skip_spaces(line, p + 6);
            if q < len && line[q] == '{' {
                let j = find_char(line, q + 1, '}');
                proof {
                    lemma_find_char(line@, q + 1, '}');
                }
                if j < len && j > q + 1 {
                    let q2 = skip_spaces(line, j + 1);
                    if pat_at(line, q2, "from") {
                        return Option::Some((q + 1, j));
                    }
                }
            }
        }
        self.find_import_content(line, p + 1)
    }

    /// The trimmed, uppercase-initial comma pieces of `line[p..bound)`.
    fn comma_trimmed(&self, line: &Vec<char>, p: usize, bound: usize) -> (r: Vec<String>)
        requires
            p <= bound <= line@.len(),
        ensures
            names_view(r@) == ts_comma_trimmed(line@, p as int, bound as int),
        decreases bound - p,
    {
        let c = find_char(line, p, ',');
        proof {
            lemma_find_char(line@, p as int, ',');
            lemma_skip_spaces(line@, p as int);
        }
        let c2 = if c > bound {
            bound
        } else {
            c
        };
        let a = skip_spaces(line, p);
        let a2 = if a > c2 {
            c2
        } else {
            a
        };
        let b = trim_end(line, a2, c2);
        let mut r: Vec<String> = if c2 >= bound {
            Vec::new()
        } else {
            proof {
                assert(spec_advance(bound as int, p as int, c2 + 1) == c2 + 1);
            }
            self.comma_trimmed(line, c2 + 1, bound)
        };
        let ghost rest = names_view(r@);
        if b > a2 && upper_char(line[a2]) {
            let tok = capture_string(line, a2, b);
            r.insert(0, tok);
            proof {
                assert(names_view(r@) =~= seq![tok@] + rest);
            }
        }
        proof {
            assert(names_view(r@) =~= ts_comma_trimmed(line@, p as int, bound as int));
        }
        r
    }

    /// The import candidates of one line.
    fn import_candidates(&self, line: &Vec<char>) -> (r: Vec<String>)
        ensures
            names_view(r@) == ts_import_candidates(line@),
    {
        match self.find_import_content(line, 0) {
            Option::Some(m) => self.comma_trimmed(line, m.0, m.1),
            Option::None => {
                let r: Vec<String> = Vec::new();
                proof {
                    assert(names_view(r@) =~= ts_import_candidates(line@));
                }
                r
            },
        }
    }

    /// Records the line's references as filtered edges from `from_class`.
    fn add_references(
        &self,
        line: &Vec<char>,
        from_class: &String,
        classes: &NameSet,
        imports: &NameSet,
        line_number: usize,
        links: &mut Vec<ClassLink>,
    )
        ensures
            links_view(final(links)@) == ts_add_refs(
                links_view(old(links)@),
                from_class@,
                classes@,
                imports@,
                ts_refs(line@),
                line_number as int,
                ts_refs(line@).len() as int,
            ),
    {
        let refs = self.extract_class_references(line);
        let ghost ts = ts_refs(line@);
        let n = refs.len();
        let mut k: usize = 0;
        while k < n
            invariant
                0 <= k <= n,
                n == ts.len(),
                names_view(refs@) == ts,
                links_view(links@) == ts_add_refs(
                    links_view(old(links)@),
                    from_class@,
                    classes@,
                    imports@,
                    ts,
                    line_number as int,
                    k as int,
                ),
            decreases n - k,
        {
            let to = &refs[k];
            if !str_eq(to.as_str(), from_class.as_str()) && (imports.contains(to.as_str())
                || classes.contains(to.as_str())) && !has_pair(
                links,
                from_class.as_str(),
                to.as_str(),
            ) {
                let cl = ClassLink {
                    from_class: from_class.clone(),
                    to_class: to.clone(),
                    line_number: line_number,
                };
                proof {
                    lemma_links_view_push(links@, cl);
                }
                links.push(cl);
            }
            k = k + 1;
        }
    }
}

impl FileAnalyzer for TypeScriptParser {
    open spec fn spec_classes(content: Seq<char>) -> Seq<Seq<char>> {
        ts_classes_of(content)
    }

    open spec fn spec_links(content: Seq<char>) -> Seq<LinkModel> {
        ts_links_of(content)
    }

    fn analyze(&self, content: &str, _file_path: &str) -> (r: AnalysisResult) {
        let chars = to_chars(content);
        let lines = split_lines(&chars);
        let ghost ls = spec_lines_of(content@);
        let mut classes = NameSet::new();
        let mut links: Vec<ClassLink> = Vec::new();
        let mut current: Option<String> = Option::None;
        let mut imports = NameSet::new();
        let n = lines.len();
        let mut i: usize = 0;
        while i < n
            invariant
                0 <= i <= n,
                n == ls.len(),
                lines_view(lines@) == ls,
                classes@ == ts_scan(ls, i as int).classes,
                links_view(links@) == ts_scan(ls, i as int).links,
                opt_name_view(current) == ts_scan(ls, i as int).current,
                imports@ == ts_scan(ls, i as int).imports,
                classes.wf(),
                imports.wf(),
            decreases n - i,
        {
            let line = &lines[i];
            let ghost st = ts_scan(ls, i as int);
            if let Option::Some(name) = self.decl_capture(line, "class") {
                classes.insert(name.clone());
                current = Option::Some(name);
            }
            if let Option::Some(name) = self.decl_capture(line, "interface") {
                classes.insert(name.clone());
                current = Option::Some(name);
            }
            let cands = self.import_candidates(line);
            let ghost ic = ts_import_candidates(line@);
            let m = cands.len();
            let mut k: usize = 0;
            while k < m
                invariant
                    0 <= k <= m,
                    m == ic.len(),
                    names_view(cands@) == ic,
                    imports@ == spec_merge_names(st.imports, ic.subrange(0, k as int)),
                    imports.wf(),
                decreases m - k,
            {
                let ghost pre = ic.subrange(0, k as int);
                imports.insert(cands[k].clone());
                proof {
                    assert(ic.subrange(0, k + 1).drop_last() =~= pre);
                    assert(ic.subrange(0, k + 1).last() == ic[k as int]);
                }
                k = k + 1;
            }
            proof {
                assert(ic.subrange(0, m as int) =~= ic);
            }
            if let Option::Some(from) = &current {
                self.add_references(line, from, &classes, &imports, i + 1, &mut links);
            }
            proof {
                assert(classes@ == ts_scan(ls, i + 1).classes);
                assert(links_view(links@) == ts_scan(ls, i + 1).links);
                assert(opt_name_view(current) == ts_scan(ls, i + 1).current);
                assert(imports@ == ts_scan(ls, i + 1).imports);
            }
            i = i + 1;
        }
        AnalysisResult { classes, links }
    }
}


proof fn lemma_ts_add_refs_shape(
    links: Seq<LinkModel>,
    from: Seq<char>,
    classes: Seq<Seq<char>>,
    imports: Seq<Seq<char>>,
    ts: Seq<Seq<char>>,
    n: int,
    k: int,
)
    ensures
        ts_add_refs(links, from, classes, imports, ts, n, k).len() >= links.len(),
        forall|j: int|
            0 <= j < ts_add_refs(links, from, classes, imports, ts, n, k).len() ==> ((0 <= j
                < links.len() && #[trigger] ts_add_refs(links, from, classes, imports, ts, n, k)[j]
                == links[j]) || (ts_add_refs(links, from, classes, imports, ts, n, k)[j].from
                == from && ts_add_refs(links, from, classes, imports, ts, n, k)[j].line == n)),
    decreases k,
{
    if k > 0 {
        lemma_ts_add_refs_shape(links, from, classes, imports, ts, n, k - 1);
    }
}

/// The scanner only records references from a declaration it has itself
/// recorded, and every line number is positive.
pub proof fn lemma_ts_scan_sources(lines: Seq<Seq<char>>, i: int)
    ensures
        ts_scan(lines, i).current matches Option::Some(c) ==> ts_scan(lines, i).classes.contains(
            c,
        ),
        forall|j: int|
            0 <= j < ts_scan(lines, i).links.len() ==> ts_scan(lines, i).classes.contains(
                #[trigger] ts_scan(lines, i).links[j].from,
            ) && ts_scan(lines, i).links[j].line >= 1,
    decreases i,
{
    if i > 0 {
        lemma_ts_scan_sources(lines, i - 1);
        let st = ts_scan(lines, i - 1);
        let line = lines[i - 1];
        let st2 = ts_scan(lines, i);
        let c1 = ts_decl_capture(line, "class"@);
        let c2 = ts_decl_capture(line, "interface"@);
        let classes1 = match c1 {
            Option::Some(c) => spec_insert_name(st.classes, c),
            Option::None => st.classes,
        };
        assert forall|x: Seq<char>| st.classes.contains(x) implies st2.classes.contains(x) by {
            if c1 is Some {
                crate::names::lemma_insert_name_monotone(st.classes, c1.unwrap(), x);
            }
            if c2 is Some {
                crate::names::lemma_insert_name_monotone(classes1, c2.unwrap(), x);
            }
        }
        if st2.current is Some {
            let from = st2.current.unwrap();
            if c2 is Some {
                crate::names::lemma_insert_name_monotone(classes1, from, from);
            } else if c1 is Some {
                crate::names::lemma_insert_name_monotone(st.classes, from, from);
                if c2 is Some {
                    crate::names::lemma_insert_name_monotone(classes1, c2.unwrap(), from);
                }
            }
            assert(st2.classes.contains(from));
            let ts = ts_refs(line);
            lemma_ts_add_refs_shape(
                st.links,
                from,
                st2.classes,
                st2.imports,
                ts,
                i,
                ts.len() as int,
            );
        }
    }
}

/// Every link a TypeScript scan reports starts at one of the file's own
/// declarations, at a positive line number.
pub proof fn lemma_ts_sources_declared(content: Seq<char>)
    ensures
        forall|j: int|
            0 <= j < ts_links_of(content).len() ==> ts_classes_of(content).contains(
                #[trigger] ts_links_of(content)[j].from,
            ) && ts_links_of(content)[j].line >= 1,
{
    let ls = spec_lines_of(content);
    lemma_ts_scan_sources(ls, ls.len() as int);
}

} // verus!
