//! The C# scanner.
//!
//! `class Name` and `interface Name` lines, optionally preceded by access
//! and shape modifiers, declare names and set the current context.
//! References are inheritance colons `: Name`, parameter-like forms
//! `Name identifier`, generic forms `<Name>` and property-like forms
//! `modifier? Name identifier {`; a reference becomes an edge only when the
//! name was declared, imported through `using`, or stands on a small fixed
//! allow-list of common framework names.  A `using A.B.C;` line gathers the
//! last dotted segment as an import candidate when it begins uppercase;
//! after the scan, every candidate that did not already produce an edge from
//! the last context is linked from it at line 1.

use vstd::prelude::*;
use crate::text::{
    spec_word_char, spec_upper_char, spec_space_char, spec_skip_spaces, spec_word_end,
    spec_worddot_end, spec_pat_at, spec_advance, spec_lines_of, names_view, word_char,
    upper_char, space_char, skip_spaces, word_end, worddot_end, pat_at, to_chars, split_lines,
    capture_string, str_eq, lines_view, lemma_word_end,
};
use crate::names::{NameSet, spec_insert_name, spec_merge_names};
use crate::parser::{
    ClassLink, LinkModel, links_view, lemma_links_view_push, spec_has_pair, has_pair,
    opt_name_view,
};
use crate::scan::{
    ScanState, opt_names, colon_refs_from, scan_colon_refs, generic_refs_from, scan_generic_refs,
};
use crate::file_analyzer::{FileAnalyzer, AnalysisResult, spec_ext_start};

verus! {

/// The length of the access modifier at `p`, or zero.
pub open spec fn cs_kw1_len(line: Seq<char>, p: int) -> int {
    if spec_pat_at(line, p, "public"@) {
        6
    } else if spec_pat_at(line, p, "private"@) {
        7
    } else if spec_pat_at(line, p, "protected"@) {
        9
    } else if spec_pat_at(line, p, "internal"@) {
        8
    } else {
        0
    }
}

/// The length of the shape modifier at `p`, or zero.
pub open spec fn cs_kw2_len(line: Seq<char>, p: int) -> int {
    if spec_pat_at(line, p, "partial"@) {
        7
    } else if spec_pat_at(line, p, "abstract"@) {
        8
    } else if spec_pat_at(line, p, "sealed"@) {
        6
    } else {
        0
    }
}

/// A class declaration line: optional indentation, optional access modifier,
/// optional shape modifier, the keyword `class`, at least one space, then a
/// nonempty word run.
pub open spec fn cs_class_capture(line: Seq<char>) -> Option<Seq<char>> {
    let p0 = spec_skip_spaces(line, 0);
    let p1 = spec_skip_spaces(line, p0 + cs_kw1_len(line, p0));
    let p2 = spec_skip_spaces(line, p1 + cs_kw2_len(line, p1));
    if spec_pat_at(line, p2, "class"@) && p2 + 5 < line.len() && spec_space_char(line[p2 + 5]) {
        let q = spec_skip_spaces(line, p2 + 5);
        let e = spec_word_end(line, q);
        if q < line.len() && e > q {
            Option::Some(line.subrange(q, e))
        } else {
            Option::None
        }
    } else {
        Option::None
    }
}

/// An interface declaration line: as a class one, without a shape modifier.
pub open spec fn cs_interface_capture(line: Seq<char>) -> Option<Seq<char>> {
    let p0 = spec_skip_spaces(line, 0);
    let p1 = spec_skip_spaces(line, p0 + cs_kw1_len(line, p0));
    if spec_pat_at(line, p1, "interface"@) && p1 + 9 < line.len() && spec_space_char(
        line[p1 + 9],
    ) {
        let q = spec_skip_spaces(line, p1 + 9);
        let e = spec_word_end(line, q);
        if q < line.len() && e > q {
            Option::Some(line.subrange(q, e))
        } else {
            Option::None
        }
    } else {
        Option::None
    }
}

/// The import candidate of a `using A.B.C;` line: the last dot-separated
/// segment of the dotted path, when it begins uppercase.
pub open spec fn cs_using_candidate(line: Seq<char>) -> Option<Seq<char>> {
    let p = spec_skip_spaces(line, 0);
    if spec_pat_at(line, p, "using"@) && p + 5 < line.len() && spec_space_char(line[p + 5]) {
        let q = spec_skip_spaces(line, p + 5);
        let m = spec_worddot_end(line, q);
        if m > q && m < line.len() && line[m] == ';' {
            let r = spec_ext_start(line, q, m);
            if m > r && spec_upper_char(line[r]) {
                Option::Some(line.subrange(r, m))
            } else {
                Option::None
            }
        } else {
            Option::None
        }
    } else {
        Option::None
    }
}

/// Every parameter-like reference `Name identifier` from position `p` on: an
/// uppercase-initial word run of length at least two, at least one space,
/// then another word run, which the match consumes.
pub open spec fn cs_param_from(line: Seq<char>, p: int) -> Seq<Seq<char>>
    decreases line.len() - p,
{
    if p < 0 || p >= line.len() {
        Seq::empty()
    } else if spec_upper_char(line[p]) {
        let e = spec_word_end(line, p);
        if e - p >= 2 {
            let q = spec_skip_spaces(line, e);
            if q > e && q < line.len() && spec_word_char(line[q]) {
                let e2 = spec_word_end(line, q);
                seq![line.subrange(p, e)] + cs_param_from(
                    line,
                    spec_advance(line.len() as int, p, e2),
                )
            } else {
                cs_param_from(line, p + 1)
            }
        } else {
            cs_param_from(line, p + 1)
        }
    } else {
        cs_param_from(line, p + 1)
    }
}

/// A property-like reference at `p`: an optional access modifier, optional
/// spaces, an uppercase-initial word run of length at least two (the
/// capture), at least one space, a word run, optional spaces, then an
/// opening brace; yields the capture and the position after the brace.
pub open spec fn cs_prop_at(line: Seq<char>, p: int) -> Option<(Seq<char>, int)> {
    let s = p + cs_kw1_len(line, p);
    let q = spec_skip_spaces(line, s);
    if q < line.len() && spec_upper_char(line[q]) {
        let e = spec_word_end(line, q);
        if e - q >= 2 {
            let q2 = spec_skip_spaces(line, e);
            if q2 > e && q2 < line.len() && spec_word_char(line[q2]) {
                let e2 = spec_word_end(line, q2);
                let q3 = spec_skip_spaces(line, e2);
                if q3 < line.len() && line[q3] == '{' {
                    Option::Some((line.subrange(q, e), q3 + 1))
                } else {
                    Option::None
                }
            } else {
                Option::None
            }
        } else {
            Option::None
        }
    } else {
        Option::None
    }
}

/// Every property-like reference from position `p` on.
pub open spec fn cs_prop_from(line: Seq<char>, p: int) -> Seq<Seq<char>>
    decreases line.len() - p,
{
    if p < 0 || p >= line.len() {
        Seq::empty()
    } else {
        match cs_prop_at(line, p) {
            Option::Some(m) => seq![m.0] + cs_prop_from(
                line,
                spec_advance(line.len() as int, p, m.1),
            ),
            Option::None => cs_prop_from(line, p + 1),
        }
    }
}

/// All references of one line: inheritance colons, parameter forms,
/// generics, then property forms.
pub open spec fn cs_refs(line: Seq<char>) -> Seq<Seq<char>> {
    colon_refs_from(line, 0) + cs_param_from(line, 0) + generic_refs_from(line, 0) + cs_prop_from(
        line,
        0,
    )
}

/// A referenced name counts as known when it was declared in the file,
/// gathered from a `using` line, or stands on the fixed allow-list of
/// common framework names.
pub open spec fn cs_known(classes: Seq<Seq<char>>, imports: Seq<Seq<char>>, t: Seq<char>) -> bool {
    classes.contains(t) || imports.contains(t) || t == "User"@ || t == "DatabaseContext"@ || t
        == "IUserService"@
}

/// The first `k` references appended as edges from `from` at line `n`,
/// keeping only known names, skipping the context itself and pairs already
/// present.
pub open spec fn cs_add_refs(
    links: Seq<LinkModel>,
    from: Seq<char>,
    classes: Seq<Seq<char>>,
    imports: Seq<Seq<char>>,
    ts: Seq<Seq<char>>,
    n: int,
    k: int,
) -> Seq<LinkModel>
    decreases k,
{
    if k <= 0 {
        links
    } else {
        let prev = cs_add_refs(links, from, classes, imports, ts, n, k - 1);
        let t = ts[k - 1];
        if t != from && cs_known(classes, imports, t) && !spec_has_pair(prev, from, t) {
            prev.push(LinkModel { from: from, to: t, line: n })
        } else {
            prev
        }
    }
}

/// One line of the scan: the `using` candidate, class then interface
/// declarations (the later one becomes the context), then the filtered
/// references.
pub open spec fn cs_step(st: ScanState, line: Seq<char>, n: int) -> ScanState {
    let imports1 = spec_merge_names(st.imports, opt_names(cs_using_candidate(line)));
    let c1 = cs_class_capture(line);
    let c2 = cs_interface_capture(line);
    let classes1 = match c1 {
        Option::Some(c) => spec_insert_name(st.classes, c),
        Option::None => st.classes,
    };
    let classes2 = match c2 {
        Option::Some(c) => spec_insert_name(classes1, c),
        Option::None => classes1,
    };
    let current1 = match c2 {
        Option::Some(c) => Option::Some(c),
        Option::None => match c1 {
            Option::Some(c) => Option::Some(c),
            Option::None => st.current,
        },
    };
    let links1 = match current1 {
        Option::Some(from) => {
            let ts = cs_refs(line);
            cs_add_refs(st.links, from, classes2, imports1, ts, n, ts.len() as int)
        },
        Option::None => st.links,
    };
    ScanState { classes: classes2, links: links1, current: current1, imports: imports1 }
}

/// Scanner state after the first `i` lines.
pub open spec fn cs_scan(lines: Seq<Seq<char>>, i: int) -> ScanState
    decreases i,
{
    if i <= 0 {
        ScanState {
            classes: Seq::empty(),
            links: Seq::empty(),
            current: Option::None,
            imports: Seq::empty(),
        }
    } else {
        cs_step(cs_scan(lines, i - 1), lines[i - 1], i)
    }
}

/// The declarations of a C# text.
pub open spec fn cs_classes_of(content: Seq<char>) -> Seq<Seq<char>> {
    let ls = spec_lines_of(content);
    cs_scan(ls, ls.len() as int).classes
}

/// The post-pass: the first `k` import candidates linked from the last
/// context at line 1, unless such an edge already exists.
pub open spec fn cs_post_links(
    links: Seq<LinkModel>,
    cur: Option<Seq<char>>,
    imports: Seq<Seq<char>>,
    k: int,
) -> Seq<LinkModel>
    decreases k,
{
    match cur {
        Option::None => links,
        Option::Some(c) => if k <= 0 {
            links
        } else {
            let prev = cs_post_links(links, cur, imports, k - 1);
            let t = imports[k - 1];
            if !spec_has_pair(prev, c, t) {
                prev.push(LinkModel { from: c, to: t, line: 1 })
            } else {
                prev
            }
        },
    }
}

/// The links of a C# text, post-pass included.
pub open spec fn cs_links_of(content: Seq<char>) -> Seq<LinkModel> {
    let ls = spec_lines_of(content);
    let st = cs_scan(ls, ls.len() as int);
    cs_post_links(st.links, st.current, st.imports, st.imports.len() as int)
}

/// Scans C# text for class and interface declarations, `using` imports and
/// filtered references.
pub struct CSharpParser;

impl CSharpParser {
    pub fn new() -> (r: CSharpParser) {
        CSharpParser
    }

    /// The length of the access modifier at `p`, or zero.
    fn kw1_len(&self, line: &Vec<char>, p: usize) -> (k: usize)
        requires
            p <= line@.len(),
        ensures
            k == cs_kw1_len(line@, p as int),
            p + k <= line@.len(),
    {
        if pat_at(line, p, "public") {
            proof {
                reveal_strlit("public");
            }
            6
        } else if pat_at(line, p, "private") {
            proof {
                reveal_strlit("private");
            }
            7
        } else if pat_at(line, p, "protected") {
            proof {
                reveal_strlit("protected");
            }
            9
        } else if pat_at(line, p, "internal") {
            proof {
                reveal_strlit("internal");
            }
            8
        } else {
            0
        }
    }

    /// The length of the shape modifier at `p`, or zero.
    fn kw2_len(&self, line: &Vec<char>, p: usize) -> (k: usize)
        requires
            p <= line@.len(),
        ensures
            k == cs_kw2_len(line@, p as int),
            p + k <= line@.len(),
    {
        if pat_at(line, p, "partial") {
            proof {
                reveal_strlit("partial");
            }
            7
        } else if pat_at(line, p, "abstract") {
            proof {
                reveal_strlit("abstract");
            }
            8
        } else if pat_at(line, p, "sealed") {
            proof {
                reveal_strlit("sealed");
            }
            6
        } else {
            0
        }
    }

    /// The class declaration of one line, if any.
    fn class_decl(&self, line: &Vec<char>) -> (r: Option<String>)
        ensures
            opt_name_view(r) == cs_class_capture(line@),
    {
        let len = line.len();
        let p0 = skip_spaces(line, 0);
        let p1 = skip_spaces(line, p0 + self.kw1_len(line, p0));
        let p2 = skip_spaces(line, p1 + self.kw2_len(line, p1));
        if pat_at(line, p2, "class") {
            proof {
                reveal_strlit("class");
            }
            if p2 + 5 < len && space_char(line[p2 + 5]) {
                let q = skip_spaces(line, p2 + 5);
                let e = word_end(line, q);
                if q < len && e > q {
                    return Option::Some(capture_string(line, q, e));
                }
            }
        }
        Option::None
    }

    /// The interface declaration of one line, if any.
    fn interface_decl(&self, line: &Vec<char>) -> (r: Option<String>)
        ensures
            opt_name_view(r) == cs_interface_capture(line@),
    {
        let len = line.len();
        let p0 = skip_spaces(line, 0);
        let p1 = skip_spaces(line, p0 + self.kw1_len(line, p0));
        if pat_at(line, p1, "interface") {
            proof {
                reveal_strlit("interface");
            }
            if p1 + 9 < len && space_char(line[p1 + 9]) {
                let q = skip_spaces(line, p1 + 9);
                let e = word_end(line, q);
                if q < len && e > q {
                    return Option::Some(capture_string(line, q, e));
                }
            }
        }
        Option::None
    }

    /// The `using` import candidate of one line, if any.
    fn using_candidate(&self, line: &Vec<char>) -> (r: Option<String>)
        ensures
            opt_name_view(r) == cs_using_candidate(line@),
    {
        let len = line.len();
        let p = skip_spaces(line, 0);
        if pat_at(line, p, "using") {
            proof {
                reveal_strlit("using");
            }
            if p + 5 < len && space_char(line[p + 5]) {
                let q = skip_spaces(line, p + 5);
                let m = worddot_end(line, q);
                if m > q && m < len && line[m] == ';' {
                    // the segment after the path's last dot
                    let mut r = m;
                    while r > q && line[r - 1] != '.'
                        invariant
                            q <= r <= m <= line@.len(),
                            spec_ext_start(line@, q as int, m as int) == spec_ext_start(
                                line@,
                                q as int,
                                r as int,
                            ),
                        decreases r,
                    {
                        r = r - 1;
                    }
                    if m > r && upper_char(line[r]) {
                        return Option::Some(capture_string(line, r, m));
                    }
                }
            }
        }
        Option::None
    }

    /// Every parameter-like reference from position `p` on.
    fn scan_param_refs(&self, line: &Vec<char>, p: usize) -> (r: Vec<String>)
        requires
            p <= line@.len(),
        ensures
            names_view(r@) == cs_param_from(line@, p as int),
        decreases line@.len() - p,
    {
        let len = line.len();
        if p >= len {
            let r: Vec<String> = Vec::new();
            proof {
                assert(names_view(r@) =~= cs_param_from(line@, p as int));
            }
            return r;
        }
        if upper_char(line[p]) {
            let e = word_end(line, p);
            proof {
                lemma_word_end(line@, p as int);
            }
            if e - p >= 2 {
                let q = skip_spaces(line, e);
                if q > e && q < len && word_char(line[q]) {
                    let e2 = word_end(line, q);
                    proof {
                        assert(spec_advance(line@.len() as int, p as int, e2 as int) == e2 as int);
                    }
                    let cap = capture_string(line, p, e);
                    let mut r = self.scan_param_refs(line, e2);
                    let ghost rest = names_view(r@);
                    r.insert(0, cap);
                    proof {
                        assert(names_view(r@) =~= seq![cap@] + rest);
                    }
                    return r;
                }
            }
        }
        self.scan_param_refs(line, p + 1)
    }

    /// The property-like reference at `p`, if any.
    fn prop_at(&self, line: &Vec<char>, p: usize) -> (r: Option<(String, usize)>)
        requires
            p < line@.len(),
        ensures
            match r {
                Option::None => cs_prop_at(line@, p as int) is None,
                Option::Some(m) => cs_prop_at(line@, p as int) == Option::Some(
                    (m.0@, m.1 as int),
                ) && m.1 > p,
            },
    {
        let len = line.len();
        let s = p + self.kw1_len(line, p);
        let q = skip_spaces(line, s);
        if q < len && upper_char(line[q]) {
            let e = word_end(line, q);
            if e - q >= 2 {
                let q2 = skip_spaces(line, e);
                if q2 > e && q2 < len && word_char(line[q2]) {
                    let e2 = word_end(line, q2);
                    let q3 = skip_spaces(line, e2);
                    if q3 < len && line[q3] == '{' {
                        return Option::Some((capture_string(line, q, e), q3 + 1));
                    }
                }
            }
        }
        Option::None
    }

    /// Every property-like reference from position `p` on.
    fn scan_prop_refs(&self, line: &Vec<char>, p: usize) -> (r: Vec<String>)
        requires
            p <= line@.len(),
        ensures
            names_view(r@) == cs_prop_from(line@, p as int),
        decreases line@.len() - p,
    {
        let len = line.len();
        if p >= len {
            let r: Vec<String> = Vec::new();
            proof {
                assert(names_view(r@) =~= cs_prop_from(line@, p as int));
            }
            return r;
        }
        match self.prop_at(line, p) {
            Option::Some(m) => {
                let (cap, nxt0) = m;
                let nxt = if nxt0 > len {
                    len
                } else {
                    nxt0
                };
                proof {
                    assert(nxt as int == spec_advance(line@.len() as int, p as int, nxt0 as int));
                }
                let mut r = self.scan_prop_refs(line, nxt);
                let ghost rest = names_view(r@);
                r.insert(0, cap);
                proof {
                    assert(names_view(r@) =~= seq![cap@] + rest);
                }
                r
            },
            Option::None => self.scan_prop_refs(line, p + 1),
        }
    }

    /// All references of one line: inheritance colons, parameter forms,
    /// generics, then property forms.
    fn extract_class_references(&self, line: &Vec<char>) -> (r: Vec<String>)
        ensures
            names_view(r@) == cs_refs(line@),
    {
        let mut refs = scan_colon_refs(line, 0);
        let ghost a = names_view(refs@);
        let mut params = self.scan_param_refs(line, 0);
        let ghost b = names_view(params@);
        refs.append(&mut params);
        let mut gens = scan_generic_refs(line, 0);
        let ghost c = names_view(gens@);
        refs.append(&mut gens);
        let mut props = self.scan_prop_refs(line, 0);
        let ghost d = names_view(props@);
        refs.append(&mut props);
        proof {
            assert(names_view(refs@) =~= a + b + c + d);
        }
        refs
    }

    /// Whether a referenced name counts as known.
    fn is_known(&self, classes: &NameSet, imports: &NameSet, t: &str) -> (b: bool)
        ensures
            b == cs_known(classes@, imports@, t@),
    {
        classes.contains(t) || imports.contains(t) || str_eq(t, "User") || str_eq(
            t,
            "DatabaseContext",
        ) || str_eq(t, "IUserService")
    }

    /// Records the line's references as filtered edges from `from_class`.
    fn add_references(
        &self,
        line: &Vec<char>,
        from_class: &String,
        classes: &NameSet,
        imports: &NameSet,
        line_number: usize,
        links: &mut Vec<ClassLink>,
    )
        ensures
            links_view(final(links)@) == cs_add_refs(
                links_view(old(links)@),
                from_class@,
                classes@,
                imports@,
                cs_refs(line@),
                line_number as int,
                cs_refs(line@).len() as int,
            ),
    {
        let refs = self.extract_class_references(line);
        let ghost ts = cs_refs(line@);
        let n = refs.len();
        let mut k: usize = 0;
        while k < n
            invariant
                0 <= k <= n,
                n == ts.len(),
                names_view(refs@) == ts,
                links_view(links@) == cs_add_refs(
                    links_view(old(links)@),
                    from_class@,
                    classes@,
                    imports@,
                    ts,
                    line_number as int,
                    k as int,
                ),
            decreases n - k,
        {
            let to = &refs[k];
            if !str_eq(to.as_str(), from_class.as_str()) && self.is_known(
                classes,
                imports,
                to.as_str(),
            ) && !has_pair(links, from_class.as_str(), to.as_str()) {
                let cl = ClassLink {
                    from_class: from_class.clone(),
                    to_class: to.clone(),
                    line_number: line_number,
                };
                proof {
                    lemma_links_view_push(links@, cl);
                }
                links.push(cl);
            }
            k = k + 1;
        }
    }
}

impl FileAnalyzer for CSharpParser {
    open spec fn spec_classes(content: Seq<char>) -> Seq<Seq<char>> {
        cs_classes_of(content)
    }

    open spec fn spec_links(content: Seq<char>) -> Seq<LinkModel> {
        cs_links_of(content)
    }

    fn analyze(&self, content: &str, _file_path: &str) -> (r: AnalysisResult) {
        let chars = to_chars(content);
        let lines = split_lines(&chars);
        let ghost ls = spec_lines_of(content@);
        let mut classes = NameSet::new();
        let mut links: Vec<ClassLink> = Vec::new();
        let mut current: Option<String> = Option::None;
        let mut imports = NameSet::new();
        let n = lines.len();
        let mut i: usize = 0;
        while i < n
            invariant
                0 <= i <= n,
                n == ls.len(),
                lines_view(lines@) == ls,
                classes@ == cs_scan(ls, i as int).classes,
                links_view(links@) == cs_scan(ls, i as int).links,
                opt_name_view(current) == cs_scan(ls, i as int).current,
                imports@ == cs_scan(ls, i as int).imports,
                classes.wf(),
                imports.wf(),
            decreases n - i,
        {
            let line = &lines[i];
            let ghost st = cs_scan(ls, i as int);
            if let Option::Some(cand) = self.using_candidate(line) {
                let ghost pre = imports@;
                let ghost cv = cand@;
                imports.insert(cand);
                proof {
                    let single = opt_names(cs_using_candidate(line@));
                    assert(single =~= seq![cv]);
                    assert(single.drop_last() =~= Seq::<Seq<char>>::empty());
                    assert(spec_merge_names(pre, Seq::<Seq<char>>::empty()) == pre);
                    assert(spec_merge_names(pre, single) == spec_insert_name(
                        spec_merge_names(pre, single.drop_last()),
                        single.last(),
                    ));
                }
            } else {
                proof {
                    assert(opt_names(cs_using_candidate(line@)) =~= Seq::<Seq<char>>::empty());
                }
            }
            if let Option::Some(name) = self.class_decl(line) {
                classes.insert(name.clone());
                current = Option::Some(name);
            }
            if let Option::Some(name) = self.interface_decl(line) {
                classes.insert(name.clone());
                current = Option::Some(name);
            }
            if let Option::Some(from) = &current {
                self.add_references(line, from, &classes, &imports, i + 1, &mut links);
            }
            proof {
                assert(classes@ == cs_scan(ls, i + 1).classes);
                assert(links_view(links@) == cs_scan(ls, i + 1).links);
                assert(opt_name_view(current) == cs_scan(ls, i + 1).current);
                assert(imports@ == cs_scan(ls, i + 1).imports);
            }
            i = i + 1;
        }
        // post-pass: link leftover using candidates from the last context
        let ghost stf = cs_scan(ls, n as int);
        if let Option::Some(cur) = &current {
            let m = imports.len();
            let mut k: usize = 0;
            while k < m
                invariant
                    0 <= k <= m,
                    m == stf.imports.len(),
                    imports@ == stf.imports,
                    cur@ == stf.current.unwrap(),
                    stf.current is Some,
                    links_view(links@) == cs_post_links(
                        stf.links,
                        stf.current,
                        stf.imports,
                        k as int,
                    ),
                decreases m - k,
            {
                let t = imports.get(k);
                if !has_pair(&links, cur.as_str(), t.as_str()) {
                    let cl = ClassLink {
                        from_class: cur.clone(),
                        to_class: t.clone(),
                        line_number: 1,
                    };
                    proof {
                        lemma_links_view_push(links@, cl);
                    }
                    links.push(cl);
                }
                k = k + 1;
            }
        }
        AnalysisResult { classes, links }
    }
}

proof fn lemma_cs_add_refs_shape(
    links: Seq<LinkModel>,
    from: Seq<char>,
    classes: Seq<Seq<char>>,
    imports: Seq<Seq<char>>,
    ts: Seq<Seq<char>>,
    n: int,
    k: int,
)
    ensures
        cs_add_refs(links, from, classes, imports, ts, n, k).len() >= links.len(),
        forall|j: int|
            0 <= j < cs_add_refs(links, from, classes, imports, ts, n, k).len() ==> ((0 <= j
                < links.len() && #[trigger] cs_add_refs(links, from, classes, imports, ts, n, k)[j]
                == links[j]) || (cs_add_refs(links, from, classes, imports, ts, n, k)[j].from
                == from && cs_add_refs(links, from, classes, imports, ts, n, k)[j].line == n)),
    decreases k,
{
    if k > 0 {
        lemma_cs_add_refs_shape(links, from, classes, imports, ts, n, k - 1);
    }
}

/// The scanner only records references from a declaration it has itself
/// recorded, and every line number is positive.
pub proof fn lemma_cs_scan_sources(lines: Seq<Seq<char>>, i: int)
    ensures
        cs_scan(lines, i).current matches Option::Some(c) ==> cs_scan(lines, i).classes.contains(
            c,
        ),
        forall|j: int|
            0 <= j < cs_scan(lines, i).links.len() ==> cs_scan(lines, i).classes.contains(
                #[trigger] cs_scan(lines, i).links[j].from,
            ) && cs_scan(lines, i).links[j].line >= 1,
    decreases i,
{
    if i > 0 {
        lemma_cs_scan_sources(lines, i - 1);
        let st = cs_scan(lines, i - 1);
        let line = lines[i - 1];
        let st2 = cs_scan(lines, i);
        let c1 = cs_class_capture(line);
        let c2 = cs_interface_capture(line);
        let classes1 = match c1 {
            Option::Some(c) => spec_insert_name(st.classes, c),
            Option::None => st.classes,
        };
        assert forall|x: Seq<char>| st.classes.contains(x) implies st2.classes.contains(x) by {
            if c1 is Some {
                crate::names::lemma_insert_name_monotone(st.classes, c1.unwrap(), x);
            }
            if c2 is Some {
                crate::names::lemma_insert_name_monotone(classes1, c2.unwrap(), x);
            }
        }
        if st2.current is Some {
            let from = st2.current.unwrap();
            if c2 is Some {
                crate::names::lemma_insert_name_monotone(classes1, from, from);
            } else if c1 is Some {
                crate::names::lemma_insert_name_monotone(st.classes, from, from);
                if c2 is Some {
                    crate::names::lemma_insert_name_monotone(classes1, c2.unwrap(), from);
                }
            }
            assert(st2.classes.contains(from));
            let ts = cs_refs(line);
            lemma_cs_add_refs_shape(
                st.links,
                from,
                st2.classes,
                st2.imports,
                ts,
                i,
                ts.len() as int,
            );
        }
    }
}

proof fn lemma_cs_post_links_shape(
    links: Seq<LinkModel>,
    cur: Option<Seq<char>>,
    imports: Seq<Seq<char>>,
    k: int,
)
    ensures
        cs_post_links(links, cur, imports, k).len() >= links.len(),
        forall|j: int|
            0 <= j < cs_post_links(links, cur, imports, k).len() ==> ((0 <= j < links.len()
                && #[trigger] cs_post_links(links, cur, imports, k)[j] == links[j]) || (
            cur matches Option::Some(c) && cs_post_links(links, cur, imports, k)[j].from == c
                && cs_post_links(links, cur, imports, k)[j].line == 1)),
    decreases k,
{
    if k > 0 && cur is Some {
        lemma_cs_post_links_shape(links, cur, imports, k - 1);
    }
}

/// Every link a C# scan reports, the import post-pass included, starts at
/// one of the file's own declarations, at a positive line number.
pub proof fn lemma_cs_sources_declared(content: Seq<char>)
    ensures
        forall|j: int|
            0 <= j < cs_links_of(content).len() ==> cs_classes_of(content).contains(
                #[trigger] cs_links_of(content)[j].from,
            ) && cs_links_of(content)[j].line >= 1,
{
    let ls = spec_lines_of(content);
    let st = cs_scan(ls, ls.len() as int);
    lemma_cs_scan_sources(ls, ls.len() as int);
    lemma_cs_post_links_shape(st.links, st.current, st.imports, st.imports.len() as int);
}

} // verus!
