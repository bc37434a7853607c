//! The Python scanner.
//!
//! A `class Name` line declares a class and sets the current context.
//! References are construction calls `Name(` and colon type hints `: Name`,
//! recorded from the context without any known-name filtering.  `import X`
//! and `from M import X, Y` lines gather uppercase-initial import
//! candidates; after the scan, every candidate that did not already produce
//! an edge from the last context is linked from it at line 1.

use vstd::prelude::*;
use crate::text::{
    spec_word_char, spec_upper_char, spec_space_char, spec_skip_spaces, spec_word_end,
    spec_worddot_end, spec_nonspace_end, spec_find_char, spec_pat_at, spec_advance,
    spec_lines_of, names_view, word_char, upper_char, space_char, skip_spaces, word_end,
    worddot_end, nonspace_end, find_char, pat_at, to_chars, split_lines, capture_string,
    lines_view, lemma_skip_spaces, lemma_word_end, lemma_find_char,
};
use crate::names::{NameSet, spec_insert_name, spec_merge_names};
use crate::parser::{
    ClassLink, LinkModel, links_view, lemma_links_view_push, spec_has_pair, has_pair,
    opt_name_view,
};
use crate::scan::{ScanState, opt_names, colon_refs_from, scan_colon_refs};
use crate::file_analyzer::{FileAnalyzer, AnalysisResult};

verus! {

/// The declaration of a `class Name` line: optional indentation, the
/// keyword, at least one space, then a nonempty word run.
pub open spec fn py_class_capture(line: Seq<char>) -> Option<Seq<char>> {
    let p = spec_skip_spaces(line, 0);
    if spec_pat_at(line, p, "class"@) && p + 5 < line.len() && spec_space_char(line[p + 5]) {
        let q = spec_skip_spaces(line, p + 5);
        let e = spec_word_end(line, q);
        if q < line.len() && e > q {
            Option::Some(line.subrange(q, e))
        } else {
            Option::None
        }
    } else {
        Option::None
    }
}

/// Every construction call `Name(` from position `p` on: a word run at a
/// word boundary, starting uppercase, at least two characters, followed by
/// optional spaces and an opening parenthesis.
pub open spec fn py_inst_from(line: Seq<char>, p: int) -> Seq<Seq<char>>
    decreases line.len() - p,
{
    if p < 0 || p >= line.len() {
        Seq::empty()
    } else if spec_word_char(line[p]) && (p == 0 || !spec_word_char(line[p - 1])) {
        let e = spec_word_end(line, p);
        if spec_upper_char(line[p]) && e - p >= 2 {
            let q = spec_skip_spaces(line, e);
            if q < line.len() && line[q] == '(' {
                seq![line.subrange(p, e)] + py_inst_from(
                    line,
                    spec_advance(line.len() as int, p, q + 1),
                )
            } else {
                py_inst_from(line, spec_advance(line.len() as int, p, e))
            }
        } else {
            py_inst_from(line, spec_advance(line.len() as int, p, e))
        }
    } else {
        py_inst_from(line, p + 1)
    }
}

/// All references of one line: construction calls, then colon hints.
pub open spec fn py_refs(line: Seq<char>) -> Seq<Seq<char>> {
    py_inst_from(line, 0) + colon_refs_from(line, 0)
}

/// The uppercase-initial first tokens of the comma-separated pieces from
/// position `p` on, as gathered from a `from M import ...` tail.
pub open spec fn comma_candidates_from(line: Seq<char>, p: int) -> Seq<Seq<char>>
    decreases line.len() - p,
{
    if p < 0 || p > line.len() {
        Seq::empty()
    } else {
        let c = spec_find_char(line, p, ',');
        let a = spec_skip_spaces(line, p);
        let b = spec_nonspace_end(line, a, c);
        let out = if b > a && spec_upper_char(line[a]) {
            seq![line.subrange(a, b)]
        } else {
            Seq::empty()
        };
        if c >= line.len() {
            out
        } else {
            out + comma_candidates_from(line, spec_advance(line.len() as int, p, c + 1))
        }
    }
}

/// The import candidates of a `from M import X, Y` line.
pub open spec fn py_from_candidates(line: Seq<char>) -> Seq<Seq<char>> {
    let p = spec_skip_spaces(line, 0);
    if spec_pat_at(line, p, "from"@) && p + 4 < line.len() && spec_space_char(line[p + 4]) {
        let q = spec_skip_spaces(line, p + 4);
        let m = spec_worddot_end(line, q);
        if m > q && m < line.len() && spec_space_char(line[m]) {
            let q2 = spec_skip_spaces(line, m);
            if spec_pat_at(line, q2, "import"@) && q2 + 6 < line.len() && spec_space_char(
                line[q2 + 6],
            ) {
                comma_candidates_from(line, spec_skip_spaces(line, q2 + 6))
            } else {
                Seq::empty()
            }
        } else {
            Seq::empty()
        }
    } else {
        Seq::empty()
    }
}

/// The import candidate of an `import M` line: the whole rest of the line,
/// when it begins with an uppercase letter.
pub open spec fn py_import_candidate(line: Seq<char>) -> Option<Seq<char>> {
    let p = spec_skip_spaces(line, 0);
    if spec_pat_at(line, p, "import"@) && p + 6 < line.len() && spec_space_char(line[p + 6]) {
        let q = spec_skip_spaces(line, p + 6);
        if q < line.len() && spec_upper_char(line[q]) {
            Option::Some(line.subrange(q, line.len() as int))
        } else {
            Option::None
        }
    } else {
        Option::None
    }
}

/// The first `k` references appended as edges from `from` at line `n`,
/// skipping the context itself and pairs already present.
pub open spec fn py_add_refs(
    links: Seq<LinkModel>,
    from: Seq<char>,
    ts: Seq<Seq<char>>,
    n: int,
    k: int,
) -> Seq<LinkModel>
    decreases k,
{
    if k <= 0 {
        links
    } else {
        let prev = py_add_refs(links, from, ts, n, k - 1);
        let t = ts[k - 1];
        if t != from && !spec_has_pair(prev, from, t) {
            prev.push(LinkModel { from: from, to: t, line: n })
        } else {
            prev
        }
    }
}

/// One line of the scan: the declaration updates classes and the context,
/// the import forms feed the candidate set, and the references become edges
/// from the (possibly new) context.
pub open spec fn py_step(st: ScanState, line: Seq<char>, n: int) -> ScanState {
    let classes1 = match py_class_capture(line) {
        Option::Some(c) => spec_insert_name(st.classes, c),
        Option::None => st.classes,
    };
    let current1 = match py_class_capture(line) {
        Option::Some(c) => Option::Some(c),
        Option::None => st.current,
    };
    let imports1 = spec_merge_names(
        spec_merge_names(st.imports, py_from_candidates(line)),
        opt_names(py_import_candidate(line)),
    );
    let links1 = match current1 {
        Option::Some(from) => {
            let ts = py_refs(line);
            py_add_refs(st.links, from, ts, n, ts.len() as int)
        },
        Option::None => st.links,
    };
    ScanState { classes: classes1, links: links1, current: current1, imports: imports1 }
}

/// Scanner state after the first `i` lines.
pub open spec fn py_scan(lines: Seq<Seq<char>>, i: int) -> ScanState
    decreases i,
{
    if i <= 0 {
        ScanState {
            classes: Seq::empty(),
            links: Seq::empty(),
            current: Option::None,
            imports: Seq::empty(),
        }
    } else {
        py_step(py_scan(lines, i - 1), lines[i - 1], i)
    }
}

/// The post-pass: the first `k` import candidates linked from the last
/// context at line 1, unless such an edge already exists.
pub open spec fn py_post_links(
    links: Seq<LinkModel>,
    cur: Option<Seq<char>>,
    imports: Seq<Seq<char>>,
    k: int,
) -> Seq<LinkModel>
    decreases k,
{
    match cur {
        Option::None => links,
        Option::Some(c) => if k <= 0 {
            links
        } else {
            let prev = py_post_links(links, cur, imports, k - 1);
            let t = imports[k - 1];
            if !spec_has_pair(prev, c, t) {
                prev.push(LinkModel { from: c, to: t, line: 1 })
            } else {
                prev
            }
        },
    }
}

/// The declarations of a Python text.
pub open spec fn py_classes_of(content: Seq<char>) -> Seq<Seq<char>> {
    let ls = spec_lines_of(content);
    py_scan(ls, ls.len() as int).classes
}

/// The links of a Python text, post-pass included.
pub open spec fn py_links_of(content: Seq<char>) -> Seq<LinkModel> {
    let ls = spec_lines_of(content);
    let st = py_scan(ls, ls.len() as int);
    py_post_links(st.links, st.current, st.imports, st.imports.len() as int)
}

/// Scans Python text for class declarations, references and imports.
pub struct PythonParser;

impl PythonParser {
    pub fn new() -> (r: PythonParser) {
        PythonParser
    }

    /// The `class Name` declaration of one line, if any.
    fn class_decl(&self, line: &Vec<char>) -> (r: Option<String>)
        ensures
            opt_name_view(r) == py_class_capture(line@),
    {
        let len = line.len();
        let p = skip_spaces(line, 0);
        if pat_at(line, p, "class") {
            proof {
                reveal_strlit("class");
            }
            if p + 5 < len && space_char(line[p + 5]) {
                let q = skip_spaces(line, p + 5);
                let e = word_end(line, q);
                if q < len && e > q {
                    return Option::Some(capture_string(line, q, e));
                }
            }
        }
        Option::None
    }

    /// Every construction-call reference `Name(` from position `p` on.
    fn scan_inst_refs(&self, line: &Vec<char>, p: usize) -> (r: Vec<String>)
        requires
            p <= line@.len(),
        ensures
            names_view(r@) == py_inst_from(line@, p as int),
        decreases line@.len() - p,
    {
        let len = line.len();
        if p >= len {
            let r: Vec<String> = Vec::new();
            proof {
                assert(names_view(r@) =~= py_inst_from(line@, p as int));
            }
            return r;
        }
        if word_char(line[p]) && (p == 0 || !word_char(line[p - 1])) {
            let e = word_end(line, p);
            proof {
                lemma_word_end(line@, p as int);
            }
            if upper_char(line[p]) && e - p >= 2 {
                let q = skip_spaces(line, e);
                if q < len && line[q] == '(' {
                    proof {
                        assert(spec_advance(line@.len() as int, p as int, q + 1) == q + 1);
                    }
                    let cap = capture_string(line, p, e);
                    let mut r = self.scan_inst_refs(line, q + 1);
                    let ghost rest = names_view(r@);
                    r.insert(0, cap);
                    proof {
                        assert(names_view(r@) =~= seq![cap@] + rest);
                    }
                    return r;
                }
                proof {
                    assert(spec_advance(line@.len() as int, p as int, e as int) == e as int);
                }
                return self.scan_inst_refs(line, e);
            }
            proof {
                assert(spec_advance(line@.len() as int, p as int, e as int) == e as int);
            }
            return self.scan_inst_refs(line, e);
        }
        self.scan_inst_refs(line, p + 1)
    }

    /// All references of one line, construction calls before colon hints.
    fn extract_class_references(&self, line: &Vec<char>) -> (r: Vec<String>)
        ensures
            names_view(r@) == py_refs(line@),
    {
        let mut refs = self.scan_inst_refs(line, 0);
        let ghost insts = names_view(refs@);
        let mut hints = scan_colon_refs(line, 0);
        let ghost hs = names_view(hints@);
        refs.append(&mut hints);
        proof {
            assert(names_view(refs@) =~= insts + hs);
        }
        refs
    }

    /// The uppercase-initial first tokens of the comma-separated pieces
    /// from position `p` on.
    fn comma_candidates(&self, line: &Vec<char>, p: usize) -> (r: Vec<String>)
        requires
            p <= line@.len(),
        ensures
            names_view(r@) == comma_candidates_from(line@, p as int),
        decreases line@.len() - p,
    {
        let len = line.len();
        let c = find_char(line, p, ',');
        proof {
            lemma_find_char(line@, p as int, ',');
            lemma_skip_spaces(line@, p as int);
        }
        let a = skip_spaces(line, p);
        proof {
            if a > c {
                assert(spec_space_char(line@[c as int]));
            }
            assert(a <= c);
        }
        let b = nonspace_end(line, a, c);
        let mut r: Vec<String> = if c >= len {
            Vec::new()
        } else {
            proof {
                assert(spec_advance(line@.len() as int, p as int, c + 1) == c + 1);
            }
            self.comma_candidates(line, c + 1)
        };
        let ghost rest = names_view(r@);
        if b > a && upper_char(line[a]) {
            let tok = capture_string(line, a, b);
            r.insert(0, tok);
            proof {
                assert(names_view(r@) =~= seq![tok@] + rest);
            }
        }
        proof {
            assert(names_view(r@) =~= comma_candidates_from(line@, p as int));
        }
        r
    }

    /// The import candidates of a `from M import ...` line.
    fn from_import_candidates(&self, line: &Vec<char>) -> (r: Vec<String>)
        ensures
            names_view(r@) == py_from_candidates(line@),
    {
        let len = line.len();
        let p = skip_spaces(line, 0);
        if pat_at(line, p, "from") {
            proof {
                reveal_strlit("from");
            }
            if p + 4 < len && space_char(line[p + 4]) {
                let q = skip_spaces(line, p + 4);
                let m = worddot_end(line, q);
                if m > q && m < len && space_char(line[m]) {
                    let q2 = skip_spaces(line, m);
                    if pat_at(line, q2, "import") {
                        proof {
                            reveal_strlit("import");
                        }
                        if q2 + 6 < len && space_char(line[q2 + 6]) {
                            let q3 = skip_spaces(line, q2 + 6);
                            return self.comma_candidates(line, q3);
                        }
                    }
                }
            }
        }
        let r: Vec<String> = Vec::new();
        proof {
            assert(names_view(r@) =~= py_from_candidates(line@));
        }
        r
    }

    /// The import candidate of an `import M` line, if any.
    fn import_candidate(&self, line: &Vec<char>) -> (r: Option<String>)
        ensures
            opt_name_view(r) == py_import_candidate(line@),
    {
        let len = line.len();
        let p = skip_spaces(line, 0);
        if pat_at(line, p, "import") {
            proof {
                reveal_strlit("import");
            }
            if p + 6 < len && space_char(line[p + 6]) {
                let q = skip_spaces(line, p + 6);
                if q < len && upper_char(line[q]) {
                    return Option::Some(capture_string(line, q, len));
                }
            }
        }
        Option::None
    }

    /// Records the line's references as edges from `from_class` at line
    /// `line_number`, skipping self-references and pairs already present.
    fn add_references(
        &self,
        line: &Vec<char>,
        from_class: &String,
        line_number: usize,
        links: &mut Vec<ClassLink>,
    )
        ensures
            links_view(final(links)@) == py_add_refs(
                links_view(old(links)@),
                from_class@,
                py_refs(line@),
                line_number as int,
                py_refs(line@).len() as int,
            ),
    {
        let refs = self.extract_class_references(line);
        let ghost ts = py_refs(line@);
        let n = refs.len();
        let mut k: usize = 0;
        while k < n
            invariant
                0 <= k <= n,
                n == ts.len(),
                names_view(refs@) == ts,
                links_view(links@) == py_add_refs(
                    links_view(old(links)@),
                    from_class@,
                    ts,
                    line_number as int,
                    k as int,
                ),
            decreases n - k,
        {
            let to = &refs[k];
            if !crate::text::str_eq(to.as_str(), from_class.as_str()) && !has_pair(
                links,
                from_class.as_str(),
                to.as_str(),
            ) {
                let cl = ClassLink {
                    from_class: from_class.clone(),
                    to_class: to.clone(),
                    line_number: line_number,
                };
                proof {
                    lemma_links_view_push(links@, cl);
                }
                links.push(cl);
            }
            k = k + 1;
        }
    }
}

impl FileAnalyzer for PythonParser {
    open spec fn spec_classes(content: Seq<char>) -> Seq<Seq<char>> {
        py_classes_of(content)
    }

    open spec fn spec_links(content: Seq<char>) -> Seq<LinkModel> {
        py_links_of(content)
    }

    fn analyze(&self, content: &str, _file_path: &str) -> (r: AnalysisResult) {
        let chars = to_chars(content);
        let lines = split_lines(&chars);
        let ghost ls = spec_lines_of(content@);
        let mut classes = NameSet::new();
        let mut links: Vec<ClassLink> = Vec::new();
        let mut current: Option<String> = Option::None;
        let mut imports = NameSet::new();
        let n = lines.len();
        let mut i: usize = 0;
        while i < n
            invariant
                0 <= i <= n,
                n == ls.len(),
                lines_view(lines@) == ls,
                classes@ == py_scan(ls, i as int).classes,
                links_view(links@) == py_scan(ls, i as int).links,
                opt_name_view(current) == py_scan(ls, i as int).current,
                imports@ == py_scan(ls, i as int).imports,
                classes.wf(),
                imports.wf(),
            decreases n - i,
        {
            let line = &lines[i];
            let ghost st = py_scan(ls, i as int);
            if let Option::Some(name) = self.class_decl(line) {
                classes.insert(name.clone());
                current = Option::Some(name);
            }
            let from_cands = self.from_import_candidates(line);
            let ghost fc = py_from_candidates(line@);
            let m = from_cands.len();
            let mut k: usize = 0;
            while k < m
                invariant
                    0 <= k <= m,
                    m == fc.len(),
                    names_view(from_cands@) == fc,
                    imports@ == spec_merge_names(st.imports, fc.subrange(0, k as int)),
                    imports.wf(),
                decreases m - k,
            {
                let ghost pre = fc.subrange(0, k as int);
                imports.insert(from_cands[k].clone());
                proof {
                    assert(fc.subrange(0, k + 1).drop_last() =~= pre);
                    assert(fc.subrange(0, k + 1).last() == fc[k as int]);
                }
                k = k + 1;
            }
            proof {
                assert(fc.subrange(0, m as int) =~= fc);
            }
            if let Option::Some(cand) = self.import_candidate(line) {
                let ghost pre = imports@;
                let ghost cv = cand@;
                imports.insert(cand);
                proof {
                    let single = opt_names(py_import_candidate(line@));
                    assert(single =~= seq![cv]);
                    assert(single.drop_last() =~= Seq::<Seq<char>>::empty());
                    assert(spec_merge_names(pre, Seq::<Seq<char>>::empty()) == pre);
                    assert(spec_merge_names(pre, single) == spec_insert_name(
                        spec_merge_names(pre, single.drop_last()),
                        single.last(),
                    ));
                    assert(imports@ == spec_merge_names(
                        spec_merge_names(st.imports, fc),
                        opt_names(py_import_candidate(line@)),
                    ));
                }
            } else {
                proof {
                    assert(opt_names(py_import_candidate(line@)) =~= Seq::<Seq<char>>::empty());
                }
            }
            if let Option::Some(from) = &current {
                self.add_references(line, from, i + 1, &mut links);
            }
            proof {
                assert(classes@ == py_scan(ls, i + 1).classes);
                assert(links_view(links@) == py_scan(ls, i + 1).links);
                assert(opt_name_view(current) == py_scan(ls, i + 1).current);
                assert(imports@ == py_scan(ls, i + 1).imports);
            }
            i = i + 1;
        }
        // post-pass: link leftover import candidates from the last context
        let ghost stf = py_scan(ls, n as int);
        if let Option::Some(cur) = &current {
            let m = imports.len();
            let mut k: usize = 0;
            while k < m
                invariant
                    0 <= k <= m,
                    m == stf.imports.len(),
                    imports@ == stf.imports,
                    cur@ == stf.current.unwrap(),
                    stf.current is Some,
                    links_view(links@) == py_post_links(stf.links, stf.current, stf.imports, k as int),
                decreases m - k,
            {
                let t = imports.get(k);
                if !has_pair(&links, cur.as_str(), t.as_str()) {
                    let cl = ClassLink {
                        from_class: cur.clone(),
                        to_class: t.clone(),
                        line_number: 1,
                    };
                    proof {
                        lemma_links_view_push(links@, cl);
                    }
                    links.push(cl);
                }
                k = k + 1;
            }
        }
        AnalysisResult { classes, links }
    }
}


proof fn lemma_py_add_refs_shape(
    links: Seq<LinkModel>,
    from: Seq<char>,
    ts: Seq<Seq<char>>,
    n: int,
    k: int,
)
    ensures
        py_add_refs(links, from, ts, n, k).len() >= links.len(),
        forall|j: int|
            0 <= j < py_add_refs(links, from, ts, n, k).len() ==> ((0 <= j < links.len()
                && #[trigger] py_add_refs(links, from, ts, n, k)[j] == links[j]) || (py_add_refs(
                links,
                from,
                ts,
                n,
                k,
            )[j].from == from && py_add_refs(links, from, ts, n, k)[j].line == n)),
    decreases k,
{
    if k > 0 {
        lemma_py_add_refs_shape(links, from, ts, n, k - 1);
    }
}

proof fn lemma_py_post_links_shape(
    links: Seq<LinkModel>,
    cur: Option<Seq<char>>,
    imports: Seq<Seq<char>>,
    k: int,
)
    ensures
        py_post_links(links, cur, imports, k).len() >= links.len(),
        forall|j: int|
            0 <= j < py_post_links(links, cur, imports, k).len() ==> ((0 <= j < links.len()
                && #[trigger] py_post_links(links, cur, imports, k)[j] == links[j]) || (
            cur matches Option::Some(c) && py_post_links(links, cur, imports, k)[j].from == c
                && py_post_links(links, cur, imports, k)[j].line == 1)),
    decreases k,
{
    if k > 0 && cur is Some {
        lemma_py_post_links_shape(links, cur, imports, k - 1);
    }
}

/// The scanner only records references from a declaration it has itself
/// recorded, and every line number is positive.
pub proof fn lemma_py_scan_sources(lines: Seq<Seq<char>>, i: int)
    ensures
        py_scan(lines, i).current matches Option::Some(c) ==> py_scan(lines, i).classes.contains(
            c,
        ),
        forall|j: int|
            0 <= j < py_scan(lines, i).links.len() ==> py_scan(lines, i).classes.contains(
                #[trigger] py_scan(lines, i).links[j].from,
            ) && py_scan(lines, i).links[j].line >= 1,
    decreases i,
{
    if i > 0 {
        lemma_py_scan_sources(lines, i - 1);
        let st = py_scan(lines, i - 1);
        let line = lines[i - 1];
        let st2 = py_scan(lines, i);
        assert forall|x: Seq<char>| st.classes.contains(x) implies st2.classes.contains(x) by {
            if py_class_capture(line) is Some {
                crate::names::lemma_insert_name_monotone(
                    st.classes,
                    py_class_capture(line).unwrap(),
                    x,
                );
            }
        }
        if st2.current is Some {
            let from = st2.current.unwrap();
            if py_class_capture(line) is Some {
                crate::names::lemma_insert_name_monotone(st.classes, from, from);
            }
            assert(st2.classes.contains(from));
            let ts = py_refs(line);
            lemma_py_add_refs_shape(st.links, from, ts, i, ts.len() as int);
        }
    }
}

/// Every link a Python scan reports, the import post-pass included, starts
/// at one of the file's own declarations, at a positive line number.
pub proof fn lemma_py_sources_declared(content: Seq<char>)
    ensures
        forall|j: int|
            0 <= j < py_links_of(content).len() ==> py_classes_of(content).contains(
                #[trigger] py_links_of(content)[j].from,
            ) && py_links_of(content)[j].line >= 1,
{
    let ls = spec_lines_of(content);
    let st = py_scan(ls, ls.len() as int);
    lemma_py_scan_sources(ls, ls.len() as int);
    lemma_py_post_links_shape(st.links, st.current, st.imports, st.imports.len() as int);
}

} // verus!
