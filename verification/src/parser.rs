//! The Markdown scanner, and the reference-edge type shared by all scanners.
//!
//! A Markdown file declares a class per `# Header` line; the header word is
//! the declaration and becomes the current context.  References come from
//! link syntax `[label](Target.md)` and from bare mentions of words ending in
//! `Class` that are neither the context itself nor bracketed on the same
//! line.  Within one file no `(from, to)` pair is recorded twice; the first
//! occurrence fixes the line number.

use vstd::prelude::*;
use crate::text::{
    spec_word_char, spec_space_char, spec_skip_spaces, spec_word_end, spec_find_char,
    spec_pat_at, spec_advance, spec_lines_of, names_view,
    word_char, space_char, skip_spaces, word_end, find_char, pat_at, to_chars, split_lines,
    capture_string, str_eq, lines_view, lemma_word_end, lemma_find_char,
    lemma_pat_at_subrange,
};
use crate::names::{NameSet, spec_insert_name};

verus! {

/// A directed reference: the declaration it was seen under, the name it
/// points at, and the 1-based line where it was first observed.
#[derive(Debug, Clone, PartialEq)]
pub struct ClassLink {
    pub from_class: String,
    pub to_class: String,
    pub line_number: usize,
}

/// The mathematical value of a [`ClassLink`].
pub ghost struct LinkModel {
    pub from: Seq<char>,
    pub to: Seq<char>,
    pub line: int,
}

impl View for ClassLink {
    type V = LinkModel;

    open spec fn view(&self) -> LinkModel {
        LinkModel { from: self.from_class@, to: self.to_class@, line: self.line_number as int }
    }
}

/// The models of a sequence of links.
pub open spec fn links_view(v: Seq<ClassLink>) -> Seq<LinkModel> {
    Seq::new(v.len(), |i: int| v[i]@)
}

pub proof fn lemma_links_view_push(v: Seq<ClassLink>, x: ClassLink)
    ensures
        links_view(v.push(x)) == links_view(v).push(x@),
{
    assert(links_view(v.push(x)) =~= links_view(v).push(x@));
}

/// Some link with source `from` and target `to` is present.
pub open spec fn spec_has_pair(links: Seq<LinkModel>, from: Seq<char>, to: Seq<char>) -> bool {
    exists|i: int| 0 <= i < links.len() && links[i].from == from && links[i].to == to
}

/// Whether `links` already holds a `(from, to)` pair.
pub fn has_pair(links: &Vec<ClassLink>, from: &str, to: &str) -> (b: bool)
    ensures
        b == spec_has_pair(links_view(links@), from@, to@),
{
    let n = links.len();
    let mut i: usize = 0;
    while i < n
        invariant
            0 <= i <= n,
            n == links@.len(),
            forall|j: int|
                0 <= j < i ==> !(links_view(links@)[j].from == from@ && links_view(
                    links@,
                )[j].to == to@),
        decreases n - i,
    {
        if str_eq(links[i].from_class.as_str(), from) && str_eq(links[i].to_class.as_str(), to) {
            proof {
                assert(links_view(links@)[i as int].from == from@ && links_view(
                    links@,
                )[i as int].to == to@);
            }
            return true;
        }
        i = i + 1;
    }
    false
}

/// The view of an optional owned name.
pub open spec fn opt_name_view(c: Option<String>) -> Option<Seq<char>> {
    match c {
        Option::None => Option::None,
        Option::Some(s) => Option::Some(s@),
    }
}

// ---------------------------------------------------------------------------
// The Markdown grammar.
// ---------------------------------------------------------------------------

/// The declaration of a header line: `#`, at least one space, then the
/// longest run of word characters, which must be nonempty.
pub open spec fn md_header_capture(line: Seq<char>) -> Option<Seq<char>> {
    if line.len() >= 2 && line[0] == '#' && spec_space_char(line[1]) {
        let q = spec_skip_spaces(line, 1);
        let e = spec_word_end(line, q);
        if q < line.len() && e > q {
            Option::Some(line.subrange(q, e))
        } else {
            Option::None
        }
    } else {
        Option::None
    }
}

/// A link target stripped of every trailing `.md`.
pub open spec fn spec_trim_md(s: Seq<char>) -> Seq<char>
    decreases s.len(),
{
    if s.len() >= 3 && spec_pat_at(s, s.len() - 3, ".md"@) {
        spec_trim_md(s.subrange(0, s.len() - 3))
    } else {
        s
    }
}

/// A Markdown link `[label](target.md)` starting exactly at `p`: the label
/// sits between `[` and the next `]`, the target between `(` and the next
/// `)`; both are nonempty and the target ends in `.md`.  Yields the trimmed
/// target and the position after the closing `)`.
pub open spec fn md_link_at(line: Seq<char>, p: int) -> Option<(Seq<char>, int)> {
    if 0 <= p < line.len() && line[p] == '[' {
        let j = spec_find_char(line, p + 1, ']');
        if j < line.len() && j > p + 1 && j + 1 < line.len() && line[j + 1] == '(' {
            let k = spec_find_char(line, j + 2, ')');
            if k < line.len() && k - (j + 2) >= 4 && spec_pat_at(line, k - 3, ".md"@) {
                Option::Some((spec_trim_md(line.subrange(j + 2, k)), k + 1))
            } else {
                Option::None
            }
        } else {
            Option::None
        }
    } else {
        Option::None
    }
}

/// Every Markdown link target on the line from position `p` on, scanning
/// left to right without overlap.
pub open spec fn md_link_targets_from(line: Seq<char>, p: int) -> Seq<Seq<char>>
    decreases line.len() - p,
{
    if p < 0 || p >= line.len() {
        Seq::empty()
    } else {
        match md_link_at(line, p) {
            Option::Some(m) => seq![m.0] + md_link_targets_from(
                line,
                spec_advance(line.len() as int, p, m.1),
            ),
            Option::None => md_link_targets_from(line, p + 1),
        }
    }
}

/// Every maximal word run ending in `Class` with at least one character
/// before the suffix, from position `p` on.
pub open spec fn md_code_targets_from(line: Seq<char>, p: int) -> Seq<Seq<char>>
    decreases line.len() - p,
{
    if p < 0 || p >= line.len() {
        Seq::empty()
    } else if spec_word_char(line[p]) && (p == 0 || !spec_word_char(line[p - 1])) {
        let e = spec_word_end(line, p);
        if e - p >= 6 && spec_pat_at(line, e - 5, "Class"@) {
            seq![line.subrange(p, e)] + md_code_targets_from(
                line,
                spec_advance(line.len() as int, p, e),
            )
        } else {
            md_code_targets_from(line, spec_advance(line.len() as int, p, e))
        }
    } else {
        md_code_targets_from(line, p + 1)
    }
}

/// The name `t` appears on the line wrapped as `[t]`.
pub open spec fn spec_bracketed(line: Seq<char>, t: Seq<char>) -> bool {
    exists|i: int|
        0 <= i && i + t.len() + 2 <= line.len() && line[i] == '[' && #[trigger] spec_pat_at(
            line,
            i + 1,
            t,
        ) && line[i + t.len() + 1] == ']'
}

/// Link targets of one line appended as edges from `from` at line `n`,
/// first `k` targets, skipping pairs already present.
pub open spec fn md_add_links(
    links: Seq<LinkModel>,
    from: Seq<char>,
    ts: Seq<Seq<char>>,
    n: int,
    k: int,
) -> Seq<LinkModel>
    decreases k,
{
    if k <= 0 {
        links
    } else {
        let prev = md_add_links(links, from, ts, n, k - 1);
        let t = ts[k - 1];
        if !spec_has_pair(prev, from, t) {
            prev.push(LinkModel { from: from, to: t, line: n })
        } else {
            prev
        }
    }
}

/// Code-mention targets appended as edges, skipping the context itself,
/// names bracketed on the same line, and pairs already present.
pub open spec fn md_add_code_links(
    links: Seq<LinkModel>,
    from: Seq<char>,
    line: Seq<char>,
    ts: Seq<Seq<char>>,
    n: int,
    k: int,
) -> Seq<LinkModel>
    decreases k,
{
    if k <= 0 {
        links
    } else {
        let prev = md_add_code_links(links, from, line, ts, n, k - 1);
        let t = ts[k - 1];
        if t != from && !spec_bracketed(line, t) && !spec_has_pair(prev, from, t) {
            prev.push(LinkModel { from: from, to: t, line: n })
        } else {
            prev
        }
    }
}

/// The context after a line: the header declaration if the line holds one,
/// the previous context otherwise.
pub open spec fn md_current_after(cur: Option<Seq<char>>, line: Seq<char>) -> Option<Seq<char>> {
    match md_header_capture(line) {
        Option::Some(c) => Option::Some(c),
        Option::None => cur,
    }
}

/// The links accumulated after one line: nothing without a context; with
/// one, the line's link targets and then its code mentions.
pub open spec fn md_line_links(
    links: Seq<LinkModel>,
    cur: Option<Seq<char>>,
    line: Seq<char>,
    n: int,
) -> Seq<LinkModel> {
    match md_current_after(cur, line) {
        Option::None => links,
        Option::Some(from) => {
            let ts1 = md_link_targets_from(line, 0);
            let l1 = md_add_links(links, from, ts1, n, ts1.len() as int);
            let ts2 = md_code_targets_from(line, 0);
            md_add_code_links(l1, from, line, ts2, n, ts2.len() as int)
        },
    }
}

/// Scanner state (context, links) after the first `i` lines.
pub open spec fn md_scan(lines: Seq<Seq<char>>, i: int) -> (Option<Seq<char>>, Seq<LinkModel>)
    decreases i,
{
    if i <= 0 {
        (Option::None, Seq::empty())
    } else {
        let st = md_scan(lines, i - 1);
        let line = lines[i - 1];
        (md_current_after(st.0, line), md_line_links(st.1, st.0, line, i))
    }
}

/// All links of a Markdown text.
pub open spec fn md_links_of(content: Seq<char>) -> Seq<LinkModel> {
    let ls = spec_lines_of(content);
    md_scan(ls, ls.len() as int).1
}

/// The declarations gathered from the first `i` lines' headers.
pub open spec fn md_classes_scan(lines: Seq<Seq<char>>, i: int) -> Seq<Seq<char>>
    decreases i,
{
    if i <= 0 {
        Seq::empty()
    } else {
        let prev = md_classes_scan(lines, i - 1);
        match md_header_capture(lines[i - 1]) {
            Option::Some(c) => spec_insert_name(prev, c),
            Option::None => prev,
        }
    }
}

/// All declarations of a Markdown text.
pub open spec fn md_classes_of(content: Seq<char>) -> Seq<Seq<char>> {
    let ls = spec_lines_of(content);
    md_classes_scan(ls, ls.len() as int)
}

// ---------------------------------------------------------------------------
// The scanner.
// ---------------------------------------------------------------------------

/// Scans Markdown text for class declarations and the links between them.
pub struct MarkdownParser;

impl MarkdownParser {
    pub fn new() -> (r: MarkdownParser) {
        MarkdownParser
    }

    /// The header declaration of one line, if any.
    fn extract_class_from_header(&self, line: &Vec<char>) -> (r: Option<String>)
        ensures
            opt_name_view(r) == md_header_capture(line@),
    {
        let len = line.len();
        if len >= 2 && line[0] == '#' && space_char(line[1]) {
            let q = skip_spaces(line, 1);
            let e = word_end(line, q);
            if q < len && e > q {
                Option::Some(capture_string(line, q, e))
            } else {
                Option::None
            }
        } else {
            Option::None
        }
    }

    /// Every (already trimmed) Markdown link target from position `p` on.
    fn scan_link_targets(&self, line: &Vec<char>, p: usize) -> (r: Vec<String>)
        requires
            p <= line@.len(),
        ensures
            names_view(r@) == md_link_targets_from(line@, p as int),
        decreases line@.len() - p,
    {
        let len = line.len();
        if p >= len {
            let r: Vec<String> = Vec::new();
            proof {
                assert(names_view(r@) =~= md_link_targets_from(line@, p as int));
            }
            return r;
        }
        if line[p] == '[' {
            let j = find_char(line, p + 1, ']');
            proof {
                lemma_find_char(line@, p + 1, ']');
            }
            if j < len && j > p + 1 && j + 1 < len && line[j + 1] == '(' {
                let k = find_char(line, j + 2, ')');
                proof {
                    lemma_find_char(line@, j + 2, ')');
                }
                if k < len && k - (j + 2) >= 4 && pat_at(line, k - 3, ".md") {
                    // a link match: trim every trailing ".md" from the target
                    proof {
                        reveal_strlit(".md");
                    }
                    let a = j + 2;
                    let mut b = k;
                    while b - a >= 3 && pat_at(line, b - 3, ".md")
                        invariant
                            a <= b <= k < line@.len(),
                            a == j + 2,
                            spec_trim_md(line@.subrange(a as int, b as int)) == spec_trim_md(
                                line@.subrange(a as int, k as int),
                            ),
                        decreases b,
                    {
                        proof {
                            reveal_strlit(".md");
                            lemma_pat_at_subrange(line@, a as int, b as int, b - a - 3, ".md"@);
                            assert(line@.subrange(a as int, b as int).subrange(0, b - a - 3)
                                =~= line@.subrange(a as int, b - 3));
                        }
                        b = b - 3;
                    }
                    proof {
                        reveal_strlit(".md");
                        if b - a >= 3 {
                            lemma_pat_at_subrange(line@, a as int, b as int, b - a - 3, ".md"@);
                        }
                    }
                    let cap = capture_string(line, a, b);
                    let mut r = self.scan_link_targets(line, k + 1);
                    let ghost rest = names_view(r@);
                    r.insert(0, cap);
                    proof {
                        assert(md_link_at(line@, p as int) == Option::Some(
                            (spec_trim_md(line@.subrange(j + 2, k as int)), k + 1int),
                        ));
                        assert(spec_advance(line@.len() as int, p as int, k + 1) == k + 1int);
                        assert(names_view(r@) =~= seq![cap@] + rest);
                        assert(names_view(r@) =~= md_link_targets_from(line@, p as int));
                    }
                    return r;
                }
            }
            proof {
                assert(md_link_at(line@, p as int) is None);
            }
            return self.scan_link_targets(line, p + 1);
        }
        proof {
            assert(md_link_at(line@, p as int) is None);
        }
        self.scan_link_targets(line, p + 1)
    }

    /// Every `...Class` word-run mention from position `p` on.
    fn scan_code_targets(&self, line: &Vec<char>, p: usize) -> (r: Vec<String>)
        requires
            p <= line@.len(),
        ensures
            names_view(r@) == md_code_targets_from(line@, p as int),
        decreases line@.len() - p,
    {
        let len = line.len();
        if p >= len {
            let r: Vec<String> = Vec::new();
            proof {
                assert(names_view(r@) =~= md_code_targets_from(line@, p as int));
            }
            return r;
        }
        if word_char(line[p]) && (p == 0 || !word_char(line[p - 1])) {
            let e = word_end(line, p);
            proof {
                lemma_word_end(line@, p as int);
                assert(spec_word_end(line@, p as int) == spec_word_end(line@, p + 1));
                assert(spec_advance(line@.len() as int, p as int, e as int) == e as int);
            }
            if e - p >= 6 && pat_at(line, e - 5, "Class") {
                let cap = capture_string(line, p, e);
                let mut r = self.scan_code_targets(line, e);
                let ghost rest = names_view(r@);
                r.insert(0, cap);
                proof {
                    assert(names_view(r@) =~= seq![cap@] + rest);
                    assert(names_view(r@) =~= md_code_targets_from(line@, p as int));
                }
                r
            } else {
                self.scan_code_targets(line, e)
            }
        } else {
            self.scan_code_targets(line, p + 1)
        }
    }

    /// Whether `t` occurs bracketed as `[t]` on the line.
    fn find_bracketed(&self, line: &Vec<char>, t: &str) -> (b: bool)
        ensures
            b == spec_bracketed(line@, t@),
    {
        let m = t.unicode_len();
        let len = line.len();
        if len < 2 || m > len - 2 {
            proof {
                assert(!spec_bracketed(line@, t@));
            }
            return false;
        }
        let bound = len - m - 2;
        let mut i: usize = 0;
        while i <= bound
            invariant
                0 <= i <= bound + 1,
                bound == len - m - 2,
                m + 2 <= len,
                m == t@.len(),
                len == line@.len(),
                forall|j: int|
                    0 <= j < i ==> !(line@[j] == '[' && #[trigger] spec_pat_at(line@, j + 1, t@)
                        && line@[j + t@.len() + 1] == ']'),
            decreases bound + 1 - i,
        {
            if line[i] == '[' && pat_at(line, i + 1, t) && line[i + m + 1] == ']' {
                proof {
                    assert(0 <= i as int && i as int + t@.len() + 2 <= line@.len() && line@[i as int]
                        == '[' && spec_pat_at(line@, i as int + 1, t@) && line@[i as int + t@.len()
                        + 1] == ']');
                }
                return true;
            }
            i = i + 1;
        }
        proof {
            assert forall|j: int|
                0 <= j && j + t@.len() + 2 <= line@.len() implies !(line@[j] == '['
                && #[trigger] spec_pat_at(line@, j + 1, t@) && line@[j + t@.len() + 1] == ']') by {
                assert(j < i);
            }
        }
        false
    }

    /// A code mention is recorded only when it is not the context itself and
    /// not bracketed on the same line.
    fn is_valid_class_reference(&self, class_name: &str, from_class: &str, line: &Vec<char>) -> (b:
        bool)
        ensures
            b == (class_name@ != from_class@ && !spec_bracketed(line@, class_name@)),
    {
        !str_eq(class_name, from_class) && !self.find_bracketed(line, class_name)
    }

    /// Appends a `(from, to)` link at `line_number` unless the pair exists.
    fn add_link_if_new(
        &self,
        from_class: &str,
        to_class: &str,
        line_number: usize,
        links: &mut Vec<ClassLink>,
    )
        ensures
            links_view(final(links)@) == (if spec_has_pair(
                links_view(old(links)@),
                from_class@,
                to_class@,
            ) {
                links_view(old(links)@)
            } else {
                links_view(old(links)@).push(
                    LinkModel { from: from_class@, to: to_class@, line: line_number as int },
                )
            }),
    {
        if !has_pair(links, from_class, to_class) {
            let cl = ClassLink {
                from_class: from_class.to_owned(),
                to_class: to_class.to_owned(),
                line_number: line_number,
            };
            proof {
                lemma_links_view_push(links@, cl);
            }
            links.push(cl);
        }
    }

    /// Records the line's Markdown link targets as links from `from_class`.
    fn process_markdown_links(
        &self,
        line: &Vec<char>,
        from_class: &String,
        line_number: usize,
        links: &mut Vec<ClassLink>,
    )
        ensures
            links_view(final(links)@) == md_add_links(
                links_view(old(links)@),
                from_class@,
                md_link_targets_from(line@, 0),
                line_number as int,
                md_link_targets_from(line@, 0).len() as int,
            ),
    {
        let targets = self.scan_link_targets(line, 0);
        let ghost ts = md_link_targets_from(line@, 0);
        let n = targets.len();
        let mut k: usize = 0;
        while k < n
            invariant
                0 <= k <= n,
                n == ts.len(),
                names_view(targets@) == ts,
                links_view(links@) == md_add_links(
                    links_view(old(links)@),
                    from_class@,
                    ts,
                    line_number as int,
                    k as int,
                ),
            decreases n - k,
        {
            self.add_link_if_new(from_class.as_str(), targets[k].as_str(), line_number, links);
            k = k + 1;
        }
    }

    /// Records the line's `...Class` mentions as links from `from_class`.
    fn process_code_class_references(
        &self,
        line: &Vec<char>,
        from_class: &String,
        line_number: usize,
        links: &mut Vec<ClassLink>,
    )
        ensures
            links_view(final(links)@) == md_add_code_links(
                links_view(old(links)@),
                from_class@,
                line@,
                md_code_targets_from(line@, 0),
                line_number as int,
                md_code_targets_from(line@, 0).len() as int,
            ),
    {
        let targets = self.scan_code_targets(line, 0);
        let ghost ts = md_code_targets_from(line@, 0);
        let n = targets.len();
        let mut k: usize = 0;
        while k < n
            invariant
                0 <= k <= n,
                n == ts.len(),
                names_view(targets@) == ts,
                links_view(links@) == md_add_code_links(
                    links_view(old(links)@),
                    from_class@,
                    line@,
                    ts,
                    line_number as int,
                    k as int,
                ),
            decreases n - k,
        {
            if self.is_valid_class_reference(
                targets[k].as_str(),
                from_class.as_str(),
                line,
            ) {
                self.add_link_if_new(from_class.as_str(), targets[k].as_str(), line_number, links);
            }
            k = k + 1;
        }
    }

    /// All links of a Markdown text, in scanning order.
    pub fn parse_file(&self, content: &str) -> (r: Vec<ClassLink>)
        ensures
            links_view(r@) == md_links_of(content@),
    {
        let chars = to_chars(content);
        let lines = split_lines(&chars);
        let ghost ls = spec_lines_of(content@);
        let mut links: Vec<ClassLink> = Vec::new();
        let mut current: Option<String> = Option::None;
        let n = lines.len();
        let mut i: usize = 0;
        while i < n
            invariant
                0 <= i <= n,
                n == ls.len(),
                lines_view(lines@) == ls,
                opt_name_view(current) == md_scan(ls, i as int).0,
                links_view(links@) == md_scan(ls, i as int).1,
            decreases n - i,
        {
            let line = &lines[i];
            let ghost cur0 = opt_name_view(current);
            if let Option::Some(name) = self.extract_class_from_header(line) {
                current = Option::Some(name);
            }
            if let Option::Some(from) = &current {
                self.process_markdown_links(line, from, i + 1, &mut links);
                self.process_code_class_references(line, from, i + 1, &mut links);
            }
            proof {
                assert(opt_name_view(current) == md_current_after(cur0, ls[i as int]));
                assert(links_view(links@) == md_scan(ls, i + 1).1);
            }
            i = i + 1;
        }
        links
    }

    /// All declarations of a Markdown text: its header words.
    pub fn extract_classes(&self, content: &str) -> (r: NameSet)
        ensures
            r@ == md_classes_of(content@),
            r.wf(),
    {
        let chars = to_chars(content);
        let lines = split_lines(&chars);
        let ghost ls = spec_lines_of(content@);
        let mut classes = NameSet::new();
        let n = lines.len();
        let mut i: usize = 0;
        while i < n
            invariant
                0 <= i <= n,
                n == ls.len(),
                lines_view(lines@) == ls,
                classes@ == md_classes_scan(ls, i as int),
                classes.wf(),
            decreases n - i,
        {
            if let Option::Some(name) = self.extract_class_from_header(&lines[i]) {
                classes.insert(name);
            }
            i = i + 1;
        }
        classes
    }
}


proof fn lemma_md_add_links_shape(
    links: Seq<LinkModel>,
    from: Seq<char>,
    ts: Seq<Seq<char>>,
    n: int,
    k: int,
)
    ensures
        md_add_links(links, from, ts, n, k).len() >= links.len(),
        forall|j: int|
            0 <= j < md_add_links(links, from, ts, n, k).len() ==> ((0 <= j < links.len()
                && #[trigger] md_add_links(links, from, ts, n, k)[j] == links[j]) || (md_add_links(
                links,
                from,
                ts,
                n,
                k,
            )[j].from == from && md_add_links(links, from, ts, n, k)[j].line == n)),
    decreases k,
{
    if k > 0 {
        lemma_md_add_links_shape(links, from, ts, n, k - 1);
    }
}

proof fn lemma_md_add_code_links_shape(
    links: Seq<LinkModel>,
    from: Seq<char>,
    line: Seq<char>,
    ts: Seq<Seq<char>>,
    n: int,
    k: int,
)
    ensures
        md_add_code_links(links, from, line, ts, n, k).len() >= links.len(),
        forall|j: int|
            0 <= j < md_add_code_links(links, from, line, ts, n, k).len() ==> ((0 <= j
                < links.len() && #[trigger] md_add_code_links(links, from, line, ts, n, k)[j]
                == links[j]) || (md_add_code_links(links, from, line, ts, n, k)[j].from == from
                && md_add_code_links(links, from, line, ts, n, k)[j].line == n)),
    decreases k,
{
    if k > 0 {
        lemma_md_add_code_links_shape(links, from, line, ts, n, k - 1);
    }
}

/// The scanner only records references from a declaration it has itself
/// recorded, and every line number is positive.
pub proof fn lemma_md_scan_sources(lines: Seq<Seq<char>>, i: int)
    ensures
        md_scan(lines, i).0 matches Option::Some(c) ==> md_classes_scan(lines, i).contains(c),
        forall|j: int|
            0 <= j < md_scan(lines, i).1.len() ==> md_classes_scan(lines, i).contains(
                #[trigger] md_scan(lines, i).1[j].from,
            ) && md_scan(lines, i).1[j].line >= 1,
    decreases i,
{
    if i > 0 {
        lemma_md_scan_sources(lines, i - 1);
        let st = md_scan(lines, i - 1);
        let cls = md_classes_scan(lines, i - 1);
        let line = lines[i - 1];
        let cls2 = md_classes_scan(lines, i);
        assert forall|x: Seq<char>| cls.contains(x) implies cls2.contains(x) by {
            if md_header_capture(line) is Some {
                crate::names::lemma_insert_name_monotone(cls, md_header_capture(line).unwrap(), x);
            }
        }
        let cur = md_current_after(st.0, line);
        if cur is Some {
            let from = cur.unwrap();
            if md_header_capture(line) is Some {
                crate::names::lemma_insert_name_monotone(cls, from, from);
            }
            assert(cls2.contains(from));
            let ts1 = md_link_targets_from(line, 0);
            let l1 = md_add_links(st.1, from, ts1, i, ts1.len() as int);
            let ts2 = md_code_targets_from(line, 0);
            lemma_md_add_links_shape(st.1, from, ts1, i, ts1.len() as int);
            lemma_md_add_code_links_shape(l1, from, line, ts2, i, ts2.len() as int);
        }
    }
}

/// Every link a Markdown scan reports starts at one of the file's own
/// declarations, at a positive line number.
pub proof fn lemma_md_sources_declared(content: Seq<char>)
    ensures
        forall|j: int|
            0 <= j < md_links_of(content).len() ==> md_classes_of(content).contains(
                #[trigger] md_links_of(content)[j].from,
            ) && md_links_of(content)[j].line >= 1,
{
    let ls = spec_lines_of(content);
    lemma_md_scan_sources(ls, ls.len() as int);
}

} // verus!
