//! Reference patterns shared by more than one language scanner.
//!
//! Python, TypeScript and C# all read `: Name` (a type hint, an annotation,
//! an inheritance clause) as a reference to `Name`; TypeScript and C# also
//! read the generic form `<Name>`.  In both, `Name` must begin with an
//! uppercase letter and be at least two word characters long.

use vstd::prelude::*;
use crate::text::{
    spec_upper_char, spec_skip_spaces, spec_word_end, spec_advance, names_view, upper_char,
    skip_spaces, word_end, capture_string,
};
use crate::parser::LinkModel;

verus! {

/// The running state of a code scanner: the declarations seen so far, the
/// links recorded so far, the current declaration context, and the import
/// candidates gathered so far.
pub ghost struct ScanState {
    pub classes: Seq<Seq<char>>,
    pub links: Seq<LinkModel>,
    pub current: Option<Seq<char>>,
    pub imports: Seq<Seq<char>>,
}

/// An optional name as a sequence of zero or one names.
pub open spec fn opt_names(c: Option<Seq<char>>) -> Seq<Seq<char>> {
    match c {
        Option::None => Seq::empty(),
        Option::Some(x) => seq![x],
    }
}

/// Every `: Name` reference from position `p` on: a colon, optional spaces,
/// then a word run of length at least two starting uppercase.
pub open spec fn colon_refs_from(line: Seq<char>, p: int) -> Seq<Seq<char>>
    decreases line.len() - p,
{
    if p < 0 || p >= line.len() {
        Seq::empty()
    } else if line[p] == ':' {
        let q = spec_skip_spaces(line, p + 1);
        if q < line.len() && spec_upper_char(line[q]) {
            let e = spec_word_end(line, q);
            if e - q >= 2 {
                seq![line.subrange(q, e)] + colon_refs_from(
                    line,
                    spec_advance(line.len() as int, p, e),
                )
            } else {
                colon_refs_from(line, p + 1)
            }
        } else {
            colon_refs_from(line, p + 1)
        }
    } else {
        colon_refs_from(line, p + 1)
    }
}

/// Scans a line for its `: Name` references.
pub fn scan_colon_refs(line: &Vec<char>, p: usize) -> (r: Vec<String>)
    requires
        p <= line@.len(),
    ensures
        names_view(r@) == colon_refs_from(line@, p as int),
    decreases line@.len() - p,
{
    let len = line.len();
    if p >= len {
        let r: Vec<String> = Vec::new();
        proof {
            assert(names_view(r@) =~= colon_refs_from(line@, p as int));
        }
        return r;
    }
    if line[p] == ':' {
        let q = skip_spaces(line, p + 1);
        if q < len && upper_char(line[q]) {
            let e = word_end(line, q);
            if e - q >= 2 {
                proof {
                    assert(spec_advance(line@.len() as int, p as int, e as int) == e as int);
                }
                let cap = capture_string(line, q, e);
                let mut r = scan_colon_refs(line, e);
                let ghost rest = names_view(r@);
                r.insert(0, cap);
                proof {
                    assert(names_view(r@) =~= seq![cap@] + rest);
                }
                return r;
            }
        }
    }
    scan_colon_refs(line, p + 1)
}

/// Every `<Name>` reference from position `p` on: an opening angle bracket,
/// a word run of length at least two starting uppercase, then a closing one.
pub open spec fn generic_refs_from(line: Seq<char>, p: int) -> Seq<Seq<char>>
    decreases line.len() - p,
{
    if p < 0 || p >= line.len() {
        Seq::empty()
    } else if line[p] == '<' {
        let q = p + 1;
        if q < line.len() && spec_upper_char(line[q]) {
            let e = spec_word_end(line, q);
            if e - q >= 2 && e < line.len() && line[e] == '>' {
                seq![line.subrange(q, e)] + generic_refs_from(
                    line,
                    spec_advance(line.len() as int, p, e + 1),
                )
            } else {
                generic_refs_from(line, p + 1)
            }
        } else {
            generic_refs_from(line, p + 1)
        }
    } else {
        generic_refs_from(line, p + 1)
    }
}

/// Scans a line for its `<Name>` references.
pub fn scan_generic_refs(line: &Vec<char>, p: usize) -> (r: Vec<String>)
    requires
        p <= line@.len(),
    ensures
        names_view(r@) == generic_refs_from(line@, p as int),
    decreases line@.len() - p,
{
    let len = line.len();
    if p >= len {
        let r: Vec<String> = Vec::new();
        proof {
            assert(names_view(r@) =~= generic_refs_from(line@, p as int));
        }
        return r;
    }
    if line[p] == '<' {
        let q = p + 1;
        if q < len && upper_char(line[q]) {
            let e = word_end(line, q);
            if e - q >= 2 && e < len && line[e] == '>' {
                proof {
                    assert(spec_advance(line@.len() as int, p as int, e + 1) == e + 1);
                }
                let cap = capture_string(line, q, e);
                let mut r = scan_generic_refs(line, e + 1);
                let ghost rest = names_view(r@);
                r.insert(0, cap);
                proof {
                    assert(names_view(r@) =~= seq![cap@] + rest);
                }
                return r;
            }
        }
    }
    scan_generic_refs(line, p + 1)
}

} // verus!
