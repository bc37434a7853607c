//! The link-graph analyzer.
//!
//! Given the aggregated declaration set and edge list, it computes per-name
//! outgoing and incoming degrees, the isolated names, and the names with the
//! highest incoming and outgoing counts.  Degrees count every edge whose
//! endpoint is a declared name, duplicates included; edges mentioning
//! undeclared names never create an entry.  Ties among maxima are broken
//! deterministically towards the earliest declaration.

use vstd::prelude::*;
use crate::names::{NameSet, unique_names};
use crate::parser::{ClassLink, LinkModel, links_view};
use crate::text::{names_view, lemma_names_view_push, str_eq};

verus! {

/// How often a name stands as an edge's source.
pub open spec fn out_degree(links: Seq<LinkModel>, name: Seq<char>) -> int
    decreases links.len(),
{
    if links.len() == 0 {
        0
    } else {
        out_degree(links.drop_last(), name) + if links.last().from == name {
            1int
        } else {
            0int
        }
    }
}

/// How often a name stands as an edge's target.
pub open spec fn in_degree(links: Seq<LinkModel>, name: Seq<char>) -> int
    decreases links.len(),
{
    if links.len() == 0 {
        0
    } else {
        in_degree(links.drop_last(), name) + if links.last().to == name {
            1int
        } else {
            0int
        }
    }
}

/// A name appears in some edge, as source or target.
pub open spec fn spec_is_linked(links: Seq<LinkModel>, name: Seq<char>) -> bool {
    exists|i: int| 0 <= i < links.len() && (links[i].from == name || links[i].to == name)
}

/// The declared names that appear in no edge, in declaration order.
pub open spec fn isolated_seq(classes: Seq<Seq<char>>, links: Seq<LinkModel>) -> Seq<Seq<char>>
    decreases classes.len(),
{
    if classes.len() == 0 {
        Seq::empty()
    } else {
        isolated_seq(classes.drop_last(), links) + if spec_is_linked(links, classes.last()) {
            Seq::empty()
        } else {
            seq![classes.last()]
        }
    }
}

/// Per-name outgoing and incoming link counts.
#[derive(Debug, Clone, PartialEq, Eq, Structural)]
pub struct ClassLinkCount {
    pub outgoing_links: usize,
    pub incoming_links: usize,
}

/// The connectivity statistics of one analysis run.
#[derive(Debug, Clone)]
pub struct LinkStatistics {
    pub total_classes: usize,
    pub isolated_classes: Vec<String>,
    pub class_link_counts: Vec<(String, ClassLinkCount)>,
    pub most_linked_class: Option<(String, usize)>,
    pub most_linking_class: Option<(String, usize)>,
}

/// The mathematical value of a [`LinkStatistics`].
pub ghost struct StatsModel {
    pub total: int,
    pub isolated: Seq<Seq<char>>,
    pub counts: Seq<(Seq<char>, int, int)>,
    pub most_linked: Option<(Seq<char>, int)>,
    pub most_linking: Option<(Seq<char>, int)>,
}

impl View for LinkStatistics {
    type V = StatsModel;

    open spec fn view(&self) -> StatsModel {
        StatsModel {
            total: self.total_classes as int,
            isolated: names_view(self.isolated_classes@),
            counts: Seq::new(
                self.class_link_counts@.len(),
                |i: int|
                    (
                        self.class_link_counts@[i].0@,
                        self.class_link_counts@[i].1.outgoing_links as int,
                        self.class_link_counts@[i].1.incoming_links as int,
                    ),
            ),
            most_linked: match self.most_linked_class {
                Option::None => Option::None,
                Option::Some(p) => Option::Some((p.0@, p.1 as int)),
            },
            most_linking: match self.most_linking_class {
                Option::None => Option::None,
                Option::Some(p) => Option::Some((p.0@, p.1 as int)),
            },
        }
    }
}

/// `(c, m)` is the hub by incoming degree: a positive maximum over the
/// declarations, taken at the earliest declaration reaching it.
pub open spec fn is_first_max_in(
    classes: Seq<Seq<char>>,
    links: Seq<LinkModel>,
    c: Seq<char>,
    m: int,
) -> bool {
    &&& m > 0
    &&& (forall|j: int| 0 <= j < classes.len() ==> in_degree(links, #[trigger] classes[j]) <= m)
    &&& (exists|i: int|
        0 <= i < classes.len() && #[trigger] classes[i] == c && in_degree(links, classes[i]) == m
            && (forall|j: int| 0 <= j < i ==> in_degree(links, #[trigger] classes[j]) < m))
}

/// `(c, m)` is the hub by outgoing degree, chosen the same way.
pub open spec fn is_first_max_out(
    classes: Seq<Seq<char>>,
    links: Seq<LinkModel>,
    c: Seq<char>,
    m: int,
) -> bool {
    &&& m > 0
    &&& (forall|j: int| 0 <= j < classes.len() ==> out_degree(links, #[trigger] classes[j]) <= m)
    &&& (exists|i: int|
        0 <= i < classes.len() && #[trigger] classes[i] == c && out_degree(links, classes[i]) == m
            && (forall|j: int| 0 <= j < i ==> out_degree(links, #[trigger] classes[j]) < m))
}

/// What [`LinkAnalyzer::analyze`] promises of its result: the total is the
/// set's size; the counts list the declarations in order with their exact
/// degrees; the isolated list is exactly the unlinked declarations in order;
/// each hub is absent exactly when every degree on its side is zero, and
/// otherwise carries the first maximum.
pub open spec fn stats_ok(
    classes: Seq<Seq<char>>,
    links: Seq<LinkModel>,
    s: StatsModel,
) -> bool {
    &&& s.total == classes.len()
    &&& s.counts.len() == classes.len()
    &&& (forall|i: int|
        0 <= i < classes.len() ==> #[trigger] s.counts[i] == (
            classes[i],
            out_degree(links, classes[i]),
            in_degree(links, classes[i]),
        ))
    &&& s.isolated == isolated_seq(classes, links)
    &&& (s.most_linked is None <==> (forall|j: int|
        0 <= j < classes.len() ==> in_degree(links, #[trigger] classes[j]) <= 0))
    &&& (s.most_linked matches Option::Some(p) ==> is_first_max_in(classes, links, p.0, p.1))
    &&& (s.most_linking is None <==> (forall|j: int|
        0 <= j < classes.len() ==> out_degree(links, #[trigger] classes[j]) <= 0))
    &&& (s.most_linking matches Option::Some(p) ==> is_first_max_out(classes, links, p.0, p.1))
}

/// Counts how often `name` stands as a source among the links.
fn count_outgoing(links: &Vec<ClassLink>, name: &str) -> (c: usize)
    ensures
        c as int == out_degree(links_view(links@), name@),
{
    let n = links.len();
    let mut c: usize = 0;
    let mut i: usize = 0;
    while i < n
        invariant
            0 <= i <= n,
            n == links@.len(),
            c <= i,
            c as int == out_degree(links_view(links@).subrange(0, i as int), name@),
        decreases n - i,
    {
        let ghost pre = links_view(links@).subrange(0, i as int);
        proof {
            assert(links_view(links@).subrange(0, i + 1).drop_last() =~= pre);
            assert(links_view(links@).subrange(0, i + 1).last() == links_view(links@)[i as int]);
        }
        if str_eq(links[i].from_class.as_str(), name) {
            c = c + 1;
        }
        i = i + 1;
    }
    proof {
        assert(links_view(links@).subrange(0, n as int) =~= links_view(links@));
    }
    c
}

/// Counts how often `name` stands as a target among the links.
fn count_incoming(links: &Vec<ClassLink>, name: &str) -> (c: usize)
    ensures
        c as int == in_degree(links_view(links@), name@),
{
    let n = links.len();
    let mut c: usize = 0;
    let mut i: usize = 0;
    while i < n
        invariant
            0 <= i <= n,
            n == links@.len(),
            c <= i,
            c as int == in_degree(links_view(links@).subrange(0, i as int), name@),
        decreases n - i,
    {
        let ghost pre = links_view(links@).subrange(0, i as int);
        proof {
            assert(links_view(links@).subrange(0, i + 1).drop_last() =~= pre);
            assert(links_view(links@).subrange(0, i + 1).last() == links_view(links@)[i as int]);
        }
        if str_eq(links[i].to_class.as_str(), name) {
            c = c + 1;
        }
        i = i + 1;
    }
    proof {
        assert(links_view(links@).subrange(0, n as int) =~= links_view(links@));
    }
    c
}

/// Whether `name` appears in any link, as source or target.
fn is_linked(links: &Vec<ClassLink>, name: &str) -> (b: bool)
    ensures
        b == spec_is_linked(links_view(links@), name@),
{
    let n = links.len();
    let mut i: usize = 0;
    while i < n
        invariant
            0 <= i <= n,
            n == links@.len(),
            forall|j: int|
                0 <= j < i ==> !(links_view(links@)[j].from == name@ || links_view(
                    links@,
                )[j].to == name@),
        decreases n - i,
    {
        if str_eq(links[i].from_class.as_str(), name) || str_eq(links[i].to_class.as_str(), name) {
            proof {
                assert(links_view(links@)[i as int].from == name@ || links_view(
                    links@,
                )[i as int].to == name@);
            }
            return true;
        }
        i = i + 1;
    }
    false
}

impl LinkStatistics {
    /// The count entry recorded for `name`, if one is.
    pub fn count_for(&self, name: &str) -> (r: Option<&ClassLinkCount>)
        ensures
            match r {
                Option::Some(c) => exists|i: int|
                    0 <= i < self.class_link_counts@.len() && #[trigger] self.class_link_counts@[
                        i
                    ].0@ == name@ && *c == self.class_link_counts@[i].1,
                Option::None => forall|i: int|
                    0 <= i < self.class_link_counts@.len() ==> #[trigger] self.class_link_counts@[
                        i
                    ].0@ != name@,
            },
    {
        let n = self.class_link_counts.len();
        let mut i: usize = 0;
        while i < n
            invariant
                0 <= i <= n,
                n == self.class_link_counts@.len(),
                forall|j: int|
                    0 <= j < i ==> #[trigger] self.class_link_counts@[j].0@ != name@,
            decreases n - i,
        {
            if str_eq(self.class_link_counts[i].0.as_str(), name) {
                return Option::Some(&self.class_link_counts[i].1);
            }
            i = i + 1;
        }
        Option::None
    }
}

/// Computes link statistics from a declaration set and an edge list.
pub struct LinkAnalyzer;

impl LinkAnalyzer {
    pub fn new() -> (r: LinkAnalyzer) {
        LinkAnalyzer
    }

    /// The statistics of the graph: exact degrees for every declaration,
    /// the isolated declarations, and the two hubs.
    pub fn analyze(&self, classes: NameSet, links: Vec<ClassLink>) -> (r: LinkStatistics)
        requires
            classes.wf(),
        ensures
            stats_ok(classes@, links_view(links@), r@),
    {
        let ghost cls = classes@;
        let ghost lv = links_view(links@);
        let n = classes.len();
        // degree counts, in declaration order
        let mut counts: Vec<(String, ClassLinkCount)> = Vec::new();
        let mut i: usize = 0;
        while i < n
            invariant
                0 <= i <= n,
                n == cls.len(),
                classes@ == cls,
                links_view(links@) == lv,
                classes.wf(),
                counts@.len() == i,
                forall|j: int|
                    0 <= j < i ==> #[trigger] counts@[j].0@ == cls[j] && counts@[
                        j
                    ].1.outgoing_links as int == out_degree(lv, cls[j]) && counts@[
                        j
                    ].1.incoming_links as int == in_degree(lv, cls[j]),
            decreases n - i,
        {
            let name = classes.get(i);
            let og = count_outgoing(&links, name.as_str());
            let ic = count_incoming(&links, name.as_str());
            counts.push(
                (name.clone(), ClassLinkCount { outgoing_links: og, incoming_links: ic }),
            );
            proof {
                assert(counts@[i as int].0@ == cls[i as int]);
                assert(counts@[i as int].1.outgoing_links == og);
                assert(counts@[i as int].1.incoming_links == ic);
            }
            i = i + 1;
        }
        // isolated declarations, in declaration order
        let mut isolated: Vec<String> = Vec::new();
        let mut i2: usize = 0;
        while i2 < n
            invariant
                0 <= i2 <= n,
                n == cls.len(),
                classes@ == cls,
                links_view(links@) == lv,
                classes.wf(),
                names_view(isolated@) == isolated_seq(cls.subrange(0, i2 as int), lv),
            decreases n - i2,
        {
            let ghost pre = cls.subrange(0, i2 as int);
            proof {
                assert(cls.subrange(0, i2 + 1).drop_last() =~= pre);
                assert(cls.subrange(0, i2 + 1).last() == cls[i2 as int]);
            }
            let name = classes.get(i2);
            if !is_linked(&links, name.as_str()) {
                proof {
                    lemma_names_view_push(isolated@, *name);
                }
                isolated.push(name.clone());
                proof {
                    assert(names_view(isolated@) =~= isolated_seq(cls.subrange(0, i2 as int), lv)
                        + seq![cls[i2 as int]]);
                }
            } else {
                proof {
                    assert(names_view(isolated@) =~= isolated_seq(cls.subrange(0, i2 as int), lv)
                        + Seq::<Seq<char>>::empty());
                }
            }
            i2 = i2 + 1;
        }
        proof {
            assert(cls.subrange(0, n as int) =~= cls);
        }
        // hubs: first maximum of each degree, absent when every degree is zero
        let mut most_linked: Option<(String, usize)> = Option::None;
        let ghost mut bi: int = 0;
        let mut i3: usize = 0;
        while i3 < n
            invariant
                0 <= i3 <= n,
                n == cls.len(),
                counts@.len() == n,
                classes@ == cls,
                links_view(links@) == lv,
                forall|j: int|
                    0 <= j < n ==> #[trigger] counts@[j].0@ == cls[j] && counts@[
                        j
                    ].1.outgoing_links as int == out_degree(lv, cls[j]) && counts@[
                        j
                    ].1.incoming_links as int == in_degree(lv, cls[j]),
                most_linked is None ==> forall|j: int|
                    0 <= j < i3 ==> in_degree(lv, #[trigger] cls[j]) <= 0,
                most_linked matches Option::Some(b) ==> 0 <= bi < i3 && cls[bi] == b.0@
                    && in_degree(lv, cls[bi]) == b.1 as int && b.1 > 0 && (forall|j: int|
                    0 <= j < i3 ==> in_degree(lv, #[trigger] cls[j]) <= b.1 as int) && (forall|
                    j: int,
                |
                    0 <= j < bi ==> in_degree(lv, #[trigger] cls[j]) < b.1 as int),
            decreases n - i3,
        {
            proof {
                assert(counts@[i3 as int].0@ == cls[i3 as int]);
            }
            let d = counts[i3].1.incoming_links;
            let better = match &most_linked {
                Option::None => d > 0,
                Option::Some(b) => d > b.1,
            };
            if better {
                most_linked = Option::Some((counts[i3].0.clone(), d));
                proof {
                    bi = i3 as int;
                }
            }
            i3 = i3 + 1;
        }
        let mut most_linking: Option<(String, usize)> = Option::None;
        let ghost mut bo: int = 0;
        let mut i4: usize = 0;
        while i4 < n
            invariant
                0 <= i4 <= n,
                n == cls.len(),
                counts@.len() == n,
                classes@ == cls,
                links_view(links@) == lv,
                forall|j: int|
                    0 <= j < n ==> #[trigger] counts@[j].0@ == cls[j] && counts@[
                        j
                    ].1.outgoing_links as int == out_degree(lv, cls[j]) && counts@[
                        j
                    ].1.incoming_links as int == in_degree(lv, cls[j]),
                most_linking is None ==> forall|j: int|
                    0 <= j < i4 ==> out_degree(lv, #[trigger] cls[j]) <= 0,
                most_linking matches Option::Some(b) ==> 0 <= bo < i4 && cls[bo] == b.0@
                    && out_degree(lv, cls[bo]) == b.1 as int && b.1 > 0 && (forall|j: int|
                    0 <= j < i4 ==> out_degree(lv, #[trigger] cls[j]) <= b.1 as int) && (forall|
                    j: int,
                |
                    0 <= j < bo ==> out_degree(lv, #[trigger] cls[j]) < b.1 as int),
            decreases n - i4,
        {
            proof {
                assert(counts@[i4 as int].0@ == cls[i4 as int]);
            }
            let d = counts[i4].1.outgoing_links;
            let better = match &most_linking {
                Option::None => d > 0,
                Option::Some(b) => d > b.1,
            };
            if better {
                most_linking = Option::Some((counts[i4].0.clone(), d));
                proof {
                    bo = i4 as int;
                }
            }
            i4 = i4 + 1;
        }
        let r = LinkStatistics {
            total_classes: n,
            isolated_classes: isolated,
            class_link_counts: counts,
            most_linked_class: most_linked,
            most_linking_class: most_linking,
        };
        proof {
            assert forall|i: int| 0 <= i < cls.len() implies #[trigger] r@.counts[i] == (
                cls[i],
                out_degree(lv, cls[i]),
                in_degree(lv, cls[i]),
            ) by {
                assert(r@.counts[i].0 == cls[i]);
            }
        }
        r
    }
}


/// The occurrences of `name` among the declarations.
pub open spec fn occ(classes: Seq<Seq<char>>, name: Seq<char>) -> int
    decreases classes.len(),
{
    if classes.len() == 0 {
        0
    } else {
        occ(classes.drop_last(), name) + if classes.last() == name {
            1int
        } else {
            0int
        }
    }
}

/// The outgoing degrees of the declarations, summed in order.
pub open spec fn sum_out(classes: Seq<Seq<char>>, links: Seq<LinkModel>) -> int
    decreases classes.len(),
{
    if classes.len() == 0 {
        0
    } else {
        sum_out(classes.drop_last(), links) + out_degree(links, classes.last())
    }
}

/// The incoming degrees of the declarations, summed in order.
pub open spec fn sum_in(classes: Seq<Seq<char>>, links: Seq<LinkModel>) -> int
    decreases classes.len(),
{
    if classes.len() == 0 {
        0
    } else {
        sum_in(classes.drop_last(), links) + in_degree(links, classes.last())
    }
}

proof fn lemma_occ_absent(classes: Seq<Seq<char>>, name: Seq<char>)
    requires
        !classes.contains(name),
    ensures
        occ(classes, name) == 0,
    decreases classes.len(),
{
    if classes.len() > 0 {
        assert(classes[classes.len() - 1] != name);
        assert forall|i: int| 0 <= i < classes.drop_last().len() implies #[trigger] classes.drop_last()[i]
            != name by {
            assert(classes[i] != name);
        }
        lemma_occ_absent(classes.drop_last(), name);
    }
}

proof fn lemma_occ_unique(classes: Seq<Seq<char>>, name: Seq<char>)
    requires
        unique_names(classes),
        classes.contains(name),
    ensures
        occ(classes, name) == 1,
    decreases classes.len(),
{
    let last = classes.last();
    let dl = classes.drop_last();
    assert(unique_names(dl));
    if last == name {
        if dl.contains(name) {
            let i = choose|i: int| 0 <= i < dl.len() && dl[i] == name;
            assert(classes[i] == name && classes[classes.len() - 1] == name);
            assert(false);
        }
        lemma_occ_absent(dl, name);
    } else {
        let i = choose|i: int| 0 <= i < classes.len() && classes[i] == name;
        assert(dl[i] == name);
        lemma_occ_unique(dl, name);
    }
}

proof fn lemma_sum_empty(classes: Seq<Seq<char>>)
    ensures
        sum_out(classes, Seq::empty()) == 0,
        sum_in(classes, Seq::empty()) == 0,
    decreases classes.len(),
{
    if classes.len() > 0 {
        lemma_sum_empty(classes.drop_last());
    }
}

proof fn lemma_sum_push(classes: Seq<Seq<char>>, links: Seq<LinkModel>, l: LinkModel)
    ensures
        sum_out(classes, links.push(l)) == sum_out(classes, links) + occ(classes, l.from),
        sum_in(classes, links.push(l)) == sum_in(classes, links) + occ(classes, l.to),
    decreases classes.len(),
{
    if classes.len() > 0 {
        lemma_sum_push(classes.drop_last(), links, l);
        assert(links.push(l).drop_last() =~= links);
        assert(links.push(l).last() == l);
    }
}

/// Conservation of degree: over a declaration set that holds both endpoints
/// of every edge, the outgoing degrees and the incoming degrees each sum to
/// the number of edges.
pub proof fn lemma_degree_sum(classes: Seq<Seq<char>>, links: Seq<LinkModel>)
    requires
        unique_names(classes),
        forall|i: int|
            0 <= i < links.len() ==> classes.contains(#[trigger] links[i].from)
                && classes.contains(links[i].to),
    ensures
        sum_out(classes, links) == links.len(),
        sum_in(classes, links) == links.len(),
    decreases links.len(),
{
    if links.len() == 0 {
        assert(links =~= Seq::<LinkModel>::empty());
        lemma_sum_empty(classes);
    } else {
        let l = links.last();
        let prefix = links.drop_last();
        assert forall|i: int|
            0 <= i < prefix.len() implies classes.contains(#[trigger] prefix[i].from)
            && classes.contains(prefix[i].to) by {
            assert(prefix[i] == links[i]);
            assert(classes.contains(links[i].from) && classes.contains(links[i].to));
        }
        lemma_degree_sum(classes, prefix);
        assert(prefix.push(l) =~= links);
        lemma_sum_push(classes, prefix, l);
        assert(sum_out(classes, links) == sum_out(classes, prefix) + occ(classes, l.from));
        assert(sum_in(classes, links) == sum_in(classes, prefix) + occ(classes, l.to));
        assert(classes.contains(links[links.len() - 1].from));
        assert(classes.contains(links[links.len() - 1].to));
        lemma_occ_unique(classes, l.from);
        lemma_occ_unique(classes, l.to);
    }
}

/// The outgoing counts of a statistics record, summed in order.
pub open spec fn counts_out_sum(counts: Seq<(Seq<char>, int, int)>) -> int
    decreases counts.len(),
{
    if counts.len() == 0 {
        0
    } else {
        counts_out_sum(counts.drop_last()) + counts.last().1
    }
}

/// The incoming counts of a statistics record, summed in order.
pub open spec fn counts_in_sum(counts: Seq<(Seq<char>, int, int)>) -> int
    decreases counts.len(),
{
    if counts.len() == 0 {
        0
    } else {
        counts_in_sum(counts.drop_last()) + counts.last().2
    }
}

proof fn lemma_counts_sum_eq(
    classes: Seq<Seq<char>>,
    links: Seq<LinkModel>,
    counts: Seq<(Seq<char>, int, int)>,
    k: int,
)
    requires
        0 <= k <= classes.len(),
        counts.len() == classes.len(),
        forall|i: int|
            0 <= i < classes.len() ==> #[trigger] counts[i] == (
                classes[i],
                out_degree(links, classes[i]),
                in_degree(links, classes[i]),
            ),
    ensures
        counts_out_sum(counts.subrange(0, k)) == sum_out(classes.subrange(0, k), links),
        counts_in_sum(counts.subrange(0, k)) == sum_in(classes.subrange(0, k), links),
    decreases k,
{
    if k > 0 {
        lemma_counts_sum_eq(classes, links, counts, k - 1);
        assert(counts.subrange(0, k).drop_last() =~= counts.subrange(0, k - 1));
        assert(classes.subrange(0, k).drop_last() =~= classes.subrange(0, k - 1));
        assert(counts.subrange(0, k).last() == counts[k - 1]);
        assert(classes.subrange(0, k).last() == classes[k - 1]);
    }
}

/// Conservation of degree, read off a statistics record: when the
/// declarations hold both endpoints of every edge, the recorded outgoing
/// counts and the recorded incoming counts each sum to the number of edges.
pub proof fn lemma_stats_degree_sum(
    classes: Seq<Seq<char>>,
    links: Seq<LinkModel>,
    s: StatsModel,
)
    requires
        stats_ok(classes, links, s),
        unique_names(classes),
        forall|i: int|
            0 <= i < links.len() ==> classes.contains(#[trigger] links[i].from)
                && classes.contains(links[i].to),
    ensures
        counts_out_sum(s.counts) == links.len(),
        counts_in_sum(s.counts) == links.len(),
{
    lemma_degree_sum(classes, links);
    lemma_counts_sum_eq(classes, links, s.counts, classes.len() as int);
    assert(s.counts.subrange(0, classes.len() as int) =~= s.counts);
    assert(classes.subrange(0, classes.len() as int) =~= classes);
}

proof fn lemma_contains_concat(a: Seq<Seq<char>>, b: Seq<Seq<char>>, x: Seq<char>)
    ensures
        (a + b).contains(x) == (a.contains(x) || b.contains(x)),
{
    if (a + b).contains(x) {
        let i = choose|i: int| 0 <= i < (a + b).len() && (a + b)[i] == x;
        if i < a.len() {
            assert(a[i] == x);
        } else {
            assert(b[i - a.len()] == x);
        }
    }
    if a.contains(x) {
        let i = choose|i: int| 0 <= i < a.len() && a[i] == x;
        assert((a + b)[i] == x);
    }
    if b.contains(x) {
        let i = choose|i: int| 0 <= i < b.len() && b[i] == x;
        assert((a + b)[a.len() + i] == x);
    }
}

/// Isolation characterised: a name stands in the isolated list exactly when
/// it is declared and appears in no edge as source or target.
pub proof fn lemma_isolated_iff(classes: Seq<Seq<char>>, links: Seq<LinkModel>)
    ensures
        forall|name: Seq<char>|
            #[trigger] isolated_seq(classes, links).contains(name) <==> (classes.contains(name)
                && !spec_is_linked(links, name)),
    decreases classes.len(),
{
    if classes.len() == 0 {
        assert forall|name: Seq<char>|
            #[trigger] isolated_seq(classes, links).contains(name) <==> (classes.contains(name)
                && !spec_is_linked(links, name)) by {
            assert(!isolated_seq(classes, links).contains(name));
            assert(!classes.contains(name));
        }
    } else {
        let dl = classes.drop_last();
        let last = classes.last();
        lemma_isolated_iff(dl, links);
        let tail: Seq<Seq<char>> = if spec_is_linked(links, last) {
            Seq::empty()
        } else {
            seq![last]
        };
        assert forall|name: Seq<char>|
            #[trigger] isolated_seq(classes, links).contains(name) <==> (classes.contains(name)
                && !spec_is_linked(links, name)) by {
            let iso_dl = isolated_seq(dl, links);
            assert(isolated_seq(classes, links) == iso_dl + tail);
            lemma_contains_concat(iso_dl, tail, name);
            // what membership in the tail means
            if !spec_is_linked(links, last) && name == last {
                assert(tail[0] == name);
                assert(tail.contains(name));
            }
            if tail.contains(name) {
                let i = choose|i: int| 0 <= i < tail.len() && tail[i] == name;
                assert(name == last && !spec_is_linked(links, last));
            }
            // membership among the remaining declarations carries over
            if dl.contains(name) {
                let i = choose|i: int| 0 <= i < dl.len() && dl[i] == name;
                assert(classes[i] == name);
                assert(classes.contains(name));
            }
            if name == last {
                assert(classes[classes.len() - 1] == name);
                assert(classes.contains(name));
            }
            if classes.contains(name) && name != last {
                let i = choose|i: int| 0 <= i < classes.len() && classes[i] == name;
                assert(dl[i] == name);
                assert(dl.contains(name));
            }
        }
    }
}

/// The same, read off a statistics record: a name stands in its isolated
/// list exactly when it is declared and appears in no edge.
pub proof fn lemma_stats_isolated_iff(
    classes: Seq<Seq<char>>,
    links: Seq<LinkModel>,
    s: StatsModel,
)
    requires
        stats_ok(classes, links, s),
    ensures
        forall|name: Seq<char>|
            #[trigger] s.isolated.contains(name) <==> (classes.contains(name) && !spec_is_linked(
                links,
                name,
            )),
{
    lemma_isolated_iff(classes, links);
}

proof fn lemma_isolated_no_links(classes: Seq<Seq<char>>, links: Seq<LinkModel>)
    requires
        links.len() == 0,
    ensures
        isolated_seq(classes, links) == classes,
    decreases classes.len(),
{
    if classes.len() == 0 {
        assert(isolated_seq(classes, links) =~= classes);
    } else {
        lemma_isolated_no_links(classes.drop_last(), links);
        assert(!spec_is_linked(links, classes.last()));
        assert(isolated_seq(classes, links) =~= classes.drop_last() + seq![classes.last()]);
        assert(classes.drop_last() + seq![classes.last()] =~= classes);
    }
}

/// A graph with no edges has no hubs, and every declaration is isolated.
pub proof fn lemma_zero_edges(classes: Seq<Seq<char>>, links: Seq<LinkModel>, s: StatsModel)
    requires
        stats_ok(classes, links, s),
        links.len() == 0,
    ensures
        s.most_linked is None,
        s.most_linking is None,
        s.isolated == classes,
{
    assert forall|j: int| 0 <= j < classes.len() implies in_degree(
        links,
        #[trigger] classes[j],
    ) <= 0 by {
        assert(in_degree(links, classes[j]) == 0);
    }
    assert forall|j: int| 0 <= j < classes.len() implies out_degree(
        links,
        #[trigger] classes[j],
    ) <= 0 by {
        assert(out_degree(links, classes[j]) == 0);
    }
    lemma_isolated_no_links(classes, links);
}

/// The reported hubs are true maxima: whenever the statistics name a
/// most-linked declaration, it is a declared name, its count is its exact
/// incoming degree, and no declaration — wherever its edges were merged in
/// from — has a higher incoming degree; likewise for the most-linking side
/// and outgoing degrees.
pub proof fn lemma_hub_is_max(classes: Seq<Seq<char>>, links: Seq<LinkModel>, s: StatsModel)
    requires
        stats_ok(classes, links, s),
    ensures
        s.most_linked matches Option::Some(p) ==> classes.contains(p.0) && p.1 == in_degree(
            links,
            p.0,
        ) && (forall|j: int|
            0 <= j < classes.len() ==> in_degree(links, #[trigger] classes[j]) <= p.1),
        s.most_linking matches Option::Some(p) ==> classes.contains(p.0) && p.1 == out_degree(
            links,
            p.0,
        ) && (forall|j: int|
            0 <= j < classes.len() ==> out_degree(links, #[trigger] classes[j]) <= p.1),
{
    if s.most_linked is Some {
        let p = s.most_linked.unwrap();
        let i = choose|i: int|
            0 <= i < classes.len() && #[trigger] classes[i] == p.0 && in_degree(
                links,
                classes[i],
            ) == p.1 && (forall|j: int|
                0 <= j < i ==> in_degree(links, #[trigger] classes[j]) < p.1);
        assert(classes[i] == p.0);
    }
    if s.most_linking is Some {
        let p = s.most_linking.unwrap();
        let i = choose|i: int|
            0 <= i < classes.len() && #[trigger] classes[i] == p.0 && out_degree(
                links,
                classes[i],
            ) == p.1 && (forall|j: int|
                0 <= j < i ==> out_degree(links, #[trigger] classes[j]) < p.1);
        assert(classes[i] == p.0);
    }
}

/// The analysis is a function of its inputs: two statistics records that
/// both meet the analyzer's contract on the same declarations and edges are
/// equal in every field, the deterministic tie-break included.  Re-running
/// the analysis on identical inputs therefore changes nothing.
pub proof fn lemma_stats_deterministic(
    classes: Seq<Seq<char>>,
    links: Seq<LinkModel>,
    s1: StatsModel,
    s2: StatsModel,
)
    requires
        stats_ok(classes, links, s1),
        stats_ok(classes, links, s2),
    ensures
        s1.total == s2.total,
        s1.counts == s2.counts,
        s1.isolated == s2.isolated,
        s1.most_linked == s2.most_linked,
        s1.most_linking == s2.most_linking,
{
    assert(s1.counts =~= s2.counts);
    if s1.most_linked is Some || s2.most_linked is Some {
        assert(s1.most_linked is Some && s2.most_linked is Some);
        let p1 = s1.most_linked.unwrap();
        let p2 = s2.most_linked.unwrap();
        let i1 = choose|i: int|
            0 <= i < classes.len() && #[trigger] classes[i] == p1.0 && in_degree(
                links,
                classes[i],
            ) == p1.1 && (forall|j: int|
                0 <= j < i ==> in_degree(links, #[trigger] classes[j]) < p1.1);
        let i2 = choose|i: int|
            0 <= i < classes.len() && #[trigger] classes[i] == p2.0 && in_degree(
                links,
                classes[i],
            ) == p2.1 && (forall|j: int|
                0 <= j < i ==> in_degree(links, #[trigger] classes[j]) < p2.1);
        assert(p1.1 <= p2.1 && p2.1 <= p1.1);
        if i1 < i2 {
            assert(in_degree(links, classes[i1]) < p2.1);
            assert(false);
        }
        if i2 < i1 {
            assert(in_degree(links, classes[i2]) < p1.1);
            assert(false);
        }
        assert(p1 == p2);
    }
    if s1.most_linking is Some || s2.most_linking is Some {
        assert(s1.most_linking is Some && s2.most_linking is Some);
        let p1 = s1.most_linking.unwrap();
        let p2 = s2.most_linking.unwrap();
        let i1 = choose|i: int|
            0 <= i < classes.len() && #[trigger] classes[i] == p1.0 && out_degree(
                links,
                classes[i],
            ) == p1.1 && (forall|j: int|
                0 <= j < i ==> out_degree(links, #[trigger] classes[j]) < p1.1);
        let i2 = choose|i: int|
            0 <= i < classes.len() && #[trigger] classes[i] == p2.0 && out_degree(
                links,
                classes[i],
            ) == p2.1 && (forall|j: int|
                0 <= j < i ==> out_degree(links, #[trigger] classes[j]) < p2.1);
        assert(p1.1 <= p2.1 && p2.1 <= p1.1);
        if i1 < i2 {
            assert(out_degree(links, classes[i1]) < p2.1);
            assert(false);
        }
        if i2 < i1 {
            assert(out_degree(links, classes[i2]) < p1.1);
            assert(false);
        }
        assert(p1 == p2);
    }
}

} // verus!
