//! Discovery of a course's content tree: a frontier of listing pages still to
//! probe, grown batch by batch from the content nodes each page reveals.

use crate::text::str_eq;
use vstd::prelude::*;

verus! {

/// What a content node is, as its icon tells.
#[derive(Debug, Clone, Copy, PartialEq, Eq, Structural)]
pub enum CourseContentKind {
    Document,
    Assignment,
    Unknown,
}

/// One content node of a listing page.
pub struct CourseContentData {
    pub id: String,
    pub title: String,
    pub kind: CourseContentKind,
    /// The node is itself a listing page, to be probed in turn.
    pub has_link: bool,
    pub descriptions: Vec<String>,
    /// Attachment names and URIs.
    pub attachments: Vec<(String, String)>,
}

impl CourseContentData {
    pub fn new(
        id: String,
        title: String,
        kind: CourseContentKind,
        has_link: bool,
        descriptions: Vec<String>,
        attachments: Vec<(String, String)>,
    ) -> (r: CourseContentData)
        ensures
            r.id@ == id@,
            r.title@ == title@,
            r.kind == kind,
            r.has_link == has_link,
            r.descriptions@ == descriptions@,
            r.attachments@ == attachments@,
    {
        CourseContentData { id, title, kind, has_link, descriptions, attachments }
    }

    pub fn id(&self) -> (r: &str)
        ensures
            r@ == self.id@,
    {
        self.id.as_str()
    }

    pub fn title(&self) -> (r: &str)
        ensures
            r@ == self.title@,
    {
        self.title.as_str()
    }

    pub fn kind(&self) -> (r: CourseContentKind)
        ensures
            r == self.kind,
    {
        self.kind
    }

    pub fn has_link(&self) -> (r: bool)
        ensures
            r == self.has_link,
    {
        self.has_link
    }

    pub fn descriptions(&self) -> (r: &[String])
        ensures
            r@ == self.descriptions@,
    {
        self.descriptions.as_slice()
    }

    pub fn attachments(&self) -> (r: &[(String, String)])
        ensures
            r@ == self.attachments@,
    {
        self.attachments.as_slice()
    }
}

/// The kind of a content node by the `alt` text of its icon: an assignment
/// (`作业`), a document (`项目` or `文件`), or unknown.
pub open spec fn kind_of_alt(alt: Option<Seq<char>>) -> CourseContentKind {
    match alt {
        Some(a) => if a == "作业"@ {
            CourseContentKind::Assignment
        } else if a == "项目"@ || a == "文件"@ {
            CourseContentKind::Document
        } else {
            CourseContentKind::Unknown
        },
        None => CourseContentKind::Unknown,
    }
}

/// The kind of a content node by the `alt` text of its icon.
pub fn content_kind(alt: Option<&str>) -> (r: CourseContentKind)
    ensures
        r == kind_of_alt(
            match alt {
                Some(a) => Some(a@),
                None => None,
            },
        ),
{
    match alt {
        Some(a) => if str_eq(a, "作业") {
            CourseContentKind::Assignment
        } else if str_eq(a, "项目") || str_eq(a, "文件") {
            CourseContentKind::Document
        } else {
            CourseContentKind::Unknown
        },
        None => CourseContentKind::Unknown,
    }
}

/// The name of an attachment from its link text: one leading no-break space,
/// which the portal puts before each name, is dropped.
pub open spec fn attachment_name_of(text: Seq<char>) -> Seq<char> {
    if text.len() > 0 && text[0] == '\u{a0}' {
        text.drop_first()
    } else {
        text
    }
}

/// The name of an attachment from its link text.
pub fn attachment_name(text: &str) -> (r: String)
    ensures
        r@ == attachment_name_of(text@),
{
    let n = text.unicode_len();
    proof {
        reveal_strlit("");
    }
    if n > 0 && text.get_char(0) == '\u{a0}' {
        let rest = text.substring_char(1, n);
        assert(rest@ + ""@ =~= text@.drop_first());
        crate::text::concat(rest, "")
    } else {
        assert(text@ + ""@ =~= text@);
        crate::text::concat(text, "")
    }
}

/// The identifier shown for assignment `content_id` of course `course_id`: the
/// hash of the two ids, in hexadecimal.
pub fn assignment_id(course_id: &str, content_id: &str) -> (r: String)
    ensures
        r@ == crate::cache::hex_lower(crate::cache::pair_hash(course_id@, content_id@) as nat),
{
    crate::cache::hex_string(crate::cache::hash_pair(course_id, content_id))
}

/// The number of listing pages fetched together in one batch.
pub const BATCH_SIZE: usize = 8;

/// The ids of a sequence of strings, as character sequences.
pub open spec fn ids_of(v: Seq<String>) -> Seq<Seq<char>> {
    v.map_values(|s: String| s@)
}

/// The ids of a sequence of content nodes.
pub open spec fn node_ids(v: Seq<CourseContentData>) -> Seq<Seq<char>> {
    v.map_values(|n: CourseContentData| n.id@)
}

/// The frontier after the nodes `nodes` of a batch are taken in, in order, from
/// `visited` and `pending`, with the nodes emitted: a node whose id is not yet
/// visited is marked visited and emitted, and its id is appended to `pending`
/// where it links to a listing page of its own; any other node is dropped.
pub open spec fn absorbed(
    visited: Seq<Seq<char>>,
    pending: Seq<Seq<char>>,
    nodes: Seq<CourseContentData>,
) -> (Seq<Seq<char>>, Seq<Seq<char>>, Seq<CourseContentData>)
    decreases nodes.len(),
{
    if nodes.len() == 0 {
        (visited, pending, Seq::empty())
    } else {
        let prev = absorbed(visited, pending, nodes.drop_last());
        let n = nodes.last();
        if prev.0.contains(n.id@) {
            prev
        } else {
            (
                prev.0.push(n.id@),
                if n.has_link {
                    prev.1.push(n.id@)
                } else {
                    prev.1
                },
                prev.2.push(n),
            )
        }
    }
}

/// What taking in a batch does to the frontier: the visited ids grow by exactly
/// the ids of the emitted nodes, in order; the pending ids keep their old prefix
/// and grow only by emitted ids; every emitted node is one of the batch's nodes.
pub proof fn lemma_absorbed(
    visited: Seq<Seq<char>>,
    pending: Seq<Seq<char>>,
    nodes: Seq<CourseContentData>,
)
    requires
        visited.no_duplicates(),
    ensures
        ({
            let (v, p, e) = absorbed(visited, pending, nodes);
            &&& v == visited + node_ids(e)
            &&& v.no_duplicates()
            &&& pending.len() <= p.len() <= pending.len() + e.len()
            &&& p.subrange(0, pending.len() as int) == pending
            &&& forall|i: int| pending.len() <= i < p.len() ==> node_ids(e).contains(#[trigger] p[i])
            &&& forall|j: int| 0 <= j < e.len() ==> nodes.contains(#[trigger] e[j])
        }),
    decreases nodes.len(),
{
    if nodes.len() > 0 {
        let init = nodes.drop_last();
        lemma_absorbed(visited, pending, init);
        let (vis0, pend0, emit0) = absorbed(visited, pending, init);
        let n = nodes.last();
        assert forall|j: int| 0 <= j < emit0.len() implies nodes.contains(#[trigger] emit0[j]) by {
            assert(init.contains(emit0[j]));
            let t = choose|t: int| 0 <= t < init.len() && init[t] == emit0[j];
            assert(nodes[t] == emit0[j]);
        }
        if !vis0.contains(n.id@) {
            let e = emit0.push(n);
            assert(node_ids(e) =~= node_ids(emit0).push(n.id@));
            assert(vis0.push(n.id@) =~= visited + node_ids(e));
            assert(vis0.push(n.id@).no_duplicates()) by {
                let w = vis0.push(n.id@);
                assert forall|a: int, b: int| 0 <= a < w.len() && 0 <= b < w.len() && a != b implies w[a]
                    != w[b] by {
                    if a < vis0.len() && b < vis0.len() {
                        assert(w[a] == vis0[a] && w[b] == vis0[b]);
                    } else if a < vis0.len() {
                        assert(w[a] == vis0[a]);
                    } else if b < vis0.len() {
                        assert(w[b] == vis0[b]);
                    }
                }
            }
            let p = if n.has_link {
                pend0.push(n.id@)
            } else {
                pend0
            };
            assert(p.subrange(0, pending.len() as int) =~= pend0.subrange(0, pending.len() as int));
            assert forall|i: int| pending.len() <= i < p.len() implies node_ids(e).contains(
                #[trigger] p[i],
            ) by {
                if i < pend0.len() {
                    assert(p[i] == pend0[i]);
                    let t = choose|t: int| 0 <= t < node_ids(emit0).len() && node_ids(emit0)[t] == pend0[i];
                    assert(node_ids(e)[t] == pend0[i]);
                } else {
                    assert(node_ids(e)[emit0.len() as int] == n.id@);
                }
            }
            assert forall|j: int| 0 <= j < e.len() implies nodes.contains(#[trigger] e[j]) by {
                if j < emit0.len() {
                    assert(e[j] == emit0[j]);
                } else {
                    assert(nodes[nodes.len() - 1] == n);
                }
            }
        }
    }
}

/// No node is emitted twice, and none whose id was already visited: the ids a
/// batch emits are distinct, are all new, and are exactly what it adds to the
/// visited ids. As the visited ids only grow, ids emitted by different batches
/// of one crawl are distinct too.
pub proof fn lemma_emitted_ids_are_fresh(
    visited: Seq<Seq<char>>,
    pending: Seq<Seq<char>>,
    nodes: Seq<CourseContentData>,
)
    requires
        visited.no_duplicates(),
    ensures
        ({
            let (v, p, e) = absorbed(visited, pending, nodes);
            &&& node_ids(e).no_duplicates()
            &&& forall|j: int| 0 <= j < e.len() ==> !visited.contains(#[trigger] e[j].id@)
            &&& v == visited + node_ids(e)
        }),
{
    lemma_absorbed(visited, pending, nodes);
    let (v, p, e) = absorbed(visited, pending, nodes);
    assert forall|a: int, b: int| 0 <= a < e.len() && 0 <= b < e.len() && a != b implies node_ids(
        e,
    )[a] != node_ids(e)[b] by {
        assert(v[visited.len() + a] == node_ids(e)[a]);
        assert(v[visited.len() + b] == node_ids(e)[b]);
    }
    assert forall|j: int| 0 <= j < e.len() implies !visited.contains(#[trigger] e[j].id@) by {
        assert(v[visited.len() + j] == e[j].id@);
        if visited.contains(e[j].id@) {
            let t = choose|t: int| 0 <= t < visited.len() && visited[t] == e[j].id@;
            assert(v[t] == e[j].id@);
        }
    }
}

/// An id that is visited but no longer pending (the ids of a batch once taken,
/// whether its pages were fetched or the batch failed and was dropped) is never
/// emitted by a later batch and never queued again: it stays visited and not
/// pending from then on.
pub proof fn lemma_dropped_ids_never_return(
    visited: Seq<Seq<char>>,
    pending: Seq<Seq<char>>,
    nodes: Seq<CourseContentData>,
    id: Seq<char>,
)
    requires
        visited.no_duplicates(),
        visited.contains(id),
        !pending.contains(id),
    ensures
        ({
            let (v, p, e) = absorbed(visited, pending, nodes);
            &&& !node_ids(e).contains(id)
            &&& v.contains(id)
            &&& !p.contains(id)
        }),
{
    lemma_emitted_ids_are_fresh(visited, pending, nodes);
    lemma_absorbed(visited, pending, nodes);
    let (v, p, e) = absorbed(visited, pending, nodes);
    if node_ids(e).contains(id) {
        let j = choose|j: int| 0 <= j < node_ids(e).len() && node_ids(e)[j] == id;
        assert(e[j].id@ == id);
    }
    let t = choose|t: int| 0 <= t < visited.len() && visited[t] == id;
    assert(v[t] == id);
    if p.contains(id) {
        let i = choose|i: int| 0 <= i < p.len() && p[i] == id;
        if i < pending.len() {
            assert(p.subrange(0, pending.len() as int)[i] == id);
        }
    }
}

/// Each round of a crawl (take a batch of `k >= 1` pending ids, then take in
/// the nodes its pages revealed) strictly decreases `(|U| - |visited|) +
/// |pending|`, where the finite set `U` holds every id that can turn up, and
/// keeps the visited ids distinct and within `U`.
pub proof fn lemma_crawl_round_decreases(
    visited: Seq<Seq<char>>,
    pending: Seq<Seq<char>>,
    k: int,
    nodes: Seq<CourseContentData>,
    universe: Set<Seq<char>>,
)
    requires
        visited.no_duplicates(),
        universe.finite(),
        visited.to_set().subset_of(universe),
        forall|j: int| 0 <= j < nodes.len() ==> universe.contains(#[trigger] nodes[j].id@),
        1 <= k <= pending.len(),
    ensures
        ({
            let (v, p, e) = absorbed(visited, pending.subrange(0, pending.len() - k), nodes);
            &&& v.len() <= universe.len()
            &&& visited.len() <= universe.len()
            &&& (universe.len() - v.len()) + p.len() < (universe.len() - visited.len())
                + pending.len()
            &&& v.no_duplicates()
            &&& v.to_set().subset_of(universe)
        }),
{
    let rest = pending.subrange(0, pending.len() - k);
    lemma_absorbed(visited, rest, nodes);
    let (v, p, e) = absorbed(visited, rest, nodes);
    assert(v.to_set().subset_of(universe)) by {
        assert forall|x: Seq<char>| v.to_set().contains(x) implies universe.contains(x) by {
            let i = choose|i: int| 0 <= i < v.len() && v[i] == x;
            if i < visited.len() {
                assert(visited[i] == x);
                assert(visited.to_set().contains(x));
            } else {
                let j = i - visited.len();
                assert(node_ids(e)[j] == x);
                assert(nodes.contains(e[j]));
                let t = choose|t: int| 0 <= t < nodes.len() && nodes[t] == e[j];
                assert(universe.contains(nodes[t].id@));
            }
        }
    }
    v.unique_seq_to_set();
    visited.unique_seq_to_set();
    vstd::set_lib::lemma_len_subset(v.to_set(), universe);
    vstd::set_lib::lemma_len_subset(visited.to_set(), universe);
}

/// The nodes that the listing page of `id` reveals (none for an unknown page).
pub open spec fn page_of(pages: Map<Seq<char>, Seq<CourseContentData>>, id: Seq<char>) -> Seq<
    CourseContentData,
> {
    if pages.contains_key(id) {
        pages[id]
    } else {
        Seq::empty()
    }
}

/// The nodes that the pages of `batch` reveal, page after page.
pub open spec fn batch_nodes(
    pages: Map<Seq<char>, Seq<CourseContentData>>,
    batch: Seq<Seq<char>>,
) -> Seq<CourseContentData>
    decreases batch.len(),
{
    if batch.len() == 0 {
        Seq::empty()
    } else {
        batch_nodes(pages, batch.drop_last()) + page_of(pages, batch.last())
    }
}

/// Some page reveals a node with id `x` that links to a listing page.
pub open spec fn linked(pages: Map<Seq<char>, Seq<CourseContentData>>, x: Seq<char>) -> bool {
    exists|d: Seq<char>, i: int|
        0 <= i < page_of(pages, d).len() && #[trigger] page_of(pages, d)[i].id@ == x && page_of(
            pages,
            d,
        )[i].has_link
}

/// Every node with a given id agrees on whether it links to a listing page.
pub open spec fn consistent_links(pages: Map<Seq<char>, Seq<CourseContentData>>) -> bool {
    forall|d: Seq<char>, i: int|
        0 <= i < page_of(pages, d).len() && linked(pages, #[trigger] page_of(pages, d)[i].id@)
            ==> page_of(pages, d)[i].has_link
}

/// What holds of a crawl from `seeds` over `pages` after the pages of `done`
/// were taken in: every node those pages reveal is visited; every visited id
/// that links to a listing page, and every seed, is probed or pending.
pub open spec fn crawl_invariant(
    pages: Map<Seq<char>, Seq<CourseContentData>>,
    seeds: Set<Seq<char>>,
    visited: Seq<Seq<char>>,
    pending: Seq<Seq<char>>,
    done: Set<Seq<char>>,
) -> bool {
    &&& forall|d: Seq<char>, i: int|
        done.contains(d) && 0 <= i < page_of(pages, d).len() ==> visited.contains(
            #[trigger] page_of(pages, d)[i].id@,
        )
    &&& forall|x: Seq<char>|
        visited.contains(x) && linked(pages, x) ==> done.contains(x) || pending.contains(x)
    &&& forall|x: Seq<char>| seeds.contains(x) ==> done.contains(x) || pending.contains(x)
}

/// The page of `d` reveals a node with id `x`.
pub open spec fn on_page(pages: Map<Seq<char>, Seq<CourseContentData>>, d: Seq<char>, x: Seq<char>) -> bool {
    exists|j: int| 0 <= j < page_of(pages, d).len() && #[trigger] page_of(pages, d)[j].id@ == x
}

/// `path` leads from a seed to its last id: each id after the first is on the
/// page of the one before, and each id strictly inside links to a listing page.
pub open spec fn reach_path(
    pages: Map<Seq<char>, Seq<CourseContentData>>,
    seeds: Set<Seq<char>>,
    path: Seq<Seq<char>>,
) -> bool {
    &&& path.len() >= 1
    &&& seeds.contains(path[0])
    &&& forall|i: int| 0 <= i < path.len() - 1 ==> #[trigger] on_page(pages, path[i], path[i + 1])
    &&& forall|i: int| 1 <= i < path.len() - 1 ==> linked(pages, #[trigger] path[i])
}

/// `n` is a node of some page.
pub open spec fn from_pages(pages: Map<Seq<char>, Seq<CourseContentData>>, n: CourseContentData) -> bool {
    exists|d: Seq<char>, i: int| 0 <= i < page_of(pages, d).len() && #[trigger] page_of(pages, d)[i] == n
}

proof fn lemma_batch_nodes(pages: Map<Seq<char>, Seq<CourseContentData>>, batch: Seq<Seq<char>>)
    ensures
        forall|b: int, i: int|
            0 <= b < batch.len() && 0 <= i < page_of(pages, batch[b]).len() ==> batch_nodes(
                pages,
                batch,
            ).contains(#[trigger] page_of(pages, batch[b])[i]),
        forall|k: int|
            0 <= k < batch_nodes(pages, batch).len() ==> #[trigger] from_pages(
                pages,
                batch_nodes(pages, batch)[k],
            ),
    decreases batch.len(),
{
    if batch.len() > 0 {
        let init = batch.drop_last();
        lemma_batch_nodes(pages, init);
        let all = batch_nodes(pages, batch);
        let front = batch_nodes(pages, init);
        let last = page_of(pages, batch.last());
        assert forall|b: int, i: int|
            0 <= b < batch.len() && 0 <= i < page_of(pages, batch[b]).len() implies all.contains(
            #[trigger] page_of(pages, batch[b])[i],
        ) by {
            if b < batch.len() - 1 {
                assert(init[b] == batch[b]);
                assert(front.contains(page_of(pages, init[b])[i]));
                let t = choose|t: int| 0 <= t < front.len() && front[t] == page_of(pages, init[b])[i];
                assert(all[t] == front[t]);
            } else {
                assert(all[front.len() + i] == last[i]);
            }
        }
        assert forall|k: int| 0 <= k < all.len() implies #[trigger] from_pages(pages, all[k]) by {
            if k < front.len() {
                assert(all[k] == front[k]);
                assert(from_pages(pages, front[k]));
            } else {
                let i = k - front.len();
                assert(all[k] == page_of(pages, batch.last())[i]);
            }
        }
    }
}

proof fn lemma_absorbed_covers(
    visited: Seq<Seq<char>>,
    pending: Seq<Seq<char>>,
    nodes: Seq<CourseContentData>,
)
    ensures
        ({
            let (v, p, e) = absorbed(visited, pending, nodes);
            &&& forall|j: int| 0 <= j < nodes.len() ==> v.contains(#[trigger] nodes[j].id@)
            &&& forall|x: Seq<char>| visited.contains(x) ==> v.contains(x)
            &&& forall|x: Seq<char>| pending.contains(x) ==> p.contains(x)
            &&& forall|x: Seq<char>|
                v.contains(x) && !visited.contains(x) ==> exists|j: int|
                    0 <= j < nodes.len() && #[trigger] nodes[j].id@ == x && (nodes[j].has_link
                        ==> p.contains(x))
        }),
    decreases nodes.len(),
{
    if nodes.len() > 0 {
        let init = nodes.drop_last();
        lemma_absorbed_covers(visited, pending, init);
        let (vis0, pend0, emit0) = absorbed(visited, pending, init);
        let (v, p, e) = absorbed(visited, pending, nodes);
        let n = nodes.last();
        assert forall|x: Seq<char>| vis0.contains(x) implies v.contains(x) by {
            if !vis0.contains(n.id@) {
                let t = choose|t: int| 0 <= t < vis0.len() && vis0[t] == x;
                assert(v[t] == x);
            }
        }
        assert forall|x: Seq<char>| pend0.contains(x) implies p.contains(x) by {
            if !vis0.contains(n.id@) && n.has_link {
                let t = choose|t: int| 0 <= t < pend0.len() && pend0[t] == x;
                assert(p[t] == x);
            }
        }
        assert forall|j: int| 0 <= j < nodes.len() implies v.contains(#[trigger] nodes[j].id@) by {
            if j < init.len() {
                assert(init[j] == nodes[j]);
                assert(vis0.contains(init[j].id@));
            } else if !vis0.contains(n.id@) {
                assert(v[vis0.len() as int] == n.id@);
            }
        }
        assert forall|x: Seq<char>| v.contains(x) && !visited.contains(x) implies exists|j: int|
            0 <= j < nodes.len() && #[trigger] nodes[j].id@ == x && (nodes[j].has_link
                ==> p.contains(x)) by {
            if vis0.contains(x) {
                let j = choose|j: int|
                    0 <= j < init.len() && #[trigger] init[j].id@ == x && (init[j].has_link
                        ==> pend0.contains(x));
                assert(nodes[j] == init[j]);
            } else {
                let t = choose|t: int| 0 <= t < v.len() && v[t] == x;
                assert(!vis0.contains(n.id@));
                assert(t == vis0.len());
                assert(nodes[nodes.len() - 1].id@ == x);
                if n.has_link {
                    assert(p[pend0.len() as int] == x);
                }
            }
        }
    }
}

/// A crawl starts with the invariant: its seeds are visited and pending, and no
/// page has been taken in.
pub proof fn lemma_crawl_invariant_init(
    pages: Map<Seq<char>, Seq<CourseContentData>>,
    seeds: Seq<Seq<char>>,
)
    ensures
        crawl_invariant(pages, seeds.to_set(), seeds, seeds, Set::empty()),
{
}

/// Each round of a crawl keeps the invariant: after the batch `pending[n-k..]`
/// is taken and the nodes of its pages are taken in, the batch counts as done.
pub proof fn lemma_crawl_round_keeps_invariant(
    pages: Map<Seq<char>, Seq<CourseContentData>>,
    seeds: Set<Seq<char>>,
    visited: Seq<Seq<char>>,
    pending: Seq<Seq<char>>,
    done: Set<Seq<char>>,
    k: int,
)
    requires
        consistent_links(pages),
        crawl_invariant(pages, seeds, visited, pending, done),
        0 <= k <= pending.len(),
    ensures
        ({
            let n = pending.len() as int;
            let batch = pending.subrange(n - k, n);
            let (v, p, e) = absorbed(
                visited,
                pending.subrange(0, n - k),
                batch_nodes(pages, batch),
            );
            crawl_invariant(pages, seeds, v, p, done.union(batch.to_set()))
        }),
{
    let n = pending.len() as int;
    let batch = pending.subrange(n - k, n);
    let rest = pending.subrange(0, n - k);
    let nodes = batch_nodes(pages, batch);
    let (v, p, e) = absorbed(visited, rest, nodes);
    let done2 = done.union(batch.to_set());
    lemma_batch_nodes(pages, batch);
    lemma_absorbed_covers(visited, rest, nodes);
    assert forall|x: Seq<char>| pending.contains(x) implies done2.contains(x) || p.contains(x) by {
        let t = choose|t: int| 0 <= t < pending.len() && pending[t] == x;
        if t < n - k {
            assert(rest[t] == x);
        } else {
            assert(batch[t - (n - k)] == x);
            assert(batch.to_set().contains(x));
        }
    }
    assert forall|d: Seq<char>, i: int|
        done2.contains(d) && 0 <= i < page_of(pages, d).len() implies v.contains(
        #[trigger] page_of(pages, d)[i].id@,
    ) by {
        if done.contains(d) {
            assert(visited.contains(page_of(pages, d)[i].id@));
        } else {
            assert(batch.contains(d));
            let b = choose|b: int| 0 <= b < batch.len() && batch[b] == d;
            assert(nodes.contains(page_of(pages, batch[b])[i]));
            let j = choose|j: int| 0 <= j < nodes.len() && nodes[j] == page_of(pages, batch[b])[i];
            assert(v.contains(nodes[j].id@));
        }
    }
    assert forall|x: Seq<char>| v.contains(x) && linked(pages, x) implies done2.contains(x)
        || p.contains(x) by {
        if visited.contains(x) {
            assert(done.contains(x) || pending.contains(x));
        } else {
            let j = choose|j: int|
                0 <= j < nodes.len() && #[trigger] nodes[j].id@ == x && (nodes[j].has_link
                    ==> p.contains(x));
            assert(from_pages(pages, nodes[j]));
            let (d, i) = choose|d: Seq<char>, i: int|
                0 <= i < page_of(pages, d).len() && #[trigger] page_of(pages, d)[i] == nodes[j];
            assert(page_of(pages, d)[i].id@ == x);
            assert(nodes[j].has_link);
        }
    }
}

/// When nothing is pending, every id that a path from a seed reaches is visited:
/// together with the round lemma, a crawl that ends has visited every id
/// reachable from its seeds.
pub proof fn lemma_finished_crawl_is_complete(
    pages: Map<Seq<char>, Seq<CourseContentData>>,
    seeds: Set<Seq<char>>,
    visited: Seq<Seq<char>>,
    done: Set<Seq<char>>,
    path: Seq<Seq<char>>,
)
    requires
        crawl_invariant(pages, seeds, visited, Seq::empty(), done),
        reach_path(pages, seeds, path),
    ensures
        visited.contains(path.last()) || seeds.contains(path.last()),
    decreases path.len(),
{
    if path.len() > 1 {
        let init = path.drop_last();
        assert forall|i: int| 0 <= i < init.len() - 1 implies #[trigger] on_page(
            pages,
            init[i],
            init[i + 1],
        ) by {
            assert(init[i] == path[i] && init[i + 1] == path[i + 1]);
            assert(on_page(pages, path[i], path[i + 1]));
        }
        assert forall|i: int| 1 <= i < init.len() - 1 implies linked(pages, #[trigger] init[i]) by {
            assert(init[i] == path[i]);
        }
        lemma_finished_crawl_is_complete(pages, seeds, visited, done, init);
        let y = path[path.len() - 2];
        assert(init.last() == y);
        let empty = Seq::<Seq<char>>::empty();
        if path.len() == 2 {
            assert(seeds.contains(y));
            assert(done.contains(y) || empty.contains(y));
        } else {
            assert(linked(pages, path[path.len() - 2]));
            if visited.contains(y) {
                assert(done.contains(y) || empty.contains(y));
            } else {
                assert(done.contains(y) || empty.contains(y));
            }
        }
        assert(done.contains(y));
        let m = path.len() - 2;
        assert(on_page(pages, path[m], path[m + 1]));
        assert(path[m + 1] == path.last());
        let j = choose|j: int|
            0 <= j < page_of(pages, y).len() && #[trigger] page_of(pages, y)[j].id@ == path.last();
        assert(visited.contains(page_of(pages, y)[j].id@));
    }
}

/// Some path from a seed ends at `x`.
pub open spec fn reaches(
    pages: Map<Seq<char>, Seq<CourseContentData>>,
    seeds: Set<Seq<char>>,
    x: Seq<char>,
) -> bool {
    exists|path: Seq<Seq<char>>| #[trigger] reach_path(pages, seeds, path) && path.last() == x
}

/// Some path from a seed ends at `x`, and `x` is a seed or links to a listing
/// page, so that the path goes on through the page of `x`.
pub open spec fn expandable(
    pages: Map<Seq<char>, Seq<CourseContentData>>,
    seeds: Set<Seq<char>>,
    x: Seq<char>,
) -> bool {
    exists|path: Seq<Seq<char>>|
        #[trigger] reach_path(pages, seeds, path) && path.last() == x && (path.len() == 1 || linked(
            pages,
            x,
        ))
}

/// Every visited id is reachable from a seed, and every pending one is reachable
/// and links to a listing page (or is a seed).
pub open spec fn crawl_sound(
    pages: Map<Seq<char>, Seq<CourseContentData>>,
    seeds: Set<Seq<char>>,
    visited: Seq<Seq<char>>,
    pending: Seq<Seq<char>>,
) -> bool {
    &&& forall|x: Seq<char>| visited.contains(x) ==> #[trigger] reaches(pages, seeds, x)
    &&& forall|x: Seq<char>| pending.contains(x) ==> #[trigger] expandable(pages, seeds, x)
}

/// A node of `nodes` with id `x` links to a listing page.
pub open spec fn has_linked_node(nodes: Seq<CourseContentData>, x: Seq<char>) -> bool {
    exists|j: int| 0 <= j < nodes.len() && #[trigger] nodes[j].id@ == x && nodes[j].has_link
}

proof fn lemma_absorbed_pushes_linked(
    visited: Seq<Seq<char>>,
    pending: Seq<Seq<char>>,
    nodes: Seq<CourseContentData>,
)
    ensures
        ({
            let (v, p, e) = absorbed(visited, pending, nodes);
            &&& forall|x: Seq<char>|
                p.contains(x) ==> pending.contains(x) || #[trigger] has_linked_node(nodes, x)
        }),
    decreases nodes.len(),
{
    if nodes.len() > 0 {
        let init = nodes.drop_last();
        lemma_absorbed_pushes_linked(visited, pending, init);
        let (vis0, pend0, emit0) = absorbed(visited, pending, init);
        let (v, p, e) = absorbed(visited, pending, nodes);
        let n = nodes.last();
        assert forall|x: Seq<char>| p.contains(x) implies pending.contains(x) || #[trigger] has_linked_node(
            nodes,
            x,
        ) by {
            let t = choose|t: int| 0 <= t < p.len() && p[t] == x;
            if t < pend0.len() {
                assert(pend0[t] == x);
                assert(pend0.contains(x));
                if has_linked_node(init, x) {
                    let j = choose|j: int| 0 <= j < init.len() && #[trigger] init[j].id@ == x && init[j].has_link;
                    assert(nodes[j] == init[j]);
                }
            } else {
                assert(nodes[nodes.len() - 1].id@ == x && n.has_link);
            }
        }
    }
}

proof fn lemma_batch_nodes_from_batch(
    pages: Map<Seq<char>, Seq<CourseContentData>>,
    batch: Seq<Seq<char>>,
    k: int,
)
    requires
        0 <= k < batch_nodes(pages, batch).len(),
    ensures
        exists|b: int, i: int|
            0 <= b < batch.len() && 0 <= i < page_of(pages, batch[b]).len() && #[trigger] page_of(
                pages,
                batch[b],
            )[i] == batch_nodes(pages, batch)[k],
    decreases batch.len(),
{
    let init = batch.drop_last();
    let front = batch_nodes(pages, init);
    let all = batch_nodes(pages, batch);
    if k < front.len() {
        lemma_batch_nodes_from_batch(pages, init, k);
        let (b, i) = choose|b: int, i: int|
            0 <= b < init.len() && 0 <= i < page_of(pages, init[b]).len() && #[trigger] page_of(
                pages,
                init[b],
            )[i] == front[k];
        assert(batch[b] == init[b]);
        assert(all[k] == front[k]);
    } else {
        let b = batch.len() - 1;
        let i = k - front.len();
        assert(all[k] == page_of(pages, batch[b])[i]);
    }
}

proof fn lemma_extend_path(
    pages: Map<Seq<char>, Seq<CourseContentData>>,
    seeds: Set<Seq<char>>,
    path: Seq<Seq<char>>,
    y: Seq<char>,
)
    requires
        reach_path(pages, seeds, path),
        path.len() == 1 || linked(pages, path.last()),
        on_page(pages, path.last(), y),
    ensures
        reach_path(pages, seeds, path.push(y)),
        path.push(y).last() == y,
{
    let q = path.push(y);
    assert forall|i: int| 0 <= i < q.len() - 1 implies #[trigger] on_page(pages, q[i], q[i + 1]) by {
        if i < path.len() - 1 {
            assert(q[i] == path[i] && q[i + 1] == path[i + 1]);
            assert(on_page(pages, path[i], path[i + 1]));
        } else {
            assert(q[i] == path.last() && q[i + 1] == y);
        }
    }
    assert forall|i: int| 1 <= i < q.len() - 1 implies linked(pages, #[trigger] q[i]) by {
        assert(q[i] == path[i]);
        if i < path.len() - 1 {
            assert(linked(pages, path[i]));
        }
    }
}

/// A crawl starts sound: its seeds are all it has visited.
pub proof fn lemma_crawl_sound_init(
    pages: Map<Seq<char>, Seq<CourseContentData>>,
    seeds: Seq<Seq<char>>,
)
    ensures
        crawl_sound(pages, seeds.to_set(), seeds, seeds),
{
    assert forall|x: Seq<char>| seeds.contains(x) implies #[trigger] expandable(
        pages,
        seeds.to_set(),
        x,
    ) by {
        let path = seq![x];
        assert(seeds.to_set().contains(x));
        assert(path[0] == x && path.last() == x);
        assert(reach_path(pages, seeds.to_set(), path));
    }
    assert forall|x: Seq<char>| seeds.contains(x) implies #[trigger] reaches(
        pages,
        seeds.to_set(),
        x,
    ) by {
        let path = seq![x];
        assert(seeds.to_set().contains(x));
        assert(path[0] == x && path.last() == x);
        assert(reach_path(pages, seeds.to_set(), path));
    }
}

/// Each round of a crawl stays sound: whatever it visits or queues is reachable
/// from the seeds. With the completeness lemmas, a crawl that ends has visited
/// exactly the seeds and the ids reachable from them.
pub proof fn lemma_crawl_round_keeps_sound(
    pages: Map<Seq<char>, Seq<CourseContentData>>,
    seeds: Set<Seq<char>>,
    visited: Seq<Seq<char>>,
    pending: Seq<Seq<char>>,
    k: int,
)
    requires
        consistent_links(pages),
        crawl_sound(pages, seeds, visited, pending),
        0 <= k <= pending.len(),
    ensures
        ({
            let n = pending.len() as int;
            let batch = pending.subrange(n - k, n);
            let (v, p, e) = absorbed(
                visited,
                pending.subrange(0, n - k),
                batch_nodes(pages, batch),
            );
            &&& crawl_sound(pages, seeds, v, p)
            &&& forall|j: int|
                0 <= j < batch_nodes(pages, batch).len() ==> reaches(
                    pages,
                    seeds,
                    #[trigger] batch_nodes(pages, batch)[j].id@,
                )
        }),
{
    let n = pending.len() as int;
    let batch = pending.subrange(n - k, n);
    let rest = pending.subrange(0, n - k);
    let nodes = batch_nodes(pages, batch);
    let (v, p, e) = absorbed(visited, rest, nodes);
    lemma_absorbed_covers(visited, rest, nodes);
    lemma_absorbed_pushes_linked(visited, rest, nodes);
    // a node of the batch extends a path to the page it is on
    assert forall|j: int| 0 <= j < nodes.len() implies #[trigger] expandable(
        pages,
        seeds,
        nodes[j].id@,
    ) || (reaches(pages, seeds, nodes[j].id@) && !nodes[j].has_link) by {
        lemma_batch_nodes_from_batch(pages, batch, j);
        let (b, i) = choose|b: int, i: int|
            0 <= b < batch.len() && 0 <= i < page_of(pages, batch[b]).len() && #[trigger] page_of(
                pages,
                batch[b],
            )[i] == nodes[j];
        let d = batch[b];
        assert(pending.contains(d)) by {
            assert(pending[n - k + b] == d);
        }
        assert(expandable(pages, seeds, d));
        let path = choose|path: Seq<Seq<char>>|
            #[trigger] reach_path(pages, seeds, path) && path.last() == d && (path.len() == 1
                || linked(pages, d));
        assert(on_page(pages, d, nodes[j].id@));
        lemma_extend_path(pages, seeds, path, nodes[j].id@);
        let q = path.push(nodes[j].id@);
        assert(reaches(pages, seeds, nodes[j].id@));
        if nodes[j].has_link {
            assert(linked(pages, nodes[j].id@)) by {
                assert(page_of(pages, d)[i].id@ == nodes[j].id@);
            }
            assert(reach_path(pages, seeds, q) && q.last() == nodes[j].id@ && (q.len() == 1
                || linked(pages, nodes[j].id@)));
        }
    }
    assert forall|j: int| 0 <= j < nodes.len() implies reaches(
        pages,
        seeds,
        #[trigger] nodes[j].id@,
    ) by {
        if expandable(pages, seeds, nodes[j].id@) {
            let path = choose|path: Seq<Seq<char>>|
                #[trigger] reach_path(pages, seeds, path) && path.last() == nodes[j].id@ && (
                path.len() == 1 || linked(pages, nodes[j].id@));
        }
    }
    assert forall|x: Seq<char>| v.contains(x) implies #[trigger] reaches(pages, seeds, x) by {
        if !visited.contains(x) {
            let j = choose|j: int|
                0 <= j < nodes.len() && #[trigger] nodes[j].id@ == x && (nodes[j].has_link
                    ==> p.contains(x));
            if expandable(pages, seeds, nodes[j].id@) {
                let path = choose|path: Seq<Seq<char>>|
                    #[trigger] reach_path(pages, seeds, path) && path.last() == nodes[j].id@ && (
                    path.len() == 1 || linked(pages, nodes[j].id@));
            }
        }
    }
    assert forall|x: Seq<char>| p.contains(x) implies #[trigger] expandable(pages, seeds, x) by {
        if rest.contains(x) {
            let t = choose|t: int| 0 <= t < rest.len() && rest[t] == x;
            assert(pending[t] == x);
        } else {
            assert(has_linked_node(nodes, x));
            let j = choose|j: int| 0 <= j < nodes.len() && #[trigger] nodes[j].id@ == x && nodes[j].has_link;
        }
    }
}

/// One call of `next_batch` on a stream whose page fetches all succeed: the
/// batch that `take_batch` takes from `pending`, then `absorb` of the nodes of
/// its pages, page after page. Gives the new visited and pending ids and the
/// emitted nodes.
pub open spec fn crawl_round(
    pages: Map<Seq<char>, Seq<CourseContentData>>,
    visited: Seq<Seq<char>>,
    pending: Seq<Seq<char>>,
) -> (Seq<Seq<char>>, Seq<Seq<char>>, Seq<CourseContentData>) {
    let n = pending.len() as int;
    let k = if n > BATCH_SIZE {
        BATCH_SIZE as int
    } else {
        n
    };
    absorbed(visited, pending.subrange(0, n - k), batch_nodes(pages, pending.subrange(n - k, n)))
}

/// The state after `calls` calls of `next_batch`, and every node they emitted,
/// in order. Once nothing is pending a call returns `None` and changes nothing.
pub open spec fn crawl_after(
    pages: Map<Seq<char>, Seq<CourseContentData>>,
    visited: Seq<Seq<char>>,
    pending: Seq<Seq<char>>,
    calls: nat,
) -> (Seq<Seq<char>>, Seq<Seq<char>>, Seq<CourseContentData>)
    decreases calls,
{
    if calls == 0 || pending.len() == 0 {
        (visited, pending, Seq::empty())
    } else {
        let (v, p, e) = crawl_round(pages, visited, pending);
        let (v2, p2, e2) = crawl_after(pages, v, p, (calls - 1) as nat);
        (v2, p2, e + e2)
    }
}

/// Every node id that any page reveals lies in `universe`.
pub open spec fn covers(universe: Set<Seq<char>>, pages: Map<Seq<char>, Seq<CourseContentData>>) -> bool {
    forall|d: Seq<char>, i: int|
        0 <= i < page_of(pages, d).len() ==> universe.contains(#[trigger] page_of(pages, d)[i].id@)
}

proof fn lemma_after_measure(
    pages: Map<Seq<char>, Seq<CourseContentData>>,
    visited: Seq<Seq<char>>,
    pending: Seq<Seq<char>>,
    calls: nat,
    universe: Set<Seq<char>>,
)
    requires
        visited.no_duplicates(),
        universe.finite(),
        visited.to_set().subset_of(universe),
        covers(universe, pages),
    ensures
        ({
            let (v, p, e) = crawl_after(pages, visited, pending, calls);
            &&& v.len() <= universe.len()
            &&& p.len() == 0 || (universe.len() - v.len()) + p.len() + calls <= (universe.len()
                - visited.len()) + pending.len()
        }),
    decreases calls,
{
    visited.unique_seq_to_set();
    vstd::set_lib::lemma_len_subset(visited.to_set(), universe);
    if calls > 0 && pending.len() > 0 {
        let n = pending.len() as int;
        let k = if n > BATCH_SIZE {
            BATCH_SIZE as int
        } else {
            n
        };
        let nodes = batch_nodes(pages, pending.subrange(n - k, n));
        lemma_batch_nodes(pages, pending.subrange(n - k, n));
        assert forall|j: int| 0 <= j < nodes.len() implies universe.contains(#[trigger] nodes[j].id@) by {
            assert(from_pages(pages, nodes[j]));
            let (d, i) = choose|d: Seq<char>, i: int|
                0 <= i < page_of(pages, d).len() && #[trigger] page_of(pages, d)[i] == nodes[j];
            assert(universe.contains(page_of(pages, d)[i].id@));
        }
        lemma_crawl_round_decreases(visited, pending, k, nodes, universe);
        let (v, p, e) = crawl_round(pages, visited, pending);
        lemma_after_measure(pages, v, p, (calls - 1) as nat, universe);
    }
}

/// A crawl comes to an end: where every id that can turn up lies in the finite
/// set `U`, at most `|U|` calls of `next_batch` return `Some` (each takes at
/// least one pending id, and an id is queued at most once); after them nothing
/// is pending, so every further call returns `None` and changes nothing.
pub proof fn lemma_crawl_terminates(
    pages: Map<Seq<char>, Seq<CourseContentData>>,
    seeds: Seq<Seq<char>>,
    universe: Set<Seq<char>>,
)
    requires
        seeds.no_duplicates(),
        universe.finite(),
        seeds.to_set().subset_of(universe),
        covers(universe, pages),
    ensures
        crawl_after(pages, seeds, seeds, universe.len()).1.len() == 0,
{
    lemma_after_measure(pages, seeds, seeds, universe.len(), universe);
}

proof fn lemma_after_measure_reachable(
    pages: Map<Seq<char>, Seq<CourseContentData>>,
    seeds: Set<Seq<char>>,
    visited: Seq<Seq<char>>,
    pending: Seq<Seq<char>>,
    calls: nat,
    universe: Set<Seq<char>>,
)
    requires
        consistent_links(pages),
        crawl_sound(pages, seeds, visited, pending),
        visited.no_duplicates(),
        universe.finite(),
        visited.to_set().subset_of(universe),
        forall|x: Seq<char>| #[trigger] reaches(pages, seeds, x) ==> universe.contains(x),
    ensures
        ({
            let (v, p, e) = crawl_after(pages, visited, pending, calls);
            &&& v.len() <= universe.len()
            &&& p.len() == 0 || (universe.len() - v.len()) + p.len() + calls <= (universe.len()
                - visited.len()) + pending.len()
        }),
    decreases calls,
{
    visited.unique_seq_to_set();
    vstd::set_lib::lemma_len_subset(visited.to_set(), universe);
    if calls > 0 && pending.len() > 0 {
        let n = pending.len() as int;
        let k = if n > BATCH_SIZE {
            BATCH_SIZE as int
        } else {
            n
        };
        let nodes = batch_nodes(pages, pending.subrange(n - k, n));
        lemma_crawl_round_keeps_sound(pages, seeds, visited, pending, k);
        assert forall|j: int| 0 <= j < nodes.len() implies universe.contains(#[trigger] nodes[j].id@) by {
            assert(reaches(pages, seeds, nodes[j].id@));
        }
        lemma_crawl_round_decreases(visited, pending, k, nodes, universe);
        let (v, p, e) = crawl_round(pages, visited, pending);
        lemma_after_measure_reachable(pages, seeds, v, p, (calls - 1) as nat, universe);
    }
}

/// The same bound in terms of reachability: where every id reachable from the
/// seeds (the seeds included) lies in the finite set `U`, for instance `U` =
/// the seeds and the ids reachable from them, at most `|U|` calls of
/// `next_batch` return `Some`; after them nothing is pending.
pub proof fn lemma_crawl_terminates_within_reachable(
    pages: Map<Seq<char>, Seq<CourseContentData>>,
    seeds: Seq<Seq<char>>,
    universe: Set<Seq<char>>,
)
    requires
        seeds.no_duplicates(),
        consistent_links(pages),
        universe.finite(),
        forall|x: Seq<char>| #[trigger] reaches(pages, seeds.to_set(), x) ==> universe.contains(x),
    ensures
        crawl_after(pages, seeds, seeds, universe.len()).1.len() == 0,
{
    lemma_crawl_sound_init(pages, seeds);
    assert(seeds.to_set().subset_of(universe)) by {
        assert forall|x: Seq<char>| seeds.to_set().contains(x) implies universe.contains(x) by {
            assert(seeds.contains(x));
            assert(reaches(pages, seeds.to_set(), x));
        }
    }
    lemma_after_measure_reachable(pages, seeds.to_set(), seeds, seeds, universe.len(), universe);
}

proof fn lemma_after_extends(
    pages: Map<Seq<char>, Seq<CourseContentData>>,
    visited: Seq<Seq<char>>,
    pending: Seq<Seq<char>>,
    calls: nat,
)
    requires
        visited.no_duplicates(),
    ensures
        ({
            let (v, p, e) = crawl_after(pages, visited, pending, calls);
            v == visited + node_ids(e) && v.no_duplicates()
        }),
    decreases calls,
{
    if calls > 0 && pending.len() > 0 {
        let n = pending.len() as int;
        let k = if n > BATCH_SIZE {
            BATCH_SIZE as int
        } else {
            n
        };
        lemma_absorbed(visited, pending.subrange(0, n - k), batch_nodes(pages, pending.subrange(n - k, n)));
        let (v, p, e) = crawl_round(pages, visited, pending);
        lemma_after_extends(pages, v, p, (calls - 1) as nat);
        let (v2, p2, e2) = crawl_after(pages, v, p, (calls - 1) as nat);
        assert(node_ids(e + e2) =~= node_ids(e) + node_ids(e2));
        assert(v2 =~= visited + node_ids(e + e2));
    } else {
        assert(visited + node_ids(Seq::empty()) =~= visited);
    }
}

/// Over any number of `next_batch` calls of one crawl, no id is emitted twice
/// and no seed is emitted: the ids visited are the seeds followed by the ids
/// of all emitted nodes, each once.
pub proof fn lemma_crawl_emits_each_id_once(
    pages: Map<Seq<char>, Seq<CourseContentData>>,
    seeds: Seq<Seq<char>>,
    calls: nat,
)
    requires
        seeds.no_duplicates(),
    ensures
        ({
            let (v, p, e) = crawl_after(pages, seeds, seeds, calls);
            &&& v == seeds + node_ids(e)
            &&& node_ids(e).no_duplicates()
            &&& forall|j: int| 0 <= j < e.len() ==> !seeds.contains(#[trigger] e[j].id@)
        }),
{
    lemma_after_extends(pages, seeds, seeds, calls);
    let (v, p, e) = crawl_after(pages, seeds, seeds, calls);
    assert forall|a: int, b: int| 0 <= a < e.len() && 0 <= b < e.len() && a != b implies node_ids(
        e,
    )[a] != node_ids(e)[b] by {
        assert(v[seeds.len() + a] == node_ids(e)[a]);
        assert(v[seeds.len() + b] == node_ids(e)[b]);
    }
    assert forall|j: int| 0 <= j < e.len() implies !seeds.contains(#[trigger] e[j].id@) by {
        assert(v[seeds.len() + j] == e[j].id@);
        if seeds.contains(e[j].id@) {
            let t = choose|t: int| 0 <= t < seeds.len() && seeds[t] == e[j].id@;
            assert(v[t] == e[j].id@);
        }
    }
}

proof fn lemma_after_keeps_invariants(
    pages: Map<Seq<char>, Seq<CourseContentData>>,
    seeds: Set<Seq<char>>,
    visited: Seq<Seq<char>>,
    pending: Seq<Seq<char>>,
    done: Set<Seq<char>>,
    calls: nat,
)
    requires
        consistent_links(pages),
        crawl_invariant(pages, seeds, visited, pending, done),
        crawl_sound(pages, seeds, visited, pending),
    ensures
        ({
            let (v, p, e) = crawl_after(pages, visited, pending, calls);
            &&& exists|d: Set<Seq<char>>| #[trigger] crawl_invariant(pages, seeds, v, p, d)
            &&& crawl_sound(pages, seeds, v, p)
        }),
    decreases calls,
{
    if calls > 0 && pending.len() > 0 {
        let n = pending.len() as int;
        let k = if n > BATCH_SIZE {
            BATCH_SIZE as int
        } else {
            n
        };
        lemma_crawl_round_keeps_invariant(pages, seeds, visited, pending, done, k);
        lemma_crawl_round_keeps_sound(pages, seeds, visited, pending, k);
        let (v, p, e) = crawl_round(pages, visited, pending);
        let done2 = done.union(pending.subrange(n - k, n).to_set());
        assert(crawl_invariant(pages, seeds, v, p, done2));
        lemma_after_keeps_invariants(pages, seeds, v, p, done2, (calls - 1) as nat);
        let (v2, p2, e2) = crawl_after(pages, v, p, (calls - 1) as nat);
        assert(crawl_after(pages, visited, pending, calls).0 == v2);
        assert(crawl_after(pages, visited, pending, calls).1 == p2);
        let d2 = choose|d2: Set<Seq<char>>| #[trigger] crawl_invariant(pages, seeds, v2, p2, d2);
        assert(crawl_invariant(pages, seeds, v2, p2, d2));
    } else {
        assert(crawl_after(pages, visited, pending, calls).0 == visited);
        assert(crawl_after(pages, visited, pending, calls).1 == pending);
        assert(crawl_invariant(pages, seeds, visited, pending, done));
    }
}

/// A crawl that has ended, with no page fetch failing, has emitted exactly the
/// ids reachable from its seeds, the seeds themselves excepted: an id is
/// emitted if and only if a path from a seed reaches it and it is no seed.
/// (Nodes that share an id must agree on whether they link to a listing page.)
pub proof fn lemma_finished_crawl_emits_reachable(
    pages: Map<Seq<char>, Seq<CourseContentData>>,
    seeds: Seq<Seq<char>>,
    calls: nat,
    x: Seq<char>,
)
    requires
        seeds.no_duplicates(),
        consistent_links(pages),
        crawl_after(pages, seeds, seeds, calls).1.len() == 0,
    ensures
        node_ids(crawl_after(pages, seeds, seeds, calls).2).contains(x) <==> (reaches(
            pages,
            seeds.to_set(),
            x,
        ) && !seeds.contains(x)),
{
    let sset = seeds.to_set();
    lemma_crawl_invariant_init(pages, seeds);
    lemma_crawl_sound_init(pages, seeds);
    lemma_after_keeps_invariants(pages, sset, seeds, seeds, Set::empty(), calls);
    lemma_crawl_emits_each_id_once(pages, seeds, calls);
    let (v, p, e) = crawl_after(pages, seeds, seeds, calls);
    let d = choose|d: Set<Seq<char>>| #[trigger] crawl_invariant(pages, sset, v, p, d);
    assert(p =~= Seq::<Seq<char>>::empty());
    if node_ids(e).contains(x) {
        let j = choose|j: int| 0 <= j < node_ids(e).len() && node_ids(e)[j] == x;
        assert(v[seeds.len() + j] == x);
        assert(v.contains(x));
        assert(e[j].id@ == x);
    }
    if reaches(pages, sset, x) && !seeds.contains(x) {
        let path = choose|path: Seq<Seq<char>>| #[trigger] reach_path(pages, sset, path) && path.last() == x;
        lemma_finished_crawl_is_complete(pages, sset, v, d, path);
        assert(!sset.contains(x));
        assert(v.contains(x));
        let t = choose|t: int| 0 <= t < v.len() && v[t] == x;
        if t < seeds.len() {
            assert(seeds[t] == x);
        } else {
            assert(node_ids(e)[t - seeds.len()] == x);
        }
    }
}

/// Whether `v` holds a string equal to `s`.
fn contains_str(v: &Vec<String>, s: &str) -> (r: bool)
    ensures
        r == ids_of(v@).contains(s@),
{
    let mut i: usize = 0;
    while i < v.len()
        invariant
            i <= v@.len(),
            forall|j: int| 0 <= j < i ==> v@[j]@ != s@,
        decreases v@.len() - i,
    {
        if str_eq(v[i].as_str(), s) {
            assert(ids_of(v@)[i as int] == s@);
            return true;
        }
        i += 1;
    }
    assert forall|j: int| 0 <= j < ids_of(v@).len() implies ids_of(v@)[j] != s@ by {}
    false
}

/// A crawl of a course's content tree, batch by batch.
pub struct CourseContentStream {
    batch_size: usize,
    course_id: String,
    visited_ids: Vec<String>,
    probe_ids: Vec<String>,
}

impl CourseContentStream {
    /// The ids ever seen, seeds included, in the order they were first seen.
    pub closed spec fn visited(&self) -> Seq<Seq<char>> {
        ids_of(self.visited_ids@)
    }

    /// The ids of listing pages still to be probed; the next batch is taken from the end.
    pub closed spec fn pending(&self) -> Seq<Seq<char>> {
        ids_of(self.probe_ids@)
    }

    pub closed spec fn batch(&self) -> nat {
        self.batch_size as nat
    }

    pub closed spec fn course(&self) -> Seq<char> {
        self.course_id@
    }

    /// Each id is visited once and pending at most once, and every pending id is visited.
    pub open spec fn wf(&self) -> bool {
        &&& self.visited().no_duplicates()
        &&& self.pending().no_duplicates()
        &&& forall|i: int| 0 <= i < self.pending().len() ==> self.visited().contains(
            #[trigger] self.pending()[i],
        )
        &&& self.batch() == BATCH_SIZE
    }

    /// Starts a crawl of course `course_id` from the listing pages `probe_ids`;
    /// repeated ids are taken once.
    pub fn new(course_id: String, probe_ids: Vec<String>) -> (r: CourseContentStream)
        ensures
            r.wf(),
            r.course() == course_id@,
            r.visited().to_set() == ids_of(probe_ids@).to_set(),
            r.pending() == r.visited(),
    {
        let mut visited_ids: Vec<String> = Vec::new();
        let mut probe_copy: Vec<String> = Vec::new();
        let mut rest = probe_ids;
        let ghost all = probe_ids@;
        let ghost mut k: int = 0;
        while rest.len() > 0
            invariant
                0 <= k <= all.len(),
                rest@ == all.subrange(k, all.len() as int),
                ids_of(visited_ids@) == ids_of(probe_copy@),
                ids_of(visited_ids@).no_duplicates(),
                ids_of(visited_ids@).to_set() == ids_of(all.subrange(0, k)).to_set(),
            decreases rest@.len(),
        {
            let id = rest.remove(0);
            proof {
                assert(all.subrange(0, k + 1) == all.subrange(0, k).push(id));
                assert(ids_of(all.subrange(0, k + 1)) == ids_of(all.subrange(0, k)).push(id@));
                ids_of(all.subrange(0, k)).lemma_push_to_set_commute(id@);
                k = k + 1;
                assert(rest@ == all.subrange(k, all.len() as int));
            }
            if !contains_str(&visited_ids, id.as_str()) {
                let copy = id.clone();
                let ghost old_ids = ids_of(visited_ids@);
                proof {
                    old_ids.lemma_push_to_set_commute(id@);
                }
                visited_ids.push(id);
                probe_copy.push(copy);
                assert(ids_of(visited_ids@) =~= old_ids.push(id@));
                assert(ids_of(probe_copy@) =~= old_ids.push(id@));
            } else {
                assert(ids_of(visited_ids@).to_set().insert(id@) == ids_of(visited_ids@).to_set());
            }
        }
        assert(all.subrange(0, k) == all);
        CourseContentStream { batch_size: BATCH_SIZE, course_id, visited_ids, probe_ids: probe_copy }
    }

    /// Takes the next batch of listing pages to probe: up to `BATCH_SIZE` ids
    /// from the end of the pending ids, or `None` where none is pending. The
    /// ids taken stay visited.
    pub fn take_batch(&mut self) -> (r: Option<Vec<String>>)
        requires
            old(self).wf(),
        ensures
            final(self).wf(),
            final(self).visited() == old(self).visited(),
            final(self).course() == old(self).course(),
            old(self).pending().len() == 0 ==> r is None && final(self).pending() == old(
                self,
            ).pending(),
            old(self).pending().len() > 0 ==> (r matches Some(b) && {
                let n = old(self).pending().len() as int;
                let k = if n > BATCH_SIZE {
                    BATCH_SIZE as int
                } else {
                    n
                };
                &&& ids_of(b@) == old(self).pending().subrange(n - k, n)
                &&& final(self).pending() == old(self).pending().subrange(0, n - k)
            }),
    {
        let n = self.probe_ids.len();
        if n == 0 {
            return None;
        }
        let at: usize = if n > self.batch_size {
            n - self.batch_size
        } else {
            0
        };
        let ghost before = self.pending();
        let ids = self.probe_ids.split_off(at);
        assert(self.pending() =~= before.subrange(0, at as int));
        assert(ids_of(ids@) =~= before.subrange(at as int, n as int));
        assert forall|i: int| 0 <= i < self.pending().len() implies self.visited().contains(
            #[trigger] self.pending()[i],
        ) by {
            assert(self.pending()[i] == before[i]);
        }
        Some(ids)
    }

    /// Takes in the content nodes that the pages of a batch revealed, in page
    /// order: each node whose id was not yet visited is marked visited and
    /// returned, and queued for probing where it links to a listing page of its
    /// own. The result may be empty.
    pub fn absorb(&mut self, contents: Vec<CourseContentData>) -> (r: Vec<CourseContentData>)
        requires
            old(self).wf(),
        ensures
            final(self).wf(),
            final(self).course() == old(self).course(),
            (final(self).visited(), final(self).pending(), r@) == absorbed(
                old(self).visited(),
                old(self).pending(),
                contents@,
            ),
    {
        let ghost all = contents@;
        let ghost vis0 = self.visited();
        let ghost pend0 = self.pending();
        let mut out: Vec<CourseContentData> = Vec::new();
        let mut rest = contents;
        let ghost mut k: int = 0;
        while rest.len() > 0
            invariant
                self.wf(),
                self.course() == old(self).course(),
                0 <= k <= all.len(),
                rest@ == all.subrange(k, all.len() as int),
                (self.visited(), self.pending(), out@) == absorbed(vis0, pend0, all.subrange(0, k)),
            decreases rest@.len(),
        {
            let node = rest.remove(0);
            proof {
                assert(all.subrange(0, k + 1).drop_last() == all.subrange(0, k));
                assert(all.subrange(0, k + 1).last() == node);
                k = k + 1;
                assert(rest@ == all.subrange(k, all.len() as int));
            }
            if !contains_str(&self.visited_ids, node.id.as_str()) {
                let ghost vis = self.visited();
                let ghost pen = self.pending();
                let id_copy = node.id.clone();
                self.visited_ids.push(id_copy);
                assert(self.visited() =~= vis.push(node.id@));
                if node.has_link {
                    let probe = node.id.clone();
                    self.probe_ids.push(probe);
                    assert(self.pending() =~= pen.push(node.id@));
                }
                assert forall|i: int| 0 <= i < self.pending().len() implies self.visited().contains(
                    #[trigger] self.pending()[i],
                ) by {
                    if i < pen.len() {
                        assert(self.pending()[i] == pen[i]);
                        assert(vis.contains(pen[i]));
                        let j = choose|j: int| 0 <= j < vis.len() && vis[j] == pen[i];
                        assert(self.visited()[j] == pen[i]);
                    } else {
                        assert(self.visited()[vis.len() as int] == node.id@);
                    }
                }
                out.push(node);
            }
        }
        assert(all.subrange(0, k) == all);
        out
    }

    /// The number of listing pages probed or being probed.
    pub fn num_finished(&self) -> (r: usize)
        requires
            self.wf(),
        ensures
            r == self.visited().len() - self.pending().len(),
    {
        proof {
            self.visited().unique_seq_to_set();
            self.pending().unique_seq_to_set();
            assert(self.pending().to_set().subset_of(self.visited().to_set()));
            vstd::set_lib::lemma_len_subset(self.pending().to_set(), self.visited().to_set());
        }
        self.visited_ids.len() - self.probe_ids.len()
    }

    /// The number of ids seen so far, seeds included.
    pub fn len(&self) -> (r: usize)
        ensures
            r == self.visited().len(),
    {
        self.visited_ids.len()
    }

    /// The cache name under which a whole crawl of this course is kept.
    pub fn cache_name(&self) -> (r: String)
        ensures
            r@ == "get_course_contents_"@ + self.course(),
    {
        crate::text::concat("get_course_contents_", self.course_id.as_str())
    }

    pub fn course_id(&self) -> (r: &str)
        ensures
            r@ == self.course(),
    {
        self.course_id.as_str()
    }
}

} // verus!
