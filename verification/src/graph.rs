//! The shared directed graph of discovered pages: one node per URI with
//! its crawl record, and deduplicated outgoing/incoming link sets with a
//! reverse index kept in step.

use vstd::prelude::*;
use crate::page_node::{fresh_node, NodeStatus, PageNode, PageNodeView};
use crate::uri::{uri_views, Uri, UriView};

verus! {

/// The node table as a map from URI to crawl record.
pub open spec fn node_entries_map(s: Seq<(Uri, PageNode)>) -> Map<UriView, PageNodeView>
    decreases s.len(),
{
    if s.len() == 0 {
        Map::<UriView, PageNodeView>::empty()
    } else {
        node_entries_map(s.drop_last()).insert(s.last().0@, s.last().1@)
    }
}

/// The URIs of a sequence, as a set.
pub open spec fn uri_set(v: Seq<Uri>) -> Set<UriView> {
    uri_views(v).to_set()
}

/// A link table as a map from URI to the set of URIs it is linked with.
pub open spec fn link_entries_map(s: Seq<(Uri, Vec<Uri>)>) -> Map<UriView, Set<UriView>>
    decreases s.len(),
{
    if s.len() == 0 {
        Map::<UriView, Set<UriView>>::empty()
    } else {
        link_entries_map(s.drop_last()).insert(s.last().0@, uri_set(s.last().1@))
    }
}

pub open spec fn distinct_node_keys(s: Seq<(Uri, PageNode)>) -> bool {
    forall|i: int, j: int| 0 <= i < j < s.len() ==> s[i].0@ != s[j].0@
}

pub open spec fn distinct_link_keys(s: Seq<(Uri, Vec<Uri>)>) -> bool {
    forall|i: int, j: int| 0 <= i < j < s.len() ==> s[i].0@ != s[j].0@
}

pub open spec fn distinct_uris(v: Seq<Uri>) -> bool {
    forall|i: int, j: int| 0 <= i < j < v.len() ==> v[i]@ != v[j]@
}

/// A link map after one edge end is recorded: the other end is added to
/// the key's set, which starts empty when the key is new.
pub open spec fn set_after_add(m: Map<UriView, Set<UriView>>, k: UriView, v: UriView) -> Map<
    UriView,
    Set<UriView>,
> {
    m.insert(
        k,
        (if m.contains_key(k) {
            m[k]
        } else {
            Set::<UriView>::empty()
        }).insert(v),
    )
}

/// Does the link map record `v` under `k`?
pub open spec fn has_link(m: Map<UriView, Set<UriView>>, k: UriView, v: UriView) -> bool {
    m.contains_key(k) && m[k].contains(v)
}

/// Recording the same edge end twice is the same as recording it once.
pub proof fn lemma_edge_set_dedup(m: Map<UriView, Set<UriView>>, k: UriView, v: UriView)
    ensures
        set_after_add(set_after_add(m, k, v), k, v) == set_after_add(m, k, v),
{
    assert(set_after_add(set_after_add(m, k, v), k, v) =~~= set_after_add(m, k, v));
}

/// A link recorded from two different parents gives its target exactly
/// those two edge ends, when the target had none recorded before.
pub proof fn lemma_two_parents(
    m: Map<UriView, Set<UriView>>,
    c: UriView,
    a: UriView,
    b: UriView,
)
    requires
        !m.contains_key(c),
    ensures
        set_after_add(set_after_add(m, c, a), c, b).contains_key(c),
        set_after_add(set_after_add(m, c, a), c, b)[c] == Set::<UriView>::empty().insert(
            a,
        ).insert(b),
{
    assert(set_after_add(set_after_add(m, c, a), c, b)[c] =~= Set::<UriView>::empty().insert(
        a,
    ).insert(b));
}

pub(crate) proof fn lemma_uri_set_push(v: Seq<Uri>, u: Uri)
    ensures
        uri_set(v.push(u)) == uri_set(v).insert(u@),
{
    assert(uri_views(v.push(u)) =~= uri_views(v).push(u@));
    assert forall|x: UriView| uri_set(v.push(u)).contains(x) implies uri_set(v).insert(
        u@,
    ).contains(x) by {
        let w = uri_views(v.push(u));
        let i = choose|i: int| 0 <= i < w.len() && w[i] == x;
        if i < v.len() {
            assert(uri_views(v)[i] == x);
        }
    }
    assert forall|x: UriView| uri_set(v).insert(u@).contains(x) implies uri_set(
        v.push(u),
    ).contains(x) by {
        let w = uri_views(v.push(u));
        if x == u@ {
            assert(w[v.len() as int] == x);
        } else {
            let i = choose|i: int| 0 <= i < uri_views(v).len() && uri_views(v)[i] == x;
            assert(w[i] == x);
        }
    }
    assert(uri_set(v.push(u)) =~= uri_set(v).insert(u@));
}

proof fn lemma_node_map_index(s: Seq<(Uri, PageNode)>, i: int)
    requires
        distinct_node_keys(s),
        0 <= i < s.len(),
    ensures
        node_entries_map(s).contains_key(s[i].0@),
        node_entries_map(s)[s[i].0@] == s[i].1@,
    decreases s.len(),
{
    if i < s.len() - 1 {
        lemma_node_map_index(s.drop_last(), i);
        assert(s.drop_last()[i] == s[i]);
        assert(s[i].0@ != s.last().0@);
    }
}

proof fn lemma_node_map_absent(s: Seq<(Uri, PageNode)>, k: UriView)
    requires
        forall|i: int| 0 <= i < s.len() ==> s[i].0@ != k,
    ensures
        !node_entries_map(s).contains_key(k),
    decreases s.len(),
{
    if s.len() > 0 {
        lemma_node_map_absent(s.drop_last(), k);
    }
}

proof fn lemma_node_map_len(s: Seq<(Uri, PageNode)>)
    requires
        distinct_node_keys(s),
    ensures
        node_entries_map(s).dom().finite(),
        node_entries_map(s).len() == s.len(),
    decreases s.len(),
{
    if s.len() > 0 {
        lemma_node_map_len(s.drop_last());
        assert(forall|i: int|
            0 <= i < s.drop_last().len() ==> s.drop_last()[i].0@ != s.last().0@);
        lemma_node_map_absent(s.drop_last(), s.last().0@);
    }
}

proof fn lemma_node_map_update(s: Seq<(Uri, PageNode)>, i: int, p: (Uri, PageNode))
    requires
        distinct_node_keys(s),
        0 <= i < s.len(),
        p.0@ == s[i].0@,
    ensures
        node_entries_map(s.update(i, p)) == node_entries_map(s).insert(p.0@, p.1@),
    decreases s.len(),
{
    let t = s.update(i, p);
    if i == s.len() - 1 {
        assert(t.drop_last() =~= s.drop_last());
        assert(t.last() == p);
        assert(node_entries_map(t) =~= node_entries_map(s).insert(p.0@, p.1@));
    } else {
        assert(t.drop_last() =~= s.drop_last().update(i, p));
        lemma_node_map_update(s.drop_last(), i, p);
        assert(t.last() == s.last());
        assert(s[i].0@ != s.last().0@);
        assert(node_entries_map(t) =~= node_entries_map(s).insert(p.0@, p.1@));
    }
}

proof fn lemma_link_map_index(s: Seq<(Uri, Vec<Uri>)>, i: int)
    requires
        distinct_link_keys(s),
        0 <= i < s.len(),
    ensures
        link_entries_map(s).contains_key(s[i].0@),
        link_entries_map(s)[s[i].0@] == uri_set(s[i].1@),
    decreases s.len(),
{
    if i < s.len() - 1 {
        lemma_link_map_index(s.drop_last(), i);
        assert(s.drop_last()[i] == s[i]);
        assert(s[i].0@ != s.last().0@);
    }
}

proof fn lemma_link_map_absent(s: Seq<(Uri, Vec<Uri>)>, k: UriView)
    requires
        forall|i: int| 0 <= i < s.len() ==> s[i].0@ != k,
    ensures
        !link_entries_map(s).contains_key(k),
    decreases s.len(),
{
    if s.len() > 0 {
        lemma_link_map_absent(s.drop_last(), k);
    }
}

proof fn lemma_link_map_update(s: Seq<(Uri, Vec<Uri>)>, i: int, p: (Uri, Vec<Uri>))
    requires
        distinct_link_keys(s),
        0 <= i < s.len(),
        p.0@ == s[i].0@,
    ensures
        link_entries_map(s.update(i, p)) == link_entries_map(s).insert(p.0@, uri_set(p.1@)),
    decreases s.len(),
{
    let t = s.update(i, p);
    if i == s.len() - 1 {
        assert(t.drop_last() =~= s.drop_last());
        assert(t.last() == p);
        assert(link_entries_map(t) =~= link_entries_map(s).insert(p.0@, uri_set(p.1@)));
    } else {
        assert(t.drop_last() =~= s.drop_last().update(i, p));
        lemma_link_map_update(s.drop_last(), i, p);
        assert(t.last() == s.last());
        assert(s[i].0@ != s.last().0@);
        assert(link_entries_map(t) =~= link_entries_map(s).insert(p.0@, uri_set(p.1@)));
    }
}

/// The node table of a well-formed graph is a finite map, with exactly
/// one entry per URI ever added — what lets callers count it.
pub proof fn lemma_node_map_finite(g: &Graph)
    requires
        g.wf(),
    ensures
        g.node_map().dom().finite(),
{
    lemma_node_map_len(g.nodes@);
}

/// The incoming table is the exact reverse index of the outgoing one:
/// a well-formed graph records `b` among the targets of `a` exactly when
/// it records `a` among the sources of `b`.
pub proof fn lemma_reverse_index(g: &Graph)
    requires
        g.wf(),
    ensures
        forall|a: UriView, b: UriView| #[trigger]
            has_link(g.out_map(), a, b) <==> has_link(g.in_map(), b, a),
{
}

proof fn lemma_wf_links_unchanged(a: Graph, b: Graph)
    requires
        a.wf(),
        b.outgoing_links@ == a.outgoing_links@,
        b.incoming_links@ == a.incoming_links@,
        distinct_node_keys(b.nodes@),
    ensures
        b.wf(),
{
    assert(b.out_map() == a.out_map());
    assert(b.in_map() == a.in_map());
    assert forall|x: UriView, y: UriView| #[trigger]
        has_link(b.out_map(), x, y) <==> has_link(b.in_map(), y, x) by {
        assert(has_link(a.out_map(), x, y) <==> has_link(a.in_map(), y, x));
    }
}

/// The directed page graph. `nodes` is the single source of truth for
/// whether a URI has ever been seen; the two link tables record edge ends
/// as sets, `incoming_links` being the reverse index of `outgoing_links`.
pub struct Graph {
    nodes: Vec<(Uri, PageNode)>,
    outgoing_links: Vec<(Uri, Vec<Uri>)>,
    incoming_links: Vec<(Uri, Vec<Uri>)>,
}

impl Graph {
    /// The node table as a map.
    pub closed spec fn node_map(&self) -> Map<UriView, PageNodeView> {
        node_entries_map(self.nodes@)
    }

    /// The outgoing-link table as a map of sets.
    pub closed spec fn out_map(&self) -> Map<UriView, Set<UriView>> {
        link_entries_map(self.outgoing_links@)
    }

    /// The incoming-link table as a map of sets.
    pub closed spec fn in_map(&self) -> Map<UriView, Set<UriView>> {
        link_entries_map(self.incoming_links@)
    }

    /// Well-formedness: unique keys everywhere, deduplicated link sets,
    /// and the incoming table the exact reverse of the outgoing one.
    pub closed spec fn wf(&self) -> bool {
        &&& distinct_node_keys(self.nodes@)
        &&& distinct_link_keys(self.outgoing_links@)
        &&& distinct_link_keys(self.incoming_links@)
        &&& forall|i: int|
            0 <= i < self.outgoing_links@.len() ==> distinct_uris(
                #[trigger] self.outgoing_links@[i].1@,
            )
        &&& forall|i: int|
            0 <= i < self.incoming_links@.len() ==> distinct_uris(
                #[trigger] self.incoming_links@[i].1@,
            )
        &&& forall|a: UriView, b: UriView|
            #[trigger] has_link(self.out_map(), a, b) <==> has_link(self.in_map(), b, a)
    }

    /// An empty graph.
    pub fn new() -> (r: Graph)
        ensures
            r.wf(),
            r.node_map() == Map::<UriView, PageNodeView>::empty(),
            r.out_map() == Map::<UriView, Set<UriView>>::empty(),
            r.in_map() == Map::<UriView, Set<UriView>>::empty(),
    {
        Graph { nodes: Vec::new(), outgoing_links: Vec::new(), incoming_links: Vec::new() }
    }

    /// Index of the node entry for `uri`, if one exists.
    fn find_node(&self, uri: &Uri) -> (r: Option<usize>)
        ensures
            match r {
                Some(i) => i < self.nodes@.len() && self.nodes@[i as int].0@ == uri@,
                None => forall|i: int| 0 <= i < self.nodes@.len() ==> self.nodes@[i].0@ != uri@,
            },
    {
        let mut i: usize = 0;
        while i < self.nodes.len()
            invariant
                i <= self.nodes@.len(),
                forall|j: int| 0 <= j < i ==> self.nodes@[j].0@ != uri@,
            decreases self.nodes@.len() - i,
        {
            if self.nodes[i].0 == *uri {
                return Some(i);
            }
            i += 1;
        }
        None
    }

    /// Insert a node for a never-seen URI, freshly enqueued, and say so;
    /// an already-known URI is left exactly as it was.
    pub fn add_node(&mut self, uri: Uri) -> (r: bool)
        requires
            old(self).wf(),
        ensures
            final(self).wf(),
            final(self).out_map() == old(self).out_map(),
            final(self).in_map() == old(self).in_map(),
            old(self).node_map().contains_key(uri@) ==> r == false && final(self).node_map()
                == old(self).node_map(),
            !old(self).node_map().contains_key(uri@) ==> r == true && final(self).node_map()
                == old(self).node_map().insert(uri@, fresh_node())
                && final(self).node_map().len() == old(self).node_map().len() + 1,
            final(self).node_map().dom().finite(),
    {
        match self.find_node(&uri) {
            Some(i) => {
                proof {
                    lemma_node_map_index(self.nodes@, i as int);
                    lemma_node_map_len(self.nodes@);
                    lemma_wf_links_unchanged(*old(self), *self);
                }
                false
            },
            None => {
                proof {
                    lemma_node_map_absent(self.nodes@, uri@);
                }
                let ghost before = self.nodes@;
                let node = PageNode::default().enqueue();
                self.nodes.push((uri, node));
                proof {
                    assert(self.nodes@.drop_last() =~= before);
                    assert(node@ =~= fresh_node());
                    assert forall|a: int, b: int|
                        0 <= a < b < self.nodes@.len() implies self.nodes@[a].0@
                        != self.nodes@[b].0@ by {
                        if b == self.nodes@.len() - 1 {
                            assert(before[a].0@ != uri@);
                        } else {
                            assert(before[a].0@ != before[b].0@);
                        }
                    }
                    lemma_wf_links_unchanged(*old(self), *self);
                    lemma_node_map_len(before);
                    lemma_node_map_len(self.nodes@);
                }
                true
            },
        }
    }

    /// How many URIs the graph has ever seen.
    pub fn len(&self) -> (r: usize)
        requires
            self.wf(),
        ensures
            r == self.node_map().len(),
    {
        proof {
            lemma_node_map_len(self.nodes@);
        }
        self.nodes.len()
    }

    /// Has the graph seen no URI at all?
    pub fn is_empty(&self) -> (r: bool)
        requires
            self.wf(),
        ensures
            r == (self.node_map().len() == 0),
    {
        proof {
            lemma_node_map_len(self.nodes@);
        }
        self.nodes.is_empty()
    }

    /// The crawl record of a URI, if the graph has seen it.
    pub fn get(&self, uri: &Uri) -> (r: Option<&PageNode>)
        requires
            self.wf(),
        ensures
            match r {
                Some(n) => self.node_map().contains_key(uri@) && n@ == self.node_map()[uri@],
                None => !self.node_map().contains_key(uri@),
            },
    {
        match self.find_node(uri) {
            Some(i) => {
                proof {
                    lemma_node_map_index(self.nodes@, i as int);
                }
                Some(&self.nodes[i].1)
            },
            None => {
                proof {
                    lemma_node_map_absent(self.nodes@, uri@);
                }
                None
            },
        }
    }

    /// Move an existing node to a new status, recording the response code
    /// and error text of the attempt; a URI without a node is refused.
    pub fn set_status(&mut self, uri: &Uri, status: NodeStatus, response_code: i32, error: String)
        -> (r: bool)
        requires
            old(self).wf(),
        ensures
            final(self).wf(),
            final(self).out_map() == old(self).out_map(),
            final(self).in_map() == old(self).in_map(),
            old(self).node_map().contains_key(uri@) ==> r == true && final(self).node_map()
                == old(self).node_map().insert(
                uri@,
                PageNodeView {
                    request_type: old(self).node_map()[uri@].request_type,
                    node_status: status,
                    response_code: response_code as int,
                    error: error@,
                },
            ),
            !old(self).node_map().contains_key(uri@) ==> r == false && final(self).node_map()
                == old(self).node_map(),
    {
        match self.find_node(uri) {
            Some(i) => {
                proof {
                    lemma_node_map_index(self.nodes@, i as int);
                }
                let key = self.nodes[i].0.clone();
                let rt = self.nodes[i].1.request_type;
                let node = PageNode {
                    request_type: rt,
                    node_status: status,
                    error,
                    response_code,
                };
                let ghost before = self.nodes@;
                let ghost pair = (key, node);
                self.nodes[i] = (key, node);
                proof {
                    assert(self.nodes@ =~= before.update(i as int, pair));
                    lemma_node_map_update(before, i as int, pair);
                    assert forall|a: int, b: int|
                        0 <= a < b < self.nodes@.len() implies self.nodes@[a].0@
                        != self.nodes@[b].0@ by {
                        assert(self.nodes@[a].0@ == before[a].0@);
                        assert(self.nodes@[b].0@ == before[b].0@);
                    }
                    lemma_wf_links_unchanged(*old(self), *self);
                }
                true
            },
            None => {
                proof {
                    lemma_node_map_absent(self.nodes@, uri@);
                    lemma_wf_links_unchanged(*old(self), *self);
                }
                false
            },
        }
    }

    /// Borrow the crawl record of a URI for mutation. What the caller
    /// writes through the borrow is not tracked: after using it, the
    /// well-formedness this module's other contracts rest on must be
    /// re-established by the caller. `set_status` changes a record
    /// without giving that up.
    pub fn get_mut(&mut self, uri: &Uri) -> (r: Option<&mut PageNode>)
        requires
            old(self).wf(),
        ensures
            match r {
                Some(n) => old(self).node_map().contains_key(uri@) && (*n)@ == old(
                    self,
                ).node_map()[uri@],
                None => !old(self).node_map().contains_key(uri@) && *final(self) == *old(
                    self,
                ),
            },
    {
        match self.find_node(uri) {
            Some(i) => {
                proof {
                    lemma_node_map_index(self.nodes@, i as int);
                }
                Some(&mut self.nodes[i].1)
            },
            None => {
                proof {
                    lemma_node_map_absent(self.nodes@, uri@);
                    lemma_wf_links_unchanged(*old(self), *self);
                }
                None
            },
        }
    }

    /// The URIs with an edge into `uri`, if any are recorded.
    pub fn parents(&self, uri: &Uri) -> (r: Option<Vec<Uri>>)
        requires
            self.wf(),
        ensures
            match r {
                Some(v) => self.in_map().contains_key(uri@) && uri_set(v@) == self.in_map()[uri@]
                    && distinct_uris(v@),
                None => !self.in_map().contains_key(uri@),
            },
    {
        let mut i: usize = 0;
        while i < self.incoming_links.len()
            invariant
                i <= self.incoming_links@.len(),
                forall|j: int|
                    0 <= j < i ==> self.incoming_links@[j].0@ != uri@,
                self.wf(),
            decreases self.incoming_links@.len() - i,
        {
            if self.incoming_links[i].0 == *uri {
                proof {
                    lemma_link_map_index(self.incoming_links@, i as int);
                }
                let bucket = &self.incoming_links[i].1;
                let mut out: Vec<Uri> = Vec::new();
                let mut j: usize = 0;
                while j < bucket.len()
                    invariant
                        j <= bucket@.len(),
                        uri_views(out@) =~= uri_views(bucket@).take(j as int),
                    decreases bucket@.len() - j,
                {
                    let ghost prev = out@;
                    out.push(bucket[j].clone());
                    proof {
                        assert(uri_views(out@) =~= uri_views(prev).push(bucket@[j as int]@));
                        assert(uri_views(out@) =~= uri_views(bucket@).take(j as int + 1));
                    }
                    j += 1;
                }
                proof {
                    assert(uri_views(bucket@).take(bucket@.len() as int) =~= uri_views(bucket@));
                    assert(uri_set(out@) =~= uri_set(bucket@));
                    assert(distinct_uris(bucket@));
                    assert forall|a: int, b: int| 0 <= a < b < out@.len() implies out@[a]@
                        != out@[b]@ by {
                        assert(uri_views(out@)[a] == bucket@[a]@);
                        assert(uri_views(out@)[b] == bucket@[b]@);
                    }
                }
                return Some(out);
            }
            i += 1;
        }
        proof {
            lemma_link_map_absent(self.incoming_links@, uri@);
        }
        None
    }

    /// Record the edge `from -> to` in both link tables. Recording the
    /// same edge again changes nothing; the node table is never touched.
    pub fn add_neighbor(&mut self, from: Uri, to: Uri)
        requires
            old(self).wf(),
        ensures
            final(self).wf(),
            final(self).node_map() == old(self).node_map(),
            final(self).out_map() == set_after_add(old(self).out_map(), from@, to@),
            final(self).in_map() == set_after_add(old(self).in_map(), to@, from@),
    {
        let from2 = from.clone();
        let to2 = to.clone();
        link_insert(&mut self.outgoing_links, from, to);
        link_insert(&mut self.incoming_links, to2, from2);
        proof {
            let oo = old(self).out_map();
            let oi = old(self).in_map();
            let no = self.out_map();
            let ni = self.in_map();
            assert forall|a: UriView, b: UriView| #[trigger]
                has_link(no, a, b) implies has_link(ni, b, a) by {
                if !(a == from@ && b == to@) {
                    assert(has_link(oo, a, b));
                    assert(has_link(oi, b, a));
                }
            }
            assert forall|a: UriView, b: UriView| #[trigger]
                has_link(ni, b, a) implies has_link(no, a, b) by {
                if !(a == from@ && b == to@) {
                    assert(has_link(oi, b, a));
                    assert(has_link(oo, a, b));
                }
            }
        }
    }
}

/// Record `val` in the deduplicated set kept under `key`, creating the
/// entry when the key is new.
#[verifier::loop_isolation(false)]
fn link_insert(links: &mut Vec<(Uri, Vec<Uri>)>, key: Uri, val: Uri)
    requires
        distinct_link_keys(old(links)@),
        forall|i: int|
            0 <= i < old(links)@.len() ==> distinct_uris(#[trigger] old(links)@[i].1@),
    ensures
        distinct_link_keys(final(links)@),
        forall|i: int|
            0 <= i < final(links)@.len() ==> distinct_uris(#[trigger] final(links)@[i].1@),
        link_entries_map(final(links)@) == set_after_add(
            link_entries_map(old(links)@),
            key@,
            val@,
        ),
{
    let n = links.len();
    let mut i: usize = 0;
    while i < n
        invariant
            i <= n,
            n == links@.len(),
            *links == *old(links),
            forall|j: int| 0 <= j < i ==> links@[j].0@ != key@,
        decreases n - i,
    {
        if links[i].0 == key {
            proof {
                lemma_link_map_index(links@, i as int);
            }
            let bucket = &links[i].1;
            let mut present = false;
            let mut j: usize = 0;
            while j < bucket.len()
                invariant
                    j <= bucket@.len(),
                    present == exists|l: int| 0 <= l < j && bucket@[l]@ == val@,
                decreases bucket@.len() - j,
            {
                if bucket[j] == val {
                    present = true;
                }
                j += 1;
            }
            let ghost before = links@;
            let ghost old_bucket = links@[i as int].1@;
            if !present {
                let ghost v = val;
                links[i].1.push(val);
                proof {
                    assert(links@[i as int].1@ =~= old_bucket.push(v));
                    assert(links@ =~= before.update(i as int, links@[i as int]));
                    lemma_link_map_update(before, i as int, links@[i as int]);
                    lemma_uri_set_push(old_bucket, v);
                    assert(link_entries_map(links@) =~= set_after_add(
                        link_entries_map(before),
                        key@,
                        val@,
                    ));
                    assert forall|a: int, b: int|
                        0 <= a < b < links@[i as int].1@.len() implies links@[i as int].1@[a]@
                        != links@[i as int].1@[b]@ by {
                        if b == links@[i as int].1@.len() - 1 {
                            assert(old_bucket[a]@ != v@);
                        } else {
                            assert(old_bucket[a]@ != old_bucket[b]@);
                        }
                    }
                    assert forall|l: int|
                        0 <= l < links@.len() implies distinct_uris(
                        #[trigger] links@[l].1@,
                    ) by {
                        if l != i {
                            assert(links@[l] == before[l]);
                        }
                    }
                }
            } else {
                proof {
                    assert(uri_set(old_bucket).contains(val@)) by {
                        let l = choose|l: int| 0 <= l < old_bucket.len() && old_bucket[l]@
                            == val@;
                        assert(uri_views(old_bucket)[l] == val@);
                    }
                    assert(uri_set(old_bucket).insert(val@) =~= uri_set(old_bucket));
                    assert(link_entries_map(links@) =~= set_after_add(
                        link_entries_map(before),
                        key@,
                        val@,
                    ));
                }
            }
            return ;
        }
        i += 1;
    }
    proof {
        lemma_link_map_absent(links@, key@);
    }
    let ghost before = links@;
    let ghost v = val;
    let mut bucket: Vec<Uri> = Vec::new();
    bucket.push(val);
    links.push((key, bucket));
    proof {
        assert(links@.drop_last() =~= before);
        let bv = links@.last().1@;
        assert(bv =~= Seq::<Uri>::empty().push(v));
        lemma_uri_set_push(Seq::<Uri>::empty(), v);
        assert(uri_set(Seq::<Uri>::empty()) =~= Set::<UriView>::empty()) by {
            assert forall|x: UriView| !uri_set(Seq::<Uri>::empty()).contains(x) by {
                assert(uri_views(Seq::<Uri>::empty()).len() == 0);
            }
        }
        assert(link_entries_map(links@) =~= set_after_add(
            link_entries_map(before),
            key@,
            val@,
        ));
        assert forall|a: int, b: int|
            0 <= a < b < links@.len() implies links@[a].0@ != links@[b].0@ by {
            if b == links@.len() - 1 {
                assert(before[a].0@ != key@);
            } else {
                assert(before[a].0@ != before[b].0@);
            }
        }
        assert forall|l: int|
            0 <= l < links@.len() implies distinct_uris(#[trigger] links@[l].1@) by {
            if l < links@.len() - 1 {
                assert(links@[l] == before[l]);
            } else {
                assert(links@[l].1@.len() == 1);
            }
        }
    }
}

} // verus!
