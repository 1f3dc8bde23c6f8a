//! The crawl engine. A `CrawlSession` owns the page graph, the FIFO
//! frontier of URIs awaiting dispatch, and the in-flight set of URIs
//! claimed by workers, under a concurrency bound. Callers drive it by
//! alternating `dispatch` (claim the next URI) and `integrate` (record a
//! worker's result and absorb the candidates it discovered); the crawl is
//! complete when the frontier is empty and no worker is active. The
//! fetching itself is outside work: the engine only decides.

use vstd::prelude::*;
use vstd::string::*;
use crate::graph::{set_after_add, uri_set, Graph};
use crate::page_node::{fresh_node, is_terminal, NodeStatus, PageNodeView};
use crate::text::str_views;
use crate::uri::{spec_parse, uri_views, ParseError, Uri, UriView};

verus! {

/// Does a URI lie within the crawl's domain: same protocol, host and
/// port as the domain anchor?
pub open spec fn in_domain(u: UriView, anchor: UriView) -> bool {
    u.protocol == anchor.protocol && u.host == anchor.host && u.port == anchor.port
}

/// A URI reduced to its domain anchor: protocol, host and port kept,
/// path, query and fragment cleared.
pub open spec fn domain_anchor(u: UriView) -> UriView {
    UriView {
        protocol: u.protocol,
        host: u.host,
        port: u.port,
        path: Seq::<char>::empty(),
        query: Seq::<char>::empty(),
        fragment: Seq::<char>::empty(),
    }
}

/// A URI as it is keyed in the graph: the fragment is stripped, all
/// other components kept.
pub open spec fn page_key(u: UriView) -> UriView {
    UriView { fragment: Seq::<char>::empty(), ..u }
}

/// The part of a session that result integration folds over: the node
/// table, the frontier, and the two edge tables.
#[verifier::ext_equal]
pub ghost struct CrawlState {
    pub nodes: Map<UriView, PageNodeView>,
    pub frontier: Seq<UriView>,
    pub out: Map<UriView, Set<UriView>>,
    pub inc: Map<UriView, Set<UriView>>,
}

/// One discovered candidate absorbed into the crawl state. A candidate
/// outside the domain is recorded nowhere. An in-domain candidate gets a
/// freshly enqueued node and a frontier entry if it was never seen, and
/// the edge from its parent is recorded in both directions either way.
pub open spec fn absorb_candidate(
    st: CrawlState,
    from: UriView,
    c: UriView,
    anchor: UriView,
) -> CrawlState {
    if in_domain(c, anchor) {
        let st1 = if st.nodes.contains_key(c) {
            st
        } else {
            CrawlState {
                nodes: st.nodes.insert(c, fresh_node()),
                frontier: st.frontier.push(c),
                ..st
            }
        };
        CrawlState {
            out: set_after_add(st1.out, from, c),
            inc: set_after_add(st1.inc, c, from),
            ..st1
        }
    } else {
        st
    }
}

/// A worker's candidates absorbed left to right.
pub open spec fn absorb_candidates(
    st: CrawlState,
    from: UriView,
    cands: Seq<UriView>,
    anchor: UriView,
) -> CrawlState
    decreases cands.len(),
{
    if cands.len() == 0 {
        st
    } else {
        absorb_candidates(
            absorb_candidate(st, from, cands[0], anchor),
            from,
            cands.drop_first(),
            anchor,
        )
    }
}

/// The scheduling core of one crawl: the shared graph, the FIFO frontier,
/// the in-flight set, the domain anchor, the concurrency bound, and the
/// accumulated non-fatal error log.
pub struct CrawlSession {
    anchor: Uri,
    max_threads: usize,
    active: usize,
    frontier: Vec<Uri>,
    in_flight: Vec<Uri>,
    graph: Graph,
    errors: Vec<String>,
}

impl CrawlSession {
    /// The node table of the underlying graph.
    pub closed spec fn nodes(&self) -> Map<UriView, PageNodeView> {
        self.graph.node_map()
    }

    /// The outgoing edges of the underlying graph.
    pub closed spec fn out_map(&self) -> Map<UriView, Set<UriView>> {
        self.graph.out_map()
    }

    /// The incoming edges of the underlying graph.
    pub closed spec fn in_map(&self) -> Map<UriView, Set<UriView>> {
        self.graph.in_map()
    }

    /// The frontier, front of the queue first.
    pub closed spec fn frontier_view(&self) -> Seq<UriView> {
        uri_views(self.frontier@)
    }

    /// The URIs currently claimed by a worker.
    pub closed spec fn in_flight_view(&self) -> Set<UriView> {
        uri_set(self.in_flight@)
    }

    /// The accumulated error log.
    pub closed spec fn error_view(&self) -> Seq<Seq<char>> {
        str_views(self.errors@)
    }

    /// The domain anchor the in-domain test uses.
    pub closed spec fn anchor_view(&self) -> UriView {
        self.anchor@
    }

    /// The concurrency bound.
    pub closed spec fn threads(&self) -> int {
        self.max_threads as int
    }

    /// How many workers hold a claimed URI.
    pub closed spec fn active_count(&self) -> int {
        self.active as int
    }

    /// The foldable part of this session.
    pub closed spec fn state_of(&self) -> CrawlState {
        CrawlState {
            nodes: self.graph.node_map(),
            frontier: uri_views(self.frontier@),
            out: self.graph.out_map(),
            inc: self.graph.in_map(),
        }
    }

    /// Is this URI currently claimed by a worker?
    pub fn is_in_flight(&self, uri: &Uri) -> (r: bool)
        ensures
            r == self.in_flight_view().contains(uri@),
    {
        match self.find_in_flight(uri) {
            Some(i) => {
                proof {
                    assert(uri_views(self.in_flight@)[i as int] == uri@);
                }
                true
            },
            None => {
                proof {
                    if self.in_flight_view().contains(uri@) {
                        let j = choose|j: int|
                            0 <= j < uri_views(self.in_flight@).len() && uri_views(
                                self.in_flight@,
                            )[j] == uri@;
                        assert(self.in_flight@[j]@ == uri@);
                    }
                }
                false
            },
        }
    }

    /// The session invariant: the graph is well-formed; the worker count
    /// equals the in-flight set's size; frontier and in-flight hold no
    /// duplicates and list exactly the `Enqueued` and `InProgress` nodes;
    /// every node lies in the domain; and every recorded edge end has a
    /// node.
    pub closed spec fn wf(&self) -> bool {
        &&& self.graph.wf()
        &&& self.active == self.in_flight@.len()
        &&& self.max_threads >= 1
        &&& crate::graph::distinct_uris(self.frontier@)
        &&& crate::graph::distinct_uris(self.in_flight@)
        &&& self.anchor@.path.len() == 0
        &&& self.anchor@.query.len() == 0
        &&& self.anchor@.fragment.len() == 0
        &&& forall|i: int|
            0 <= i < self.frontier@.len() ==> self.nodes().contains_key(
                (#[trigger] self.frontier@[i])@,
            ) && self.nodes()[self.frontier@[i]@].node_status == NodeStatus::Enqueued
        &&& forall|i: int|
            0 <= i < self.in_flight@.len() ==> self.nodes().contains_key(
                (#[trigger] self.in_flight@[i])@,
            ) && self.nodes()[self.in_flight@[i]@].node_status == NodeStatus::InProgress
        &&& forall|k: UriView| #[trigger]
            self.nodes().contains_key(k) ==> in_domain(k, self.anchor@)
        &&& forall|k: UriView|
            (#[trigger] self.nodes().contains_key(k)) && self.nodes()[k].node_status
                == NodeStatus::Enqueued ==> self.frontier_view().contains(k)
        &&& forall|k: UriView|
            (#[trigger] self.nodes().contains_key(k)) && self.nodes()[k].node_status
                == NodeStatus::InProgress ==> self.in_flight_view().contains(k)
        &&& forall|a: UriView, b: UriView| #[trigger]
            crate::graph::has_link(self.out_map(), a, b) ==> self.nodes().contains_key(a)
                && self.nodes().contains_key(b)
    }

    /// Start a session: the seed, keyed without its fragment, is the one
    /// enqueued node, and the seed's protocol, host and port become the
    /// domain anchor.
    pub fn new(seed: &Uri, max_threads: usize) -> (s: CrawlSession)
        requires
            max_threads >= 1,
        ensures
            s.wf(),
            s.nodes() == Map::<UriView, PageNodeView>::empty().insert(
                page_key(seed@),
                fresh_node(),
            ),
            s.frontier_view() == seq![page_key(seed@)],
            s.in_flight_view() == Set::<UriView>::empty(),
            s.out_map() == Map::<UriView, Set<UriView>>::empty(),
            s.in_map() == Map::<UriView, Set<UriView>>::empty(),
            s.error_view() == Seq::<Seq<char>>::empty(),
            s.anchor_view() == domain_anchor(seed@),
            s.threads() == max_threads,
            s.active_count() == 0,
    {
        let anchor = Uri {
            protocol: seed.protocol.clone(),
            host: seed.host.clone(),
            port: seed.port.clone(),
            path: String::new(),
            query: String::new(),
            fragment: String::new(),
        };
        let key = Uri {
            protocol: seed.protocol.clone(),
            host: seed.host.clone(),
            port: seed.port.clone(),
            path: seed.path.clone(),
            query: seed.query.clone(),
            fragment: String::new(),
        };
        proof {
            assert(anchor@ =~= domain_anchor(seed@));
            assert(key@ =~= page_key(seed@));
        }
        let mut graph = Graph::new();
        let _added = graph.add_node(key.clone());
        let mut frontier: Vec<Uri> = Vec::new();
        frontier.push(key);
        let s = CrawlSession {
            anchor,
            max_threads,
            active: 0,
            frontier,
            in_flight: Vec::new(),
            graph,
            errors: Vec::new(),
        };
        proof {
            assert(s.frontier_view() =~= seq![page_key(seed@)]);
            assert(s.in_flight_view() =~= Set::<UriView>::empty()) by {
                assert(uri_views(s.in_flight@).len() == 0);
            }
            assert(s.error_view() =~= Seq::<Seq<char>>::empty());
            assert(s.nodes() == Map::<UriView, PageNodeView>::empty().insert(
                page_key(seed@),
                fresh_node(),
            ));
            assert forall|k: UriView| #[trigger]
                s.nodes().contains_key(k) implies k == page_key(seed@) by {}
            assert(s.frontier_view()[0] == page_key(seed@));
            assert forall|i: int|
                0 <= i < s.frontier@.len() implies s.nodes().contains_key(
                (#[trigger] s.frontier@[i])@,
            ) && s.nodes()[s.frontier@[i]@].node_status == NodeStatus::Enqueued by {
                assert(s.frontier@[i]@ == page_key(seed@));
            }
            assert forall|k: UriView|
                (#[trigger] s.nodes().contains_key(k)) && s.nodes()[k].node_status
                    == NodeStatus::Enqueued implies s.frontier_view().contains(k) by {
                assert(s.frontier_view()[0] == k);
            }
            assert(s.wf());
        }
        s
    }

    /// Claim the next URI for a worker: pop the front of the frontier,
    /// mark its node `InProgress`, and move it into the in-flight set.
    /// Nothing happens when the frontier is empty or the concurrency
    /// bound is reached.
    pub fn dispatch(&mut self) -> (r: Option<Uri>)
        requires
            old(self).wf(),
        ensures
            final(self).wf(),
            final(self).anchor_view() == old(self).anchor_view(),
            final(self).threads() == old(self).threads(),
            old(self).active_count() < old(self).threads() && old(self).frontier_view().len()
                > 0 ==> {
                &&& r matches Some(u) && u@ == old(self).frontier_view()[0]
                &&& final(self).frontier_view() == old(self).frontier_view().drop_first()
                &&& final(self).in_flight_view() == old(self).in_flight_view().insert(
                    old(self).frontier_view()[0],
                )
                &&& final(self).active_count() == old(self).active_count() + 1
                &&& final(self).nodes() == old(self).nodes().insert(
                    old(self).frontier_view()[0],
                    PageNodeView {
                        request_type: old(self).nodes()[old(self).frontier_view()[0]].request_type,
                        node_status: NodeStatus::InProgress,
                        response_code: 0,
                        error: Seq::<char>::empty(),
                    },
                )
                &&& final(self).out_map() == old(self).out_map()
                &&& final(self).in_map() == old(self).in_map()
                &&& final(self).error_view() == old(self).error_view()
            },
            !(old(self).active_count() < old(self).threads() && old(self).frontier_view().len()
                > 0) ==> r is None && *final(self) == *old(self),
    {
        if self.active < self.max_threads && self.frontier.len() > 0 {
            let ghost of = uri_views(old(self).frontier@);
            let uri = self.frontier.remove(0);
            let ghost u = uri@;
            proof {
                assert(of[0] == u);
                lemma_views_remove(old(self).frontier@, 0);
                assert(uri_views(self.frontier@) =~= of.drop_first());
                assert(old(self).nodes().contains_key(u) && old(self).nodes()[u].node_status
                    == NodeStatus::Enqueued) by {
                    assert(old(self).frontier@[0]@ == u);
                }
            }
            let ok = self.graph.set_status(&uri, NodeStatus::InProgress, 0, String::new());
            self.in_flight.push(uri.clone());
            self.active = self.active + 1;
            proof {
                let n0 = old(self).nodes();
                let n1 = self.nodes();
                let oif = old(self).in_flight@;
                assert(ok);
                assert(n1 == n0.insert(
                    u,
                    PageNodeView {
                        request_type: n0[u].request_type,
                        node_status: NodeStatus::InProgress,
                        response_code: 0,
                        error: Seq::<char>::empty(),
                    },
                ));
                // the claimed URI was not already in flight
                assert forall|i: int| 0 <= i < oif.len() implies oif[i]@ != u by {
                    if oif[i]@ == u {
                        assert(n0[u].node_status == NodeStatus::InProgress);
                    }
                }
                crate::graph::lemma_uri_set_push(oif, uri);
                assert(self.in_flight_view() =~= old(self).in_flight_view().insert(u));
                // frontier: entries keep their status, order shifts down
                assert forall|a: int, b: int|
                    0 <= a < b < self.frontier@.len() implies self.frontier@[a]@
                    != self.frontier@[b]@ by {
                    assert(self.frontier@[a]@ == of[a + 1]);
                    assert(self.frontier@[b]@ == of[b + 1]);
                    assert(old(self).frontier@[a + 1]@ != old(self).frontier@[b + 1]@);
                }
                assert forall|a: int, b: int|
                    0 <= a < b < self.in_flight@.len() implies self.in_flight@[a]@
                    != self.in_flight@[b]@ by {
                    if b < oif.len() {
                        assert(oif[a]@ != oif[b]@);
                    } else {
                        assert(self.in_flight@[b]@ == u);
                        assert(oif[a]@ != u);
                    }
                }
                assert forall|i: int|
                    0 <= i < self.frontier@.len() implies n1.contains_key(
                    (#[trigger] self.frontier@[i])@,
                ) && n1[self.frontier@[i]@].node_status == NodeStatus::Enqueued by {
                    assert(self.frontier@[i]@ == of[i + 1]);
                    assert(old(self).frontier@[i + 1]@ == of[i + 1]);
                    assert(old(self).frontier@[0]@ != old(self).frontier@[i + 1]@);
                }
                assert forall|i: int|
                    0 <= i < self.in_flight@.len() implies n1.contains_key(
                    (#[trigger] self.in_flight@[i])@,
                ) && n1[self.in_flight@[i]@].node_status == NodeStatus::InProgress by {
                    if i < oif.len() {
                        assert(oif[i]@ != u);
                        assert(old(self).in_flight@[i]@ == oif[i]@);
                    } else {
                        assert(self.in_flight@[i]@ == u);
                    }
                }
                assert forall|k: UriView| #[trigger]
                    n1.contains_key(k) implies in_domain(k, self.anchor@) by {
                    assert(n0.contains_key(k));
                }
                assert forall|k: UriView|
                    (#[trigger] n1.contains_key(k)) && n1[k].node_status
                        == NodeStatus::Enqueued implies self.frontier_view().contains(k) by {
                    assert(k != u);
                    assert(n0.contains_key(k) && n0[k].node_status == NodeStatus::Enqueued);
                    assert(old(self).frontier_view().contains(k));
                    let i = choose|i: int| 0 <= i < of.len() && of[i] == k;
                    assert(old(self).frontier@[0]@ == u);
                    assert(old(self).frontier@[i]@ == k);
                    assert(i != 0);
                    assert(self.frontier_view()[i - 1] == k);
                }
                assert forall|k: UriView|
                    (#[trigger] n1.contains_key(k)) && n1[k].node_status
                        == NodeStatus::InProgress implies self.in_flight_view().contains(k) by {
                    if k != u {
                        assert(n0.contains_key(k) && n0[k].node_status
                            == NodeStatus::InProgress);
                        assert(old(self).in_flight_view().contains(k));
                    }
                }
                assert forall|a: UriView, b: UriView| #[trigger]
                    crate::graph::has_link(self.out_map(), a, b) implies n1.contains_key(a)
                    && n1.contains_key(b) by {
                    assert(crate::graph::has_link(old(self).out_map(), a, b));
                }
                assert(self.wf());
            }
            Some(uri)
        } else {
            None
        }
    }

    /// Index of the first in-flight entry equal to `uri`.
    fn find_in_flight(&self, uri: &Uri) -> (r: Option<usize>)
        ensures
            match r {
                Some(i) => i < self.in_flight@.len() && self.in_flight@[i as int]@ == uri@,
                None => forall|i: int|
                    0 <= i < self.in_flight@.len() ==> self.in_flight@[i]@ != uri@,
            },
    {
        let mut i: usize = 0;
        while i < self.in_flight.len()
            invariant
                i <= self.in_flight@.len(),
                forall|j: int| 0 <= j < i ==> self.in_flight@[j]@ != uri@,
            decreases self.in_flight@.len() - i,
        {
            if self.in_flight[i] == *uri {
                return Some(i);
            }
            i += 1;
        }
        None
    }

    /// Record a worker's report for a claimed URI: its node becomes
    /// terminal with the given code and error text, the URI leaves the
    /// in-flight set, the fetch error (on failure) and the link errors
    /// join the log, and each discovered candidate is absorbed in order:
    /// in-domain candidates get a node and a frontier entry on first
    /// sight and an edge from the reported page always; out-of-domain
    /// candidates are recorded nowhere.
    pub fn integrate(
        &mut self,
        uri: &Uri,
        success: bool,
        response_code: i32,
        error: &str,
        candidates: &Vec<Uri>,
        link_errors: &Vec<String>,
    )
        requires
            old(self).wf(),
            old(self).in_flight_view().contains(uri@),
        ensures
            final(self).wf(),
            final(self).anchor_view() == old(self).anchor_view(),
            final(self).threads() == old(self).threads(),
            final(self).active_count() == old(self).active_count() - 1,
            final(self).in_flight_view() == old(self).in_flight_view().remove(uri@),
            final(self).error_view() == old(self).error_view() + (if success {
                Seq::<Seq<char>>::empty()
            } else {
                seq![error@]
            }) + str_views(link_errors@),
            final(self).state_of() == absorb_candidates(
                CrawlState {
                    nodes: old(self).nodes().insert(
                        uri@,
                        PageNodeView {
                            request_type: old(self).nodes()[uri@].request_type,
                            node_status: if success {
                                NodeStatus::Success
                            } else {
                                NodeStatus::Failure
                            },
                            response_code: response_code as int,
                            error: error@,
                        },
                    ),
                    frontier: old(self).frontier_view(),
                    out: old(self).out_map(),
                    inc: old(self).in_map(),
                },
                uri@,
                uri_views(candidates@),
                old(self).anchor_view(),
            ),
    {
        proof {
            let oif = uri_views(old(self).in_flight@);
            let i0 = choose|i: int| 0 <= i < oif.len() && oif[i] == uri@;
            assert(old(self).in_flight@[i0]@ == uri@);
        }
        let status = if success {
            NodeStatus::Success
        } else {
            NodeStatus::Failure
        };
        let ok = self.graph.set_status(uri, status, response_code, String::from_str(error));
        let j = match self.find_in_flight(uri) {
            Some(j) => j,
            None => {
                proof {
                    let oif = uri_views(old(self).in_flight@);
                    assert(uri_set(old(self).in_flight@).contains(uri@));
                    assert(oif.contains(uri@));
                    let i0 = choose|i: int| 0 <= i < oif.len() && oif[i] == uri@;
                    assert(old(self).in_flight@[i0]@ == uri@);
                    assert(self.in_flight@ == old(self).in_flight@);
                    assert(false);
                }
                0
            },
        };
        let ghost oif = old(self).in_flight@;
        self.in_flight.remove(j);
        self.active = self.active - 1;
        proof {
            assert(ok);
            lemma_views_remove(oif, j as int);
            assert forall|a: int, b: int|
                0 <= a < b < self.in_flight@.len() implies self.in_flight@[a]@
                != self.in_flight@[b]@ by {
                let va = if a < j { oif[a]@ } else { oif[a + 1]@ };
                let vb = if b < j { oif[b]@ } else { oif[b + 1]@ };
                assert(self.in_flight@[a]@ == va);
                assert(self.in_flight@[b]@ == vb);
            }
            assert(self.in_flight_view() =~= old(self).in_flight_view().remove(uri@)) by {
                assert forall|x: UriView| self.in_flight_view().contains(x) implies old(
                    self,
                ).in_flight_view().remove(uri@).contains(x) by {
                    let nv = uri_views(self.in_flight@);
                    let i = choose|i: int| 0 <= i < nv.len() && nv[i] == x;
                    let orig = if i < j { i } else { i + 1 };
                    assert(uri_views(oif)[orig] == x);
                    assert(orig != j);
                    assert(oif[j as int]@ == uri@);
                    assert(x != uri@);
                }
                assert forall|x: UriView| old(self).in_flight_view().remove(uri@).contains(
                    x,
                ) implies self.in_flight_view().contains(x) by {
                    let i = choose|i: int| 0 <= i < uri_views(oif).len() && uri_views(oif)[i]
                        == x;
                    assert(oif[i]@ == x);
                    assert(i != j);
                    let ni = if i < j { i } else { i - 1 };
                    assert(uri_views(self.in_flight@)[ni] == x);
                }
            }
        }
        if !success {
            self.errors.push(String::from_str(error));
            proof {
                assert(str_views(self.errors@) =~= str_views(old(self).errors@) + seq![error@]);
            }
        }
        let ghost errors_mid = str_views(self.errors@);
        proof {
            assert(errors_mid =~= str_views(old(self).errors@) + (if success {
                Seq::<Seq<char>>::empty()
            } else {
                seq![error@]
            }));
        }
        let ghost mid = *self;
        let mut li: usize = 0;
        while li < link_errors.len()
            invariant
                li <= link_errors@.len(),
                str_views(self.errors@) == errors_mid + str_views(link_errors@).take(li as int),
                self.graph == mid.graph,
                self.frontier@ == mid.frontier@,
                self.in_flight@ == mid.in_flight@,
                self.active == mid.active,
                self.anchor == mid.anchor,
                self.max_threads == mid.max_threads,
            decreases link_errors@.len() - li,
        {
            let ghost before = str_views(self.errors@);
            self.errors.push(link_errors[li].clone());
            proof {
                assert(str_views(self.errors@) =~= before.push(link_errors@[li as int]@));
                assert(str_views(self.errors@) =~= errors_mid + str_views(link_errors@).take(
                    li as int + 1,
                ));
            }
            li += 1;
        }
        proof {
            assert(str_views(link_errors@).take(link_errors@.len() as int) =~= str_views(
                link_errors@,
            ));
        }
        proof {
            let u = uri@;
            let oif2 = uri_views(oif);
            let i0 = choose|i: int| 0 <= i < oif2.len() && oif2[i] == u;
            assert(oif[i0]@ == u);
            let n0 = old(self).nodes();
            let n1 = self.nodes();
            assert(n0.contains_key(u) && n0[u].node_status == NodeStatus::InProgress);
            assert(self.frontier_view() == old(self).frontier_view());
            assert forall|i: int|
                0 <= i < self.frontier@.len() implies n1.contains_key(
                (#[trigger] self.frontier@[i])@,
            ) && n1[self.frontier@[i]@].node_status == NodeStatus::Enqueued by {
                let k = self.frontier@[i]@;
                assert(old(self).frontier@[i]@ == k);
                assert(n0.contains_key(k) && n0[k].node_status == NodeStatus::Enqueued);
                assert(k != u);
            }
            assert forall|l: int|
                0 <= l < self.in_flight@.len() implies n1.contains_key(
                (#[trigger] self.in_flight@[l])@,
            ) && n1[self.in_flight@[l]@].node_status == NodeStatus::InProgress by {
                let k = self.in_flight@[l]@;
                assert(self.in_flight_view().contains(k)) by {
                    assert(uri_views(self.in_flight@)[l] == k);
                }
                assert(k != u);
                assert(old(self).in_flight_view().contains(k));
                let m = choose|m: int| 0 <= m < oif2.len() && oif2[m] == k;
                assert(oif[m]@ == k);
            }
            assert forall|k: UriView| #[trigger]
                n1.contains_key(k) implies in_domain(k, self.anchor@) by {
                assert(n0.contains_key(k));
            }
            assert forall|k: UriView|
                (#[trigger] n1.contains_key(k)) && n1[k].node_status
                    == NodeStatus::Enqueued implies self.frontier_view().contains(k) by {
                assert(k != u);
                assert(n0.contains_key(k) && n0[k].node_status == NodeStatus::Enqueued);
                assert(old(self).frontier_view().contains(k));
            }
            assert forall|k: UriView|
                (#[trigger] n1.contains_key(k)) && n1[k].node_status
                    == NodeStatus::InProgress implies self.in_flight_view().contains(k) by {
                assert(k != u);
                assert(n0.contains_key(k) && n0[k].node_status == NodeStatus::InProgress);
                assert(old(self).in_flight_view().contains(k));
            }
            assert forall|a: UriView, b: UriView| #[trigger]
                crate::graph::has_link(self.out_map(), a, b) implies n1.contains_key(a)
                && n1.contains_key(b) by {
                assert(crate::graph::has_link(old(self).out_map(), a, b));
            }
            assert(self.wf());
        }
        let ghost st0 = CrawlState {
            nodes: old(self).nodes().insert(
                uri@,
                PageNodeView {
                    request_type: old(self).nodes()[uri@].request_type,
                    node_status: if success {
                        NodeStatus::Success
                    } else {
                        NodeStatus::Failure
                    },
                    response_code: response_code as int,
                    error: error@,
                },
            ),
            frontier: old(self).frontier_view(),
            out: old(self).out_map(),
            inc: old(self).in_map(),
        };
        proof {
            assert(self.state_of() =~= st0);
        }
        self.absorb_all(uri, candidates);
    }

    /// Absorb a worker's discovered candidates, left to right.
    fn absorb_all(&mut self, uri: &Uri, candidates: &Vec<Uri>)
        requires
            old(self).wf(),
            old(self).nodes().contains_key(uri@),
        ensures
            final(self).wf(),
            final(self).state_of() == absorb_candidates(
                old(self).state_of(),
                uri@,
                uri_views(candidates@),
                old(self).anchor_view(),
            ),
            final(self).in_flight_view() == old(self).in_flight_view(),
            final(self).active_count() == old(self).active_count(),
            final(self).error_view() == old(self).error_view(),
            final(self).anchor_view() == old(self).anchor_view(),
            final(self).threads() == old(self).threads(),
    {
        let ghost all = uri_views(candidates@);
        let ghost anchor = old(self).anchor_view();
        let ghost goal = absorb_candidates(old(self).state_of(), uri@, all, anchor);
        let mut ci: usize = 0;
        proof {
            assert(all.skip(0) =~= all);
        }
        while ci < candidates.len()
            invariant
                ci <= candidates@.len(),
                all == uri_views(candidates@),
                self.wf(),
                self.nodes().contains_key(uri@),
                self.anchor == old(self).anchor,
                self.max_threads == old(self).max_threads,
                self.active == old(self).active,
                self.in_flight@ == old(self).in_flight@,
                self.errors@ == old(self).errors@,
                anchor == self.anchor_view(),
                absorb_candidates(self.state_of(), uri@, all.skip(ci as int), anchor) == goal,
            decreases candidates@.len() - ci,
        {
            let ghost pre = *self;
            proof {
                assert(all.skip(ci as int)[0] == candidates@[ci as int]@);
                assert(all.skip(ci as int).drop_first() =~= all.skip(ci as int + 1));
            }
            let c = &candidates[ci];
            let ghost cv = c@;
            let in_dom = c.protocol == self.anchor.protocol && c.host == self.anchor.host
                && c.port == self.anchor.port;
            proof {
                assert(in_dom == in_domain(cv, anchor));
            }
            if in_dom {
                let is_new = self.graph.add_node(c.clone());
                if is_new {
                    self.frontier.push(c.clone());
                    proof {
                        assert(uri_views(self.frontier@) =~= uri_views(pre.frontier@).push(
                            cv,
                        ));
                    }
                }
                self.graph.add_neighbor(uri.clone(), c.clone());
                proof {
                    let n0 = pre.nodes();
                    let n1 = self.nodes();
                    if is_new {
                        assert(n1 == n0.insert(cv, fresh_node()));
                        // the new key was not yet in the frontier
                        assert forall|a: int, b: int|
                            0 <= a < b < self.frontier@.len() implies self.frontier@[a]@
                            != self.frontier@[b]@ by {
                            if b == self.frontier@.len() - 1 {
                                assert(self.frontier@[a]@ == pre.frontier@[a]@);
                                assert(n0.contains_key(pre.frontier@[a]@));
                            } else {
                                assert(pre.frontier@[a]@ != pre.frontier@[b]@);
                            }
                        }
                        assert forall|i: int|
                            0 <= i < self.frontier@.len() implies n1.contains_key(
                            (#[trigger] self.frontier@[i])@,
                        ) && n1[self.frontier@[i]@].node_status == NodeStatus::Enqueued by {
                            if i < self.frontier@.len() - 1 {
                                assert(self.frontier@[i]@ == pre.frontier@[i]@);
                            } else {
                                assert(self.frontier@[i]@ == cv);
                            }
                        }
                        assert forall|k: UriView|
                            (#[trigger] n1.contains_key(k)) && n1[k].node_status
                                == NodeStatus::Enqueued implies self.frontier_view().contains(
                            k,
                        ) by {
                            if k == cv {
                                assert(self.frontier_view()[self.frontier@.len() - 1] == k);
                            } else {
                                assert(n0.contains_key(k) && n0[k].node_status
                                    == NodeStatus::Enqueued);
                                assert(pre.frontier_view().contains(k));
                                let i = choose|i: int|
                                    0 <= i < pre.frontier_view().len()
                                        && pre.frontier_view()[i] == k;
                                assert(self.frontier_view()[i] == k);
                            }
                        }
                    } else {
                        assert(n1 == n0);
                        assert(self.frontier@ == pre.frontier@);
                        assert forall|k: UriView|
                            (#[trigger] n1.contains_key(k)) && n1[k].node_status
                                == NodeStatus::Enqueued implies self.frontier_view().contains(
                            k,
                        ) by {
                            assert(pre.frontier_view().contains(k));
                        }
                    }
                    assert forall|l: int|
                        0 <= l < self.in_flight@.len() implies n1.contains_key(
                        (#[trigger] self.in_flight@[l])@,
                    ) && n1[self.in_flight@[l]@].node_status == NodeStatus::InProgress by {
                        let k = self.in_flight@[l]@;
                        assert(pre.in_flight@[l]@ == k);
                        assert(n0.contains_key(k) && n0[k].node_status
                            == NodeStatus::InProgress);
                        if is_new {
                            assert(k != cv);
                        }
                    }
                    assert forall|k: UriView|
                        (#[trigger] n1.contains_key(k)) && n1[k].node_status
                            == NodeStatus::InProgress implies self.in_flight_view().contains(
                        k,
                    ) by {
                        if is_new {
                            assert(k != cv);
                        }
                        assert(n0.contains_key(k) && n0[k].node_status
                            == NodeStatus::InProgress);
                        assert(pre.in_flight_view().contains(k));
                    }
                    assert forall|k: UriView| #[trigger]
                        n1.contains_key(k) implies in_domain(k, self.anchor@) by {
                        if is_new && k == cv {
                        } else {
                            assert(n0.contains_key(k));
                        }
                    }
                    assert forall|a: UriView, b: UriView| #[trigger]
                        crate::graph::has_link(self.out_map(), a, b) implies n1.contains_key(
                        a,
                    ) && n1.contains_key(b) by {
                        if !(a == uri@ && b == cv) {
                            assert(crate::graph::has_link(pre.out_map(), a, b)) by {
                                assert(self.out_map() == set_after_add(
                                    pre.out_map(),
                                    uri@,
                                    cv,
                                ));
                            }
                        }
                    }
                    assert(self.wf());
                    assert(self.state_of() =~= absorb_candidate(
                        pre.state_of(),
                        uri@,
                        cv,
                        anchor,
                    ));
                }
            } else {
                proof {
                    assert(self.state_of() =~= absorb_candidate(
                        pre.state_of(),
                        uri@,
                        cv,
                        anchor,
                    ));
                }
            }
            proof {
                assert(absorb_candidates(self.state_of(), uri@, all.skip(ci as int + 1), anchor)
                    == goal);
            }
            ci += 1;
        }
        proof {
            assert(all.skip(candidates@.len() as int) =~= Seq::<UriView>::empty());
        }
    }

    /// May a URI be handed to a worker right now?
    pub fn can_dispatch(&self) -> (r: bool)
        ensures
            r == (self.active_count() < self.threads() && self.frontier_view().len() > 0),
    {
        self.active < self.max_threads && self.frontier.len() > 0
    }

    /// Is the crawl over: nothing queued and no worker active?
    pub fn is_complete(&self) -> (r: bool)
        ensures
            r == (self.frontier_view().len() == 0 && self.active_count() == 0),
    {
        self.frontier.len() == 0 && self.active == 0
    }

    /// The error log accumulated so far.
    pub fn errors(&self) -> (r: &Vec<String>)
        ensures
            str_views(r@) == self.error_view(),
    {
        &self.errors
    }

    /// The graph built so far.
    pub fn graph(&self) -> (r: &Graph)
        ensures
            r.node_map() == self.nodes(),
            r.out_map() == self.out_map(),
            r.in_map() == self.in_map(),
            self.wf() ==> r.wf(),
    {
        &self.graph
    }

    /// Finish: hand the graph and the error log to the caller.
    pub fn into_parts(self) -> (r: (Graph, Vec<String>))
        ensures
            r.0.node_map() == self.nodes(),
            r.0.out_map() == self.out_map(),
            r.0.in_map() == self.in_map(),
            self.wf() ==> r.0.wf(),
            str_views(r.1@) == self.error_view(),
    {
        (self.graph, self.errors)
    }
}

proof fn lemma_views_remove(v: Seq<Uri>, j: int)
    requires
        0 <= j < v.len(),
    ensures
        uri_views(v.remove(j)).len() == v.len() - 1,
        forall|i: int|
            0 <= i < j ==> #[trigger] uri_views(v.remove(j))[i] == uri_views(v)[i],
        forall|i: int|
            j <= i < v.len() - 1 ==> #[trigger] uri_views(v.remove(j))[i] == uri_views(v)[i
                + 1],
{
    v.remove_ensures(j);
}

/// When a well-formed session is complete, every node the crawl ever saw
/// has reached a terminal status: an `Enqueued` node would still stand in
/// the frontier and an `InProgress` node in the in-flight set, and both
/// are empty.
pub proof fn lemma_complete_all_terminal(s: &CrawlSession)
    requires
        s.wf(),
        s.frontier_view().len() == 0,
        s.active_count() == 0,
    ensures
        forall|k: UriView| #[trigger]
            s.nodes().contains_key(k) ==> is_terminal(s.nodes()[k].node_status),
{
    assert forall|k: UriView| #[trigger]
        s.nodes().contains_key(k) implies is_terminal(s.nodes()[k].node_status) by {
        let st = s.nodes()[k].node_status;
        if st == NodeStatus::Enqueued {
            assert(s.frontier_view().contains(k));
        } else if st == NodeStatus::InProgress {
            assert(s.in_flight_view().contains(k));
            let i = choose|i: int|
                0 <= i < uri_views(s.in_flight@).len() && uri_views(s.in_flight@)[i] == k;
            assert(s.in_flight@.len() > 0);
        }
    }
}

/// How a session's foldable state reads back through its public views:
/// what `integrate`'s ensures says of `state_of` carries over to the
/// node table, the frontier and the two edge tables directly.
pub proof fn lemma_state_of_projections(s: &CrawlSession)
    ensures
        s.state_of().nodes == s.nodes(),
        s.state_of().frontier == s.frontier_view(),
        s.state_of().out == s.out_map(),
        s.state_of().inc == s.in_map(),
{
}

/// Absorbing candidates only appends to the frontier: what was queued
/// before a report is still queued, in the same order and positions,
/// after it — one worker's failure never unqueues another page's work.
pub proof fn lemma_absorb_extends_frontier(
    st: CrawlState,
    from: UriView,
    cands: Seq<UriView>,
    anchor: UriView,
)
    ensures
        absorb_candidates(st, from, cands, anchor).frontier.len() >= st.frontier.len(),
        forall|i: int|
            0 <= i < st.frontier.len() ==> #[trigger] absorb_candidates(
                st,
                from,
                cands,
                anchor,
            ).frontier[i] == st.frontier[i],
    decreases cands.len(),
{
    if cands.len() > 0 {
        let st1 = absorb_candidate(st, from, cands[0], anchor);
        lemma_absorb_extends_frontier(st1, from, cands.drop_first(), anchor);
    }
}

/// Every URI appearing at either end of a recorded edge, in either edge
/// table, has a node: the graph never holds an edge to or from a page
/// the crawl did not record.
pub proof fn lemma_edges_have_nodes(s: &CrawlSession)
    requires
        s.wf(),
    ensures
        forall|a: UriView, b: UriView| #[trigger]
            crate::graph::has_link(s.out_map(), a, b) ==> s.nodes().contains_key(a)
                && s.nodes().contains_key(b),
        forall|a: UriView, b: UriView| #[trigger]
            crate::graph::has_link(s.in_map(), a, b) ==> s.nodes().contains_key(a)
                && s.nodes().contains_key(b),
{
    crate::graph::lemma_reverse_index(&s.graph);
    assert forall|a: UriView, b: UriView| #[trigger]
        crate::graph::has_link(s.in_map(), a, b) implies s.nodes().contains_key(a)
        && s.nodes().contains_key(b) by {
        assert(crate::graph::has_link(s.out_map(), b, a));
    }
}

/// Why a crawl cannot start: the concurrency bound is zero, or the seed
/// URL does not parse. Both are fatal and produce no partial graph.
#[derive(Debug)]
pub enum CrawlError {
    InvalidThreadCount,
    Seed(ParseError),
}

/// The top-level entry point for crawling a site: it keeps the
/// controlling settings and hands out a `CrawlSession` that callers
/// drive to completion.
pub struct Crawler {
    max_threads: usize,
    verbosity: bool,
}

impl Crawler {
    /// The concurrency bound this crawler starts sessions with.
    pub closed spec fn threads(&self) -> int {
        self.max_threads as int
    }

    /// Whether per-enqueue diagnostics are wanted. Purely observational:
    /// no crawl outcome depends on it.
    pub closed spec fn verbosity_on(&self) -> bool {
        self.verbosity
    }

    /// A crawler bound to at most `max_threads` concurrent fetches, not
    /// verbose. The result graph lives in the session it hands out.
    pub fn new(max_threads: usize) -> (r: Self)
        ensures
            r.threads() == max_threads,
            r.verbosity_on() == false,
    {
        Crawler { max_threads, verbosity: false }
    }

    /// Switch per-enqueue diagnostics on or off.
    pub fn set_verbosity(&mut self, verbosity: bool)
        ensures
            final(self).verbosity_on() == verbosity,
            final(self).threads() == old(self).threads(),
    {
        self.verbosity = verbosity;
    }

    /// Whether per-enqueue diagnostics are wanted, for callers driving a
    /// session.
    pub fn verbose(&self) -> (r: bool)
        ensures
            r == self.verbosity_on(),
    {
        self.verbosity
    }

    /// Begin a crawl from a seed URL. The two fatal errors are a
    /// concurrency bound below one and a seed that fails to parse;
    /// otherwise the session starts with exactly the seed enqueued.
    pub fn start_session(&self, seed_url: &str) -> (r: Result<CrawlSession, CrawlError>)
        ensures
            match r {
                Ok(s) => {
                    &&& self.threads() >= 1
                    &&& spec_parse(seed_url@) matches Ok(u) && {
                        &&& s.nodes() == Map::<UriView, PageNodeView>::empty().insert(
                            page_key(u),
                            fresh_node(),
                        )
                        &&& s.frontier_view() == seq![page_key(u)]
                        &&& s.anchor_view() == domain_anchor(u)
                    }
                    &&& s.wf()
                    &&& s.threads() == self.threads()
                    &&& s.active_count() == 0
                    &&& s.in_flight_view() == Set::<UriView>::empty()
                    &&& s.error_view() == Seq::<Seq<char>>::empty()
                    &&& s.out_map() == Map::<UriView, Set<UriView>>::empty()
                    &&& s.in_map() == Map::<UriView, Set<UriView>>::empty()
                },
                Err(e) => match e {
                    CrawlError::InvalidThreadCount => self.threads() < 1,
                    CrawlError::Seed(pe) => self.threads() >= 1 && (spec_parse(seed_url@)
                        matches Err(err) && pe@ == err),
                },
            },
    {
        if self.max_threads < 1 {
            return Err(CrawlError::InvalidThreadCount);
        }
        match Uri::parse(seed_url) {
            Ok(seed) => Ok(CrawlSession::new(&seed, self.max_threads)),
            Err(e) => Err(CrawlError::Seed(e)),
        }
    }
}

} // verus!
