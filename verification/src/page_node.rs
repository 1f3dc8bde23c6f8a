//! Per-page crawl records: the status a discovered page moves through and
//! the node stored for it in the page graph.

use vstd::prelude::*;

verus! {

/// The states a discovered page moves through. A node is created `Enqueued`,
/// becomes `InProgress` when a worker claims it, and ends in exactly one of
/// the terminal states `Success` or `Failure`; no state is ever revisited.
#[derive(Clone, Copy, Debug, PartialEq, Eq, Structural)]
pub enum NodeStatus {
    Enqueued,
    InProgress,
    Success,
    Failure,
}

/// How a page is fetched.
#[derive(Clone, Copy, Debug, PartialEq, Eq, Structural)]
pub enum RequestType {
    Get,
    Head,
}

/// The record kept for one discovered page: its fetch method, where it is
/// in its lifecycle, the response code of a finished fetch, and the error
/// text of a failed one.
#[derive(Debug)]
pub struct PageNode {
    pub request_type: RequestType,
    pub node_status: NodeStatus,
    pub error: String,
    pub response_code: i32,
}

/// Mathematical value of a `PageNode`.
#[verifier::ext_equal]
pub ghost struct PageNodeView {
    pub request_type: RequestType,
    pub node_status: NodeStatus,
    pub error: Seq<char>,
    pub response_code: int,
}

impl View for PageNode {
    type V = PageNodeView;

    open spec fn view(&self) -> PageNodeView {
        PageNodeView {
            request_type: self.request_type,
            node_status: self.node_status,
            error: self.error@,
            response_code: self.response_code as int,
        }
    }
}

/// The node a page starts from: a `Get` fetch, freshly enqueued, with no
/// response code or error yet.
pub open spec fn fresh_node() -> PageNodeView {
    PageNodeView {
        request_type: RequestType::Get,
        node_status: NodeStatus::Enqueued,
        error: Seq::<char>::empty(),
        response_code: 0,
    }
}

/// A status from which a node never transitions further.
pub open spec fn is_terminal(s: NodeStatus) -> bool {
    s == NodeStatus::Success || s == NodeStatus::Failure
}

impl PageNode {
    /// Mark this node as awaiting dispatch.
    pub fn enqueue(self) -> (r: Self)
        ensures
            r@ == (PageNodeView { node_status: NodeStatus::Enqueued, ..self@ }),
    {
        let mut node = self;
        node.node_status = NodeStatus::Enqueued;
        node
    }
}

impl Clone for PageNode {
    fn clone(&self) -> (r: Self)
        ensures
            r@ == self@,
    {
        PageNode {
            request_type: self.request_type,
            node_status: self.node_status,
            error: self.error.clone(),
            response_code: self.response_code,
        }
    }
}

impl Default for PageNode {
    /// A node as first inserted for a newly discovered page.
    fn default() -> (r: Self)
        ensures
            r@ == fresh_node(),
    {
        PageNode {
            request_type: RequestType::Get,
            node_status: NodeStatus::Enqueued,
            error: String::new(),
            response_code: 0,
        }
    }
}

} // verus!
