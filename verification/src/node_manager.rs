//! The node manager: registry, health snapshot, and candidate selection.

use vstd::prelude::*;

use crate::error::Error;
use crate::node::{opt_str_view, with_target, InfoResponse, Node, Url};

verus! {

/// Whether some node in `s` has the URL `u`.
pub open spec fn has_url(s: Seq<Node>, u: crate::node::UrlV) -> bool {
    exists|i: int| 0 <= i < s.len() && (#[trigger] s[i])@.url == u
}

/// De-duplicates a node sequence by URL, keeping the first occurrence of
/// each URL in its original position.
pub open spec fn dedup_by_url(s: Seq<Node>) -> Seq<Node>
    decreases s.len(),
{
    if s.len() == 0 {
        Seq::empty()
    } else {
        let prefix = dedup_by_url(s.drop_last());
        if has_url(s.drop_last(), s.last()@.url) {
            prefix
        } else {
            prefix.push(s.last())
        }
    }
}

/// The nodes of `s` that do not carry the disabled flag, in order.
pub open spec fn enabled_nodes(s: Seq<Node>) -> Seq<Node>
    decreases s.len(),
{
    if s.len() == 0 {
        Seq::empty()
    } else {
        let prefix = enabled_nodes(s.drop_last());
        if s.last().disabled {
            prefix
        } else {
            prefix.push(s.last())
        }
    }
}

/// The nodes of a health snapshot, in snapshot order; when remote
/// proof-of-work is required, only those advertising the pow feature.
pub open spec fn snapshot_nodes(h: Seq<(Node, InfoResponse)>, use_pow_nodes: bool) -> Seq<Node>
    decreases h.len(),
{
    if h.len() == 0 {
        Seq::empty()
    } else {
        let prefix = snapshot_nodes(h.drop_last(), use_pow_nodes);
        if !use_pow_nodes || h.last().1.spec_advertises_pow() {
            prefix.push(h.last().0)
        } else {
            prefix
        }
    }
}

/// An optional node as a sequence of zero or one nodes.
pub open spec fn opt_node_seq(n: Option<Node>) -> Seq<Node> {
    match n {
        Some(x) => seq![x],
        None => Seq::empty(),
    }
}

/// No two nodes of `s` share a URL.
pub open spec fn urls_unique(s: Seq<Node>) -> bool {
    forall|i: int, j: int| 0 <= i < j < s.len() ==> (#[trigger] s[i])@.url != (#[trigger] s[j])@.url
}

/// Selects nodes for requests, in priority order, until a result is
/// returned; when quorum is enabled, requests to some endpoints go to
/// several nodes and the results are compared.
#[derive(Debug)]
pub struct NodeManager {
    /// Distinguished node, included in every candidate list unless disabled.
    pub primary_node: Option<Node>,
    /// Distinguished node for remote proof-of-work submissions.
    pub primary_pow_node: Option<Node>,
    /// The general pool, used unfiltered when health checking is off.
    pub nodes: Vec<Node>,
    /// Archival nodes retaining history beyond the ordinary pruning window.
    pub permanodes: Vec<Node>,
    /// When set, the health snapshot is ignored and the general pool is used.
    pub ignore_node_health: bool,
    /// How often the external sync loop refreshes the health snapshot.
    pub node_sync_interval_secs: u64,
    /// Last known health snapshot; presence means healthy. Written only by
    /// the external sync collaborator, read-only here.
    pub healthy_nodes: Vec<(Node, InfoResponse)>,
    /// Whether quorum voting is enabled at all.
    pub quorum: bool,
    /// Minimum number of candidates a quorum request fans out to.
    pub min_quorum_size: usize,
    /// Percentage (0 to 100) of `min_quorum_size` that must agree.
    pub quorum_threshold: usize,
}

/// Whether archival nodes are preferred for this request: either asked for
/// explicitly, or the path is the canonical block-submission endpoint and a
/// query is present. The latter is preserved verbatim for compatibility.
pub open spec fn spec_wants_archival(
    prefer_permanode: bool,
    path: Seq<char>,
    query: Option<Seq<char>>,
) -> bool {
    prefer_permanode || (path == "api/core/v2/blocks"@ && query is Some)
}

impl NodeManager {
    /// Starts configuration of a node manager.
    pub fn builder() -> (r: NodeManagerBuilder)
        ensures
            r.primary_node is None,
            r.primary_pow_node is None,
            r.nodes@ == Seq::<Node>::empty(),
            r.permanodes@ == Seq::<Node>::empty(),
            !r.ignore_node_health,
            r.node_sync_interval_secs == 60,
            !r.quorum,
            r.min_quorum_size == 3,
            r.quorum_threshold == 66,
    {
        NodeManagerBuilder::new()
    }

    /// The low-priority tail of the candidate list: the health snapshot
    /// (pow-filtered when required), or the full general pool when health
    /// checking is disabled.
    pub open spec fn spec_pool(&self, use_pow_nodes: bool) -> Seq<Node> {
        if !self.ignore_node_health {
            snapshot_nodes(self.healthy_nodes@, use_pow_nodes)
        } else {
            self.nodes@
        }
    }

    /// The candidate list before de-duplication and the disabled filter:
    /// archival nodes first when wanted, then the pow primary when remote
    /// pow is required, then the primary, then the pool.
    pub open spec fn spec_raw_candidates(
        &self,
        path: Seq<char>,
        query: Option<Seq<char>>,
        use_pow_nodes: bool,
        prefer_permanode: bool,
    ) -> Seq<Node> {
        (if spec_wants_archival(prefer_permanode, path, query) {
            self.permanodes@
        } else {
            Seq::empty()
        }) + (if use_pow_nodes {
            opt_node_seq(self.primary_pow_node)
        } else {
            Seq::empty()
        }) + opt_node_seq(self.primary_node) + self.spec_pool(use_pow_nodes)
    }

    /// The selected candidates: raw candidates de-duplicated by URL (first
    /// occurrence keeps its position) with disabled nodes dropped.
    pub open spec fn spec_selected(
        &self,
        path: Seq<char>,
        query: Option<Seq<char>>,
        use_pow_nodes: bool,
        prefer_permanode: bool,
    ) -> Seq<Node> {
        enabled_nodes(
            dedup_by_url(self.spec_raw_candidates(path, query, use_pow_nodes, prefer_permanode)),
        )
    }

    /// Builds the ordered, de-duplicated candidate list for one request and
    /// materializes each survivor's request URL. Fails exactly when the
    /// filtered list is empty: `NoPowCapableNode` if remote proof-of-work
    /// was required, `NoHealthyNodes` otherwise.
    pub fn get_nodes(
        &self,
        path: &str,
        query: Option<&str>,
        use_pow_nodes: bool,
        prefer_permanode: bool,
    ) -> (r: Result<Vec<Node>, Error>)
        ensures
            ({
                let sel = self.spec_selected(
                    path@,
                    opt_str_view(query),
                    use_pow_nodes,
                    prefer_permanode,
                );
                &&& (r is Err <==> sel.len() == 0)
                &&& (r matches Ok(v) ==> v@.len() == sel.len() && (forall|i: int|
                    0 <= i < sel.len() ==> (#[trigger] v@[i])@ == with_target(
                        sel[i]@,
                        path@,
                        opt_str_view(query),
                    )))
                &&& (r matches Err(e) ==> if use_pow_nodes {
                    e is NoPowCapableNode
                } else {
                    e is NoHealthyNodes
                })
            }),
    {
        let ghost q_view = opt_str_view(query);
        let mut picked: Vec<Node> = Vec::new();
        let ghost mut raw = Seq::<Node>::empty();

        let wants_archival = prefer_permanode || (crate::node::str_eq(path, "api/core/v2/blocks")
            && query.is_some());
        let ghost seg_archival: Seq<Node> = if spec_wants_archival(prefer_permanode, path@, q_view) {
            self.permanodes@
        } else {
            Seq::empty()
        };

        if wants_archival {
            let mut i: usize = 0;
            while i < self.permanodes.len()
                invariant
                    0 <= i <= self.permanodes@.len(),
                    raw == self.permanodes@.take(i as int),
                    picked@ == dedup_by_url(raw),
                decreases self.permanodes@.len() - i,
            {
                proof {
                    lemma_dedup_same_urls(raw);
                    lemma_dedup_push(raw, self.permanodes@[i as int]);
                }
                append_unique(&mut picked, &self.permanodes[i]);
                proof {
                    raw = raw.push(self.permanodes@[i as int]);
                    assert(raw =~= self.permanodes@.take(i as int + 1));
                }
                i += 1;
            }
            proof {
                assert(raw =~= self.permanodes@);
            }
        }
        proof {
            assert(raw == seg_archival);
        }

        let ghost seg_pow: Seq<Node> = if use_pow_nodes {
            opt_node_seq(self.primary_pow_node)
        } else {
            Seq::empty()
        };
        if use_pow_nodes {
            match &self.primary_pow_node {
                Some(pow_node) => {
                    proof {
                        lemma_dedup_same_urls(raw);
                        lemma_dedup_push(raw, *pow_node);
                    }
                    append_unique(&mut picked, pow_node);
                    proof {
                        raw = raw.push(*pow_node);
                    }
                },
                None => {},
            }
        }
        proof {
            assert(raw =~= seg_archival + seg_pow);
        }

        let ghost seg_primary: Seq<Node> = opt_node_seq(self.primary_node);
        match &self.primary_node {
            Some(primary_node) => {
                proof {
                    lemma_dedup_same_urls(raw);
                    lemma_dedup_push(raw, *primary_node);
                }
                append_unique(&mut picked, primary_node);
                proof {
                    raw = raw.push(*primary_node);
                }
            },
            None => {},
        }
        proof {
            assert(raw =~= seg_archival + seg_pow + seg_primary);
        }

        let ghost seg_head: Seq<Node> = seg_archival + seg_pow + seg_primary;
        if !self.ignore_node_health {
            let mut i: usize = 0;
            while i < self.healthy_nodes.len()
                invariant
                    0 <= i <= self.healthy_nodes@.len(),
                    raw == seg_head + snapshot_nodes(
                        self.healthy_nodes@.take(i as int),
                        use_pow_nodes,
                    ),
                    picked@ == dedup_by_url(raw),
                decreases self.healthy_nodes@.len() - i,
            {
                let entry = &self.healthy_nodes[i];
                let keep_entry = if use_pow_nodes {
                    entry.1.advertises_pow()
                } else {
                    true
                };
                proof {
                    lemma_snapshot_push(
                        self.healthy_nodes@.take(i as int),
                        self.healthy_nodes@[i as int],
                        use_pow_nodes,
                    );
                    assert(self.healthy_nodes@.take(i as int).push(self.healthy_nodes@[i as int])
                        =~= self.healthy_nodes@.take(i as int + 1));
                }
                if keep_entry {
                    proof {
                        lemma_dedup_same_urls(raw);
                        lemma_dedup_push(raw, self.healthy_nodes@[i as int].0);
                        assert(raw.push(self.healthy_nodes@[i as int].0) =~= seg_head
                            + snapshot_nodes(
                            self.healthy_nodes@.take(i as int + 1),
                            use_pow_nodes,
                        ));
                    }
                    append_unique(&mut picked, &entry.0);
                    proof {
                        raw = raw.push(self.healthy_nodes@[i as int].0);
                    }
                }
                i += 1;
            }
            proof {
                assert(self.healthy_nodes@.take(self.healthy_nodes@.len() as int)
                    =~= self.healthy_nodes@);
            }
        } else {
            let mut i: usize = 0;
            while i < self.nodes.len()
                invariant
                    0 <= i <= self.nodes@.len(),
                    raw == seg_head + self.nodes@.take(i as int),
                    picked@ == dedup_by_url(raw),
                decreases self.nodes@.len() - i,
            {
                proof {
                    lemma_dedup_same_urls(raw);
                    lemma_dedup_push(raw, self.nodes@[i as int]);
                    assert(raw.push(self.nodes@[i as int]) =~= seg_head + self.nodes@.take(
                        i as int + 1,
                    ));
                }
                append_unique(&mut picked, &self.nodes[i]);
                proof {
                    raw = raw.push(self.nodes@[i as int]);
                }
                i += 1;
            }
            proof {
                assert(self.nodes@.take(self.nodes@.len() as int) =~= self.nodes@);
            }
        }
        proof {
            assert(raw =~= self.spec_raw_candidates(
                path@,
                q_view,
                use_pow_nodes,
                prefer_permanode,
            ));
        }

        // Drop disabled nodes and set path, query and credentials on the
        // survivors.
        let ghost sel = self.spec_selected(path@, q_view, use_pow_nodes, prefer_permanode);
        let mut out: Vec<Node> = Vec::new();
        let ghost mut kept = Seq::<Node>::empty();
        let mut i: usize = 0;
        while i < picked.len()
            invariant
                0 <= i <= picked@.len(),
                q_view == opt_str_view(query),
                picked@ == dedup_by_url(raw),
                kept == enabled_nodes(picked@.take(i as int)),
                out@.len() == kept.len(),
                forall|k: int|
                    0 <= k < kept.len() ==> (#[trigger] out@[k])@ == with_target(
                        kept[k]@,
                        path@,
                        q_view,
                    ),
            decreases picked@.len() - i,
        {
            proof {
                lemma_enabled_push(picked@.take(i as int), picked@[i as int]);
                assert(picked@.take(i as int).push(picked@[i as int]) =~= picked@.take(
                    i as int + 1,
                ));
            }
            let node = &picked[i];
            let ghost out_old = out@;
            let ghost kept_old = kept;
            if !node.disabled {
                let target = node.clone().into_target(path, query);
                proof {
                    assert(target@ == with_target(picked@[i as int]@, path@, q_view));
                }
                out.push(target);
                proof {
                    kept = kept.push(picked@[i as int]);
                    assert forall|k: int|
                        0 <= k < kept.len() implies (#[trigger] out@[k])@ == with_target(
                        kept[k]@,
                        path@,
                        q_view,
                    ) by {
                        if k < kept_old.len() {
                            assert(out@[k] == out_old[k]);
                            assert(kept[k] == kept_old[k]);
                        } else {
                            assert(out@[k] == target);
                            assert(kept[k] == picked@[i as int]);
                        }
                    }
                }
            }
            i += 1;
        }
        proof {
            assert(picked@.take(picked@.len() as int) =~= picked@);
            assert(kept == sel);
        }

        if out.is_empty() {
            if use_pow_nodes {
                Err(Error::NoPowCapableNode)
            } else {
                Err(Error::NoHealthyNodes)
            }
        } else {
            Ok(out)
        }
    }
}

/// Appends the node unless its URL is already present.
fn append_unique(picked: &mut Vec<Node>, node: &Node)
    ensures
        final(picked)@ == (if has_url(old(picked)@, node@.url) {
            old(picked)@
        } else {
            old(picked)@.push(*node)
        }),
{
    if !contains_url(picked, &node.url) {
        picked.push(node.clone());
    }
}

/// Whether the vector already holds a node with this URL.
fn contains_url(v: &Vec<Node>, url: &Url) -> (r: bool)
    ensures
        r == has_url(v@, url@),
{
    let mut i: usize = 0;
    while i < v.len()
        invariant
            0 <= i <= v@.len(),
            forall|j: int| 0 <= j < i ==> (#[trigger] v@[j])@.url != url@,
        decreases v@.len() - i,
    {
        if v[i].url.same_as(url) {
            return true;
        }
        i += 1;
    }
    false
}

/// One de-duplication step: appending a node keeps the sequence unchanged
/// when its URL is already present, and appends it otherwise.
pub proof fn lemma_dedup_push(s: Seq<Node>, x: Node)
    ensures
        dedup_by_url(s.push(x)) == (if has_url(s, x@.url) {
            dedup_by_url(s)
        } else {
            dedup_by_url(s).push(x)
        }),
{
    let t = s.push(x);
    assert(t.drop_last() =~= s);
    assert(t.last() == x);
}

/// De-duplication keeps exactly the URLs of its input.
pub proof fn lemma_dedup_same_urls(s: Seq<Node>)
    ensures
        forall|u: crate::node::UrlV| has_url(dedup_by_url(s), u) <==> has_url(s, u),
    decreases s.len(),
{
    if s.len() == 0 {
    } else {
        lemma_dedup_same_urls(s.drop_last());
        assert forall|u: crate::node::UrlV| has_url(dedup_by_url(s), u) <==> has_url(s, u) by {
            let d = dedup_by_url(s);
            let dp = dedup_by_url(s.drop_last());
            let sp = s.drop_last();
            assert(forall|j: int| 0 <= j < sp.len() ==> #[trigger] sp[j] == s[j]);
            if has_url(sp, s.last()@.url) {
                assert(d == dp);
            } else {
                assert(d == dp.push(s.last()));
            }
            assert(forall|j: int| 0 <= j < dp.len() ==> #[trigger] d[j] == dp[j]);
            if has_url(d, u) {
                let i = choose|i: int| 0 <= i < d.len() && (#[trigger] d[i])@.url == u;
                if i < dp.len() {
                    assert(dp[i]@.url == u);
                    assert(has_url(dp, u));
                    assert(has_url(sp, u));
                    let j = choose|j: int| 0 <= j < sp.len() && (#[trigger] sp[j])@.url == u;
                    assert(s[j]@.url == u);
                    assert(has_url(s, u));
                } else {
                    assert(d[i] == s.last());
                    assert(s[s.len() - 1]@.url == u);
                    assert(has_url(s, u));
                }
            }
            if has_url(s, u) {
                let i = choose|i: int| 0 <= i < s.len() && (#[trigger] s[i])@.url == u;
                if i < s.len() - 1 {
                    assert(sp[i]@.url == u);
                    assert(has_url(sp, u));
                    assert(has_url(dp, u));
                    let j = choose|j: int| 0 <= j < dp.len() && (#[trigger] dp[j])@.url == u;
                    assert(d[j]@.url == u);
                    assert(has_url(d, u));
                } else {
                    assert(s[i] == s.last());
                    if has_url(sp, u) {
                        assert(has_url(dp, u));
                        let j = choose|j: int| 0 <= j < dp.len() && (#[trigger] dp[j])@.url == u;
                        assert(d[j]@.url == u);
                        assert(has_url(d, u));
                    } else {
                        assert(d == dp.push(s.last()));
                        assert(d[d.len() - 1]@.url == u);
                        assert(has_url(d, u));
                    }
                }
            }
        }
    }
}

/// Assembles a [`NodeManager`] from configuration. Registered nodes are
/// de-duplicated by URL on insertion: a second node with the URL of an
/// earlier one is dropped, whatever its auth, and the first keeps its
/// position.
#[derive(Debug)]
pub struct NodeManagerBuilder {
    pub primary_node: Option<Node>,
    pub primary_pow_node: Option<Node>,
    pub nodes: Vec<Node>,
    pub permanodes: Vec<Node>,
    pub ignore_node_health: bool,
    pub node_sync_interval_secs: u64,
    pub quorum: bool,
    pub min_quorum_size: usize,
    pub quorum_threshold: usize,
}

impl NodeManagerBuilder {
    /// A builder with no nodes, health checking on, quorum off, a minimum
    /// quorum of 3 at a 66 percent threshold, and a 60 second sync interval.
    pub fn new() -> (r: NodeManagerBuilder)
        ensures
            r.primary_node is None,
            r.primary_pow_node is None,
            r.nodes@ == Seq::<Node>::empty(),
            r.permanodes@ == Seq::<Node>::empty(),
            !r.ignore_node_health,
            r.node_sync_interval_secs == 60,
            !r.quorum,
            r.min_quorum_size == 3,
            r.quorum_threshold == 66,
    {
        NodeManagerBuilder {
            primary_node: None,
            primary_pow_node: None,
            nodes: Vec::new(),
            permanodes: Vec::new(),
            ignore_node_health: false,
            node_sync_interval_secs: 60,
            quorum: false,
            min_quorum_size: 3,
            quorum_threshold: 66,
        }
    }

    /// Sets the primary node.
    pub fn with_primary_node(self, node: Node) -> (r: Self)
        ensures
            r == (NodeManagerBuilder { primary_node: Some(node), ..self }),
    {
        NodeManagerBuilder { primary_node: Some(node), ..self }
    }

    /// Sets the primary node for remote proof-of-work.
    pub fn with_primary_pow_node(self, node: Node) -> (r: Self)
        ensures
            r == (NodeManagerBuilder { primary_pow_node: Some(node), ..self }),
    {
        NodeManagerBuilder { primary_pow_node: Some(node), ..self }
    }

    /// Registers a node in the general pool unless one with its URL is
    /// already registered.
    pub fn with_node(self, node: Node) -> (r: Self)
        ensures
            r.nodes@ == (if has_url(self.nodes@, node@.url) {
                self.nodes@
            } else {
                self.nodes@.push(node)
            }),
            r == (NodeManagerBuilder { nodes: r.nodes, ..self }),
    {
        let mut b = self;
        if !contains_url(&b.nodes, &node.url) {
            b.nodes.push(node);
        }
        b
    }

    /// Registers an archival node unless one with its URL is already
    /// registered as archival.
    pub fn with_permanode(self, node: Node) -> (r: Self)
        ensures
            r.permanodes@ == (if has_url(self.permanodes@, node@.url) {
                self.permanodes@
            } else {
                self.permanodes@.push(node)
            }),
            r == (NodeManagerBuilder { permanodes: r.permanodes, ..self }),
    {
        let mut b = self;
        if !contains_url(&b.permanodes, &node.url) {
            b.permanodes.push(node);
        }
        b
    }

    /// Sets whether the health snapshot is ignored.
    pub fn with_ignore_node_health(self, ignore: bool) -> (r: Self)
        ensures
            r == (NodeManagerBuilder { ignore_node_health: ignore, ..self }),
    {
        NodeManagerBuilder { ignore_node_health: ignore, ..self }
    }

    /// Sets the health re-sync interval in seconds.
    pub fn with_node_sync_interval_secs(self, secs: u64) -> (r: Self)
        ensures
            r == (NodeManagerBuilder { node_sync_interval_secs: secs, ..self }),
    {
        NodeManagerBuilder { node_sync_interval_secs: secs, ..self }
    }

    /// Enables or disables quorum voting.
    pub fn with_quorum(self, quorum: bool) -> (r: Self)
        ensures
            r == (NodeManagerBuilder { quorum: quorum, ..self }),
    {
        NodeManagerBuilder { quorum: quorum, ..self }
    }

    /// Sets the minimum number of candidates a quorum request fans out to.
    pub fn with_min_quorum_size(self, size: usize) -> (r: Self)
        ensures
            r == (NodeManagerBuilder { min_quorum_size: size, ..self }),
    {
        NodeManagerBuilder { min_quorum_size: size, ..self }
    }

    /// Sets the agreement threshold as a percentage from 0 to 100.
    pub fn with_quorum_threshold(self, percent: usize) -> (r: Self)
        requires
            percent <= 100,
        ensures
            r == (NodeManagerBuilder { quorum_threshold: percent, ..self }),
    {
        NodeManagerBuilder { quorum_threshold: percent, ..self }
    }

    /// Finishes the builder. The health snapshot starts empty; the external
    /// sync collaborator fills it later.
    pub fn build(self) -> (r: NodeManager)
        ensures
            r.primary_node == self.primary_node,
            r.primary_pow_node == self.primary_pow_node,
            r.nodes@ == self.nodes@,
            r.permanodes@ == self.permanodes@,
            r.ignore_node_health == self.ignore_node_health,
            r.node_sync_interval_secs == self.node_sync_interval_secs,
            r.healthy_nodes@ == Seq::<(Node, InfoResponse)>::empty(),
            r.quorum == self.quorum,
            r.min_quorum_size == self.min_quorum_size,
            r.quorum_threshold == self.quorum_threshold,
    {
        NodeManager {
            primary_node: self.primary_node,
            primary_pow_node: self.primary_pow_node,
            nodes: self.nodes,
            permanodes: self.permanodes,
            ignore_node_health: self.ignore_node_health,
            node_sync_interval_secs: self.node_sync_interval_secs,
            healthy_nodes: Vec::new(),
            quorum: self.quorum,
            min_quorum_size: self.min_quorum_size,
            quorum_threshold: self.quorum_threshold,
        }
    }
}

/// One step of the disabled filter.
pub proof fn lemma_enabled_push(s: Seq<Node>, x: Node)
    ensures
        enabled_nodes(s.push(x)) == (if x.disabled {
            enabled_nodes(s)
        } else {
            enabled_nodes(s).push(x)
        }),
{
    let t = s.push(x);
    assert(t.drop_last() =~= s);
    assert(t.last() == x);
}

/// One step of the health-snapshot walk.
pub proof fn lemma_snapshot_push(h: Seq<(Node, InfoResponse)>, x: (Node, InfoResponse), use_pow_nodes: bool)
    ensures
        snapshot_nodes(h.push(x), use_pow_nodes) == (if !use_pow_nodes
            || x.1.spec_advertises_pow() {
            snapshot_nodes(h, use_pow_nodes).push(x.0)
        } else {
            snapshot_nodes(h, use_pow_nodes)
        }),
{
    let t = h.push(x);
    assert(t.drop_last() =~= h);
    assert(t.last() == x);
}

/// A URL occurs in a concatenation exactly when it occurs in one part.
pub proof fn lemma_has_url_concat(a: Seq<Node>, b: Seq<Node>, u: crate::node::UrlV)
    ensures
        has_url(a + b, u) <==> (has_url(a, u) || has_url(b, u)),
{
    let t = a + b;
    if has_url(t, u) {
        let i = choose|i: int| 0 <= i < t.len() && (#[trigger] t[i])@.url == u;
        if i < a.len() {
            assert(a[i]@.url == u);
        } else {
            assert(b[i - a.len()]@.url == u);
        }
    }
    if has_url(a, u) {
        let i = choose|i: int| 0 <= i < a.len() && (#[trigger] a[i])@.url == u;
        assert(t[i]@.url == u);
    }
    if has_url(b, u) {
        let i = choose|i: int| 0 <= i < b.len() && (#[trigger] b[i])@.url == u;
        assert(t[a.len() + i]@.url == u);
    }
}

/// Every node of the de-duplicated sequence is a node of the input.
pub proof fn lemma_dedup_elements(s: Seq<Node>)
    ensures
        forall|i: int|
            0 <= i < dedup_by_url(s).len() ==> s.contains(#[trigger] dedup_by_url(s)[i]),
    decreases s.len(),
{
    if s.len() == 0 {
    } else {
        let sp = s.drop_last();
        lemma_dedup_elements(sp);
        let d = dedup_by_url(s);
        let dp = dedup_by_url(sp);
        assert forall|i: int| 0 <= i < d.len() implies s.contains(#[trigger] d[i]) by {
            if i < dp.len() {
                assert(d[i] == dp[i]);
                assert(sp.contains(dp[i]));
                let k = choose|k: int| 0 <= k < sp.len() && sp[k] == dp[i];
                assert(s[k] == dp[i]);
            } else {
                assert(d[i] == s.last());
                assert(s[s.len() - 1] == s.last());
            }
        }
    }
}

/// De-duplication leaves no two nodes sharing a URL.
pub proof fn lemma_dedup_unique(s: Seq<Node>)
    ensures
        urls_unique(dedup_by_url(s)),
    decreases s.len(),
{
    if s.len() == 0 {
    } else {
        let sp = s.drop_last();
        lemma_dedup_unique(sp);
        lemma_dedup_same_urls(sp);
        let d = dedup_by_url(s);
        let dp = dedup_by_url(sp);
        if has_url(sp, s.last()@.url) {
            assert(d == dp);
        } else {
            assert(d == dp.push(s.last()));
            assert forall|i: int, j: int|
                0 <= i < j < d.len() implies (#[trigger] d[i])@.url != (#[trigger] d[j])@.url by {
                if j < dp.len() {
                    assert(d[i] == dp[i] && d[j] == dp[j]);
                } else {
                    assert(d[j] == s.last());
                    assert(d[i] == dp[i]);
                    if dp[i]@.url == s.last()@.url {
                        assert(has_url(dp, s.last()@.url));
                    }
                }
            }
        }
    }
}

/// Every kept node of the de-duplicated sequence stands at the first
/// occurrence of its URL in the input, in input order.
pub proof fn lemma_dedup_first_occurrence(s: Seq<Node>)
    ensures
        forall|i: int|
            0 <= i < dedup_by_url(s).len() ==> exists|k: int|
                0 <= k < s.len() && s[k] == #[trigger] dedup_by_url(s)[i] && (forall|j: int|
                    0 <= j < k ==> (#[trigger] s[j])@.url != s[k]@.url),
    decreases s.len(),
{
    if s.len() == 0 {
    } else {
        let sp = s.drop_last();
        lemma_dedup_first_occurrence(sp);
        let d = dedup_by_url(s);
        let dp = dedup_by_url(sp);
        assert(forall|j: int| 0 <= j < sp.len() ==> #[trigger] sp[j] == s[j]);
        assert forall|i: int|
            0 <= i < d.len() implies exists|k: int|
            0 <= k < s.len() && s[k] == #[trigger] d[i] && (forall|j: int|
                0 <= j < k ==> (#[trigger] s[j])@.url != s[k]@.url) by {
            if i < dp.len() {
                assert(d[i] == dp[i]);
                let k = choose|k: int|
                    0 <= k < sp.len() && sp[k] == dp[i] && (forall|j: int|
                        0 <= j < k ==> (#[trigger] sp[j])@.url != sp[k]@.url);
                assert(s[k] == d[i]);
                assert forall|j: int| 0 <= j < k implies (#[trigger] s[j])@.url != s[k]@.url by {
                    assert(sp[j] == s[j]);
                    assert(sp[j]@.url != sp[k]@.url);
                }
            } else {
                assert(d[i] == s.last());
                let k = s.len() - 1;
                assert(!has_url(sp, s.last()@.url));
                assert(s[k] == d[i]);
                assert forall|j: int| 0 <= j < k implies (#[trigger] s[j])@.url != s[k]@.url by {
                    if s[j]@.url == s[k]@.url {
                        assert(sp[j]@.url == s.last()@.url);
                        assert(has_url(sp, s.last()@.url));
                    }
                }
            }
        }
    }
}

/// The disabled filter is the identity on a sequence with no disabled node.
pub proof fn lemma_enabled_all(s: Seq<Node>)
    requires
        forall|i: int| 0 <= i < s.len() ==> !(#[trigger] s[i]).disabled,
    ensures
        enabled_nodes(s) == s,
    decreases s.len(),
{
    if s.len() == 0 {
        assert(enabled_nodes(s) =~= s);
    } else {
        let sp = s.drop_last();
        assert(forall|j: int| 0 <= j < sp.len() ==> #[trigger] sp[j] == s[j]);
        lemma_enabled_all(sp);
        assert(!s.last().disabled);
        assert(enabled_nodes(s) == sp.push(s.last()));
        assert(sp.push(s.last()) =~= s);
    }
}

/// The disabled filter drops everything from a sequence of disabled nodes.
pub proof fn lemma_enabled_empty(s: Seq<Node>)
    requires
        forall|i: int| 0 <= i < s.len() ==> (#[trigger] s[i]).disabled,
    ensures
        enabled_nodes(s).len() == 0,
    decreases s.len(),
{
    if s.len() == 0 {
    } else {
        let sp = s.drop_last();
        assert(forall|j: int| 0 <= j < sp.len() ==> #[trigger] sp[j] == s[j]);
        lemma_enabled_empty(sp);
        assert(s[s.len() - 1].disabled);
    }
}

/// The disabled filter keeps only nodes of its input.
pub proof fn lemma_enabled_elements(s: Seq<Node>)
    ensures
        forall|i: int|
            0 <= i < enabled_nodes(s).len() ==> s.contains(#[trigger] enabled_nodes(s)[i]),
    decreases s.len(),
{
    if s.len() == 0 {
    } else {
        let sp = s.drop_last();
        lemma_enabled_elements(sp);
        let e = enabled_nodes(s);
        let ep = enabled_nodes(sp);
        assert forall|i: int| 0 <= i < e.len() implies s.contains(#[trigger] e[i]) by {
            if i < ep.len() {
                assert(e[i] == ep[i]);
                assert(sp.contains(ep[i]));
                let k = choose|k: int| 0 <= k < sp.len() && sp[k] == ep[i];
                assert(s[k] == ep[i]);
            } else {
                assert(e[i] == s.last());
                assert(s[s.len() - 1] == s.last());
            }
        }
    }
}

/// De-duplicating a concatenation keeps the de-duplication of the first
/// part as an unchanged prefix; everything after it comes from the second
/// part.
pub proof fn lemma_dedup_concat(a: Seq<Node>, b: Seq<Node>)
    ensures
        dedup_by_url(a).len() <= dedup_by_url(a + b).len(),
        dedup_by_url(a + b).take(dedup_by_url(a).len() as int) == dedup_by_url(a),
        forall|k: int|
            dedup_by_url(a).len() <= k < dedup_by_url(a + b).len() ==> has_url(
                b,
                (#[trigger] dedup_by_url(a + b)[k])@.url,
            ),
    decreases b.len(),
{
    if b.len() == 0 {
        assert(a + b =~= a);
        assert(dedup_by_url(a).take(dedup_by_url(a).len() as int) =~= dedup_by_url(a));
    } else {
        let bp = b.drop_last();
        let x = b.last();
        lemma_dedup_concat(a, bp);
        assert(a + b =~= (a + bp).push(x));
        lemma_dedup_push(a + bp, x);
        let dab = dedup_by_url(a + b);
        let dabp = dedup_by_url(a + bp);
        let da = dedup_by_url(a);
        assert(forall|j: int| 0 <= j < bp.len() ==> #[trigger] bp[j] == b[j]);
        if has_url(a + bp, x@.url) {
            assert(dab == dabp);
            assert forall|k: int| da.len() <= k < dab.len() implies has_url(
                b,
                (#[trigger] dab[k])@.url,
            ) by {
                assert(has_url(bp, dabp[k]@.url));
                let i = choose|i: int| 0 <= i < bp.len() && (#[trigger] bp[i])@.url == dabp[k]@.url;
                assert(b[i]@.url == dab[k]@.url);
            }
        } else {
            assert(dab == dabp.push(x));
            assert(dab.take(da.len() as int) =~= dabp.take(da.len() as int));
            assert forall|k: int| da.len() <= k < dab.len() implies has_url(
                b,
                (#[trigger] dab[k])@.url,
            ) by {
                if k < dabp.len() {
                    assert(dab[k] == dabp[k]);
                    assert(has_url(bp, dabp[k]@.url));
                    let i = choose|i: int|
                        0 <= i < bp.len() && (#[trigger] bp[i])@.url == dabp[k]@.url;
                    assert(b[i]@.url == dab[k]@.url);
                } else {
                    assert(dab[k] == x);
                    assert(b[b.len() - 1]@.url == x@.url);
                }
            }
        }
    }
}

/// Every qualifying snapshot entry contributes its node's URL to the
/// snapshot walk.
pub proof fn lemma_snapshot_covers(h: Seq<(Node, InfoResponse)>, use_pow_nodes: bool)
    ensures
        forall|i: int|
            0 <= i < h.len() && (!use_pow_nodes || (#[trigger] h[i]).1.spec_advertises_pow())
                ==> has_url(snapshot_nodes(h, use_pow_nodes), h[i].0@.url),
    decreases h.len(),
{
    if h.len() == 0 {
    } else {
        let hp = h.drop_last();
        lemma_snapshot_covers(hp, use_pow_nodes);
        let sn = snapshot_nodes(h, use_pow_nodes);
        let snp = snapshot_nodes(hp, use_pow_nodes);
        assert(forall|j: int| 0 <= j < hp.len() ==> #[trigger] hp[j] == h[j]);
        assert forall|i: int|
            0 <= i < h.len() && (!use_pow_nodes || (#[trigger] h[i]).1.spec_advertises_pow())
                implies has_url(sn, h[i].0@.url) by {
            if i < h.len() - 1 {
                assert(has_url(snp, hp[i].0@.url));
                let j = choose|j: int|
                    0 <= j < snp.len() && (#[trigger] snp[j])@.url == hp[i].0@.url;
                if !use_pow_nodes || h.last().1.spec_advertises_pow() {
                    assert(sn == snp.push(h.last().0));
                }
                assert(sn[j]@.url == h[i].0@.url);
            } else {
                assert(h[i] == h.last());
                assert(sn == snp.push(h.last().0));
                assert(sn[sn.len() - 1]@.url == h[i].0@.url);
            }
        }
    }
}

/// With health checking enabled and no disabled node among the raw
/// candidates, the selection covers the primary, the pow primary when
/// remote proof-of-work is required, and every qualifying health-snapshot
/// node; no two selected nodes share a URL; and no node stands before the
/// primary unless it came from the archival or pow segments.
pub proof fn lemma_selection_covers(
    m: NodeManager,
    path: Seq<char>,
    query: Option<Seq<char>>,
    use_pow_nodes: bool,
    prefer_permanode: bool,
)
    requires
        !m.ignore_node_health,
        forall|i: int|
            0 <= i < m.spec_raw_candidates(path, query, use_pow_nodes, prefer_permanode).len()
                ==> !(#[trigger] m.spec_raw_candidates(
                path,
                query,
                use_pow_nodes,
                prefer_permanode,
            )[i]).disabled,
    ensures
        urls_unique(m.spec_selected(path, query, use_pow_nodes, prefer_permanode)),
        m.primary_node matches Some(p) ==> has_url(
            m.spec_selected(path, query, use_pow_nodes, prefer_permanode),
            p@.url,
        ),
        use_pow_nodes && m.primary_pow_node is Some ==> has_url(
            m.spec_selected(path, query, use_pow_nodes, prefer_permanode),
            m.primary_pow_node->0@.url,
        ),
        forall|i: int|
            0 <= i < m.healthy_nodes@.len() && (!use_pow_nodes || (
            #[trigger] m.healthy_nodes@[i]).1.spec_advertises_pow()) ==> has_url(
                m.spec_selected(path, query, use_pow_nodes, prefer_permanode),
                m.healthy_nodes@[i].0@.url,
            ),
        m.primary_node matches Some(p) ==> exists|ip: int|
            0 <= ip < m.spec_selected(path, query, use_pow_nodes, prefer_permanode).len()
                && m.spec_selected(path, query, use_pow_nodes, prefer_permanode)[ip]@.url == p@.url
                && (forall|j: int|
                0 <= j < ip ==> has_url(
                    m.permanodes@ + opt_node_seq(m.primary_pow_node),
                    (#[trigger] m.spec_selected(path, query, use_pow_nodes, prefer_permanode)[j])@.url,
                )),
{
    let raw = m.spec_raw_candidates(path, query, use_pow_nodes, prefer_permanode);
    let d = dedup_by_url(raw);
    let sel = m.spec_selected(path, query, use_pow_nodes, prefer_permanode);
    let seg_archival: Seq<Node> = if spec_wants_archival(prefer_permanode, path, query) {
        m.permanodes@
    } else {
        Seq::empty()
    };
    let seg_pow: Seq<Node> = if use_pow_nodes {
        opt_node_seq(m.primary_pow_node)
    } else {
        Seq::empty()
    };
    let seg_primary = opt_node_seq(m.primary_node);
    let seg_pool = m.spec_pool(use_pow_nodes);
    let head = seg_archival + seg_pow;

    lemma_dedup_elements(raw);
    assert forall|i: int| 0 <= i < d.len() implies !(#[trigger] d[i]).disabled by {
        let k = choose|k: int| 0 <= k < raw.len() && raw[k] == d[i];
        assert(!raw[k].disabled);
    }
    lemma_enabled_all(d);
    assert(sel == d);
    lemma_dedup_unique(raw);
    lemma_dedup_same_urls(raw);

    // Membership claims follow from URL preservation through dedup.
    assert(raw =~= (head + seg_primary) + seg_pool);
    if m.primary_node is Some {
        let p = m.primary_node->0;
        assert(seg_primary[0] == p);
        assert(has_url(seg_primary, p@.url));
        lemma_has_url_concat(head, seg_primary, p@.url);
        lemma_has_url_concat(head + seg_primary, seg_pool, p@.url);
        assert(has_url(raw, p@.url));
    }
    if use_pow_nodes && m.primary_pow_node is Some {
        let q = m.primary_pow_node->0;
        assert(seg_pow[0] == q);
        assert(has_url(seg_pow, q@.url));
        lemma_has_url_concat(seg_archival, seg_pow, q@.url);
        lemma_has_url_concat(head, seg_primary, q@.url);
        lemma_has_url_concat(head + seg_primary, seg_pool, q@.url);
        assert(has_url(raw, q@.url));
    }
    lemma_snapshot_covers(m.healthy_nodes@, use_pow_nodes);
    assert forall|i: int|
        0 <= i < m.healthy_nodes@.len() && (!use_pow_nodes || (
        #[trigger] m.healthy_nodes@[i]).1.spec_advertises_pow()) implies has_url(
        sel,
        m.healthy_nodes@[i].0@.url,
    ) by {
        let u = m.healthy_nodes@[i].0@.url;
        assert(has_url(seg_pool, u));
        lemma_has_url_concat(head, seg_primary, u);
        lemma_has_url_concat(head + seg_primary, seg_pool, u);
        assert(has_url(raw, u));
        assert(has_url(d, u));
    }

    // Ordering claim: nothing stands before the primary except nodes of the
    // archival and pow segments.
    if m.primary_node is Some {
        let p = m.primary_node->0;
        lemma_dedup_concat(head + seg_primary, seg_pool);
        lemma_dedup_push(head, p);
        assert(head.push(p) =~= head + seg_primary);
        let dh = dedup_by_url(head);
        let dhp = dedup_by_url(head + seg_primary);
        lemma_dedup_elements(head);
        lemma_dedup_same_urls(head);
        assert(forall|k: int|
            0 <= k < dhp.len() ==> #[trigger] d[k] == dhp[k]);
        if has_url(head, p@.url) {
            assert(dhp == dh);
            let ip = choose|ip: int| 0 <= ip < dh.len() && (#[trigger] dh[ip])@.url == p@.url;
            assert forall|j: int| 0 <= j < ip implies has_url(
                m.permanodes@ + opt_node_seq(m.primary_pow_node),
                (#[trigger] sel[j])@.url,
            ) by {
                assert(sel[j] == dh[j]);
                assert(head.contains(dh[j]));
                let k = choose|k: int| 0 <= k < head.len() && head[k] == dh[j];
                assert(head[k]@.url == sel[j]@.url);
                assert(has_url(head, sel[j]@.url));
                lemma_has_url_concat(seg_archival, seg_pow, sel[j]@.url);
                lemma_has_url_concat(
                    m.permanodes@,
                    opt_node_seq(m.primary_pow_node),
                    sel[j]@.url,
                );
                if has_url(seg_archival, sel[j]@.url) {
                    assert(seg_archival == m.permanodes@);
                }
                if has_url(seg_pow, sel[j]@.url) {
                    assert(seg_pow == opt_node_seq(m.primary_pow_node));
                }
            }
            assert(sel[ip]@.url == p@.url);
        } else {
            assert(dhp == dh.push(p));
            let ip = dh.len() as int;
            assert(sel[ip]@.url == p@.url);
            assert forall|j: int| 0 <= j < ip implies has_url(
                m.permanodes@ + opt_node_seq(m.primary_pow_node),
                (#[trigger] sel[j])@.url,
            ) by {
                assert(sel[j] == dhp[j]);
                assert(dhp[j] == dh[j]);
                assert(head.contains(dh[j]));
                let k = choose|k: int| 0 <= k < head.len() && head[k] == dh[j];
                assert(head[k]@.url == sel[j]@.url);
                assert(has_url(head, sel[j]@.url));
                lemma_has_url_concat(seg_archival, seg_pow, sel[j]@.url);
                lemma_has_url_concat(
                    m.permanodes@,
                    opt_node_seq(m.primary_pow_node),
                    sel[j]@.url,
                );
                if has_url(seg_archival, sel[j]@.url) {
                    assert(seg_archival == m.permanodes@);
                }
                if has_url(seg_pow, sel[j]@.url) {
                    assert(seg_pow == opt_node_seq(m.primary_pow_node));
                }
            }
        }
    }
}

/// With every raw candidate disabled, the selection is empty, so
/// `get_nodes` fails: `NoHealthyNodes` when remote proof-of-work was not
/// required.
pub proof fn lemma_selection_all_disabled(
    m: NodeManager,
    path: Seq<char>,
    query: Option<Seq<char>>,
    use_pow_nodes: bool,
    prefer_permanode: bool,
)
    requires
        forall|i: int|
            0 <= i < m.spec_raw_candidates(path, query, use_pow_nodes, prefer_permanode).len()
                ==> (#[trigger] m.spec_raw_candidates(
                path,
                query,
                use_pow_nodes,
                prefer_permanode,
            )[i]).disabled,
    ensures
        m.spec_selected(path, query, use_pow_nodes, prefer_permanode).len() == 0,
{
    let raw = m.spec_raw_candidates(path, query, use_pow_nodes, prefer_permanode);
    let d = dedup_by_url(raw);
    lemma_dedup_elements(raw);
    assert forall|i: int| 0 <= i < d.len() implies (#[trigger] d[i]).disabled by {
        let k = choose|k: int| 0 <= k < raw.len() && raw[k] == d[i];
        assert(raw[k].disabled);
    }
    lemma_enabled_empty(d);
}

/// With remote proof-of-work required, no pow primary, no snapshot node
/// advertising the pow feature, health checking enabled, no archival
/// preference, no query, and no enabled primary, the selection is empty,
/// so `get_nodes` fails `NoPowCapableNode`.
pub proof fn lemma_selection_no_pow(m: NodeManager, path: Seq<char>)
    requires
        !m.ignore_node_health,
        m.primary_pow_node is None,
        forall|i: int|
            0 <= i < m.healthy_nodes@.len() ==> !(
            #[trigger] m.healthy_nodes@[i]).1.spec_advertises_pow(),
        m.primary_node matches Some(p) ==> p.disabled,
    ensures
        m.spec_selected(path, None, true, false).len() == 0,
{
    let raw = m.spec_raw_candidates(path, None, true, false);
    assert(!spec_wants_archival(false, path, Option::<Seq<char>>::None));
    lemma_snapshot_empty(m.healthy_nodes@);
    match m.primary_node {
        Some(p) => {
            assert(raw =~= seq![p]);
            assert(raw[0] == p);
        },
        None => {
            assert(raw =~= Seq::<Node>::empty());
        },
    }
    assert(forall|i: int| 0 <= i < raw.len() ==> (#[trigger] raw[i]).disabled);
    lemma_selection_all_disabled(m, path, None, true, false);
}

/// A snapshot with no pow-advertising entry contributes nothing when
/// remote proof-of-work is required.
pub proof fn lemma_snapshot_empty(h: Seq<(Node, InfoResponse)>)
    requires
        forall|i: int| 0 <= i < h.len() ==> !(#[trigger] h[i]).1.spec_advertises_pow(),
    ensures
        snapshot_nodes(h, true).len() == 0,
    decreases h.len(),
{
    if h.len() == 0 {
    } else {
        let hp = h.drop_last();
        assert(forall|j: int| 0 <= j < hp.len() ==> #[trigger] hp[j] == h[j]);
        lemma_snapshot_empty(hp);
        assert(h[h.len() - 1] == h.last());
    }
}

/// Selected nodes never share a URL, and each stands for the first raw
/// candidate that carried its URL: registering a second node with the URL
/// of an earlier one neither adds a candidate nor moves the first.
pub proof fn lemma_selection_identity(
    m: NodeManager,
    path: Seq<char>,
    query: Option<Seq<char>>,
    use_pow_nodes: bool,
    prefer_permanode: bool,
)
    ensures
        urls_unique(m.spec_selected(path, query, use_pow_nodes, prefer_permanode)),
        forall|i: int|
            0 <= i < m.spec_selected(path, query, use_pow_nodes, prefer_permanode).len()
                ==> exists|k: int|
                0 <= k < m.spec_raw_candidates(path, query, use_pow_nodes, prefer_permanode).len()
                    && m.spec_raw_candidates(path, query, use_pow_nodes, prefer_permanode)[k] == (
                #[trigger] m.spec_selected(path, query, use_pow_nodes, prefer_permanode)[i])
                    && (forall|j: int|
                    0 <= j < k ==> (#[trigger] m.spec_raw_candidates(
                        path,
                        query,
                        use_pow_nodes,
                        prefer_permanode,
                    )[j])@.url != m.spec_raw_candidates(
                        path,
                        query,
                        use_pow_nodes,
                        prefer_permanode,
                    )[k]@.url),
{
    let raw = m.spec_raw_candidates(path, query, use_pow_nodes, prefer_permanode);
    let d = dedup_by_url(raw);
    let sel = m.spec_selected(path, query, use_pow_nodes, prefer_permanode);
    lemma_dedup_unique(raw);
    lemma_enabled_elements(d);
    lemma_dedup_first_occurrence(raw);

    // Uniqueness survives the disabled filter: selected nodes are distinct
    // elements of the unique-URL sequence `d`.
    lemma_enabled_injective(d);
    assert forall|i: int| 0 <= i < sel.len() implies exists|k: int|
        0 <= k < raw.len() && raw[k] == (#[trigger] sel[i]) && (forall|j: int|
            0 <= j < k ==> (#[trigger] raw[j])@.url != raw[k]@.url) by {
        assert(d.contains(sel[i]));
        let t = choose|t: int| 0 <= t < d.len() && d[t] == sel[i];
        assert(exists|k: int|
            0 <= k < raw.len() && raw[k] == #[trigger] d[t] && (forall|j: int|
                0 <= j < k ==> (#[trigger] raw[j])@.url != raw[k]@.url));
        let k = choose|k: int|
            0 <= k < raw.len() && raw[k] == d[t] && (forall|j: int|
                0 <= j < k ==> (#[trigger] raw[j])@.url != raw[k]@.url);
        assert(raw[k] == sel[i]);
    }
}

/// The disabled filter keeps its input's relative order: any two kept
/// nodes stand in the input in the same order.
pub proof fn lemma_enabled_order(s: Seq<Node>)
    ensures
        forall|j1: int, j2: int|
            0 <= j1 < j2 < enabled_nodes(s).len() ==> exists|i1: int, i2: int|
                0 <= i1 < i2 < s.len() && s[i1] == (#[trigger] enabled_nodes(s)[j1]) && s[i2] == (
                #[trigger] enabled_nodes(s)[j2]),
    decreases s.len(),
{
    if s.len() == 0 {
    } else {
        let sp = s.drop_last();
        lemma_enabled_order(sp);
        lemma_enabled_elements(sp);
        let e = enabled_nodes(s);
        let ep = enabled_nodes(sp);
        assert(forall|k: int| 0 <= k < sp.len() ==> #[trigger] sp[k] == s[k]);
        assert forall|j1: int, j2: int|
            0 <= j1 < j2 < e.len() implies exists|i1: int, i2: int|
            0 <= i1 < i2 < s.len() && s[i1] == (#[trigger] e[j1]) && s[i2] == (
            #[trigger] e[j2]) by {
            if j2 < ep.len() {
                assert(e[j1] == ep[j1] && e[j2] == ep[j2]);
                let (i1, i2) = choose|i1: int, i2: int|
                    0 <= i1 < i2 < sp.len() && sp[i1] == ep[j1] && sp[i2] == ep[j2];
                assert(s[i1] == e[j1] && s[i2] == e[j2]);
            } else {
                assert(e == ep.push(s.last()));
                assert(e[j2] == s.last());
                assert(e[j1] == ep[j1]);
                assert(sp.contains(ep[j1]));
                let i1 = choose|i1: int| 0 <= i1 < sp.len() && sp[i1] == ep[j1];
                let i2 = s.len() - 1;
                assert(s[i1] == e[j1] && s[i2] == e[j2]);
            }
        }
    }
}

/// Whatever is disabled elsewhere, nothing the selection orders before the
/// primary's URL comes from the health snapshot or the general pool: every
/// earlier candidate carries an archival or pow-primary URL. In particular
/// the primary, when selected, is never ordered after a node that entered
/// only from the health snapshot.
pub proof fn lemma_primary_never_after_pool(
    m: NodeManager,
    path: Seq<char>,
    query: Option<Seq<char>>,
    use_pow_nodes: bool,
    prefer_permanode: bool,
)
    requires
        m.primary_node is Some,
    ensures
        forall|j: int, ip: int|
            0 <= j < ip < m.spec_selected(path, query, use_pow_nodes, prefer_permanode).len() && (
            #[trigger] m.spec_selected(path, query, use_pow_nodes, prefer_permanode)[ip])@.url
                == m.primary_node->0@.url ==> has_url(
                m.permanodes@ + opt_node_seq(m.primary_pow_node),
                (#[trigger] m.spec_selected(path, query, use_pow_nodes, prefer_permanode)[j])@.url,
            ),
{
    let raw = m.spec_raw_candidates(path, query, use_pow_nodes, prefer_permanode);
    let d = dedup_by_url(raw);
    let sel = m.spec_selected(path, query, use_pow_nodes, prefer_permanode);
    let p = m.primary_node->0;
    let seg_archival: Seq<Node> = if spec_wants_archival(prefer_permanode, path, query) {
        m.permanodes@
    } else {
        Seq::empty()
    };
    let seg_pow: Seq<Node> = if use_pow_nodes {
        opt_node_seq(m.primary_pow_node)
    } else {
        Seq::empty()
    };
    let head = seg_archival + seg_pow;
    let ap = head + opt_node_seq(m.primary_node);
    let dap = dedup_by_url(ap);
    assert(raw =~= ap + m.spec_pool(use_pow_nodes));
    lemma_dedup_unique(raw);
    lemma_dedup_concat(ap, m.spec_pool(use_pow_nodes));
    lemma_dedup_same_urls(ap);
    lemma_dedup_elements(ap);
    lemma_enabled_order(d);
    assert(ap[head.len() as int] == p);
    assert(has_url(ap, p@.url));
    assert(has_url(dap, p@.url));
    let ipd = choose|k: int| 0 <= k < dap.len() && (#[trigger] dap[k])@.url == p@.url;
    assert(forall|k: int| 0 <= k < dap.len() ==> #[trigger] d[k] == dap[k]);
    assert forall|j: int, ip: int|
        0 <= j < ip < sel.len() && (#[trigger] sel[ip])@.url == p@.url implies has_url(
        m.permanodes@ + opt_node_seq(m.primary_pow_node),
        (#[trigger] sel[j])@.url,
    ) by {
        let (i1, i2) = choose|i1: int, i2: int|
            0 <= i1 < i2 < d.len() && d[i1] == sel[j] && d[i2] == sel[ip];
        assert(d[i2]@.url == p@.url);
        assert(d[ipd]@.url == p@.url);
        assert(i2 == ipd);
        assert(i1 < dap.len());
        assert(d[i1] == dap[i1]);
        assert(ap.contains(dap[i1]));
        let k = choose|k: int| 0 <= k < ap.len() && ap[k] == dap[i1];
        if k == head.len() {
            assert(ap[k] == p);
            assert(d[i1]@.url == p@.url);
            assert(false);
        } else {
            assert(head[k] == ap[k]);
            assert(has_url(head, d[i1]@.url));
            lemma_has_url_concat(seg_archival, seg_pow, d[i1]@.url);
            lemma_has_url_concat(m.permanodes@, opt_node_seq(m.primary_pow_node), d[i1]@.url);
            if has_url(seg_archival, d[i1]@.url) {
                assert(seg_archival == m.permanodes@);
            }
            if has_url(seg_pow, d[i1]@.url) {
                assert(seg_pow == opt_node_seq(m.primary_pow_node));
            }
        }
    }
}

/// On a unique-URL sequence the disabled filter keeps URLs unique.
pub proof fn lemma_enabled_injective(s: Seq<Node>)
    requires
        urls_unique(s),
    ensures
        urls_unique(enabled_nodes(s)),
    decreases s.len(),
{
    if s.len() == 0 {
    } else {
        let sp = s.drop_last();
        assert(forall|j: int| 0 <= j < sp.len() ==> #[trigger] sp[j] == s[j]);
        lemma_enabled_injective(sp);
        let e = enabled_nodes(s);
        let ep = enabled_nodes(sp);
        if !s.last().disabled {
            assert(e == ep.push(s.last()));
            lemma_enabled_elements(sp);
            assert forall|i: int, j: int|
                0 <= i < j < e.len() implies (#[trigger] e[i])@.url != (#[trigger] e[j])@.url by {
                if j < ep.len() {
                    assert(e[i] == ep[i] && e[j] == ep[j]);
                } else {
                    assert(e[j] == s.last());
                    assert(e[i] == ep[i]);
                    assert(sp.contains(ep[i]));
                    let k = choose|k: int| 0 <= k < sp.len() && sp[k] == ep[i];
                    assert(s[k] == ep[i]);
                    assert(s[s.len() - 1] == s.last());
                }
            }
        }
    }
}

} // verus!
