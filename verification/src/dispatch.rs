//! The quorum dispatcher: verified request state machines.
//!
//! The transport adapter is external, so a request is a dialogue: the
//! surrounding program asks which node to contact, performs the call, and
//! hands back a [`TransportEvent`]; the state machine makes every decision.
//! A GET with quorum fans out in parallel and tallies identical bodies; all
//! other requests walk the candidate list sequentially until a success.

use vstd::prelude::*;
use vstd::pervasive::VecAdditionalExecFns;

use crate::error::Error;
use crate::node::{opt_str_view, Node};
use crate::node_manager::NodeManager;

verus! {

/// The outcome of one transport call, as the surrounding program saw it.
pub enum TransportEvent {
    /// The call succeeded and the body decoded; `text` is the canonical
    /// serialized body used for vote comparison.
    Body { text: String },
    /// The transport itself failed: refused connection, timeout, bad status.
    TransportFailed { message: String },
    /// The call succeeded but the body could not be decoded.
    DecodeFailed { message: String },
}

/// What a finished GET dispatch hands back.
pub enum GetOutcome {
    /// The accepted canonical body.
    Body { text: String },
    /// For the node-info endpoint: the body together with the node that
    /// answered, so the caller can route by "current" node.
    Info { text: String, node: Node },
}

/// Whether some tally entry already counts this body.
pub open spec fn tally_has_key(t: Seq<(String, usize)>, s: Seq<char>) -> bool {
    exists|i: int| 0 <= i < t.len() && (#[trigger] t[i]).0@ == s
}

/// No two tally entries count the same body.
pub open spec fn tally_keys_unique(t: Seq<(String, usize)>) -> bool {
    forall|i: int, j: int| 0 <= i < j < t.len() ==> (#[trigger] t[i]).0@ != (#[trigger] t[j]).0@
}

/// One vote added to a tally: the entry holding this body is incremented,
/// or a fresh entry with one vote is appended.
pub open spec fn spec_tally_bump(
    t_old: Seq<(String, usize)>,
    t_new: Seq<(String, usize)>,
    s: Seq<char>,
) -> bool {
    if tally_has_key(t_old, s) {
        &&& t_new.len() == t_old.len()
        &&& exists|i: int|
            0 <= i < t_old.len() && (#[trigger] t_old[i]).0@ == s && t_new[i].0@ == s
                && t_new[i].1 == t_old[i].1 + 1 && (forall|j: int|
                0 <= j < t_old.len() && j != i ==> t_new[j] == t_old[j])
    } else {
        &&& t_new.len() == t_old.len() + 1
        &&& t_new[t_old.len() as int].0@ == s
        &&& t_new[t_old.len() as int].1 == 1
        &&& forall|j: int| 0 <= j < t_old.len() ==> t_new[j] == t_old[j]
    }
}

/// The index of the winning tally entry: the highest count, ties broken in
/// favour of the earliest entry.
pub open spec fn winner_idx(t: Seq<(String, usize)>) -> int
    decreases t.len(),
{
    if t.len() <= 1 {
        0
    } else {
        let w = winner_idx(t.drop_last());
        if t.last().1 > t[w].1 {
            t.len() - 1
        } else {
            w
        }
    }
}

/// The winner holds a maximal count and is the earliest entry to do so.
pub proof fn lemma_winner(t: Seq<(String, usize)>)
    requires
        t.len() > 0,
    ensures
        0 <= winner_idx(t) < t.len(),
        forall|j: int| 0 <= j < t.len() ==> (#[trigger] t[j]).1 <= t[winner_idx(t)].1,
        forall|j: int| 0 <= j < winner_idx(t) ==> (#[trigger] t[j]).1 < t[winner_idx(t)].1,
    decreases t.len(),
{
    if t.len() == 1 {
    } else {
        let tp = t.drop_last();
        lemma_winner(tp);
        assert(forall|j: int| 0 <= j < tp.len() ==> #[trigger] tp[j] == t[j]);
        let w = winner_idx(t);
        let wp = winner_idx(tp);
        if t.last().1 > t[wp].1 {
            assert(w == t.len() - 1);
            assert(t[w] == t.last());
            assert forall|j: int| 0 <= j < w implies (#[trigger] t[j]).1 < t[w].1 by {
                assert(tp[j].1 <= tp[wp].1);
            }
        } else {
            assert(w == wp);
            assert forall|j: int| 0 <= j < t.len() implies (#[trigger] t[j]).1 <= t[w].1 by {
                if j < t.len() - 1 {
                    assert(tp[j].1 <= tp[wp].1);
                }
            }
            assert forall|j: int| 0 <= j < w implies (#[trigger] t[j]).1 < t[w].1 by {
                assert(tp[j].1 < tp[wp].1);
            }
        }
    }
}

/// The quorum acceptance rule on counts: one hundred times the winning
/// count must reach `min_quorum_size` times the threshold percentage. This
/// is the exact rational comparison `count >= min * (threshold / 100)`.
pub open spec fn spec_quorum_reached(count: int, min: int, threshold: int) -> bool {
    100 * count >= min * threshold
}

/// When a winner is accepted: quorum globally off, quorum not demanded by
/// this request, a query present (quorum skipped, nodes may differ in
/// retention), or the vote threshold reached.
pub open spec fn spec_accepts(
    quorum_enabled: bool,
    need_quorum: bool,
    has_query: bool,
    count: int,
    min: int,
    threshold: int,
) -> bool {
    ||| !quorum_enabled
    ||| !need_quorum
    ||| has_query
    ||| spec_quorum_reached(count, min, threshold)
}

/// A query string on a quorum-eligible request disables the quorum check:
/// whatever the counts, the winner is accepted.
pub proof fn lemma_query_disables_quorum(
    quorum_enabled: bool,
    need_quorum: bool,
    count: int,
    min: int,
    threshold: int,
)
    ensures
        spec_accepts(quorum_enabled, need_quorum, true, count, min, threshold),
{
}

/// With quorum on and demanded and no query present, acceptance is exactly
/// the threshold rule.
pub proof fn lemma_quorum_rule(count: int, min: int, threshold: int)
    ensures
        spec_accepts(true, true, false, count, min, threshold) == spec_quorum_reached(
            count,
            min,
            threshold,
        ),
{
}

/// Evaluates the quorum acceptance comparison exactly.
pub fn quorum_reached(count: usize, min: usize, threshold: usize) -> (r: bool)
    ensures
        r == spec_quorum_reached(count as int, min as int, threshold as int),
{
    proof {
        assert(count as u128 <= u64::MAX as u128);
        assert(min as u128 <= u64::MAX as u128);
        assert(threshold as u128 <= u64::MAX as u128);
        assert((min as u128) * (threshold as u128) <= (u64::MAX as u128) * (
        u64::MAX as u128)) by (nonlinear_arith)
            requires
                min as u128 <= u64::MAX as u128,
                threshold as u128 <= u64::MAX as u128,
        ;
    }
    (count as u128) * 100 >= (min as u128) * (threshold as u128)
}

/// A GET dispatch in progress: candidates, mode, the vote tally, and the
/// last swallowed error.
pub struct GetDispatch {
    /// The candidates, in selection order; in parallel mode, exactly the
    /// first `min_quorum_size` selected nodes.
    pub candidates: Vec<Node>,
    /// Quorum fan-out: all candidates are dispatched before any response is
    /// awaited, and no early return happens on first success.
    pub parallel: bool,
    /// Whether this request targets the node-info endpoint.
    pub is_info_path: bool,
    /// Whether quorum voting is enabled at all.
    pub quorum_enabled: bool,
    /// Whether this request asked for quorum.
    pub need_quorum: bool,
    /// Whether the request carries a query string.
    pub has_query: bool,
    /// Minimum number of candidates a quorum request fans out to.
    pub min_quorum_size: usize,
    /// Percentage (0 to 100) of `min_quorum_size` that must agree.
    pub threshold_percent: usize,
    /// How many transport events have been recorded.
    pub next_index: usize,
    /// Votes per canonical body, in order of first appearance.
    pub tally: Vec<(String, usize)>,
    /// Total number of successful, decoded responses.
    pub votes: usize,
    /// The last transport or decode error seen, surfaced only if the
    /// dispatch ends without an accepted response.
    pub last_error: Option<Error>,
    /// A node-info response accepted out of band: body and candidate index.
    pub info_accept: Option<(String, usize)>,
    /// No further node is contacted.
    pub halted: bool,
    /// The dispatch failed immediately (node-info body failed to decode).
    pub aborted: bool,
}

impl GetDispatch {
    /// Internal consistency of a dispatch state.
    pub open spec fn wf(&self) -> bool {
        &&& self.next_index <= self.candidates@.len()
        &&& self.votes <= self.next_index
        &&& tally_keys_unique(self.tally@)
        &&& forall|i: int|
            0 <= i < self.tally@.len() ==> (#[trigger] self.tally@[i]).1 <= self.votes
        &&& (self.info_accept matches Some(p) ==> p.1 < self.candidates@.len())
        &&& (self.aborted ==> self.halted && self.last_error is Some)
        &&& (self.info_accept is Some ==> self.halted && !self.aborted)
    }

    /// The configuration fields never change after planning.
    pub open spec fn same_config(&self, other: &GetDispatch) -> bool {
        &&& self.candidates == other.candidates
        &&& self.parallel == other.parallel
        &&& self.is_info_path == other.is_info_path
        &&& self.quorum_enabled == other.quorum_enabled
        &&& self.need_quorum == other.need_quorum
        &&& self.has_query == other.has_query
        &&& self.min_quorum_size == other.min_quorum_size
        &&& self.threshold_percent == other.threshold_percent
    }

    /// The node to contact next, or `None` when dispatching is over. In
    /// parallel mode the surrounding program instead dispatches all
    /// candidates at once and records their events in any order.
    pub fn next_node(&self) -> (r: Option<Node>)
        ensures
            match r {
                Some(n) => !self.halted && self.next_index < self.candidates@.len() && n
                    == self.candidates@[self.next_index as int],
                None => self.halted || self.next_index >= self.candidates@.len(),
            },
    {
        if self.halted || self.next_index >= self.candidates.len() {
            None
        } else {
            Some(self.candidates[self.next_index].clone())
        }
    }

    /// Feeds the outcome of one transport call into the dispatch.
    ///
    /// A success votes for its body and, sequentially, halts the walk as
    /// soon as quorum cannot demand more; on the node-info endpoint it is
    /// accepted out of band together with the answering node. Errors are
    /// remembered, never surfaced while candidates remain; in parallel mode
    /// a body that fails to decode is dropped from the tally silently.
    pub fn record(&mut self, event: TransportEvent)
        requires
            old(self).wf(),
            !old(self).halted,
            old(self).next_index < old(self).candidates@.len(),
        ensures
            final(self).wf(),
            final(self).same_config(old(self)),
            final(self).next_index == old(self).next_index + 1,
            (event matches TransportEvent::TransportFailed { message } ==> {
                &&& final(self).tally@ == old(self).tally@
                &&& final(self).votes == old(self).votes
                &&& final(self).info_accept == old(self).info_accept
                &&& final(self).last_error == Some(Error::TransportError { message })
                &&& !final(self).halted
                &&& !final(self).aborted
            }),
            (event matches TransportEvent::DecodeFailed { message } ==> {
                &&& final(self).tally@ == old(self).tally@
                &&& final(self).votes == old(self).votes
                &&& final(self).info_accept == old(self).info_accept
                &&& (old(self).parallel ==> final(self).last_error == old(self).last_error
                    && !final(self).halted && !final(self).aborted)
                &&& (!old(self).parallel ==> final(self).last_error == Some(
                    Error::DecodeError { message },
                ))
                &&& (!old(self).parallel && old(self).is_info_path ==> final(self).halted
                    && final(self).aborted)
                &&& (!old(self).parallel && !old(self).is_info_path ==> !final(self).halted
                    && !final(self).aborted)
            }),
            (event matches TransportEvent::Body { text } ==> {
                &&& (!old(self).parallel && old(self).is_info_path ==> {
                    &&& final(self).info_accept == Some((text, old(self).next_index))
                    &&& final(self).tally@ == old(self).tally@
                    &&& final(self).votes == old(self).votes
                    &&& final(self).last_error == old(self).last_error
                    &&& final(self).halted
                    &&& !final(self).aborted
                })
                &&& (old(self).parallel || !old(self).is_info_path ==> {
                    &&& spec_tally_bump(old(self).tally@, final(self).tally@, text@)
                    &&& final(self).votes == old(self).votes + 1
                    &&& final(self).last_error == old(self).last_error
                    &&& final(self).info_accept == old(self).info_accept
                    &&& !final(self).aborted
                    &&& final(self).halted == (!old(self).parallel && (!old(self).quorum_enabled
                        || old(self).votes + 1 >= old(self).min_quorum_size
                        || !old(self).need_quorum || old(self).has_query))
                })
            }),
    {
        let n = self.candidates.len();
        proof {
            assert(self.next_index < n);
            assert(self.votes < usize::MAX);
        }
        match event {
            TransportEvent::TransportFailed { message } => {
                self.last_error = Some(Error::TransportError { message });
            },
            TransportEvent::DecodeFailed { message } => {
                if !self.parallel {
                    self.last_error = Some(Error::DecodeError { message });
                    if self.is_info_path {
                        self.halted = true;
                        self.aborted = true;
                    }
                }
            },
            TransportEvent::Body { text } => {
                if !self.parallel && self.is_info_path {
                    self.info_accept = Some((text, self.next_index));
                    self.halted = true;
                } else {
                    tally_bump(&mut self.tally, text, Ghost(self.votes as nat));
                    self.votes = self.votes + 1;
                    if !self.parallel && (!self.quorum_enabled
                        || self.votes >= self.min_quorum_size || !self.need_quorum
                        || self.has_query) {
                        self.halted = true;
                    }
                }
            },
        }
        self.next_index = self.next_index + 1;
    }

    /// Decides the dispatch once no further node will be contacted: the
    /// node-info response if one was accepted, else the winning tally entry
    /// if the quorum rule accepts it, else the structural or last swallowed
    /// error.
    pub fn finish(self) -> (r: Result<GetOutcome, Error>)
        requires
            self.wf(),
            self.halted || self.next_index == self.candidates@.len(),
            self.tally@.len() > 0 || self.info_accept is Some || self.last_error is Some,
        ensures
            (self.info_accept matches Some(p) ==> (r matches Ok(o) && (o matches GetOutcome::Info {
                text,
                node,
            } && text == p.0 && node == self.candidates@[p.1 as int]))),
            (self.info_accept is None && self.aborted ==> (r matches Err(e) && Some(e)
                == self.last_error)),
            (self.info_accept is None && !self.aborted && self.tally@.len() == 0 ==> (r matches Err(
                e,
            ) && Some(e) == self.last_error)),
            (self.info_accept is None && !self.aborted && self.tally@.len() > 0 ==> {
                let w = winner_idx(self.tally@);
                if spec_accepts(
                    self.quorum_enabled,
                    self.need_quorum,
                    self.has_query,
                    self.tally@[w].1 as int,
                    self.min_quorum_size as int,
                    self.threshold_percent as int,
                ) {
                    r matches Ok(o) && (o matches GetOutcome::Body { text } && text@
                        == self.tally@[w].0@)
                } else {
                    r == Err::<GetOutcome, Error>(
                        Error::QuorumThresholdError {
                            achieved: self.tally@[w].1,
                            required: self.min_quorum_size,
                        },
                    )
                }
            }),
    {
        let GetDispatch {
            candidates,
            tally,
            last_error,
            info_accept,
            aborted,
            quorum_enabled,
            need_quorum,
            has_query,
            min_quorum_size,
            threshold_percent,
            ..
        } = self;
        match info_accept {
            Some(accepted) => {
                let node = candidates[accepted.1].clone();
                return Ok(GetOutcome::Info { text: accepted.0, node });
            },
            None => {},
        }
        if aborted {
            return match last_error {
                Some(e) => Err(e),
                None => vstd::pervasive::unreached(),
            };
        }
        if tally.len() == 0 {
            return match last_error {
                Some(e) => Err(e),
                None => vstd::pervasive::unreached(),
            };
        }
        let w = winner_of(&tally);
        proof {
            lemma_winner(tally@);
        }
        let count = tally[w].1;
        if !quorum_enabled || !need_quorum || has_query
            || quorum_reached(count, min_quorum_size, threshold_percent) {
            Ok(GetOutcome::Body { text: tally[w].0.clone() })
        } else {
            Err(Error::QuorumThresholdError { achieved: count, required: min_quorum_size })
        }
    }
}

/// Adds one vote for this body to the tally.
fn tally_bump(tally: &mut Vec<(String, usize)>, text: String, bound: Ghost<nat>)
    requires
        tally_keys_unique(old(tally)@),
        forall|i: int| 0 <= i < old(tally)@.len() ==> (#[trigger] old(tally)@[i]).1 <= bound@,
        bound@ < usize::MAX,
    ensures
        tally_keys_unique(final(tally)@),
        spec_tally_bump(old(tally)@, final(tally)@, text@),
        forall|i: int| 0 <= i < final(tally)@.len() ==> (#[trigger] final(tally)@[i]).1 <= bound@ + 1,
{
    let mut i: usize = 0;
    while i < tally.len()
        invariant
            0 <= i <= tally@.len(),
            *tally == *old(tally),
            tally_keys_unique(tally@),
            forall|k: int| 0 <= k < tally@.len() ==> (#[trigger] tally@[k]).1 <= bound@,
            bound@ < usize::MAX,
            forall|j: int| 0 <= j < i ==> (#[trigger] tally@[j]).0@ != text@,
        decreases tally@.len() - i,
    {
        if crate::node::str_eq(tally[i].0.as_str(), text.as_str()) {
            let count = tally[i].1;
            proof {
                assert(old(tally)@[i as int].0@ == text@);
                assert(tally_has_key(old(tally)@, text@));
            }
            tally.set(i, (text, count + 1));
            proof {
                assert forall|a: int, b: int|
                    0 <= a < b < tally@.len() implies (#[trigger] tally@[a]).0@ != (
                #[trigger] tally@[b]).0@ by {
                    if a == i as int {
                        assert(tally@[a].0@ == text@);
                        assert(tally@[b] == old(tally)@[b]);
                        assert(old(tally)@[b].0@ != old(tally)@[i as int].0@);
                    } else if b == i as int {
                        assert(tally@[b].0@ == text@);
                        assert(tally@[a] == old(tally)@[a]);
                        assert(old(tally)@[a].0@ != old(tally)@[i as int].0@);
                    } else {
                        assert(tally@[a] == old(tally)@[a]);
                        assert(tally@[b] == old(tally)@[b]);
                    }
                }
                assert(tally@[i as int].0@ == text@ && tally@[i as int].1 == old(tally)@[i
                    as int].1 + 1);
                assert(forall|j: int|
                    0 <= j < old(tally)@.len() && j != i as int ==> #[trigger] tally@[j] == old(
                    tally,
                )@[j]);
                assert(spec_tally_bump(old(tally)@, tally@, text@));
            }
            return ;
        }
        i += 1;
    }
    proof {
        assert(!tally_has_key(old(tally)@, text@));
    }
    tally.push((text, 1));
    proof {
        assert forall|a: int, b: int|
            0 <= a < b < tally@.len() implies (#[trigger] tally@[a]).0@ != (
        #[trigger] tally@[b]).0@ by {
            if b < tally@.len() - 1 {
                assert(tally@[a] == old(tally)@[a]);
                assert(tally@[b] == old(tally)@[b]);
            } else {
                assert(tally@[a] == old(tally)@[a]);
                assert(tally@[b].0@ == text@);
                assert(!tally_has_key(old(tally)@, text@));
            }
        }
    }
}

/// Finds the winning tally index: highest count, earliest entry on ties.
fn winner_of(t: &Vec<(String, usize)>) -> (w: usize)
    requires
        t@.len() > 0,
    ensures
        w as int == winner_idx(t@),
{
    let mut w: usize = 0;
    let mut i: usize = 1;
    proof {
        assert(t@.take(1).len() == 1);
        assert(winner_idx(t@.take(1)) == 0);
    }
    while i < t.len()
        invariant
            1 <= i <= t@.len(),
            w < i,
            w as int == winner_idx(t@.take(i as int)),
        decreases t@.len() - i,
    {
        proof {
            let prefix = t@.take(i as int + 1);
            lemma_winner(t@.take(i as int));
            assert(prefix.drop_last() =~= t@.take(i as int));
            assert(prefix.last() == t@[i as int]);
            assert(prefix[winner_idx(t@.take(i as int))] == t@[winner_idx(t@.take(i as int))]);
        }
        if t[i].1 > t[w].1 {
            w = i;
        }
        i += 1;
    }
    proof {
        assert(t@.take(t@.len() as int) =~= t@);
    }
    w
}

/// A sequential failover walk for raw-byte GETs and POSTs: candidates are
/// tried strictly in selector order; the first success is returned by the
/// caller; errors are remembered and only the last is surfaced, once the
/// list is exhausted.
pub struct Failover {
    /// The candidates, in selection order.
    pub candidates: Vec<Node>,
    /// How many candidates have been tried.
    pub next_index: usize,
    /// The error of the most recent failed candidate.
    pub last_error: Option<Error>,
}

impl Failover {
    /// Internal consistency: errors recorded only for tried candidates.
    pub open spec fn wf(&self) -> bool {
        &&& self.next_index <= self.candidates@.len()
        &&& (self.next_index > 0 <==> self.last_error is Some)
    }

    /// The node to try next, or `None` when the list is exhausted.
    pub fn next_node(&self) -> (r: Option<Node>)
        ensures
            match r {
                Some(n) => self.next_index < self.candidates@.len() && n
                    == self.candidates@[self.next_index as int],
                None => self.next_index >= self.candidates@.len(),
            },
    {
        if self.next_index >= self.candidates.len() {
            None
        } else {
            Some(self.candidates[self.next_index].clone())
        }
    }

    /// Remembers this candidate's error and moves to the next. An earlier
    /// error is replaced: only the last one is ever surfaced.
    pub fn record_failure(&mut self, error: Error)
        requires
            old(self).wf(),
            old(self).next_index < old(self).candidates@.len(),
        ensures
            final(self).wf(),
            final(self).candidates == old(self).candidates,
            final(self).next_index == old(self).next_index + 1,
            final(self).last_error == Some(error),
    {
        let n = self.candidates.len();
        proof {
            assert(self.next_index < n);
        }
        self.last_error = Some(error);
        self.next_index = self.next_index + 1;
    }

    /// Surfaces the last remembered error once every candidate has failed.
    pub fn into_error(self) -> (r: Error)
        requires
            self.wf(),
            self.next_index == self.candidates@.len(),
            self.next_index > 0,
        ensures
            Some(r) == self.last_error,
    {
        match self.last_error {
            Some(e) => e,
            None => vstd::pervasive::unreached(),
        }
    }
}

impl NodeManager {
    /// Plans a JSON GET. Selects candidates (never pow-gated), fails fast
    /// `QuorumPoolSizeError` when quorum is on and demanded but the pool is
    /// smaller than `min_quorum_size` — before any network call — and
    /// otherwise hands back a fresh dispatch, parallel exactly when quorum
    /// is on and demanded, no query is present, and the runtime supports
    /// concurrent dispatch (in parallel mode the candidates are the first
    /// `min_quorum_size` selected nodes).
    pub fn plan_get_request(
        &self,
        path: &str,
        query: Option<&str>,
        need_quorum: bool,
        prefer_permanode: bool,
        supports_concurrent_dispatch: bool,
    ) -> (r: Result<GetDispatch, Error>)
        ensures
            ({
                let sel = self.spec_selected(path@, opt_str_view(query), false, prefer_permanode);
                &&& (sel.len() == 0 ==> r == Err::<GetDispatch, Error>(Error::NoHealthyNodes))
                &&& (sel.len() > 0 && self.quorum && need_quorum && sel.len()
                    < self.min_quorum_size ==> r == Err::<GetDispatch, Error>(
                    Error::QuorumPoolSizeError {
                        available: sel.len() as usize,
                        required: self.min_quorum_size,
                    },
                ))
                &&& (sel.len() > 0 && !(self.quorum && need_quorum && sel.len()
                    < self.min_quorum_size) ==> (r matches Ok(d) && ({
                    let parallel = supports_concurrent_dispatch && self.quorum && need_quorum
                        && query is None;
                    &&& d.wf()
                    &&& d.parallel == parallel
                    &&& d.is_info_path == (path@ == "api/core/v2/info"@)
                    &&& d.quorum_enabled == self.quorum
                    &&& d.need_quorum == need_quorum
                    &&& d.has_query == (query is Some)
                    &&& d.min_quorum_size == self.min_quorum_size
                    &&& d.threshold_percent == self.quorum_threshold
                    &&& d.next_index == 0
                    &&& d.tally@ == Seq::<(String, usize)>::empty()
                    &&& d.votes == 0
                    &&& d.last_error is None
                    &&& d.info_accept is None
                    &&& !d.halted
                    &&& !d.aborted
                    &&& d.candidates@.len() == (if parallel {
                        self.min_quorum_size as int
                    } else {
                        sel.len() as int
                    })
                    &&& (forall|i: int|
                        0 <= i < d.candidates@.len() ==> (#[trigger] d.candidates@[i])@
                            == crate::node::with_target(sel[i]@, path@, opt_str_view(query)))
                })))
            }),
    {
        let candidates = match self.get_nodes(path, query, false, prefer_permanode) {
            Ok(v) => v,
            Err(e) => {
                return Err(e);
            },
        };
        if self.quorum && need_quorum && candidates.len() < self.min_quorum_size {
            return Err(
                Error::QuorumPoolSizeError {
                    available: candidates.len(),
                    required: self.min_quorum_size,
                },
            );
        }
        let parallel = supports_concurrent_dispatch && self.quorum && need_quorum
            && query.is_none();
        let mut candidates = candidates;
        if parallel {
            let ghost full = candidates@;
            candidates.truncate(self.min_quorum_size);
            proof {
                assert(candidates@ =~= full.take(self.min_quorum_size as int));
            }
        }
        Ok(
            GetDispatch {
                candidates,
                parallel,
                is_info_path: crate::node::str_eq(path, "api/core/v2/info"),
                quorum_enabled: self.quorum,
                need_quorum,
                has_query: query.is_some(),
                min_quorum_size: self.min_quorum_size,
                threshold_percent: self.quorum_threshold,
                next_index: 0,
                tally: Vec::new(),
                votes: 0,
                last_error: None,
                info_accept: None,
                halted: false,
                aborted: false,
            },
        )
    }

    /// Plans a raw-bytes GET: a plain sequential failover over the selected
    /// candidates, quorum never applied.
    pub fn plan_get_request_bytes(&self, path: &str, query: Option<&str>) -> (r: Result<
        Failover,
        Error,
    >)
        ensures
            ({
                let sel = self.spec_selected(path@, opt_str_view(query), false, false);
                &&& (r is Err <==> sel.len() == 0)
                &&& (r matches Err(e) ==> e is NoHealthyNodes)
                &&& (r matches Ok(f) ==> f.wf() && f.next_index == 0 && f.last_error is None
                    && f.candidates@.len() == sel.len() && (forall|i: int|
                    0 <= i < sel.len() ==> (#[trigger] f.candidates@[i])@
                        == crate::node::with_target(sel[i]@, path@, opt_str_view(query))))
            }),
    {
        match self.get_nodes(path, query, false, false) {
            Ok(candidates) => Ok(Failover { candidates, next_index: 0, last_error: None }),
            Err(e) => Err(e),
        }
    }

    /// Plans a POST: a sequential failover; with remote proof-of-work
    /// (`local_pow` false) the selection is pow-gated, so it fails
    /// `NoPowCapableNode` on an empty pool.
    pub fn plan_post_request(&self, path: &str, local_pow: bool) -> (r: Result<Failover, Error>)
        ensures
            ({
                let sel = self.spec_selected(path@, None, !local_pow, false);
                &&& (r is Err <==> sel.len() == 0)
                &&& (r matches Err(e) ==> if !local_pow {
                    e is NoPowCapableNode
                } else {
                    e is NoHealthyNodes
                })
                &&& (r matches Ok(f) ==> f.wf() && f.next_index == 0 && f.last_error is None
                    && f.candidates@.len() == sel.len() && (forall|i: int|
                    0 <= i < sel.len() ==> (#[trigger] f.candidates@[i])@
                        == crate::node::with_target(sel[i]@, path@, None)))
            }),
    {
        match self.get_nodes(path, None, !local_pow, false) {
            Ok(candidates) => Ok(Failover { candidates, next_index: 0, last_error: None }),
            Err(e) => Err(e),
        }
    }
}

} // verus!
