//! The permission broker: a table of outstanding tool-use permission
//! requests keyed by request identifier, and a memo of (session, tool) pairs
//! that have been durably pre-approved for the rest of the process's life.
//!
//! A pending request is consumed exactly once: whichever of response,
//! cancellation or timeout comes first takes the entry, and a later attempt
//! finds nothing. The memo is monotonic: no operation here clears an entry.

use vstd::prelude::*;
use vstd::string::StringExecFns;
use crate::json::{JsonValue, str_eq};
use crate::registry::{map_of, entry_ids, lemma_map_of_contains, lemma_map_of_index,
    lemma_map_of_remove, lemma_nodup_remove};

verus! {

/// A permission request submitted by the agent process.
pub struct PermissionRequest {
    pub request_id: String,
    pub session_id: String,
    pub tool_name: String,
    pub tool_input: JsonValue,
    pub tool_use_id: String,
    /// Human-readable description of the action.
    pub description: Option<String>,
}

/// The approver's decision.
#[derive(Clone, Copy, Debug, PartialEq, Eq, Structural)]
pub enum PermissionBehavior {
    Allow,
    Deny,
}

/// Why the broker refused an operation.
#[derive(Clone, Copy, Debug, PartialEq, Eq, Structural)]
pub enum BrokerError {
    /// The request identifier is unknown: never seen, already resolved, or
    /// expired.
    NotFound,
}

/// A permission response for a specific request.
pub struct PermissionResponse {
    pub request_id: String,
    pub behavior: PermissionBehavior,
    /// Message explaining a denial.
    pub message: Option<String>,
    /// Whether to interrupt execution, conventionally set on a denial.
    pub interrupt: Option<bool>,
    /// Whether the decision holds for the rest of the session.
    pub always_allow: Option<bool>,
}

/// A pending permission request waiting for a response, holding the
/// single-use slot through which the response travels back.
pub struct PendingPermission<S> {
    pub request: PermissionRequest,
    pub response_tx: S,
}

/// How one permission request ended: with a response, abandoned before an
/// answer, or after the full timeout window.
pub enum RequestOutcome {
    Resolved(PermissionResponse),
    Cancelled,
    TimedOut,
}

/// How a request begins at the broker: answered at once from the memo, or
/// registered as pending for the approver.
pub enum RequestStart {
    AutoAllowed(PermissionResponse),
    Registered,
}

/// Seconds an unanswered request waits before it resolves to a timeout.
pub const PERMISSION_TIMEOUT_SECS: u64 = 300;

/// The models of the memo entries.
pub open spec fn memo_pairs(s: Seq<(String, String)>) -> Seq<(Seq<char>, Seq<char>)> {
    Seq::new(s.len(), |i: int| (s[i].0@, s[i].1@))
}

/// The broker's two tables.
pub struct PermissionBroker<S> {
    pending: Vec<(String, PendingPermission<S>)>,
    memo: Vec<(String, String)>,
}

impl<S> PermissionBroker<S> {
    /// The map of outstanding requests, keyed by request identifier.
    pub closed spec fn pending_map(&self) -> Map<Seq<char>, PendingPermission<S>> {
        map_of(self.pending@)
    }

    /// The set of (session, tool) pairs approved for the session's lifetime.
    pub closed spec fn memo_set(&self) -> Set<(Seq<char>, Seq<char>)> {
        memo_pairs(self.memo@).to_set()
    }

    /// No two pending entries share a request identifier.
    pub closed spec fn wf(&self) -> bool {
        forall|x: int, y: int|
            0 <= x < y < self.pending@.len() ==> entry_ids(self.pending@)[x] != entry_ids(
                self.pending@,
            )[y]
    }

    /// A broker with no pending requests and an empty memo.
    pub fn new() -> (r: PermissionBroker<S>)
        ensures
            r.wf(),
            r.pending_map() == Map::<Seq<char>, PendingPermission<S>>::empty(),
            r.memo_set() == Set::<(Seq<char>, Seq<char>)>::empty(),
    {
        let r = PermissionBroker { pending: Vec::new(), memo: Vec::new() };
        proof {
            assert(memo_pairs(r.memo@).to_set() =~= Set::<(Seq<char>, Seq<char>)>::empty());
        }
        r
    }

    /// The index of the pending entry for a request identifier, if any.
    fn find_pending(&self, request_id: &str) -> (r: Option<usize>)
        ensures
            r matches Some(i) ==> i < self.pending@.len() && self.pending@[
                i as int
            ].0@ == request_id@,
            r is None ==> !entry_ids(self.pending@).contains(request_id@),
    {
        let mut i: usize = 0;
        while i < self.pending.len()
            invariant
                i <= self.pending@.len(),
                forall|j: int| 0 <= j < i ==> self.pending@[j].0@ != request_id@,
            decreases self.pending@.len() - i,
        {
            if str_eq(self.pending[i].0.as_str(), request_id) {
                return Some(i);
            }
            i += 1;
        }
        proof {
            if entry_ids(self.pending@).contains(request_id@) {
                let j = choose|j: int|
                    0 <= j < entry_ids(self.pending@).len() && entry_ids(self.pending@)[j]
                        == request_id@;
                assert(self.pending@[j].0@ == request_id@);
            }
        }
        None
    }

    /// Whether this (session, tool) pair has been durably pre-approved.
    pub fn is_always_allowed(&self, session_id: &str, tool_name: &str) -> (r: bool)
        ensures
            r == self.memo_set().contains((session_id@, tool_name@)),
    {
        let mut i: usize = 0;
        while i < self.memo.len()
            invariant
                i <= self.memo@.len(),
                forall|j: int|
                    0 <= j < i ==> memo_pairs(self.memo@)[j] != (session_id@, tool_name@),
            decreases self.memo@.len() - i,
        {
            if str_eq(self.memo[i].0.as_str(), session_id) && str_eq(
                self.memo[i].1.as_str(),
                tool_name,
            ) {
                proof {
                    assert(memo_pairs(self.memo@)[i as int] == (session_id@, tool_name@));
                    assert(memo_pairs(self.memo@).contains((session_id@, tool_name@)));
                }
                return true;
            }
            i += 1;
        }
        proof {
            if memo_pairs(self.memo@).contains((session_id@, tool_name@)) {
                let j = choose|j: int|
                    0 <= j < memo_pairs(self.memo@).len() && memo_pairs(self.memo@)[j] == (
                        session_id@,
                        tool_name@,
                    );
            }
        }
        false
    }

    /// Records that this (session, tool) pair is approved for the rest of
    /// the session. Nothing in this broker ever removes such an entry.
    pub fn set_always_allowed(&mut self, session_id: &str, tool_name: &str)
        ensures
            final(self).memo_set() == old(self).memo_set().insert((session_id@, tool_name@)),
            final(self).pending_map() == old(self).pending_map(),
            final(self).wf() == old(self).wf(),
    {
        let ghost pre = self.memo@;
        let pair = (String::from_str(session_id), String::from_str(tool_name));
        self.memo.push(pair);
        proof {
            assert(memo_pairs(self.memo@).drop_last() =~= memo_pairs(pre));
            assert(memo_pairs(self.memo@).last() == (session_id@, tool_name@));
            assert(memo_pairs(self.memo@).to_set() =~= memo_pairs(pre).to_set().insert(
                (session_id@, tool_name@),
            )) by {
                assert forall|p: (Seq<char>, Seq<char>)|
                    memo_pairs(self.memo@).to_set().contains(p) implies memo_pairs(
                    pre,
                ).to_set().insert((session_id@, tool_name@)).contains(p) by {
                    let j = choose|j: int|
                        0 <= j < memo_pairs(self.memo@).len() && memo_pairs(self.memo@)[j] == p;
                    if j < memo_pairs(pre).len() {
                        assert(memo_pairs(pre)[j] == p);
                        assert(memo_pairs(pre).contains(p));
                    }
                }
                assert forall|p: (Seq<char>, Seq<char>)|
                    memo_pairs(pre).to_set().insert((session_id@, tool_name@)).contains(
                    p,
                ) implies memo_pairs(self.memo@).to_set().contains(p) by {
                    if p == (session_id@, tool_name@) {
                        assert(memo_pairs(self.memo@)[memo_pairs(self.memo@).len() - 1] == p);
                        assert(memo_pairs(self.memo@).contains(p));
                    } else {
                        let j = choose|j: int|
                            0 <= j < memo_pairs(pre).len() && memo_pairs(pre)[j] == p;
                        assert(memo_pairs(self.memo@)[j] == p);
                        assert(memo_pairs(self.memo@).contains(p));
                    }
                }
            }
        }
    }

    /// Stores a pending request under its identifier; an entry already under
    /// that identifier is replaced.
    pub fn add_pending(&mut self, request_id: String, pending: PendingPermission<S>)
        requires
            old(self).wf(),
        ensures
            final(self).wf(),
            final(self).pending_map() == old(self).pending_map().insert(request_id@, pending),
            final(self).memo_set() == old(self).memo_set(),
    {
        match self.find_pending(request_id.as_str()) {
            Some(i) => {
                let ghost pre = self.pending@;
                proof {
                    lemma_map_of_remove(pre, i as int);
                }
                let _ = self.pending.remove(i);
                proof {
                    assert(entry_ids(self.pending@) =~= entry_ids(pre).remove(i as int)) by {
                        assert(pre.remove(i as int) =~= pre.subrange(0, i as int) + pre.subrange(
                            i as int + 1,
                            pre.len() as int,
                        ));
                        assert(entry_ids(pre).remove(i as int) =~= entry_ids(pre).subrange(
                            0,
                            i as int,
                        ) + entry_ids(pre).subrange(i as int + 1, entry_ids(pre).len() as int));
                    }
                    lemma_nodup_remove(entry_ids(pre), i as int);
                }
                let ghost mid = self.pending@;
                self.pending.push((request_id, pending));
                proof {
                    assert(self.pending@.drop_last() =~= mid);
                    assert(entry_ids(self.pending@).drop_last() =~= entry_ids(mid));
                    assert(!entry_ids(mid).contains(self.pending@.last().0@)) by {
                        if entry_ids(mid).contains(self.pending@.last().0@) {
                            let j = choose|j: int|
                                0 <= j < entry_ids(mid).len() && entry_ids(mid)[j]
                                    == self.pending@.last().0@;
                            let jj: int = if j < i as int {
                                j
                            } else {
                                j + 1
                            };
                            assert(entry_ids(mid)[j] == entry_ids(pre)[jj]) by {
                                assert(pre.remove(i as int) =~= pre.subrange(0, i as int)
                                    + pre.subrange(i as int + 1, pre.len() as int));
                            }
                            assert(entry_ids(pre)[jj] == entry_ids(pre)[i as int]);
                        }
                    }
                    assert forall|x: int, y: int|
                        0 <= x < y < self.pending@.len() implies entry_ids(self.pending@)[x]
                        != entry_ids(self.pending@)[y] by {
                        if y == self.pending@.len() - 1 {
                            assert(entry_ids(self.pending@)[x] == entry_ids(mid)[x]);
                            assert(entry_ids(mid).contains(entry_ids(mid)[x]));
                        } else {
                            assert(entry_ids(self.pending@)[x] == entry_ids(mid)[x]);
                            assert(entry_ids(self.pending@)[y] == entry_ids(mid)[y]);
                        }
                    }
                    assert(map_of(self.pending@) =~= map_of(pre).insert(
                        self.pending@.last().0@,
                        self.pending@.last().1,
                    )) by {
                        assert(map_of(self.pending@) == map_of(mid).insert(
                            self.pending@.last().0@,
                            self.pending@.last().1,
                        ));
                        assert(map_of(mid) == map_of(pre).remove(entry_ids(pre)[i as int]));
                        assert(entry_ids(pre)[i as int] == self.pending@.last().0@);
                    }
                }
            },
            None => {
                let ghost pre = self.pending@;
                self.pending.push((request_id, pending));
                proof {
                    assert(self.pending@.drop_last() =~= pre);
                    assert(entry_ids(self.pending@).drop_last() =~= entry_ids(pre));
                    assert forall|x: int, y: int|
                        0 <= x < y < self.pending@.len() implies entry_ids(self.pending@)[x]
                        != entry_ids(self.pending@)[y] by {
                        if y == self.pending@.len() - 1 {
                            assert(entry_ids(self.pending@)[x] == entry_ids(pre)[x]);
                            assert(entry_ids(self.pending@)[y] == self.pending@.last().0@);
                            if entry_ids(pre)[x] == self.pending@.last().0@ {
                                assert(entry_ids(pre).contains(self.pending@.last().0@));
                            }
                        } else {
                            assert(entry_ids(self.pending@)[x] == entry_ids(pre)[x]);
                            assert(entry_ids(self.pending@)[y] == entry_ids(pre)[y]);
                        }
                    }
                }
            },
        }
    }

    /// Removes and returns the pending request under an identifier. Whoever
    /// takes the entry resolves it; a second take finds nothing.
    pub fn take_pending(&mut self, request_id: &str) -> (r: Option<PendingPermission<S>>)
        requires
            old(self).wf(),
        ensures
            final(self).wf(),
            r is Some <==> old(self).pending_map().contains_key(request_id@),
            r matches Some(p) ==> p == old(self).pending_map()[request_id@]
                && final(self).pending_map() == old(self).pending_map().remove(request_id@),
            r is None ==> *final(self) == *old(self),
            final(self).memo_set() == old(self).memo_set(),
    {
        proof {
            lemma_map_of_contains(self.pending@, request_id@);
        }
        match self.find_pending(request_id) {
            Some(i) => {
                let ghost pre = self.pending@;
                proof {
                    lemma_map_of_index(pre, i as int);
                    lemma_map_of_remove(pre, i as int);
                }
                let (_, p) = self.pending.remove(i);
                proof {
                    assert(entry_ids(self.pending@) =~= entry_ids(pre).remove(i as int)) by {
                        assert(pre.remove(i as int) =~= pre.subrange(0, i as int) + pre.subrange(
                            i as int + 1,
                            pre.len() as int,
                        ));
                        assert(entry_ids(pre).remove(i as int) =~= entry_ids(pre).subrange(
                            0,
                            i as int,
                        ) + entry_ids(pre).subrange(i as int + 1, entry_ids(pre).len() as int));
                    }
                    lemma_nodup_remove(entry_ids(pre), i as int);
                }
                Some(p)
            },
            None => None,
        }
    }

    /// The identifiers of the pending requests that belong to one session:
    /// every returned identifier is a pending key whose request carries the
    /// session, every such key is returned, and none is returned twice. The
    /// tables are untouched.
    #[verifier::loop_isolation(false)]
    #[verifier::rlimit(100)]
    #[verifier::spinoff_prover]
    pub fn get_pending_for_session(&self, session_id: &str) -> (r: Vec<String>)
        requires
            self.wf(),
        ensures
            forall|j: int|
                0 <= j < r@.len() ==> self.pending_map().contains_key((#[trigger] r@[j])@)
                    && self.pending_map()[r@[j]@].request.session_id@ == session_id@,
            forall|k: Seq<char>|
                #[trigger] self.pending_map().contains_key(k) && self.pending_map()[
                    k
                ].request.session_id@ == session_id@ ==> exists|j: int|
                    0 <= j < r@.len() && (#[trigger] r@[j])@ == k,
            forall|x: int, y: int| 0 <= x < y < r@.len() ==> (#[trigger] r@[x])@ != (
            #[trigger] r@[y])@,
    {
        let ghost es = self.pending@;
        let mut out: Vec<String> = Vec::new();
        let mut i: usize = 0;
        while i < self.pending.len()
            invariant
                i <= es.len(),
                forall|j: int|
                    0 <= j < out@.len() ==> exists|t: int|
                        0 <= t < i && es[t].0@ == (#[trigger] out@[j])@ && es[
                            t
                        ].1.request.session_id@ == session_id@,
                forall|t: int|
                    0 <= t < i && (#[trigger] es[t]).1.request.session_id@ == session_id@
                        ==> exists|j: int| 0 <= j < out@.len() && (#[trigger] out@[j])@ == es[
                        t
                    ].0@,
                forall|x: int, y: int| 0 <= x < y < out@.len() ==> (#[trigger] out@[x])@ != (
                #[trigger] out@[y])@,
            decreases es.len() - i,
        {
            if str_eq(self.pending[i].1.request.session_id.as_str(), session_id) {
                let id = self.pending[i].0.clone();
                let ghost pre = out@;
                out.push(id);
                proof {
                    assert((out@[pre.len() as int])@ == es[i as int].0@);
                    assert forall|j: int|
                        0 <= j < out@.len() implies exists|t: int|
                        0 <= t < i + 1 && es[t].0@ == (#[trigger] out@[j])@ && es[
                            t
                        ].1.request.session_id@ == session_id@ by {
                        if j < pre.len() {
                            assert(out@[j] == pre[j]);
                            let t = choose|t: int|
                                0 <= t < i && es[t].0@ == pre[j]@ && es[
                                    t
                                ].1.request.session_id@ == session_id@;
                            assert(0 <= t < i + 1 && es[t].0@ == out@[j]@ && es[
                                t
                            ].1.request.session_id@ == session_id@);
                        } else {
                            assert(0 <= i < i + 1 && es[i as int].0@ == out@[j]@ && es[
                                i as int
                            ].1.request.session_id@ == session_id@);
                        }
                    }
                    assert forall|t: int|
                        0 <= t < i + 1 && (#[trigger] es[t]).1.request.session_id@
                            == session_id@ implies exists|j: int|
                        0 <= j < out@.len() && (#[trigger] out@[j])@ == es[t].0@ by {
                        if t < i {
                            let j = choose|j: int|
                                0 <= j < pre.len() && (pre[j])@ == es[t].0@;
                            assert(out@[j] == pre[j]);
                            assert(0 <= j < out@.len() && out@[j]@ == es[t].0@);
                        } else {
                            assert(out@[pre.len() as int]@ == es[t].0@);
                        }
                    }
                    assert forall|x: int, y: int|
                        0 <= x < y < out@.len() implies (#[trigger] out@[x])@ != (
                    #[trigger] out@[y])@ by {
                        if y == out@.len() - 1 {
                            let t = choose|t: int|
                                0 <= t < i && es[t].0@ == out@[x]@ && es[
                                    t
                                ].1.request.session_id@ == session_id@;
                            assert(entry_ids(es)[t] == es[t].0@);
                            assert(entry_ids(es)[i as int] == es[i as int].0@);
                            assert(entry_ids(es)[t] != entry_ids(es)[i as int]);
                        } else {
                            assert(out@[x]@ == pre[x]@);
                            assert(out@[y]@ == pre[y]@);
                        }
                    }
                }
            }
            i += 1;
        }
        proof {
            assert forall|j: int|
                0 <= j < out@.len() implies self.pending_map().contains_key(
                (#[trigger] out@[j])@,
            ) && self.pending_map()[out@[j]@].request.session_id@ == session_id@ by {
                let t = choose|t: int|
                    0 <= t < es.len() && es[t].0@ == out@[j]@ && es[t].1.request.session_id@
                        == session_id@;
                lemma_map_of_index(es, t);
            }
            assert forall|k: Seq<char>|
                #[trigger] self.pending_map().contains_key(k) && self.pending_map()[
                    k
                ].request.session_id@ == session_id@ implies exists|j: int|
                0 <= j < out@.len() && (#[trigger] out@[j])@ == k by {
                lemma_map_of_contains(es, k);
                let t = choose|t: int|
                    0 <= t < entry_ids(es).len() && entry_ids(es)[t] == k;
                assert(es[t].0@ == k);
                lemma_map_of_index(es, t);
                assert(es[t].1.request.session_id@ == session_id@);
            }
        }
        out
    }
}

/// The response used when the memo, or a headless fallback, answers a
/// request without the approver: an allow that announces itself as durable.
pub fn auto_allow_response(request_id: &str) -> (r: PermissionResponse)
    ensures
        r.request_id@ == request_id@,
        r.behavior is Allow,
        r.message is None,
        r.interrupt is None,
        r.always_allow == Some(true),
{
    PermissionResponse {
        request_id: String::from_str(request_id),
        behavior: PermissionBehavior::Allow,
        message: None,
        interrupt: None,
        always_allow: Some(true),
    }
}

/// The protocol status for each terminal outcome: a resolved request
/// returns its response, a cancelled one is gone, and a timeout is reported
/// distinctly from cancellation.
pub fn outcome_status(outcome: &RequestOutcome) -> (r: u16)
    ensures
        outcome matches RequestOutcome::Resolved(_) ==> r == 200,
        outcome is Cancelled ==> r == 410,
        outcome is TimedOut ==> r == 408,
{
    match outcome {
        RequestOutcome::Resolved(_) => 200,
        RequestOutcome::Cancelled => 410,
        RequestOutcome::TimedOut => 408,
    }
}

impl<S> PermissionBroker<S> {
    /// Starts one permission request. A (session, tool) pair already in the
    /// memo resolves at once to an allow, with no pending entry created and
    /// no event for the approver. Otherwise the request is registered as
    /// pending under its identifier; the caller then publishes the
    /// permission-request event and waits on the slot.
    pub fn begin_request(&mut self, request: PermissionRequest, response_tx: S) -> (r:
        RequestStart)
        requires
            old(self).wf(),
        ensures
            final(self).wf(),
            final(self).memo_set() == old(self).memo_set(),
            old(self).memo_set().contains((request.session_id@, request.tool_name@)) ==> (
            r matches RequestStart::AutoAllowed(resp) && resp.request_id@ == request.request_id@
                && resp.behavior is Allow && resp.always_allow == Some(true) && resp.message
                is None && resp.interrupt is None && final(self).pending_map() == old(
                self,
            ).pending_map()),
            !old(self).memo_set().contains((request.session_id@, request.tool_name@)) ==> (r
                is Registered && final(self).pending_map() == old(self).pending_map().insert(
                request.request_id@,
                (PendingPermission { request, response_tx }),
            )),
    {
        if self.is_always_allowed(request.session_id.as_str(), request.tool_name.as_str()) {
            RequestStart::AutoAllowed(auto_allow_response(request.request_id.as_str()))
        } else {
            let request_id = request.request_id.clone();
            self.add_pending(request_id, PendingPermission { request, response_tx });
            RequestStart::Registered
        }
    }

    /// The Approval Command's entry point: looks up and removes the pending
    /// entry in one step, handing back the request and its response slot, or
    /// reports that the identifier is unknown — already resolved, expired,
    /// or never seen — rather than silently succeeding.
    pub fn resolve(&mut self, request_id: &str) -> (r: Result<
        PendingPermission<S>,
        BrokerError,
    >)
        requires
            old(self).wf(),
        ensures
            final(self).wf(),
            r is Ok <==> old(self).pending_map().contains_key(request_id@),
            r matches Ok(p) ==> p == old(self).pending_map()[request_id@]
                && final(self).pending_map() == old(self).pending_map().remove(request_id@),
            r matches Err(e) ==> e is NotFound && *final(self) == *old(self),
            final(self).memo_set() == old(self).memo_set(),
    {
        match self.take_pending(request_id) {
            Some(p) => Ok(p),
            None => Err(BrokerError::NotFound),
        }
    }

    /// Applies a received response's durable-approval wish: an allow with
    /// `always_allow` set records the (session, tool) pair before the caller
    /// returns; any other response leaves the memo alone.
    pub fn record_response(
        &mut self,
        session_id: &str,
        tool_name: &str,
        response: &PermissionResponse,
    )
        ensures
            final(self).pending_map() == old(self).pending_map(),
            final(self).wf() == old(self).wf(),
            final(self).memo_set() == (if response.behavior is Allow && response.always_allow
                == Some(true) {
                old(self).memo_set().insert((session_id@, tool_name@))
            } else {
                old(self).memo_set()
            }),
    {
        let durable = match response.behavior {
            PermissionBehavior::Allow => {
                match response.always_allow {
                    Some(b) => b,
                    None => false,
                }
            },
            PermissionBehavior::Deny => false,
        };
        if durable {
            self.set_always_allowed(session_id, tool_name);
        }
    }

    /// Evicts a request whose timeout window has elapsed: afterward no entry
    /// is pending under the identifier, and the request resolves to a
    /// timeout outcome — unless it was already resolved, in which case
    /// nothing changes and no outcome is produced.
    pub fn expire_pending(&mut self, request_id: &str) -> (r: Option<RequestOutcome>)
        requires
            old(self).wf(),
        ensures
            final(self).wf(),
            final(self).pending_map() == old(self).pending_map().remove(request_id@),
            !final(self).pending_map().contains_key(request_id@),
            r is Some <==> old(self).pending_map().contains_key(request_id@),
            r matches Some(o) ==> o is TimedOut,
            final(self).memo_set() == old(self).memo_set(),
    {
        match self.take_pending(request_id) {
            Some(_) => Some(RequestOutcome::TimedOut),
            None => {
                proof {
                    assert(self.pending_map().remove(request_id@) =~= self.pending_map());
                }
                None
            },
        }
    }
}

/// A taken entry is gone: after a request is resolved, a second resolution
/// attempt for the same identifier finds nothing.
pub proof fn lemma_take_pending_once<S>(
    m: Map<Seq<char>, PendingPermission<S>>,
    request_id: Seq<char>,
)
    ensures
        !m.remove(request_id).contains_key(request_id),
{
}

} // verus!
