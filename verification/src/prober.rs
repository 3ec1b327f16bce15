//! The service prober: one logical query against one service of unknown
//! schema, tried with each candidate encoding in turn.
//!
//! The prober stops at the first decodable reply, aborts at once on a
//! definitive transport rejection, and otherwise exhausts the candidates.
//! The remote transport itself lives outside this library; the prober is
//! exercised against a script holding one transport outcome per attempted
//! candidate.

use vstd::prelude::*;

use crate::ext::tokens;
use crate::ids::IdentityRef;

verus! {

/// One external service: where to call and which method to use.
#[derive(Debug)]
pub struct ServiceTarget {
    pub service_id: String,
    pub method_name: String,
}

/// How the transport classified a failed call.
#[derive(Debug)]
pub enum TransportErrorKind {
    /// A hiccup; the same call may later succeed.
    Transient,
    /// The callee does not exist or is no such endpoint; retrying or
    /// re-encoding cannot help.
    DefinitiveRejection,
}

/// A failed transport call.
#[derive(Debug)]
pub struct TransportError {
    pub kind: TransportErrorKind,
    pub message: String,
}

/// What one remote call came to: reply bytes, or a transport error.
pub type TransportOutcome = Result<Vec<u8>, TransportError>;

/// Ghost model of one transport outcome.
pub enum OutcomeModel {
    Reply(Seq<u8>),
    Failed { definitive: bool, message: Seq<char> },
}

pub open spec fn outcome_view(o: TransportOutcome) -> OutcomeModel {
    match o {
        Ok(bytes) => OutcomeModel::Reply(bytes@),
        Err(e) => OutcomeModel::Failed {
            definitive: e.kind is DefinitiveRejection,
            message: e.message@,
        },
    }
}

pub open spec fn script_view(s: Seq<TransportOutcome>) -> Seq<OutcomeModel> {
    s.map_values(|o: TransportOutcome| outcome_view(o))
}

/// How a probe ended: a decoded count, a definitive rejection, or all
/// candidates spent.  `used` counts the remote calls made.
pub enum ProbeEnd {
    Found { count: u64, used: nat },
    Terminal { used: nat },
    Exhausted { used: nat },
}

/// The probe decision run: candidate `k` of `n` is sent, and its outcome is
/// `script[pos + k]`.  A reply that decodes ends the probe with its count; a
/// definitive rejection ends it at once; anything else moves to the next
/// candidate.
pub open spec fn probe_from(script: Seq<OutcomeModel>, pos: int, k: nat, n: nat) -> ProbeEnd
    decreases n - k,
{
    if k >= n {
        ProbeEnd::Exhausted { used: k }
    } else if pos + k < 0 || pos + k >= script.len() {
        ProbeEnd::Exhausted { used: k }
    } else {
        match script[pos + k as int] {
            OutcomeModel::Reply(bytes) => match tokens::decode_count_spec(bytes) {
                Ok(c) => ProbeEnd::Found { count: c, used: (k + 1) as nat },
                Err(_) => probe_from(script, pos, (k + 1) as nat, n),
            },
            OutcomeModel::Failed { definitive, message } => if definitive {
                ProbeEnd::Terminal { used: (k + 1) as nat }
            } else {
                probe_from(script, pos, (k + 1) as nat, n)
            },
        }
    }
}

/// The probe decision for the full candidate list, starting at `pos`.
pub open spec fn probe_result(script: Seq<OutcomeModel>, pos: int) -> ProbeEnd {
    probe_from(script, pos, 0, 6)
}

/// The diagnostic summary reported when every candidate was spent: the
/// audit trail rendered and joined behind a fixed prefix.
pub open spec fn exhausted_summary(service_id: Seq<char>, logs: Seq<tokens::QueryLog>) -> Seq<
    char,
> {
    "All query formats failed for "@ + service_id + ": "@ + tokens::joined_log_lines(logs)
}

/// Why one service yielded no count.
#[derive(Debug)]
pub enum ResolutionFailure {
    /// The service categorically rejected the call.
    DefinitiveRejection { message: String },
    /// Every candidate was tried without a decodable reply.
    AllCandidatesExhausted { summary: String },
}

/// The outcome of probing one service: the result, the number of remote
/// calls made, and one audit record per call.
pub struct ProbeRun {
    pub outcome: Result<u64, ResolutionFailure>,
    pub used: usize,
    pub logs: Vec<tokens::QueryLog>,
}

/// Probes one service for one identity against a script of transport
/// outcomes starting at `start`; the payload sent for attempt `k` is the
/// `k`-th candidate encoding of the identity (see the identity codec).  The result, the number of calls, and the
/// audit trail are pinned by [`probe_result`]; a definitive rejection is
/// terminal after exactly one more call, and a decodable reply ends the
/// probe at once.
pub fn resolve_with_script(
    target: &ServiceTarget,
    identity: &IdentityRef,
    script: &Vec<TransportOutcome>,
    start: usize,
) -> (r: ProbeRun)
    requires
        identity.raw@.len() <= 255,
        start + 6 <= script@.len(),
    ensures
        r.used <= 6,
        match probe_result(script_view(script@), start as int) {
            ProbeEnd::Found { count, used } => r.outcome matches Ok(c) && c == count && r.used
                == used,
            ProbeEnd::Terminal { used } => r.outcome matches Err(f)
                && f matches ResolutionFailure::DefinitiveRejection { .. } && r.used == used,
            ProbeEnd::Exhausted { used } => r.outcome matches Err(f)
                && f matches ResolutionFailure::AllCandidatesExhausted { summary } && r.used
                == used && summary@ == exhausted_summary(target.service_id@, r.logs@),
        },
        r.logs@.len() == r.used,
        forall|k: int|
            0 <= k < r.used ==> {
                &&& (#[trigger] r.logs@[k]).canister_id@ == target.service_id@
                &&& r.logs@[k].encoding_type@ == tokens::candidate_label(k)
                &&& (r.logs@[k].success <==> (k == r.used - 1 && r.outcome is Ok))
            },
{
    let ghost sv = script_view(script@);
    let slen = script.len();
    assert(script@.len() <= usize::MAX);
    let mut logs: Vec<tokens::QueryLog> = Vec::new();
    let mut i: usize = 0;
    while i < 6
        invariant
            start + 6 <= script@.len() <= usize::MAX,
            sv == script_view(script@),
            sv.len() == script@.len(),
            0 <= i <= 6,
            probe_from(sv, start as int, 0, 6) == probe_from(sv, start as int, i as nat, 6),
            logs@.len() == i,
            forall|k: int|
                0 <= k < i ==> {
                    &&& (#[trigger] logs@[k]).canister_id@ == target.service_id@
                    &&& logs@[k].encoding_type@ == tokens::candidate_label(k)
                    &&& logs@[k].success == false
                },
        decreases 6 - i,
    {
        let label = tokens::candidate_label_str(i);
        match &script[start + i] {
            Ok(bytes) => {
                match tokens::decode_tokens_response(bytes) {
                    Ok(count) => {
                        let mut detail = String::from_str("Found ");
                        let digits = crate::util::u64_to_string(count);
                        detail.append(digits.as_str());
                        detail.append(" tokens");
                        logs.push(
                            tokens::QueryLog {
                                canister_id: target.service_id.clone(),
                                encoding_type: label,
                                success: true,
                                result: detail,
                            },
                        );
                        return ProbeRun { outcome: Ok(count), used: i + 1, logs };
                    },
                    Err(failure) => {
                        let mut detail = String::from_str("Decode error: ");
                        let described = failure.describe();
                        detail.append(described.as_str());
                        logs.push(
                            tokens::QueryLog {
                                canister_id: target.service_id.clone(),
                                encoding_type: label,
                                success: false,
                                result: detail,
                            },
                        );
                    },
                }
            },
            Err(err) => {
                let mut detail = String::from_str("Call error: ");
                detail.append(err.message.as_str());
                logs.push(
                    tokens::QueryLog {
                        canister_id: target.service_id.clone(),
                        encoding_type: label,
                        success: false,
                        result: detail,
                    },
                );
                match err.kind {
                    TransportErrorKind::DefinitiveRejection => {
                        let mut message = String::from_str("DestinationInvalid - Canister ");
                        message.append(target.service_id.as_str());
                        message.append(" not found");
                        return ProbeRun {
                            outcome: Err(ResolutionFailure::DefinitiveRejection { message }),
                            used: i + 1,
                            logs,
                        };
                    },
                    TransportErrorKind::Transient => {},
                }
            },
        }
        i = i + 1;
    }
    // every candidate tried and none yielded a count: join the audit trail
    // into one diagnostic summary
    let ghost logs_snap = logs@;
    let mut summary = String::from_str("All query formats failed for ");
    summary.append(target.service_id.as_str());
    summary.append(": ");
    let ghost head = summary@;
    let rendered = tokens::format_query_logs(clone_logs(&logs));
    let mut k: usize = 0;
    let n = rendered.len();
    assert(n == 6);
    while k < n
        invariant
            n == rendered@.len() == logs@.len(),
            logs_snap == logs@,
            0 <= k <= n,
            head == "All query formats failed for "@ + target.service_id@ + ": "@,
            forall|q: int|
                0 <= q < n ==> (#[trigger] rendered@[q])@ == tokens::query_log_line(logs@[q]),
            summary@ == head + tokens::joined_log_lines(logs_snap.take(k as int)),
        decreases n - k,
    {
        if k > 0 {
            summary.append("; ");
        }
        summary.append(rendered[k].as_str());
        proof {
            tokens::lemma_joined_log_lines_snoc(logs_snap, k as int);
            assert(summary@ =~= head + tokens::joined_log_lines(logs_snap.take(k + 1)));
        }
        k = k + 1;
    }
    assert(logs_snap.take(n as int) =~= logs_snap);
    assert(summary@ =~= exhausted_summary(target.service_id@, logs_snap));
    ProbeRun {
        outcome: Err(ResolutionFailure::AllCandidatesExhausted { summary }),
        used: 6,
        logs,
    }
}

/// A field-for-field copy of an audit trail.
fn clone_logs(logs: &Vec<tokens::QueryLog>) -> (r: Vec<tokens::QueryLog>)
    ensures
        r@.len() == logs@.len(),
        forall|k: int|
            0 <= k < logs@.len() ==> {
                &&& (#[trigger] r@[k]).canister_id@ == logs@[k].canister_id@
                &&& r@[k].encoding_type@ == logs@[k].encoding_type@
                &&& r@[k].success == logs@[k].success
                &&& r@[k].result@ == logs@[k].result@
            },
{
    let mut out: Vec<tokens::QueryLog> = Vec::new();
    let n = logs.len();
    let mut i: usize = 0;
    while i < n
        invariant
            n == logs@.len(),
            0 <= i <= n,
            out@.len() == i,
            forall|k: int|
                0 <= k < i ==> {
                    &&& (#[trigger] out@[k]).canister_id@ == logs@[k].canister_id@
                    &&& out@[k].encoding_type@ == logs@[k].encoding_type@
                    &&& out@[k].success == logs@[k].success
                    &&& out@[k].result@ == logs@[k].result@
                },
        decreases n - i,
    {
        let l = &logs[i];
        out.push(
            tokens::QueryLog {
                canister_id: l.canister_id.clone(),
                encoding_type: l.encoding_type.clone(),
                success: l.success,
                result: l.result.clone(),
            },
        );
        i = i + 1;
    }
    out
}

/// A reply that decodes on the very first candidate ends the probe after
/// exactly one call, with that count.
pub proof fn lemma_first_success_short_circuits(script: Seq<OutcomeModel>, pos: int, b: Seq<u8>)
    requires
        0 <= pos < script.len(),
        script[pos] == OutcomeModel::Reply(b),
        tokens::decode_count_spec(b) is Ok,
    ensures
        probe_result(script, pos) == (ProbeEnd::Found {
            count: tokens::decode_count_spec(b)->Ok_0,
            used: 1nat,
        }),
{
}

/// A definitive rejection on the very first candidate ends the probe after
/// exactly one call, with a terminal failure.
pub proof fn lemma_first_rejection_is_terminal(script: Seq<OutcomeModel>, pos: int, m: Seq<char>)
    requires
        0 <= pos < script.len(),
        script[pos] == (OutcomeModel::Failed { definitive: true, message: m }),
    ensures
        probe_result(script, pos) == (ProbeEnd::Terminal { used: 1nat }),
{
}

} // verus!
