//! The bulk refresh coordinator: resolves each configured service for an
//! identity through the retried prober, folds the counts into a holder
//! record, and keeps the cache current, skipping identities whose record
//! is still fresh.
//!
//! Remote calls and waits are the host's business; the coordinator is
//! exercised against a script of transport outcomes, consumed in order.

use vstd::prelude::*;

use crate::cache::{holder_wf, is_fresh_spec, HolderInfo, HolderStore};
use crate::ids::IdentityRef;
use crate::prober;
use crate::prober::{OutcomeModel, ProbeEnd, ServiceTarget, TransportOutcome};
use crate::retry;

verus! {

/// How many attempts the retried prober makes per service.
pub const DEFAULT_MAX_ATTEMPTS: u8 = 3;

/// The first configured registry service.
pub fn daku_target() -> (r: ServiceTarget)
    ensures
        r.service_id@ == "erfen-7aaaa-aaaap-ahniq-cai"@,
        r.method_name@ == "tokens"@,
{
    ServiceTarget {
        service_id: String::from_str("erfen-7aaaa-aaaap-ahniq-cai"),
        method_name: String::from_str("tokens"),
    }
}

/// The second configured registry service.
pub fn gg_album_target() -> (r: ServiceTarget)
    ensures
        r.service_id@ == "v2ekv-yyaaa-aaaag-qjw2q-cai"@,
        r.method_name@ == "tokens"@,
{
    ServiceTarget {
        service_id: String::from_str("v2ekv-yyaaa-aaaag-qjw2q-cai"),
        method_name: String::from_str("tokens"),
    }
}

/// What retried probing of one service came to: the count when some
/// attempt succeeded, the script entries consumed, and the total wait.
pub struct ServiceAttempt {
    pub count: Option<u64>,
    pub used: nat,
    pub waited: nat,
}

/// The retried probe decision: probe once per attempt; stop at a count or
/// a definitive rejection; wait the next backoff delay between attempts.
pub open spec fn service_attempts(
    script: Seq<OutcomeModel>,
    pos: int,
    attempt: nat,
    max: nat,
) -> ServiceAttempt
    decreases max - attempt,
{
    if attempt >= max {
        ServiceAttempt { count: None, used: 0, waited: 0 }
    } else {
        match prober::probe_result(script, pos) {
            ProbeEnd::Found { count, used } => ServiceAttempt {
                count: Some(count),
                used,
                waited: 0,
            },
            ProbeEnd::Terminal { used } => ServiceAttempt { count: None, used, waited: 0 },
            ProbeEnd::Exhausted { used } => {
                if attempt + 1 >= max {
                    ServiceAttempt { count: None, used, waited: 0 }
                } else {
                    let rest = service_attempts(
                        script,
                        pos + used,
                        (attempt + 1) as nat,
                        max,
                    );
                    ServiceAttempt {
                        count: rest.count,
                        used: (used + rest.used) as nat,
                        waited: (retry::delay_after(attempt) + rest.waited) as nat,
                    }
                }
            },
        }
    }
}

/// A probe consumes at most six entries per attempt.
pub proof fn lemma_probe_used_bound(script: Seq<OutcomeModel>, pos: int, k: nat, n: nat)
    requires
        k <= n,
    ensures
        match prober::probe_from(script, pos, k, n) {
            ProbeEnd::Found { used, .. } => k < used <= n,
            ProbeEnd::Terminal { used } => k < used <= n,
            ProbeEnd::Exhausted { used } => k <= used <= n,
        },
    decreases n - k,
{
    if k < n && 0 <= pos + k < script.len() {
        lemma_probe_used_bound(script, pos, (k + 1) as nat, n);
    }
}

/// With the whole window on the script, an exhausted probe consumes
/// exactly its candidate count.
pub proof fn lemma_probe_exhausted_used(script: Seq<OutcomeModel>, pos: int, k: nat, n: nat)
    requires
        k <= n,
        pos >= 0,
        pos + n <= script.len(),
    ensures
        prober::probe_from(script, pos, k, n) matches ProbeEnd::Exhausted { used } ==> used == n,
    decreases n - k,
{
    if k < n {
        lemma_probe_exhausted_used(script, pos, (k + 1) as nat, n);
    }
}

/// Retried probing consumes at most six entries per allowed attempt.
#[verifier::rlimit(100)]
#[verifier::spinoff_prover]
pub proof fn lemma_service_attempts_bound(
    script: Seq<OutcomeModel>,
    pos: int,
    attempt: nat,
    max: nat,
)
    requires
        attempt <= max,
    ensures
        service_attempts(script, pos, attempt, max).used <= 6 * (max - attempt),
    decreases max - attempt,
{
    if attempt < max {
        lemma_probe_used_bound(script, pos, 0, 6);
        match prober::probe_result(script, pos) {
            ProbeEnd::Exhausted { used } => {
                if attempt + 1 < max {
                    lemma_service_attempts_bound(script, pos + used, (attempt + 1) as nat, max);
                    let rest = service_attempts(script, pos + used, (attempt + 1) as nat, max);
                    assert(service_attempts(script, pos, attempt, max).used == used + rest.used);
                    assert(rest.used <= 6 * (max - attempt - 1));
                    assert(used + rest.used <= 6 + 6 * (max - attempt - 1)) by (nonlinear_arith)
                        requires used <= 6, rest.used <= 6 * (max - attempt - 1);
                    assert(6 + 6 * (max - attempt - 1) == 6 * (max - attempt)) by (nonlinear_arith)
                        requires attempt + 1 <= max;
                }
            },
            _ => {},
        }
    }
}

/// Probes one service with bounded retries against a script of transport
/// outcomes.  Returns the count (when some attempt found one), the number
/// of script entries consumed, and the total backoff wait.
#[verifier::rlimit(60)]
pub fn resolve_service_with_retry(
    target: &ServiceTarget,
    identity: &IdentityRef,
    script: &Vec<TransportOutcome>,
    start: usize,
    max_attempts: u8,
) -> (r: (Option<u64>, usize, u64))
    requires
        identity.raw@.len() <= 255,
        max_attempts >= 1,
        start + 6 * (max_attempts as int) <= script@.len(),
    ensures
        ({
            let m = service_attempts(
                prober::script_view(script@),
                start as int,
                0,
                max_attempts as nat,
            );
            r.0 == m.count && r.1 == m.used && r.2 == m.waited && r.1 <= 6 * (
            max_attempts as int)
        }),
{
    let ghost sv = prober::script_view(script@);
    let slen = script.len();
    let mut attempt: u8 = 0;
    let mut pos: usize = start;
    let mut waited: u64 = 0;
    let mut delay: u64 = retry::BASE_DELAY_MS;
    loop
        invariant
            sv == prober::script_view(script@),
            identity.raw@.len() <= 255,
            1 <= max_attempts,
            0 <= attempt < max_attempts,
            slen == script@.len() <= usize::MAX,
            start + 6 * (max_attempts as int) <= slen,
            pos == start + 6 * (attempt as int),
            delay == retry::delay_after(attempt as nat),
            waited == retry::backoff_wait_sum(attempt as nat),
            ({
                let whole = service_attempts(sv, start as int, 0, max_attempts as nat);
                let rest = service_attempts(sv, pos as int, attempt as nat, max_attempts as nat);
                whole.count == rest.count && whole.used == 6 * (attempt as int) + rest.used
                    && whole.waited == waited + rest.waited
            }),
        decreases max_attempts - attempt,
    {
        proof {
            retry::lemma_backoff_wait_sum_bound(attempt as nat);
            retry::lemma_delay_closed_form(attempt as nat);
            assert((attempt as nat) * retry::MAX_DELAY_MS <= 255 * retry::MAX_DELAY_MS)
                by (nonlinear_arith)
                requires attempt <= 255;
        }
        let run = prober::resolve_with_script(target, identity, script, pos);
        proof {
            lemma_probe_used_bound(sv, pos as int, 0, 6);
            lemma_probe_exhausted_used(sv, pos as int, 0, 6);
        }
        match run.outcome {
            Ok(count) => {
                return (Some(count), pos - start + run.used, waited);
            },
            Err(prober::ResolutionFailure::DefinitiveRejection { .. }) => {
                return (None, pos - start + run.used, waited);
            },
            Err(prober::ResolutionFailure::AllCandidatesExhausted { .. }) => {
                assert(prober::probe_result(sv, pos as int) matches ProbeEnd::Exhausted { used }
                    && used == 6);
                if attempt + 1 >= max_attempts {
                    return (None, pos - start + run.used, waited);
                }
                assert(service_attempts(sv, pos as int, attempt as nat, max_attempts as nat)
                    == ServiceAttempt {
                    count: service_attempts(
                        sv,
                        pos + 6,
                        (attempt + 1) as nat,
                        max_attempts as nat,
                    ).count,
                    used: (6 + service_attempts(
                        sv,
                        pos + 6,
                        (attempt + 1) as nat,
                        max_attempts as nat,
                    ).used) as nat,
                    waited: (retry::delay_after(attempt as nat) + service_attempts(
                        sv,
                        pos + 6,
                        (attempt + 1) as nat,
                        max_attempts as nat,
                    ).waited) as nat,
                });
                waited = waited + delay;
                if delay > retry::MAX_DELAY_MS / 2 {
                    delay = retry::MAX_DELAY_MS;
                } else {
                    delay = delay * 2;
                }
                pos = pos + run.used;
                attempt = attempt + 1;
            },
        }
    }
}

/// A service count, with a failed resolution degraded to zero.
pub open spec fn count_or_zero(c: Option<u64>) -> u64 {
    match c {
        Some(v) => v,
        None => 0,
    }
}

/// What one full refresh of an identity came to.
pub struct RefreshOneModel {
    pub record: HolderInfo,
    pub used: nat,
    pub waited: nat,
}

/// The record a refresh writes at time `now`, and what it consumes: both
/// services resolved in order through the retried prober, failures
/// degraded to zero, the second count clipped so the total never leaves
/// the count range.
pub open spec fn refresh_one_spec(script: Seq<OutcomeModel>, pos: int, now: u64) -> RefreshOneModel {
    let max = DEFAULT_MAX_ATTEMPTS as nat;
    let daku = service_attempts(script, pos, 0, max);
    let gg = service_attempts(script, pos + daku.used, 0, max);
    let d = count_or_zero(daku.count);
    let g0 = count_or_zero(gg.count);
    let g = if g0 > u64::MAX - d {
        (u64::MAX - d) as u64
    } else {
        g0
    };
    RefreshOneModel {
        record: HolderInfo {
            daku_count: d,
            gg_count: g,
            total_count: (d + g) as u64,
            last_updated: now,
        },
        used: (daku.used + gg.used) as nat,
        waited: (daku.waited + gg.waited) as nat,
    }
}

/// Resolves both configured services for one identity and builds its new
/// holder record, dated `now`.  Per-service failures degrade to a zero
/// count; the record is pinned by [`refresh_one_spec`] and always meets
/// the total-equals-sum invariant.
pub fn refresh_one_scripted(
    identity: &IdentityRef,
    now: u64,
    script: &Vec<TransportOutcome>,
    start: usize,
) -> (r: (HolderInfo, usize))
    requires
        identity.raw@.len() <= 255,
        start + 36 <= script@.len(),
    ensures
        ({
            let m = refresh_one_spec(prober::script_view(script@), start as int, now);
            r.0 == m.record && r.1 == m.used && r.1 <= 36
        }),
        holder_wf(r.0),
        r.0.last_updated == now,
{
    let slen = script.len();
    let daku = daku_target();
    let gg = gg_album_target();
    let (daku_count, used1, _waited1) = resolve_service_with_retry(
        &daku,
        identity,
        script,
        start,
        DEFAULT_MAX_ATTEMPTS,
    );
    let (gg_count, used2, _waited2) = resolve_service_with_retry(
        &gg,
        identity,
        script,
        start + used1,
        DEFAULT_MAX_ATTEMPTS,
    );
    let d = match daku_count {
        Some(v) => v,
        None => 0,
    };
    let g0 = match gg_count {
        Some(v) => v,
        None => 0,
    };
    let g = if g0 > u64::MAX - d {
        u64::MAX - d
    } else {
        g0
    };
    let info = HolderInfo::make(d, g, now);
    (info, used1 + used2)
}



/// Whether a cached record exists and carries the given timestamp.
pub open spec fn stamped_at(c: Option<HolderInfo>, now: u64) -> bool {
    c matches Some(h) && h.last_updated == now
}

/// Whether an earlier position in the list carries the same identity text.
pub open spec fn key_seen(ids: Seq<IdentityRef>, upto: int, key: Seq<char>) -> bool {
    exists|j: int| 0 <= j < upto && (#[trigger] ids[j]).text@ == key
}

/// What one bulk pass came to: identities updated and script entries
/// consumed.
pub struct BulkModel {
    pub updated: nat,
    pub used: nat,
}

/// The bulk pass decision from position `i`: a duplicate of an earlier
/// entry, or an identity whose record in the starting store is still
/// fresh, is skipped; every other identity is refreshed in list order.
pub open spec fn refresh_all_steps(
    ids: Seq<IdentityRef>,
    i: int,
    pos: int,
    orig: HolderStore,
    now: u64,
    script: Seq<OutcomeModel>,
) -> BulkModel
    decreases ids.len() - i,
{
    if i < 0 || i >= ids.len() {
        BulkModel { updated: 0, used: 0 }
    } else {
        let key = ids[i].text@;
        if key_seen(ids, i, key) || is_fresh_spec(orig, key, now) {
            refresh_all_steps(ids, i + 1, pos, orig, now, script)
        } else {
            let one = refresh_one_spec(script, pos, now);
            let rest = refresh_all_steps(ids, i + 1, pos + one.used, orig, now, script);
            BulkModel {
                updated: (1 + rest.updated) as nat,
                used: (one.used + rest.used) as nat,
            }
        }
    }
}

/// Whether position `i` repeats the text of an earlier entry.
fn seen_before(identities: &Vec<IdentityRef>, i: usize) -> (r: bool)
    requires
        i < identities@.len(),
    ensures
        r == key_seen(identities@, i as int, identities@[i as int].text@),
{
    let mut j: usize = 0;
    while j < i
        invariant
            i < identities@.len(),
            0 <= j <= i,
            forall|q: int|
                0 <= q < j ==> (#[trigger] identities@[q]).text@ != identities@[i as int].text@,
        decreases i - j,
    {
        let a = &identities[j];
        let b = &identities[i];
        if a.text.eq(&b.text) {
            return true;
        }
        j = j + 1;
    }
    false
}

/// Refreshes every identity of the list whose record is missing or stale,
/// skipping duplicates, and stamps the store with the bulk update time.
/// Returns how many identities were updated and how many script entries
/// (remote calls) were consumed; afterwards every listed identity is
/// fresh, and no other record changed.
#[verifier::rlimit(60)]
pub fn refresh_all_scripted(
    store: &mut HolderStore,
    identities: &Vec<IdentityRef>,
    now: u64,
    script: &Vec<TransportOutcome>,
    start: usize,
) -> (r: (u64, usize))
    requires
        old(store).wf(),
        forall|j: int|
            0 <= j < identities@.len() ==> (#[trigger] identities@[j]).raw@.len() <= 255,
        start + 36 * identities@.len() <= script@.len(),
    ensures
        final(store).wf(),
        final(store).last_bulk_update == now,
        ({
            let m = refresh_all_steps(
                identities@,
                0,
                start as int,
                *old(store),
                now,
                prober::script_view(script@),
            );
            r.0 == m.updated && r.1 == m.used
        }),
        forall|j: int|
            0 <= j < identities@.len() ==> is_fresh_spec(
                *final(store),
                (#[trigger] identities@[j]).text@,
                now,
            ),
        forall|k: Seq<char>|
            !key_seen(identities@, identities@.len() as int, k) ==> final(store).cached(k)
                == old(store).cached(k),
{
    let ghost orig: HolderStore = *store;
    let ghost sv = prober::script_view(script@);
    let n = identities.len();
    let slen = script.len();
    let mut i: usize = 0;
    let mut pos: usize = start;
    let mut updated: u64 = 0;
    let mut used_total: usize = 0;
    while i < n
        invariant
            store.wf(),
            store.last_bulk_update == orig.last_bulk_update,
            n == identities@.len(),
            slen == script@.len() <= usize::MAX,
            forall|j: int|
                0 <= j < identities@.len() ==> (#[trigger] identities@[j]).raw@.len() <= 255,
            sv == prober::script_view(script@),
            0 <= i <= n,
            pos == start + used_total,
            pos + 36 * (n - i) <= slen,
            updated <= i,
            ({
                let whole = refresh_all_steps(identities@, 0, start as int, orig, now, sv);
                let rest = refresh_all_steps(identities@, i as int, pos as int, orig, now, sv);
                whole.updated == updated + rest.updated && whole.used == used_total + rest.used
            }),
            forall|j: int|
                0 <= j < i ==> is_fresh_spec(*store, (#[trigger] identities@[j]).text@, now),
            forall|k: Seq<char>|
                (#[trigger] store.cached(k)) == orig.cached(k) || (key_seen(identities@, i as int, k) && stamped_at(store.cached(k), now)),
        decreases n - i,
    {
        let identity = &identities[i];
        let ghost key = identity.text@;
        let dup = seen_before(identities, i);
        let fresh = store.is_fresh(&identity.text, now);
        if dup || fresh {
            proof {
                if !dup {
                    assert(store.cached(key) == orig.cached(key));
                    assert(is_fresh_spec(orig, key, now));
                }
                assert(refresh_all_steps(identities@, i as int, pos as int, orig, now, sv)
                    == refresh_all_steps(identities@, i + 1, pos as int, orig, now, sv));
                if dup {
                    let j = choose|j: int|
                        0 <= j < i && (#[trigger] identities@[j]).text@ == key;
                    assert(is_fresh_spec(*store, identities@[j].text@, now));
                }
                assert forall|k: Seq<char>|
                    (#[trigger] store.cached(k)) == orig.cached(k) || (key_seen(identities@, i + 1, k) && stamped_at(store.cached(k), now)) by {
                    if store.cached(k) != orig.cached(k) {
                        assert(key_seen(identities@, i as int, k));
                        let j = choose|j: int|
                            0 <= j < i && (#[trigger] identities@[j]).text@ == k;
                        assert(0 <= j < i + 1 && identities@[j].text@ == k);
                    }
                }
            }
            i = i + 1;
        } else {
            proof {
                assert(store.cached(key) == orig.cached(key));
                assert(!is_fresh_spec(orig, key, now));
                assert(!key_seen(identities@, i as int, key));
            }
            let (info, used1) = refresh_one_scripted(identity, now, script, pos);
            let ghost pre = *store;
            store.upsert(identity.duplicate(), info);
            proof {
                assert(refresh_all_steps(identities@, i as int, pos as int, orig, now, sv)
                    == ({
                    let one = refresh_one_spec(sv, pos as int, now);
                    let rest = refresh_all_steps(
                        identities@,
                        i + 1,
                        pos + one.used,
                        orig,
                        now,
                        sv,
                    );
                    BulkModel {
                        updated: (1 + rest.updated) as nat,
                        used: (one.used + rest.used) as nat,
                    }
                }));
                assert(store.cached(key) == Some(info));
                assert forall|j: int| 0 <= j < i + 1 implies is_fresh_spec(
                    *store,
                    (#[trigger] identities@[j]).text@,
                    now,
                ) by {
                    if j < i {
                        if identities@[j].text@ == key {
                            assert(store.cached(identities@[j].text@) == Some(info));
                        } else {
                            assert(store.cached(identities@[j].text@) == pre.cached(
                                identities@[j].text@,
                            ));
                        }
                    } else {
                        assert(store.cached(key) == Some(info));
                        assert(info.last_updated == now);
                    }
                }
                assert forall|k: Seq<char>|
                    (#[trigger] store.cached(k)) == orig.cached(k) || (key_seen(identities@, i + 1, k) && stamped_at(store.cached(k), now)) by {
                    if k == key {
                        assert(identities@[i as int].text@ == k);
                        assert(key_seen(identities@, i + 1, k));
                    } else {
                        assert(store.cached(k) == pre.cached(k));
                        if pre.cached(k) != orig.cached(k) {
                            assert(key_seen(identities@, i as int, k));
                            let j = choose|j: int|
                                0 <= j < i && (#[trigger] identities@[j]).text@ == k;
                            assert(0 <= j < i + 1 && identities@[j].text@ == k);
                        }
                    }
                }
            }
            updated = updated + 1;
            used_total = used_total + used1;
            pos = pos + used1;
            i = i + 1;
        }
    }
    let ghost before_stamp: HolderStore = *store;
    store.set_last_bulk_update(now);
    proof {
        assert(refresh_all_steps(identities@, n as int, pos as int, orig, now, sv)
            == BulkModel { updated: 0, used: 0 });
        assert(store.entries@ == before_stamp.entries@);
        assert forall|k: Seq<char>|
            !key_seen(identities@, identities@.len() as int, k) implies store.cached(k)
            == orig.cached(k) by {
            assert(store.cached(k) == before_stamp.cached(k));
            assert(before_stamp.cached(k) == orig.cached(k) || (key_seen(
                identities@,
                n as int,
                k,
            ) && stamped_at(before_stamp.cached(k), now)));
        }
        assert forall|j: int| 0 <= j < identities@.len() implies is_fresh_spec(
            *store,
            (#[trigger] identities@[j]).text@,
            now,
        ) by {
            assert(is_fresh_spec(before_stamp, identities@[j].text@, now));
            assert(store.cached(identities@[j].text@) == before_stamp.cached(
                identities@[j].text@,
            ));
        }
    }
    (updated, used_total)
}

/// A refresh depends on the identity's transport script and the clock
/// alone: the same script and time always give the same holder record,
/// however often the refresh is repeated.
pub proof fn lemma_refresh_one_deterministic(
    script1: Seq<OutcomeModel>,
    script2: Seq<OutcomeModel>,
    pos: int,
    now: u64,
)
    requires
        script1 == script2,
    ensures
        refresh_one_spec(script1, pos, now) == refresh_one_spec(script2, pos, now),
{
}

proof fn lemma_refresh_all_fresh_skips_from(
    ids: Seq<IdentityRef>,
    i: int,
    pos: int,
    orig: HolderStore,
    now: u64,
    script: Seq<OutcomeModel>,
)
    requires
        forall|j: int| 0 <= j < ids.len() ==> is_fresh_spec(orig, (#[trigger] ids[j]).text@, now),
    ensures
        refresh_all_steps(ids, i, pos, orig, now, script) == (BulkModel { updated: 0, used: 0 }),
    decreases ids.len() - i,
{
    if 0 <= i < ids.len() {
        lemma_refresh_all_fresh_skips_from(ids, i + 1, pos, orig, now, script);
    }
}

/// A bulk pass over identities that are all still fresh makes no remote
/// call and updates nothing; in particular, running a bulk refresh twice
/// with no elapsed time leaves the second pass with zero calls.
pub proof fn lemma_refresh_all_fresh_skips_all(
    ids: Seq<IdentityRef>,
    pos: int,
    orig: HolderStore,
    now: u64,
    script: Seq<OutcomeModel>,
)
    requires
        forall|j: int| 0 <= j < ids.len() ==> is_fresh_spec(orig, (#[trigger] ids[j]).text@, now),
    ensures
        refresh_all_steps(ids, 0, pos, orig, now, script) == (BulkModel { updated: 0, used: 0 }),
{
    lemma_refresh_all_fresh_skips_from(ids, 0, pos, orig, now, script);
}


/// A caller-facing progress record for one identity's count.
#[derive(Clone, Copy, Debug)]
pub struct NFTProgress {
    pub count: u64,
    pub in_progress: bool,
    pub last_updated: u64,
}

/// The progress view of an identity's record: its total and timestamp, or
/// a zero count stamped `now` when nothing is cached.  Never calls out.
pub fn get_nft_count(store: &HolderStore, key: &String, now: u64) -> (r: NFTProgress)
    ensures
        match store.cached(key@) {
            Some(h) => r.count == h.total_count && r.last_updated == h.last_updated,
            None => r.count == 0 && r.last_updated == now,
        },
        !r.in_progress,
{
    match store.get(key) {
        Some(h) => NFTProgress { count: h.total_count, in_progress: false, last_updated: h.last_updated },
        None => NFTProgress { count: 0, in_progress: false, last_updated: now },
    }
}

/// Every stored record, in storage order, with its identity.
pub fn get_all_holders(store: &HolderStore) -> (r: Vec<(IdentityRef, HolderInfo)>)
    ensures
        r@.len() == store.entries@.len(),
        forall|i: int|
            0 <= i < r@.len() ==> {
                &&& (#[trigger] r@[i]).0.text@ == store.entries@[i].0.text@
                &&& r@[i].0.raw@ == store.entries@[i].0.raw@
                &&& r@[i].1 == store.entries@[i].1
            },
{
    let mut out: Vec<(IdentityRef, HolderInfo)> = Vec::new();
    let n = store.entries.len();
    let mut i: usize = 0;
    while i < n
        invariant
            n == store.entries@.len(),
            0 <= i <= n,
            out@.len() == i,
            forall|q: int|
                0 <= q < i ==> {
                    &&& (#[trigger] out@[q]).0.text@ == store.entries@[q].0.text@
                    &&& out@[q].0.raw@ == store.entries@[q].0.raw@
                    &&& out@[q].1 == store.entries@[q].1
                },
        decreases n - i,
    {
        let entry = &store.entries[i];
        out.push((entry.0.duplicate(), entry.1));
        i = i + 1;
    }
    out
}

/// Every stored record, in storage order, as a progress view.
pub fn get_all_nft_counts(store: &HolderStore) -> (r: Vec<(IdentityRef, NFTProgress)>)
    ensures
        r@.len() == store.entries@.len(),
        forall|i: int|
            0 <= i < r@.len() ==> {
                &&& (#[trigger] r@[i]).0.text@ == store.entries@[i].0.text@
                &&& r@[i].1.count == store.entries@[i].1.total_count
                &&& r@[i].1.last_updated == store.entries@[i].1.last_updated
                &&& !r@[i].1.in_progress
            },
{
    let mut out: Vec<(IdentityRef, NFTProgress)> = Vec::new();
    let n = store.entries.len();
    let mut i: usize = 0;
    while i < n
        invariant
            n == store.entries@.len(),
            0 <= i <= n,
            out@.len() == i,
            forall|q: int|
                0 <= q < i ==> {
                    &&& (#[trigger] out@[q]).0.text@ == store.entries@[q].0.text@
                    &&& out@[q].1.count == store.entries@[q].1.total_count
                    &&& out@[q].1.last_updated == store.entries@[q].1.last_updated
                    &&& !out@[q].1.in_progress
                },
        decreases n - i,
    {
        let entry = &store.entries[i];
        out.push(
            (
                entry.0.duplicate(),
                NFTProgress {
                    count: entry.1.total_count,
                    in_progress: false,
                    last_updated: entry.1.last_updated,
                },
            ),
        );
        i = i + 1;
    }
    out
}

/// Writes externally verified per-service counts for an identity, dated
/// `now`; the stored total is their sum, and no other record changes.
pub fn set_verified_nft_counts(
    store: &mut HolderStore,
    identity: IdentityRef,
    daku_count: u64,
    gg_count: u64,
    now: u64,
) -> (r: HolderInfo)
    requires
        old(store).wf(),
        daku_count + gg_count <= u64::MAX,
    ensures
        final(store).wf(),
        r.daku_count == daku_count && r.gg_count == gg_count && r.last_updated == now,
        holder_wf(r),
        forall|k: Seq<char>|
            final(store).cached(k) == if k == identity.text@ {
                Some(r)
            } else {
                old(store).cached(k)
            },
{
    let info = HolderInfo::make(daku_count, gg_count, now);
    store.upsert(identity, info);
    info
}

/// The caller-facing answer for one identity across both services.
#[derive(Clone, Debug)]
pub struct GetAllTokensResponse {
    pub total_count: u64,
    pub daku_count: u64,
    pub gg_album_count: u64,
    pub errors: Vec<String>,
}

/// The count one direct (unretried) probe yields, with failure degraded
/// to zero.
pub open spec fn probe_count_or_zero(script: Seq<OutcomeModel>, pos: int) -> u64 {
    match prober::probe_result(script, pos) {
        ProbeEnd::Found { count, .. } => count,
        _ => 0,
    }
}

/// The entries one direct probe consumes.
pub open spec fn probe_used(script: Seq<OutcomeModel>, pos: int) -> nat {
    match prober::probe_result(script, pos) {
        ProbeEnd::Found { used, .. } => used,
        ProbeEnd::Terminal { used } => used,
        ProbeEnd::Exhausted { used } => used,
    }
}

/// Resolves both services once (no cache write) for the identity named by
/// `user`, collecting one error message per failed path.  An unparseable
/// identity yields zero counts and a single error without any call.
pub fn get_all_tokens_scripted(
    user: &str,
    script: &Vec<TransportOutcome>,
    start: usize,
) -> (r: (GetAllTokensResponse, usize))
    requires
        start + 12 <= script@.len(),
    ensures
        ({
            let sv = prober::script_view(script@);
            match crate::ids::parsed_principal(user@) {
                Some(_) => {
                    let d = probe_count_or_zero(sv, start as int);
                    let u1 = probe_used(sv, start as int);
                    let g0 = probe_count_or_zero(sv, start + u1);
                    let g = if g0 > u64::MAX - d {
                        (u64::MAX - d) as u64
                    } else {
                        g0
                    };
                    &&& r.0.daku_count == d
                    &&& r.0.gg_album_count == g
                    &&& r.0.total_count == d + g
                    &&& r.1 == u1 + probe_used(sv, start + u1)
                    &&& r.0.errors@.len() == (if prober::probe_result(sv, start as int)
                        matches ProbeEnd::Found { .. } { 0int } else { 1int }) + (
                    if prober::probe_result(sv, start + u1) matches ProbeEnd::Found { .. } {
                        0int
                    } else {
                        1int
                    })
                },
                None => r.0.daku_count == 0 && r.0.gg_album_count == 0 && r.0.total_count == 0
                    && r.0.errors@.len() == 1 && r.0.errors@[0]@ == "Invalid principal"@ && r.1
                    == 0,
            }
        }),
        r.0.total_count == r.0.daku_count + r.0.gg_album_count,
{
    let slen = script.len();
    let parsed = crate::ids::IdentityRef::from_text(user);
    match parsed {
        Some(identity) => {
            let mut errors: Vec<String> = Vec::new();
            let daku = daku_target();
            let gg = gg_album_target();
            let run1 = prober::resolve_with_script(&daku, &identity, script, start);
            let d = match run1.outcome {
                Ok(c) => c,
                Err(f) => {
                    errors.push(describe_resolution_failure("Failed to query Daku tokens: ", &f));
                    0
                },
            };
            let run2 = prober::resolve_with_script(&gg, &identity, script, start + run1.used);
            let g0 = match run2.outcome {
                Ok(c) => c,
                Err(f) => {
                    errors.push(
                        describe_resolution_failure("Failed to query GG Album tokens: ", &f),
                    );
                    0
                },
            };
            let g = if g0 > u64::MAX - d {
                u64::MAX - d
            } else {
                g0
            };
            let response = GetAllTokensResponse {
                total_count: d + g,
                daku_count: d,
                gg_album_count: g,
                errors,
            };
            (response, run1.used + run2.used)
        },
        None => {
            let mut errors: Vec<String> = Vec::new();
            errors.push(String::from_str("Invalid principal"));
            let response = GetAllTokensResponse {
                total_count: 0,
                daku_count: 0,
                gg_album_count: 0,
                errors,
            };
            (response, 0)
        },
    }
}

/// Renders a resolution failure behind a fixed prefix.
fn describe_resolution_failure(prefix: &str, f: &prober::ResolutionFailure) -> (r: String)
{
    let mut s = String::from_str(prefix);
    match f {
        prober::ResolutionFailure::DefinitiveRejection { message } => {
            s.append(message.as_str());
        },
        prober::ResolutionFailure::AllCandidatesExhausted { summary } => {
            s.append(summary.as_str());
        },
    }
    s
}

} // verus!
