//! The holder cache's freshness rule and the bulk refresh coordinator
//! against scripted transports.

use wallet_rust::cache::{HolderInfo, HolderStore};
use wallet_rust::coordinator::{
    get_all_tokens_scripted, get_nft_count, refresh_all_scripted, refresh_one_scripted,
    set_verified_nft_counts,
};
use wallet_rust::ids::IdentityRef;
use wallet_rust::prober::{TransportError, TransportErrorKind, TransportOutcome};
use wallet_rust::wire;
use wallet_rust::CACHE_DURATION;

const ADMIN: &str = "cd3yv-nkb2m-mjvnb-naicp-mkqk2-g4f3d-g7y4g-xdeaz-n6i75-xur54-xae";

fn transient() -> TransportOutcome {
    Err(TransportError {
        kind: TransportErrorKind::Transient,
        message: "timeout".to_string(),
    })
}

fn pad(script: &mut Vec<TransportOutcome>, upto: usize) {
    while script.len() < upto {
        script.push(transient());
    }
}

#[test]
fn holder_record_total_is_always_the_sum() {
    let h = HolderInfo::make(3, 4, 99);
    assert_eq!(h.total_count, h.daku_count + h.gg_count);
    let z = HolderInfo::zero();
    assert_eq!(z.total_count, 0);
}

#[test]
fn store_get_cached_defaults_to_zero() {
    let store = HolderStore::new();
    let rec = store.get_cached(&"nobody".to_string());
    assert_eq!(rec.total_count, 0);
    assert_eq!(rec.last_updated, 0);
}

#[test]
fn freshness_expires_after_the_cache_duration() {
    let mut store = HolderStore::new();
    let identity = IdentityRef::from_text(ADMIN).unwrap();
    let now = 1_000_000;
    set_verified_nft_counts(&mut store, identity, 2, 5, now);
    let key = ADMIN.to_string();
    assert!(store.is_fresh(&key, now));
    assert!(store.is_fresh(&key, now + CACHE_DURATION));
    assert!(!store.is_fresh(&key, now + CACHE_DURATION + 1));
    assert!(!store.is_fresh(&key, 0));
    let rec = store.get_cached(&key);
    assert_eq!((rec.daku_count, rec.gg_count, rec.total_count), (2, 5, 7));
}

#[test]
fn refresh_one_folds_both_services_with_scripted_replies() {
    // service one: two undecodable candidates, then a three-index list;
    // service two: a tagged "no tokens" error
    let identity = IdentityRef::from_text("2vxsx-fae").unwrap();
    let mut script: Vec<TransportOutcome> = vec![
        transient(),
        Ok(vec![1, 2, 3]),
        Ok(wire::enc_tokens_ok_reply(&vec![10, 20, 30])),
        Ok(wire::enc_tokens_err_reply(
            &None,
            &Some(b"no tokens for you".to_vec()),
        )),
    ];
    pad(&mut script, 36);
    let (info, used) = refresh_one_scripted(&identity, 777, &script, 0);
    assert_eq!(info.daku_count, 3);
    assert_eq!(info.gg_count, 0);
    assert_eq!(info.total_count, 3);
    assert_eq!(info.last_updated, 777);
    assert_eq!(used, 4);
}

#[test]
fn refresh_one_is_deterministic_for_a_fixed_script() {
    let identity = IdentityRef::from_text("2vxsx-fae").unwrap();
    let mut script: Vec<TransportOutcome> =
        vec![Ok(wire::enc_tokens_ok_reply(&vec![1, 2, 3, 4, 5]))];
    pad(&mut script, 36);
    let (a, used_a) = refresh_one_scripted(&identity, 5, &script, 0);
    let (b, used_b) = refresh_one_scripted(&identity, 5, &script, 0);
    assert_eq!(
        (a.daku_count, a.gg_count, a.total_count, a.last_updated),
        (b.daku_count, b.gg_count, b.total_count, b.last_updated)
    );
    assert_eq!(used_a, used_b);
}

#[test]
fn refresh_one_degrades_failures_to_zero_counts() {
    let identity = IdentityRef::from_text("2vxsx-fae").unwrap();
    let mut script: Vec<TransportOutcome> = Vec::new();
    pad(&mut script, 36);
    let (info, used) = refresh_one_scripted(&identity, 10, &script, 0);
    assert_eq!(info.total_count, 0);
    assert_eq!(used, 36);
}

#[test]
fn refresh_all_twice_makes_no_second_calls() {
    let identity = IdentityRef::from_text("2vxsx-fae").unwrap();
    let ids = vec![identity];
    let mut store = HolderStore::new();
    let mut script: Vec<TransportOutcome> =
        vec![Ok(wire::enc_tokens_ok_reply(&vec![1, 2]))];
    pad(&mut script, 36);
    let now = 42;
    let (updated1, used1) = refresh_all_scripted(&mut store, &ids, now, &script, 0);
    assert_eq!(updated1, 1);
    assert!(used1 > 0);
    assert!(store.is_fresh(&"2vxsx-fae".to_string(), now));
    // the same pass again, with no elapsed time: everything is fresh
    let (updated2, used2) = refresh_all_scripted(&mut store, &ids, now, &script, 0);
    assert_eq!(updated2, 0);
    assert_eq!(used2, 0);
}

#[test]
fn refresh_all_skips_duplicates() {
    let a = IdentityRef::from_text("2vxsx-fae").unwrap();
    let b = IdentityRef::from_text("2vxsx-fae").unwrap();
    let ids = vec![a, b];
    let mut store = HolderStore::new();
    let mut script: Vec<TransportOutcome> = Vec::new();
    pad(&mut script, 72);
    let (updated, used) = refresh_all_scripted(&mut store, &ids, 1, &script, 0);
    assert_eq!(updated, 1);
    assert_eq!(used, 36);
}

#[test]
fn nft_count_views_reflect_the_store() {
    let mut store = HolderStore::new();
    let identity = IdentityRef::from_text(ADMIN).unwrap();
    set_verified_nft_counts(&mut store, identity, 1, 2, 50);
    let p = get_nft_count(&store, &ADMIN.to_string(), 60);
    assert_eq!(p.count, 3);
    assert_eq!(p.last_updated, 50);
    assert!(!p.in_progress);
    let q = get_nft_count(&store, &"2vxsx-fae".to_string(), 60);
    assert_eq!(q.count, 0);
    assert_eq!(q.last_updated, 60);
}

#[test]
fn get_all_tokens_reports_both_services_and_errors() {
    let mut script: Vec<TransportOutcome> = vec![
        Ok(wire::enc_tokens_ok_reply(&vec![1, 2, 3, 4])),
        Ok(wire::enc_tokens_ok_reply(&vec![9])),
    ];
    pad(&mut script, 12);
    let (resp, used) = get_all_tokens_scripted("2vxsx-fae", &script, 0);
    assert_eq!(resp.daku_count, 4);
    assert_eq!(resp.gg_album_count, 1);
    assert_eq!(resp.total_count, 5);
    assert!(resp.errors.is_empty());
    assert_eq!(used, 2);

    let (bad, bad_used) = get_all_tokens_scripted("not a principal", &script, 0);
    assert_eq!(bad.total_count, 0);
    assert_eq!(bad.errors.len(), 1);
    assert_eq!(bad_used, 0);
}
