//! The registry enumerator's listing, views and owner filter, and the
//! snapshot loaders.

use wallet_rust::csv::{
    generate_test_csv_data, load_all_holders, load_daku_holders, load_gg_holders,
};
use wallet_rust::registry::{
    decode_registry_records, get_tokens_for_owner, registry_principal_entries, registry_tokens,
};
use wallet_rust::util::u64_to_string;
use wallet_rust::wire;

const ADMIN: &str = "cd3yv-nkb2m-mjvnb-naicp-mkqk2-g4f3d-g7y4g-xdeaz-n6i75-xur54-xae";

fn listing() -> Vec<(u32, Vec<u8>)> {
    vec![
        (0, b"2vxsx-fae".to_vec()),
        (1, b"somebody-else".to_vec()),
        (2, b"2vxsx-fae".to_vec()),
        (3, ADMIN.as_bytes().to_vec()),
        (4, b"another-one".to_vec()),
    ]
}

#[test]
fn enumerator_filter_yields_exactly_the_matching_indices() {
    // five (index, owner) pairs of which two match the queried identity
    let bytes = wire::enc_registry_reply(&listing());
    let records = decode_registry_records(&bytes).unwrap();
    assert_eq!(records.len(), 5);
    let owned = get_tokens_for_owner(&records, &"2vxsx-fae".to_string());
    assert_eq!(owned, vec![0, 2]);
    let nobody = get_tokens_for_owner(&records, &"unknown".to_string());
    assert!(nobody.is_empty());
}

#[test]
fn enumerator_reply_is_readable_by_the_real_candid_decoder() {
    let bytes = wire::enc_registry_reply(&listing());
    let decoded: Vec<(u32, String)> = candid::decode_one(&bytes).unwrap();
    assert_eq!(decoded.len(), 5);
    assert_eq!(decoded[0], (0, "2vxsx-fae".to_string()));
    assert_eq!(decoded[3], (3, ADMIN.to_string()));
}

#[test]
fn enumerator_reads_listings_the_real_candid_encoder_produces() {
    let pairs: Vec<(u32, String)> = vec![
        (7, "2vxsx-fae".to_string()),
        (8, "free-form owner".to_string()),
    ];
    let bytes = candid::encode_one(pairs).unwrap();
    let records = decode_registry_records(&bytes).unwrap();
    assert_eq!(records.len(), 2);
    assert_eq!(records[0].index, 7);
    assert_eq!(records[0].owner, "2vxsx-fae");
    assert_eq!(records[1].owner, "free-form owner");
}

#[test]
fn enumerator_views_index_and_parse_owners() {
    let bytes = wire::enc_registry_reply(&listing());
    let records = decode_registry_records(&bytes).unwrap();
    assert_eq!(registry_tokens(&records), vec![0, 1, 2, 3, 4]);
    // only the well-formed principal texts survive the identity view
    let entries = registry_principal_entries(&records);
    let anon = candid::Principal::from_text("2vxsx-fae").unwrap();
    let admin = candid::Principal::from_text(ADMIN).unwrap();
    assert_eq!(entries.len(), 3);
    assert_eq!(entries[0], (0, anon.as_slice().to_vec()));
    assert_eq!(entries[1], (2, anon.as_slice().to_vec()));
    assert_eq!(entries[2], (3, admin.as_slice().to_vec()));
}

#[test]
fn malformed_registry_bytes_decode_to_nothing() {
    let bytes: Vec<u8> = vec![0x44, 0x49, 0x44, 0x4c, 0x00];
    assert!(decode_registry_records(&bytes).is_none());
}

#[test]
fn snapshot_loaders_accumulate_per_principal() {
    let (daku_csv, gg_csv) = generate_test_csv_data();
    let daku = load_daku_holders(&daku_csv);
    assert_eq!(daku.len(), 3);
    assert_eq!(daku[0], (ADMIN.to_string(), 3));
    assert_eq!(daku[1].1, 0);
    assert_eq!(daku[2].1, 100);
    let gg = load_gg_holders(&gg_csv);
    assert_eq!(gg.len(), 3);
    assert_eq!(gg[0], (ADMIN.to_string(), 2));
    assert_eq!(gg[2], ("rce3q-iaaaa-aaaap-qpyfa-cai".to_string(), 1));
}

#[test]
fn snapshot_loader_skips_malformed_rows_and_accumulates_duplicates() {
    let csv = "accountIdentifier,principal,tokenIds,numberOfTokens\n\
        aaa,2vxsx-fae,1;2,5\n\
        short,line\n\
        bbb,not a principal,3,4\n\
        ccc,2vxsx-fae,4,7\n\
        ddd,2vxsx-fae,5,not-a-number\n\
        \n\
        eee,,6,8";
    let holders = load_daku_holders(csv);
    assert_eq!(holders, vec![("2vxsx-fae".to_string(), 12)]);
}

#[test]
fn merged_snapshot_keeps_totals_equal_to_sums() {
    let (daku_csv, gg_csv) = generate_test_csv_data();
    let merged = load_all_holders(&daku_csv, &gg_csv, 123);
    assert_eq!(merged.len(), 4);
    let admin = merged.iter().find(|e| e.0 == ADMIN).unwrap();
    assert_eq!(
        (admin.1.daku_count, admin.1.gg_count, admin.1.total_count),
        (3, 2, 5)
    );
    let rce = merged
        .iter()
        .find(|e| e.0 == "rce3q-iaaaa-aaaap-qpyfa-cai")
        .unwrap();
    assert_eq!((rce.1.daku_count, rce.1.gg_count, rce.1.total_count), (0, 1, 1));
    for e in &merged {
        assert_eq!(e.1.total_count, e.1.daku_count + e.1.gg_count);
        assert_eq!(e.1.last_updated, 123);
    }
}

#[test]
fn decimal_rendering_matches_expectations() {
    assert_eq!(u64_to_string(0), "0");
    assert_eq!(u64_to_string(7), "7");
    assert_eq!(u64_to_string(12345), "12345");
    assert_eq!(u64_to_string(u64::MAX), "18446744073709551615");
}
