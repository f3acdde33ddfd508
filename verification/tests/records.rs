use bitmapd::indexer::{next_block, GENESIS_BITMAP_BLOCKHEIGHT};
use bitmapd::ord_api::{
    block_height_url, block_url, content_url, inscription_url, normalize_base_url,
    parse_block_height,
};
use bitmapd::records::district_response;
use bitmapd::store::{composite_id, last_block_from, last_block_text};

#[test]
fn district_response_lists_parcels() {
    let r = district_response(
        840000,
        Some("abci0".to_string()),
        vec![(1, "p1".to_string()), (4, "p4".to_string())],
    );
    let resp = match r {
        Ok(resp) => resp,
        Err(_) => panic!("expected a district"),
    };
    assert_eq!(resp.district, 840000);
    assert_eq!(resp.inscription_id, "abci0");
    assert_eq!(resp.parcels.len(), 2);
    assert_eq!(resp.parcels[0].tx_index, 1);
    assert_eq!(resp.parcels[0].block_number, 840000);
    assert_eq!(resp.parcels[0].inscription_id, "p1");
    assert_eq!(resp.parcels[1].tx_index, 4);
    assert_eq!(resp.parcels[1].inscription_id, "p4");
}

#[test]
fn unknown_district_is_not_found() {
    match district_response(7, None, vec![]) {
        Ok(_) => panic!("expected an error"),
        Err(e) => assert_eq!(e.error, "District 7 not found"),
    }
}

#[test]
fn parcel_key() {
    assert_eq!(composite_id(5, 840000), "5.840000");
    assert_eq!(composite_id(0, 0), "0.0");
    assert_ne!(composite_id(1, 23), composite_id(12, 3));
}

#[test]
fn last_block_round_trip() {
    for h in [0u64, 1, 792435, u64::MAX] {
        let text = last_block_text(h);
        assert_eq!(text, h.to_string());
        assert_eq!(last_block_from(Some(&text)), h);
    }
}

#[test]
fn last_block_defaults_to_zero() {
    assert_eq!(last_block_from(None), 0);
    assert_eq!(last_block_from(Some("abc")), 0);
    assert_eq!(last_block_from(Some(" 12")), 0);
    assert_eq!(last_block_from(Some("")), 0);
}

#[test]
fn next_block_starts_at_genesis() {
    assert_eq!(next_block(0), GENESIS_BITMAP_BLOCKHEIGHT);
    assert_eq!(next_block(GENESIS_BITMAP_BLOCKHEIGHT - 1), GENESIS_BITMAP_BLOCKHEIGHT);
    assert_eq!(next_block(GENESIS_BITMAP_BLOCKHEIGHT), GENESIS_BITMAP_BLOCKHEIGHT + 1);
    assert_eq!(next_block(840000), 840001);
}

#[test]
fn continues_after_recorded_block() {
    let h = 840123u64;
    assert_eq!(next_block(last_block_from(Some(&last_block_text(h)))), h + 1);
}

#[test]
fn urls() {
    let base = normalize_base_url("http://127.0.0.1:8080//");
    assert_eq!(base, "http://127.0.0.1:8080");
    assert_eq!(normalize_base_url("http://h"), "http://h");
    assert_eq!(block_url(&base, 840000), "http://127.0.0.1:8080/block/840000");
    assert_eq!(inscription_url(&base, "abci0"), "http://127.0.0.1:8080/inscription/abci0");
    assert_eq!(content_url(&base, "abci0"), "http://127.0.0.1:8080/content/abci0");
    assert_eq!(block_height_url(&base), "http://127.0.0.1:8080/blockheight");
}

#[test]
fn block_height_text() {
    assert_eq!(parse_block_height("840000\n"), Some(840000));
    assert_eq!(parse_block_height("  12 "), Some(12));
    assert_eq!(parse_block_height("twelve"), None);
    assert_eq!(parse_block_height(""), None);
}

#[test]
fn failed_attempt_retries_the_same_block() {
    let stored = last_block_text(840000);
    let first = next_block(last_block_from(Some(&stored)));
    assert_eq!(first, 840001);
    // nothing recorded: the store still holds the same text
    assert_eq!(next_block(last_block_from(Some(&stored))), first);
    // recorded: the indexer moves on
    let recorded = last_block_text(first);
    assert_eq!(next_block(last_block_from(Some(&recorded))), first + 1);
}
