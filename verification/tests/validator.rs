use bitmapd::ord_api::BlockData;
use bitmapd::validator::{ValidationResult, Validator};

fn reason(r: ValidationResult) -> Option<String> {
    match r {
        ValidationResult::Valid => None,
        ValidationResult::Invalid(s) => Some(s),
    }
}

fn block(count: Option<usize>) -> BlockData {
    BlockData { inscriptions: None, transaction_count: count }
}

#[test]
fn district_at_or_before_scan_block_is_valid() {
    assert_eq!(reason(Validator::validate_district(100, 100)), None);
    assert_eq!(reason(Validator::validate_district(0, 0)), None);
}

#[test]
fn district_after_scan_block_is_refused() {
    assert_eq!(
        reason(Validator::validate_district(101, 100)).as_deref(),
        Some("District 101 references a future block (Scan block: 100)")
    );
}

#[test]
fn parcel_in_range_is_valid() {
    assert_eq!(reason(Validator::validate_parcel(2, 50, 100, &block(Some(3)))), None);
}

#[test]
fn parcel_in_future_block_is_refused() {
    assert_eq!(
        reason(Validator::validate_parcel(0, 101, 100, &block(Some(3)))).as_deref(),
        Some("Parcel references future block 101 (Scan block: 100)")
    );
}

#[test]
fn parcel_index_out_of_range_is_refused() {
    assert_eq!(
        reason(Validator::validate_parcel(3, 50, 100, &block(Some(3)))).as_deref(),
        Some("TX Index 3 out of range for block 50 (Max: 2)")
    );
    assert_eq!(
        reason(Validator::validate_parcel(0, 50, 100, &block(Some(0)))).as_deref(),
        Some("TX Index 0 out of range for block 50 (Max: 0)")
    );
}

#[test]
fn parcel_without_transactions_is_refused() {
    assert_eq!(
        reason(Validator::validate_parcel(0, 50, 100, &block(None))).as_deref(),
        Some("Required block data for 50 is missing transactions")
    );
}
