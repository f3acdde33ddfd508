//! The protocol's checks of a claim against the block being scanned.
use vstd::prelude::*;
use crate::ord_api::BlockData;
use crate::text::{decimal, push_decimal, push_str};

verus! {

/// The verdict on a claim, with the reason when it is refused.
#[derive(Debug)]
pub enum ValidationResult {
    Valid,
    Invalid(String),
}

/// Checks claims.
pub struct Validator;

/// `r` is `Valid` when `refusal` is `None`, and `Invalid` with exactly that
/// reason otherwise.
pub open spec fn verdict_is(r: ValidationResult, refusal: Option<Seq<char>>) -> bool {
    match r {
        ValidationResult::Valid => refusal is None,
        ValidationResult::Invalid(reason) => refusal == Some(reason@),
    }
}

/// Why a district claim is refused, if it is.
pub open spec fn district_refusal(number: u64, scan_block: u64) -> Option<Seq<char>> {
    if number > scan_block {
        Some(
            "District "@ + decimal(number as nat) + " references a future block (Scan block: "@
                + decimal(scan_block as nat) + ")"@,
        )
    } else {
        None
    }
}

/// Why a parcel claim is refused, if it is; `transaction_count` is the number
/// of transactions that the claimed block's data lists, if it lists them.
pub open spec fn parcel_refusal(
    tx_index: u64,
    block_number: u64,
    scan_block: u64,
    transaction_count: Option<usize>,
) -> Option<Seq<char>> {
    if block_number > scan_block {
        Some(
            "Parcel references future block "@ + decimal(block_number as nat) + " (Scan block: "@
                + decimal(scan_block as nat) + ")"@,
        )
    } else {
        match transaction_count {
            Some(count) => if tx_index >= count {
                let max: nat = if count > 0 {
                    (count - 1) as nat
                } else {
                    0
                };
                Some(
                    "TX Index "@ + decimal(tx_index as nat) + " out of range for block "@ + decimal(
                        block_number as nat,
                    ) + " (Max: "@ + decimal(max) + ")"@,
                )
            } else {
                None
            },
            None => Some(
                "Required block data for "@ + decimal(block_number as nat)
                    + " is missing transactions"@,
            ),
        }
    }
}

/// Law: a parcel passes the block check exactly when its block is not after
/// the scan block and the block's data lists more transactions than its index.
pub proof fn lemma_parcel_refusal_none(
    tx_index: u64,
    block_number: u64,
    scan_block: u64,
    transaction_count: Option<usize>,
)
    ensures
        parcel_refusal(tx_index, block_number, scan_block, transaction_count) is None <==> (
        block_number <= scan_block && (match transaction_count {
            Some(count) => tx_index < count,
            None => false,
        })),
{
}

impl Validator {
    /// Validates a District claim against the block currently being scanned:
    /// a district may not name a block after it.
    pub fn validate_district(number: u64, scan_block: u64) -> (r: ValidationResult)
        ensures
            verdict_is(r, district_refusal(number, scan_block)),
            r is Valid <==> number <= scan_block,
    {
        if number > scan_block {
            let mut reason = String::new();
            push_str(&mut reason, "District ");
            push_decimal(&mut reason, number);
            push_str(&mut reason, " references a future block (Scan block: ");
            push_decimal(&mut reason, scan_block);
            push_str(&mut reason, ")");
            proof {
                assert(reason@ =~= district_refusal(number, scan_block)->0);
            }
            return ValidationResult::Invalid(reason);
        }
        ValidationResult::Valid
    }

    /// Validates a Parcel claim against the block currently being scanned:
    /// the claimed block may not come after it, and its data must list
    /// transactions of which `tx_index` is one.
    pub fn validate_parcel(
        tx_index: u64,
        block_number: u64,
        scan_block: u64,
        target_block_data: &BlockData,
    ) -> (r: ValidationResult)
        ensures
            verdict_is(
                r,
                parcel_refusal(tx_index, block_number, scan_block, target_block_data.transaction_count),
            ),
            r is Valid <==> (block_number <= scan_block && match target_block_data.transaction_count {
                Some(count) => tx_index < count,
                None => false,
            }),
    {
        let ghost expected = parcel_refusal(
            tx_index,
            block_number,
            scan_block,
            target_block_data.transaction_count,
        );
        if block_number > scan_block {
            let mut reason = String::new();
            push_str(&mut reason, "Parcel references future block ");
            push_decimal(&mut reason, block_number);
            push_str(&mut reason, " (Scan block: ");
            push_decimal(&mut reason, scan_block);
            push_str(&mut reason, ")");
            assert(reason@ =~= expected->0);
            return ValidationResult::Invalid(reason);
        }
        match target_block_data.transaction_count {
            Some(count) => {
                if tx_index >= count as u64 {
                    let max: usize = if count > 0 {
                        count - 1
                    } else {
                        0
                    };
                    let mut reason = String::new();
                    push_str(&mut reason, "TX Index ");
                    push_decimal(&mut reason, tx_index);
                    push_str(&mut reason, " out of range for block ");
                    push_decimal(&mut reason, block_number);
                    push_str(&mut reason, " (Max: ");
                    push_decimal(&mut reason, max as u64);
                    push_str(&mut reason, ")");
                    assert(reason@ =~= expected->0);
                    return ValidationResult::Invalid(reason);
                }
            },
            None => {
                let mut reason = String::new();
                push_str(&mut reason, "Required block data for ");
                push_decimal(&mut reason, block_number);
                push_str(&mut reason, " is missing transactions");
                assert(reason@ =~= expected->0);
                return ValidationResult::Invalid(reason);
            },
        }
        ValidationResult::Valid
    }
}

} // verus!
