//! How the indexer's records are keyed and written in its store.
use vstd::prelude::*;
use crate::text::{
    chars_of, decimal, lemma_decimal_digits, lemma_parse_decimal, lemma_split_after_dot,
    lemma_split_no_dots, parse_u64, parse_u64_at, push_decimal, push_str, split_dots,
};

verus! {

/// The text stored as the last processed block: its decimal notation.
pub fn last_block_text(height: u64) -> (r: String)
    ensures
        r@ == decimal(height as nat),
{
    crate::text::decimal_string(height)
}

/// The last processed block, read from the stored text: 0 when nothing is
/// stored or the text is not a number.
pub open spec fn last_block_of(stored: Option<Seq<char>>) -> u64 {
    match stored {
        Some(text) => match parse_u64(text) {
            Some(h) => h,
            None => 0,
        },
        None => 0,
    }
}

/// Reads the last processed block from what the store holds (`None` when
/// it holds nothing, or could not be read).
pub fn last_block_from(stored: Option<&str>) -> (r: u64)
    ensures
        r == last_block_of(
            match stored {
                Some(text) => Some(text@),
                None => None,
            },
        ),
{
    match stored {
        Some(text) => {
            let v = chars_of(text);
            match parse_u64_at(&v, 0, v.len()) {
                Some(h) => {
                    assert(v@.subrange(0, v.len() as int) =~= text@);
                    h
                },
                None => {
                    assert(v@.subrange(0, v.len() as int) =~= text@);
                    0
                },
            }
        },
        None => 0,
    }
}

/// The key of a parcel record: `<tx_index>.<block_number>`.
pub fn composite_id(tx_index: u64, block_number: u64) -> (r: String)
    ensures
        r@ == decimal(tx_index as nat) + "."@ + decimal(block_number as nat),
{
    let mut r = String::new();
    push_decimal(&mut r, tx_index);
    push_str(&mut r, ".");
    push_decimal(&mut r, block_number);
    assert(r@ =~= decimal(tx_index as nat) + "."@ + decimal(block_number as nat));
    r
}

/// Law: reading back the stored last block gives the block that was stored.
pub proof fn lemma_last_block_roundtrip(height: u64)
    ensures
        last_block_of(Some(decimal(height as nat))) == height,
{
    lemma_parse_decimal(height);
}

/// Law: two parcels share a key only when they are the same parcel.
pub proof fn lemma_composite_id_injective(a: u64, b: u64, c: u64, d: u64)
    requires
        decimal(a as nat) + "."@ + decimal(b as nat) == decimal(c as nat) + "."@ + decimal(
            d as nat,
        ),
    ensures
        a == c,
        b == d,
{
    reveal_strlit(".");
    assert("."@ =~= seq!['.']);
    lemma_decimal_digits(a as nat);
    lemma_decimal_digits(b as nat);
    lemma_decimal_digits(c as nat);
    lemma_decimal_digits(d as nat);
    lemma_split_no_dots(decimal(a as nat));
    lemma_split_no_dots(decimal(c as nat));
    lemma_split_after_dot(decimal(a as nat), decimal(b as nat));
    lemma_split_after_dot(decimal(c as nat), decimal(d as nat));
    let pieces = split_dots(decimal(a as nat) + "."@ + decimal(b as nat));
    assert(pieces[0] == decimal(a as nat));
    assert(pieces[0] == decimal(c as nat));
    assert(pieces[1] == decimal(b as nat));
    assert(pieces[1] == decimal(d as nat));
    lemma_parse_decimal(a);
    lemma_parse_decimal(b);
    lemma_parse_decimal(c);
    lemma_parse_decimal(d);
}

} // verus!
