//! What the indexer asks of an `ord` server and reads from its answers:
//! the request paths, the block height text, and the parts of the JSON
//! documents that the protocol looks at.
use vstd::prelude::*;
use crate::text::{chars_of, decimal, parse_u64, parse_u64_at, push_decimal, push_str, trim, trim_bounds};

verus! {

/// What the protocol reads from a block document.
pub struct BlockData {
    /// The entries of the `inscriptions` array that are strings, in order;
    /// `None` when the document has no such array.
    pub inscriptions: Option<Vec<String>>,
    /// The length of the `transactions` array; `None` when there is none.
    pub transaction_count: Option<usize>,
}

/// What the protocol reads from an inscription's metadata document.
pub struct InscriptionMeta {
    /// The entries of the `parents` array (`None` for an entry that is not a
    /// string); `None` when the document has no such array.
    pub parents: Option<Vec<Option<String>>>,
}

/// `s` with every trailing `c` removed.
pub open spec fn strip_trailing(s: Seq<char>, c: char) -> Seq<char>
    decreases s.len(),
{
    if s.len() > 0 && s.last() == c {
        strip_trailing(s.drop_last(), c)
    } else {
        s
    }
}

/// The server's base address without trailing slashes.
pub fn normalize_base_url(base_url: &str) -> (r: String)
    ensures
        r@ == strip_trailing(base_url@, '/'),
{
    let v = chars_of(base_url);
    let mut end = v.len();
    assert(v@.subrange(0, end as int) =~= v@);
    while end > 0 && v[end - 1] == '/'
        invariant
            end <= v.len(),
            strip_trailing(v@.subrange(0, end as int), '/') == strip_trailing(base_url@, '/'),
            v@ == base_url@,
        decreases end,
    {
        assert(v@.subrange(0, end as int).drop_last() =~= v@.subrange(0, end - 1));
        end = end - 1;
    }
    let mut r = String::new();
    let mut k: usize = 0;
    while k < end
        invariant
            k <= end <= v.len(),
            r@ == v@.subrange(0, k as int),
        decreases end - k,
    {
        r.push(v[k]);
        assert(r@ =~= v@.subrange(0, k + 1));
        k = k + 1;
    }
    assert(strip_trailing(v@.subrange(0, end as int), '/') == v@.subrange(0, end as int));
    r
}

/// The address of a block's document: `<base>/block/<height>`.
pub fn block_url(base_url: &str, height: u64) -> (r: String)
    ensures
        r@ == base_url@ + "/block/"@ + decimal(height as nat),
{
    let mut r = String::new();
    push_str(&mut r, base_url);
    push_str(&mut r, "/block/");
    push_decimal(&mut r, height);
    assert(r@ =~= base_url@ + "/block/"@ + decimal(height as nat));
    r
}

/// The address of an inscription's metadata: `<base>/inscription/<id>`.
pub fn inscription_url(base_url: &str, inscription_id: &str) -> (r: String)
    ensures
        r@ == base_url@ + "/inscription/"@ + inscription_id@,
{
    let mut r = String::new();
    push_str(&mut r, base_url);
    push_str(&mut r, "/inscription/");
    push_str(&mut r, inscription_id);
    assert(r@ =~= base_url@ + "/inscription/"@ + inscription_id@);
    r
}

/// The address of an inscription's raw content: `<base>/content/<id>`.
pub fn content_url(base_url: &str, inscription_id: &str) -> (r: String)
    ensures
        r@ == base_url@ + "/content/"@ + inscription_id@,
{
    let mut r = String::new();
    push_str(&mut r, base_url);
    push_str(&mut r, "/content/");
    push_str(&mut r, inscription_id);
    assert(r@ =~= base_url@ + "/content/"@ + inscription_id@);
    r
}

/// The address of the current block height: `<base>/blockheight`.
pub fn block_height_url(base_url: &str) -> (r: String)
    ensures
        r@ == base_url@ + "/blockheight"@,
{
    let mut r = String::new();
    push_str(&mut r, base_url);
    push_str(&mut r, "/blockheight");
    r
}

/// The block height in the server's answer: the decimal number between
/// surrounding white space; `None` when it is not one.
pub fn parse_block_height(text: &str) -> (r: Option<u64>)
    ensures
        r == parse_u64(trim(text@)),
{
    let v = chars_of(text);
    let (lo, hi) = trim_bounds(&v);
    parse_u64_at(&v, lo, hi)
}

} // verus!
