//! Bitmap claims: inscription contents of the form `<number>.bitmap`
//! (a district) or `<tx_index>.<block_number>.bitmap` (a parcel).
use vstd::prelude::*;
use crate::text::{
    all_white_space, lemma_trim_idempotent, lemma_trim_padding,
    lemma_split_after_dot, lemma_split_no_dots, no_dots,
    decimal, is_white_space, lemma_decimal_digits, lemma_parse_decimal, trim_end, trim_start,
    chars_of, has_suffix, has_suffix_at, parse_u64, parse_u64_at, split_dots, strip_suffixes,
    trim, trim_bounds,
};

verus! {

/// What an inscription's content claims.
#[derive(Debug, PartialEq, Eq, Structural)]
pub enum BitmapClaim {
    District { number: u64 },
    Parcel { tx_index: u64, block_number: u64 },
    Invalid,
}

/// Reads claims out of inscription contents.
pub struct Parser;

/// The ending that every claim carries.
pub open spec fn bitmap_suffix() -> Seq<char> {
    seq!['.', 'b', 'i', 't', 'm', 'a', 'p']
}

/// The claim made by the pieces between the dots of a claim's body.
pub open spec fn claim_of_pieces(pieces: Seq<Seq<char>>) -> BitmapClaim {
    if pieces.len() == 1 {
        match parse_u64(pieces[0]) {
            Some(number) => BitmapClaim::District { number },
            None => BitmapClaim::Invalid,
        }
    } else if pieces.len() == 2 {
        match (parse_u64(pieces[0]), parse_u64(pieces[1])) {
            (Some(tx_index), Some(block_number)) => BitmapClaim::Parcel { tx_index, block_number },
            _ => BitmapClaim::Invalid,
        }
    } else {
        BitmapClaim::Invalid
    }
}

/// The claim made by already lower-cased content: white space around it is
/// ignored, it must end with ".bitmap" (all repetitions of that ending are
/// removed), and what is left is one number or two numbers joined by '.'.
pub open spec fn claim_of(lowered: Seq<char>) -> BitmapClaim {
    let t = trim(lowered);
    if has_suffix(t, bitmap_suffix()) {
        claim_of_pieces(split_dots(strip_suffixes(t, bitmap_suffix())))
    } else {
        BitmapClaim::Invalid
    }
}

/// What `str::to_lowercase` returns for a string (the Unicode lower-case mapping).
pub uninterp spec fn lowercase(s: Seq<char>) -> Seq<char>;

/// Calls `str::to_lowercase`; its result is named `lowercase` of the input,
/// and nothing more is claimed of it.
#[verifier::external_body]
fn to_lowercase(s: &str) -> (r: String)
    ensures
        r@ == lowercase(s@),
{
    s.to_lowercase()
}

/// Counts the dots of `v[lo..hi]` and finds the first one.
fn scan_dots(v: &Vec<char>, lo: usize, hi: usize) -> (r: (usize, usize))
    requires
        lo <= hi <= v.len(),
    ensures
        split_dots(v@.subrange(lo as int, hi as int)).len() == r.0 + 1,
        r.0 == 0 ==> split_dots(v@.subrange(lo as int, hi as int))[0] == v@.subrange(
            lo as int,
            hi as int,
        ),
        r.0 >= 1 ==> lo <= r.1 < hi && split_dots(v@.subrange(lo as int, hi as int))[0]
            == v@.subrange(lo as int, r.1 as int),
        r.0 == 1 ==> split_dots(v@.subrange(lo as int, hi as int))[1] == v@.subrange(
            r.1 + 1,
            hi as int,
        ),
{
    let mut dots: usize = 0;
    let mut first: usize = lo;
    let mut k: usize = lo;
    assert(v@.subrange(lo as int, lo as int) =~= Seq::<char>::empty());
    assert(split_dots(Seq::<char>::empty()) =~= seq![Seq::<char>::empty()]);
    while k < hi
        invariant
            lo <= k <= hi <= v.len(),
            dots <= k - lo,
            split_dots(v@.subrange(lo as int, k as int)).len() == dots + 1,
            dots == 0 ==> split_dots(v@.subrange(lo as int, k as int))[0] == v@.subrange(
                lo as int,
                k as int,
            ),
            dots >= 1 ==> lo <= first < k && split_dots(v@.subrange(lo as int, k as int))[0]
                == v@.subrange(lo as int, first as int),
            dots == 1 ==> split_dots(v@.subrange(lo as int, k as int))[1] == v@.subrange(
                first + 1,
                k as int,
            ),
        decreases hi - k,
    {
        let ghost prev = v@.subrange(lo as int, k as int);
        let ghost next = v@.subrange(lo as int, k + 1);
        assert(next.drop_last() =~= prev);
        assert(next.last() == v@[k as int]);
        if v[k] == '.' {
            if dots == 0 {
                first = k;
            }
            dots = dots + 1;
        } else {
            proof {
                if dots == 1 {
                    assert(v@.subrange(first + 1, k + 1) =~= v@.subrange(first + 1, k as int).push(
                        v@[k as int],
                    ));
                }
                if dots == 0 {
                    assert(next =~= prev.push(v@[k as int]));
                }
            }
        }
        k = k + 1;
    }
    (dots, first)
}

/// A text that starts and ends with a character other than white space
/// is left as it is by trimming.
proof fn lemma_trim_untouched(s: Seq<char>)
    requires
        s.len() > 0,
        !is_white_space(s[0]),
        !is_white_space(s.last()),
    ensures
        trim(s) == s,
{
}

/// The digits of a number never end with ".bitmap".
proof fn lemma_decimal_no_suffix(n: nat)
    ensures
        strip_suffixes(decimal(n), bitmap_suffix()) == decimal(n),
        no_dots(decimal(n)),
{
    lemma_decimal_digits(n);
    let d = decimal(n);
    if has_suffix(d, bitmap_suffix()) {
        assert(d.subrange(d.len() - 7, d.len() as int)[6] == d[d.len() - 1]);
        assert(crate::text::is_digit(d[d.len() - 1]));
    }
}

/// Law: `<n>.bitmap` claims district `n`.
pub proof fn lemma_district_claim(n: u64)
    ensures
        claim_of(decimal(n as nat) + bitmap_suffix()) == (BitmapClaim::District { number: n }),
{
    let d = decimal(n as nat);
    let s = d + bitmap_suffix();
    lemma_decimal_digits(n as nat);
    lemma_decimal_no_suffix(n as nat);
    lemma_parse_decimal(n);
    assert(s[0] == d[0]);
    assert(crate::text::is_digit(d[0]));
    lemma_trim_untouched(s);
    assert(s.subrange(s.len() - 7, s.len() as int) =~= bitmap_suffix());
    assert(s.subrange(0, s.len() - 7) =~= d);
    assert(strip_suffixes(s, bitmap_suffix()) == d);
    lemma_split_no_dots(d);
}

/// Law: `<tx_index>.<block_number>.bitmap` claims that parcel.
pub proof fn lemma_parcel_claim(tx_index: u64, block_number: u64)
    ensures
        claim_of(decimal(tx_index as nat) + seq!['.'] + decimal(block_number as nat) + bitmap_suffix())
            == (BitmapClaim::Parcel { tx_index, block_number }),
{
    let a = decimal(tx_index as nat);
    let b = decimal(block_number as nat);
    let body = a + seq!['.'] + b;
    let s = body + bitmap_suffix();
    lemma_decimal_digits(tx_index as nat);
    lemma_decimal_digits(block_number as nat);
    lemma_decimal_no_suffix(tx_index as nat);
    lemma_decimal_no_suffix(block_number as nat);
    lemma_parse_decimal(tx_index);
    lemma_parse_decimal(block_number);
    assert(s[0] == a[0]);
    assert(crate::text::is_digit(a[0]));
    lemma_trim_untouched(s);
    assert(s.subrange(s.len() - 7, s.len() as int) =~= bitmap_suffix());
    assert(s.subrange(0, s.len() - 7) =~= body);
    assert(body.last() == b.last());
    assert(crate::text::is_digit(b[b.len() - 1]));
    assert(!has_suffix(body, bitmap_suffix())) by {
        if has_suffix(body, bitmap_suffix()) {
            assert(body.subrange(body.len() - 7, body.len() as int)[6] == body[body.len() - 1]);
        }
    }
    assert(strip_suffixes(body, bitmap_suffix()) == body);
    assert(strip_suffixes(s, bitmap_suffix()) == body);
    lemma_split_no_dots(a);
    lemma_split_after_dot(a, b);
}

/// Law: white space around the content does not change the claim.
pub proof fn lemma_claim_ignores_padding(w1: Seq<char>, s: Seq<char>, w2: Seq<char>)
    requires
        all_white_space(w1),
        all_white_space(w2),
    ensures
        claim_of(w1 + s + w2) == claim_of(s),
{
    lemma_trim_padding(w1, s, w2);
}

/// Law: the claim of a text is the claim of the text with its surrounding
/// white space trimmed.
pub proof fn lemma_claim_ignores_trim(s: Seq<char>)
    ensures
        claim_of(trim(s)) == claim_of(s),
{
    lemma_trim_idempotent(s);
}

/// The claim of a body of digits and dots followed by ".bitmap".
proof fn lemma_body_claim(body: Seq<char>)
    requires
        body.len() > 0,
        crate::text::is_digit(body[0]) || body[0] == '+',
        crate::text::is_digit(body.last()),
    ensures
        claim_of(body + bitmap_suffix()) == claim_of_pieces(split_dots(body)),
        claim_of(body + bitmap_suffix() + bitmap_suffix()) == claim_of_pieces(split_dots(body)),
{
    let s = body + bitmap_suffix();
    let s2 = s + bitmap_suffix();
    assert(s[0] == body[0]);
    assert(s2[0] == body[0]);
    lemma_trim_untouched(s);
    lemma_trim_untouched(s2);
    assert(s.subrange(s.len() - 7, s.len() as int) =~= bitmap_suffix());
    assert(s.subrange(0, s.len() - 7) =~= body);
    assert(s2.subrange(s2.len() - 7, s2.len() as int) =~= bitmap_suffix());
    assert(s2.subrange(0, s2.len() - 7) =~= s);
    assert(!has_suffix(body, bitmap_suffix())) by {
        if has_suffix(body, bitmap_suffix()) {
            assert(body.subrange(body.len() - 7, body.len() as int)[6] == body[body.len() - 1]);
        }
    }
    assert(strip_suffixes(body, bitmap_suffix()) == body);
    assert(strip_suffixes(s, bitmap_suffix()) == body);
    assert(strip_suffixes(s2, bitmap_suffix()) == body);
}

/// Law: `.bitmap` written more than once at the end counts once:
/// `<n>.bitmap.bitmap` claims district `n`.
pub proof fn lemma_repeated_suffix_claim(n: u64)
    ensures
        claim_of(decimal(n as nat) + bitmap_suffix() + bitmap_suffix())
            == (BitmapClaim::District { number: n }),
{
    let d = decimal(n as nat);
    lemma_decimal_digits(n as nat);
    lemma_parse_decimal(n);
    assert(crate::text::is_digit(d[0]));
    assert(crate::text::is_digit(d[d.len() - 1]));
    lemma_body_claim(d);
    lemma_split_no_dots(d);
}

/// Law: a number without the ".bitmap" ending claims nothing.
pub proof fn lemma_bare_number_claims_nothing(n: nat)
    ensures
        claim_of(decimal(n)) == BitmapClaim::Invalid,
{
    let d = decimal(n);
    lemma_decimal_digits(n);
    assert(crate::text::is_digit(d[0]));
    assert(crate::text::is_digit(d[d.len() - 1]));
    lemma_trim_untouched(d);
    if has_suffix(d, bitmap_suffix()) {
        assert(d.subrange(d.len() - 7, d.len() as int)[6] == d[d.len() - 1]);
    }
}

/// Law: a number too large for 64 bits claims nothing.
pub proof fn lemma_oversized_district_claims_nothing(n: nat)
    requires
        n > u64::MAX,
    ensures
        claim_of(decimal(n) + bitmap_suffix()) == BitmapClaim::Invalid,
{
    let d = decimal(n);
    lemma_decimal_digits(n);
    assert(crate::text::is_digit(d[0]));
    assert(crate::text::is_digit(d[d.len() - 1]));
    lemma_body_claim(d);
    lemma_split_no_dots(d);
}

/// Law: three numbers joined by dots claim nothing.
pub proof fn lemma_three_numbers_claim_nothing(a: nat, b: nat, c: nat)
    ensures
        claim_of(decimal(a) + seq!['.'] + decimal(b) + seq!['.'] + decimal(c) + bitmap_suffix())
            == BitmapClaim::Invalid,
{
    let x = decimal(a) + seq!['.'] + decimal(b);
    let body = x + seq!['.'] + decimal(c);
    lemma_decimal_digits(a);
    lemma_decimal_digits(b);
    lemma_decimal_digits(c);
    lemma_decimal_no_suffix(c);
    lemma_split_no_dots(decimal(a));
    lemma_split_after_dot(decimal(a), decimal(b));
    lemma_split_after_dot(x, decimal(c));
    assert(body[0] == decimal(a)[0]);
    assert(crate::text::is_digit(decimal(a)[0]));
    assert(body.last() == decimal(c).last());
    assert(crate::text::is_digit(decimal(c)[decimal(c).len() - 1]));
    lemma_body_claim(body);
}

proof fn lemma_leading_zero_value(d: Seq<char>)
    ensures
        crate::text::digits_value(seq!['0'] + d) == crate::text::digits_value(d),
    decreases d.len(),
{
    if d.len() == 0 {
        let z = seq!['0'];
        assert(z.drop_last() =~= Seq::<char>::empty());
        assert(z.last() == '0');
        assert(crate::text::digits_value(z) == crate::text::digits_value(Seq::<char>::empty()) * 10);
        assert(seq!['0'] + d =~= z);
        assert(d =~= Seq::<char>::empty());
    } else {
        lemma_leading_zero_value(d.drop_last());
        assert((seq!['0'] + d).drop_last() =~= seq!['0'] + d.drop_last());
        assert((seq!['0'] + d).last() == d.last());
        let z = seq!['0'] + d;
        assert(crate::text::digits_value(z) == crate::text::digits_value(z.drop_last()) * 10 + (
        z.last() as int - '0' as int) as nat);
    }
}

/// Law: leading zeros and a leading '+' do not change the number:
/// `0<n>.bitmap` and `+<n>.bitmap` claim district `n`.
pub proof fn lemma_number_prefixes(n: u64)
    ensures
        claim_of(seq!['0'] + decimal(n as nat) + bitmap_suffix()) == (BitmapClaim::District {
            number: n,
        }),
        claim_of(seq!['+'] + decimal(n as nat) + bitmap_suffix()) == (BitmapClaim::District {
            number: n,
        }),
{
    let d = decimal(n as nat);
    lemma_decimal_digits(n as nat);
    let z = seq!['0'] + d;
    let p = seq!['+'] + d;
    assert(crate::text::is_digit(d[d.len() - 1]));
    assert(z.last() == d.last());
    assert(p.last() == d.last());
    lemma_body_claim(z);
    lemma_body_claim(p);
    assert forall|i: int| 0 <= i < z.len() implies #[trigger] z[i] != '.' by {
        if i > 0 {
            assert(z[i] == d[i - 1]);
        }
    }
    assert forall|i: int| 0 <= i < p.len() implies #[trigger] p[i] != '.' by {
        if i > 0 {
            assert(p[i] == d[i - 1]);
        }
    }
    lemma_split_no_dots(z);
    lemma_split_no_dots(p);
    lemma_leading_zero_value(d);
    assert forall|i: int| 0 <= i < z.len() implies crate::text::is_digit(#[trigger] z[i]) by {
        if i > 0 {
            assert(z[i] == d[i - 1]);
        }
    }
    assert(crate::text::unsigned_part(p) =~= d);
    assert(crate::text::unsigned_part(z) =~= z);
}

impl Parser {
    /// The claim made by `content`, read without regard to letter case.
    pub fn parse(content: &str) -> (claim: BitmapClaim)
        ensures
            claim == claim_of(lowercase(content@)),
    {
        let lowered = to_lowercase(content);
        Self::parse_lowercase(lowered.as_str())
    }

    /// The claim made by content that has already been lower-cased.
    pub fn parse_lowercase(lowered: &str) -> (claim: BitmapClaim)
        ensures
            claim == claim_of(lowered@),
    {
        let v = chars_of(lowered);
        let (lo, hi) = trim_bounds(&v);
        let ghost t = v@.subrange(lo as int, hi as int);
        let suffix = vec!['.', 'b', 'i', 't', 'm', 'a', 'p'];
        assert(suffix@ =~= bitmap_suffix());
        if !has_suffix_at(&v, lo, hi, &suffix) {
            return BitmapClaim::Invalid;
        }
        let mut end = hi;
        while has_suffix_at(&v, lo, end, &suffix)
            invariant
                lo <= end <= hi <= v.len(),
                suffix@ == bitmap_suffix(),
                strip_suffixes(v@.subrange(lo as int, end as int), bitmap_suffix())
                    == strip_suffixes(t, bitmap_suffix()),
            decreases end,
        {
            assert(v@.subrange(lo as int, end as int).subrange(0, end - lo - 7) =~= v@.subrange(
                lo as int,
                end - 7,
            ));
            end = end - 7;
        }
        let ghost body = v@.subrange(lo as int, end as int);
        assert(strip_suffixes(body, bitmap_suffix()) == body);
        let (dots, first) = scan_dots(&v, lo, end);
        if dots == 0 {
            match parse_u64_at(&v, lo, end) {
                Some(number) => BitmapClaim::District { number },
                None => BitmapClaim::Invalid,
            }
        } else if dots == 1 {
            let tx = parse_u64_at(&v, lo, first);
            let blk = parse_u64_at(&v, first + 1, end);
            match (tx, blk) {
                (Some(tx_index), Some(block_number)) => BitmapClaim::Parcel {
                    tx_index,
                    block_number,
                },
                _ => BitmapClaim::Invalid,
            }
        } else {
            BitmapClaim::Invalid
        }
    }
}

} // verus!
