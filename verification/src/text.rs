//! Character-level building blocks shared by the parsers and formatters:
//! Unicode white space, trimming, suffix matching, splitting on '.',
//! unsigned decimal numbers (both directions).
use vstd::prelude::*;

verus! {

pub assume_specification[ String::push ](s: &mut String, ch: char)
    ensures
        final(s)@ == old(s)@.push(ch),
;

// ---------------------------------------------------------------------------
// Specifications
// ---------------------------------------------------------------------------

/// The characters that carry the Unicode `White_Space` property.
pub open spec fn is_white_space(c: char) -> bool {
    let u = c as int;
    ||| 0x09 <= u <= 0x0D
    ||| u == 0x20
    ||| u == 0x85
    ||| u == 0xA0
    ||| u == 0x1680
    ||| 0x2000 <= u <= 0x200A
    ||| u == 0x2028
    ||| u == 0x2029
    ||| u == 0x202F
    ||| u == 0x205F
    ||| u == 0x3000
}

/// `s` without its leading white space.
pub open spec fn trim_start(s: Seq<char>) -> Seq<char>
    decreases s.len(),
{
    if s.len() > 0 && is_white_space(s[0]) {
        trim_start(s.drop_first())
    } else {
        s
    }
}

/// `s` without its trailing white space.
pub open spec fn trim_end(s: Seq<char>) -> Seq<char>
    decreases s.len(),
{
    if s.len() > 0 && is_white_space(s.last()) {
        trim_end(s.drop_last())
    } else {
        s
    }
}

/// `s` without leading and trailing white space.
pub open spec fn trim(s: Seq<char>) -> Seq<char> {
    trim_end(trim_start(s))
}

/// `s` ends with `suffix`.
pub open spec fn has_suffix(s: Seq<char>, suffix: Seq<char>) -> bool {
    &&& suffix.len() <= s.len()
    &&& s.subrange(s.len() - suffix.len(), s.len() as int) == suffix
}

/// `s` with every repetition of a non-empty `suffix` removed from its end.
pub open spec fn strip_suffixes(s: Seq<char>, suffix: Seq<char>) -> Seq<char>
    decreases s.len(),
{
    if suffix.len() > 0 && has_suffix(s, suffix) {
        strip_suffixes(s.subrange(0, s.len() - suffix.len()), suffix)
    } else {
        s
    }
}

/// The pieces of `s` between the '.' characters, in order; `s` without a
/// '.' is a single piece, and each '.' adds one piece (possibly empty).
pub open spec fn split_dots(s: Seq<char>) -> Seq<Seq<char>>
    decreases s.len(),
{
    if s.len() == 0 {
        seq![Seq::<char>::empty()]
    } else {
        let pieces = split_dots(s.drop_last());
        if s.last() == '.' {
            pieces.push(Seq::<char>::empty())
        } else {
            pieces.update(pieces.len() - 1, pieces.last().push(s.last()))
        }
    }
}

/// An ASCII decimal digit.
pub open spec fn is_digit(c: char) -> bool {
    '0' as int <= c as int <= '9' as int
}

pub open spec fn all_digits(s: Seq<char>) -> bool {
    forall|i: int| 0 <= i < s.len() ==> is_digit(#[trigger] s[i])
}

/// The number that a string of decimal digits denotes.
pub open spec fn digits_value(s: Seq<char>) -> nat
    decreases s.len(),
{
    if s.len() == 0 {
        0
    } else {
        digits_value(s.drop_last()) * 10 + (s.last() as int - '0' as int) as nat
    }
}

/// `s` without one leading '+', if it has one.
pub open spec fn unsigned_part(s: Seq<char>) -> Seq<char> {
    if s.len() > 0 && s[0] == '+' {
        s.drop_first()
    } else {
        s
    }
}

/// An unsigned 64-bit integer written in decimal: an optional '+', then
/// at least one ASCII digit (leading zeros allowed), with a value that fits.
pub open spec fn parse_u64(s: Seq<char>) -> Option<u64> {
    let d = unsigned_part(s);
    if d.len() > 0 && all_digits(d) && digits_value(d) <= u64::MAX {
        Some(digits_value(d) as u64)
    } else {
        None
    }
}

/// The digit character for `d < 10`.
pub open spec fn digit(d: nat) -> char {
    (('0' as int) + d) as char
}

/// The shortest decimal notation of `n`.
pub open spec fn decimal(n: nat) -> Seq<char>
    decreases n,
{
    if n < 10 {
        seq![digit(n)]
    } else {
        decimal(n / 10).push(digit(n % 10))
    }
}

// ---------------------------------------------------------------------------
// Lemmas
// ---------------------------------------------------------------------------

proof fn lemma_digits_value_prefix(s: Seq<char>, k: int)
    requires
        0 <= k <= s.len(),
    ensures
        digits_value(s.take(k)) <= digits_value(s),
    decreases s.len(),
{
    if k < s.len() {
        lemma_digits_value_prefix(s.drop_last(), k);
        assert(s.drop_last().take(k) =~= s.take(k));
    } else {
        assert(s.take(k) =~= s);
    }
}

/// The decimal notation of `n` consists of digits, does not start with
/// '+', and denotes `n`.
pub proof fn lemma_decimal_digits(n: nat)
    ensures
        decimal(n).len() > 0,
        all_digits(decimal(n)),
        digits_value(decimal(n)) == n,
        decimal(n)[0] != '+',
        decimal(n)[0] != '.',
        forall|i: int| 0 <= i < decimal(n).len() ==> #[trigger] decimal(n)[i] != '.',
    decreases n,
{
    assert((('0' as int) + (n % 10)) as char as int == '0' as int + n % 10);
    if n < 10 {
        assert(decimal(n).drop_last() =~= Seq::<char>::empty());
        assert(decimal(n).last() == digit(n));
        assert(digits_value(decimal(n)) == digits_value(Seq::<char>::empty()) * 10 + n);
    } else {
        lemma_decimal_digits(n / 10);
        let p = decimal(n / 10);
        assert(decimal(n).drop_last() =~= p);
        assert(decimal(n)[0] == p[0]);
        assert(decimal(n).last() == digit(n % 10));
        assert(digits_value(decimal(n)) == digits_value(p) * 10 + n % 10);
    }
}

/// Reading back what `decimal` writes gives the number.
pub proof fn lemma_parse_decimal(n: u64)
    ensures
        parse_u64(decimal(n as nat)) == Some(n),
{
    lemma_decimal_digits(n as nat);
}

/// No character of `s` is a '.'.
pub open spec fn no_dots(s: Seq<char>) -> bool {
    forall|i: int| 0 <= i < s.len() ==> #[trigger] s[i] != '.'
}

pub proof fn lemma_split_no_dots(s: Seq<char>)
    requires
        no_dots(s),
    ensures
        split_dots(s) == seq![s],
    decreases s.len(),
{
    if s.len() > 0 {
        lemma_split_no_dots(s.drop_last());
        assert(s.drop_last().push(s.last()) =~= s);
        assert(split_dots(s) =~= seq![s]);
    } else {
        assert(s =~= Seq::<char>::empty());
    }
}

pub proof fn lemma_split_after_dot(x: Seq<char>, y: Seq<char>)
    requires
        no_dots(y),
    ensures
        split_dots(x + seq!['.'] + y) == split_dots(x).push(y),
    decreases y.len(),
{
    let s = x + seq!['.'] + y;
    if y.len() == 0 {
        assert(s.drop_last() =~= x);
        assert(y =~= Seq::<char>::empty());
    } else {
        lemma_split_after_dot(x, y.drop_last());
        assert(s.drop_last() =~= x + seq!['.'] + y.drop_last());
        assert(s.last() == y.last());
        assert(y.drop_last().push(y.last()) =~= y);
        assert(split_dots(s) =~= split_dots(x).push(y));
    }
}

/// Every character of `s` is white space.
pub open spec fn all_white_space(s: Seq<char>) -> bool {
    forall|i: int| 0 <= i < s.len() ==> is_white_space(#[trigger] s[i])
}

proof fn lemma_trim_start_prefix(w: Seq<char>, x: Seq<char>)
    requires
        all_white_space(w),
    ensures
        trim_start(w + x) == trim_start(x),
    decreases w.len(),
{
    if w.len() == 0 {
        assert(w + x =~= x);
    } else {
        assert((w + x)[0] == w[0]);
        assert((w + x).drop_first() =~= w.drop_first() + x);
        lemma_trim_start_prefix(w.drop_first(), x);
    }
}

proof fn lemma_trim_end_suffix(x: Seq<char>, w: Seq<char>)
    requires
        all_white_space(w),
    ensures
        trim_end(x + w) == trim_end(x),
    decreases w.len(),
{
    if w.len() == 0 {
        assert(x + w =~= x);
    } else {
        assert((x + w).last() == w.last());
        assert((x + w).drop_last() =~= x + w.drop_last());
        lemma_trim_end_suffix(x, w.drop_last());
    }
}

/// Trimming the end of a non-empty text either empties both it and its
/// tail, or keeps its first character in front of the trimmed tail.
proof fn lemma_trim_end_front(x: Seq<char>)
    requires
        x.len() > 0,
    ensures
        (trim_end(x).len() == 0 && trim_end(x.drop_first()).len() == 0) || trim_end(x) == seq![
            x[0],
        ] + trim_end(x.drop_first()),
    decreases x.len(),
{
    if !is_white_space(x.last()) {
        assert(x =~= seq![x[0]] + x.drop_first());
        if x.len() > 1 {
            assert(x.drop_first().last() == x.last());
        } else {
            assert(x.drop_first() =~= Seq::<char>::empty());
        }
    } else if x.len() == 1 {
        assert(x.drop_last() =~= Seq::<char>::empty());
        assert(x.drop_first() =~= Seq::<char>::empty());
    } else {
        lemma_trim_end_front(x.drop_last());
        assert(x.drop_first().last() == x.last());
        assert(x.drop_first().drop_last() =~= x.drop_last().drop_first());
        assert(x.drop_last()[0] == x[0]);
    }
}

/// Trimming the start and the end can be done in either order.
proof fn lemma_trim_commutes(x: Seq<char>)
    ensures
        trim_end(trim_start(x)) == trim_start(trim_end(x)),
    decreases x.len(),
{
    if x.len() == 0 {
    } else if is_white_space(x[0]) {
        lemma_trim_commutes(x.drop_first());
        lemma_trim_end_front(x);
        let y = x.drop_first();
        if trim_end(x).len() == 0 {
            assert(trim_end(x) =~= Seq::<char>::empty());
            assert(trim_end(y) =~= Seq::<char>::empty());
        } else {
            let t = trim_end(x);
            assert(t[0] == x[0]);
            assert(t.drop_first() =~= trim_end(y));
        }
    } else {
        lemma_trim_end_front(x);
        if trim_end(x).len() == 0 {
            assert(trim_end(x) =~= Seq::<char>::empty());
        } else {
            assert(trim_end(x)[0] == x[0]);
        }
    }
}

proof fn lemma_trim_start_first(x: Seq<char>)
    ensures
        trim_start(x).len() > 0 ==> !is_white_space(trim_start(x)[0]),
    decreases x.len(),
{
    if x.len() > 0 && is_white_space(x[0]) {
        lemma_trim_start_first(x.drop_first());
    }
}

proof fn lemma_trim_end_last(x: Seq<char>)
    ensures
        trim_end(x).len() > 0 ==> !is_white_space(trim_end(x).last()),
    decreases x.len(),
{
    if x.len() > 0 && is_white_space(x.last()) {
        lemma_trim_end_last(x.drop_last());
    }
}

/// Trimming a trimmed text changes nothing.
pub proof fn lemma_trim_idempotent(s: Seq<char>)
    ensures
        trim(trim(s)) == trim(s),
{
    let y = trim_start(s);
    let t = trim_end(y);
    if t.len() > 0 {
        lemma_trim_start_first(s);
        lemma_trim_end_last(y);
        lemma_trim_end_front(y);
        assert(t[0] == y[0]);
        assert(trim_start(t) == t);
        assert(trim_end(t) == t);
    } else {
        assert(t =~= Seq::<char>::empty());
    }
}

/// White space added around a text does not change its trimmed form.
pub proof fn lemma_trim_padding(w1: Seq<char>, s: Seq<char>, w2: Seq<char>)
    requires
        all_white_space(w1),
        all_white_space(w2),
    ensures
        trim(w1 + s + w2) == trim(s),
{
    assert(w1 + s + w2 =~= w1 + (s + w2));
    lemma_trim_start_prefix(w1, s + w2);
    lemma_trim_commutes(s + w2);
    lemma_trim_end_suffix(s, w2);
    lemma_trim_commutes(s);
}

// ---------------------------------------------------------------------------
// Executable functions
// ---------------------------------------------------------------------------

/// The characters of `s`, in order.
pub fn chars_of(s: &str) -> (v: Vec<char>)
    ensures
        v@ == s@,
{
    let mut v: Vec<char> = Vec::new();
    for c in it: s.chars()
        invariant
            v@ == it.seq().take(it.index() as int),
    {
        v.push(c);
    }
    v
}

/// Whether `c` is Unicode white space.
pub fn is_white_space_char(c: char) -> (r: bool)
    ensures
        r == is_white_space(c),
{
    let u = c as u32;
    (0x09 <= u && u <= 0x0D) || u == 0x20 || u == 0x85 || u == 0xA0 || u == 0x1680 || (0x2000
        <= u && u <= 0x200A) || u == 0x2028 || u == 0x2029 || u == 0x202F || u == 0x205F || u
        == 0x3000
}

/// The bounds `(lo, hi)` of `v` with leading and trailing white space left out.
pub fn trim_bounds(v: &Vec<char>) -> (r: (usize, usize))
    ensures
        r.0 <= r.1 <= v.len(),
        v@.subrange(r.0 as int, r.1 as int) == trim(v@),
{
    let n = v.len();
    let mut lo: usize = 0;
    assert(v@.subrange(0, n as int) =~= v@);
    while lo < n && is_white_space_char(v[lo])
        invariant
            lo <= n == v.len(),
            trim_start(v@.subrange(lo as int, n as int)) == trim_start(v@),
        decreases n - lo,
    {
        assert(v@.subrange(lo as int, n as int).drop_first() =~= v@.subrange(
            lo + 1,
            n as int,
        ));
        lo = lo + 1;
    }
    let mut hi: usize = n;
    while hi > lo && is_white_space_char(v[hi - 1])
        invariant
            lo <= hi <= n == v.len(),
            trim_end(v@.subrange(lo as int, hi as int)) == trim_end(trim_start(v@)),
        decreases hi,
    {
        assert(v@.subrange(lo as int, hi as int).drop_last() =~= v@.subrange(
            lo as int,
            hi - 1,
        ));
        hi = hi - 1;
    }
    (lo, hi)
}

/// Whether `v[lo..hi]` ends with `suffix`.
pub fn has_suffix_at(v: &Vec<char>, lo: usize, hi: usize, suffix: &Vec<char>) -> (r: bool)
    requires
        lo <= hi <= v.len(),
    ensures
        r == has_suffix(v@.subrange(lo as int, hi as int), suffix@),
{
    let ghost s = v@.subrange(lo as int, hi as int);
    let m = suffix.len();
    if hi - lo < m {
        return false;
    }
    let start = hi - m;
    let mut j: usize = 0;
    while j < m
        invariant
            lo <= start,
            start + m == hi <= v.len(),
            m == suffix.len(),
            s == v@.subrange(lo as int, hi as int),
            j <= m,
            forall|i: int| 0 <= i < j ==> v@[start + i] == suffix@[i],
        decreases m - j,
    {
        if v[start + j] != suffix[j] {
            assert(s.subrange(s.len() - m, s.len() as int)[j as int] != suffix@[j as int]);
            return false;
        }
        j = j + 1;
    }
    assert(s.subrange(s.len() - m, s.len() as int) =~= suffix@);
    true
}

/// The value of the decimal number `v[lo..hi]`, as `parse_u64` reads it.
pub fn parse_u64_at(v: &Vec<char>, lo: usize, hi: usize) -> (r: Option<u64>)
    requires
        lo <= hi <= v.len(),
    ensures
        r == parse_u64(v@.subrange(lo as int, hi as int)),
{
    let ghost s = v@.subrange(lo as int, hi as int);
    let start = if lo < hi && v[lo] == '+' {
        lo + 1
    } else {
        lo
    };
    let ghost d = v@.subrange(start as int, hi as int);
    assert(d =~= unsigned_part(s));
    if start == hi {
        return None;
    }
    let mut acc: u64 = 0;
    let mut k: usize = start;
    while k < hi
        invariant
            lo <= start <= k <= hi <= v.len(),
            d == v@.subrange(start as int, hi as int),
            s == v@.subrange(lo as int, hi as int),
            d == unsigned_part(s),
            all_digits(d.take(k - start)),
            acc as nat == digits_value(d.take(k - start)),
        decreases hi - k,
    {
        let c = v[k];
        let ghost i = k - start;
        assert(d[i as int] == c);
        if !('0' <= c && c <= '9') {
            assert(!is_digit(d[i as int]));
            return None;
        }
        let dv = ((c as u32) - ('0' as u32)) as u64;
        assert(d.take(i + 1).drop_last() =~= d.take(i as int));
        let next = match acc.checked_mul(10) {
            Some(x) => x.checked_add(dv),
            None => None,
        };
        match next {
            Some(x) => {
                acc = x;
            },
            None => {
                proof {
                    assert(digits_value(d.take(i + 1)) > u64::MAX);
                    if all_digits(d) {
                        lemma_digits_value_prefix(d, i + 1);
                    }
                }
                return None;
            },
        }
        k = k + 1;
    }
    assert(d.take(k - start) =~= d);
    Some(acc)
}

/// Appends the decimal notation of `n` to `out`.
pub fn push_decimal(out: &mut String, n: u64)
    ensures
        final(out)@ == old(out)@ + decimal(n as nat),
    decreases n,
{
    if n >= 10 {
        push_decimal(out, n / 10);
    }
    let d = (n % 10) as u8;
    out.push((48u8 + d) as char);
    proof {
        assert(((48u8 + d) as char) == digit((n % 10) as nat));
    }
    assert(out@ =~= old(out)@ + decimal(n as nat));
}

/// The decimal notation of `n`, as `n.to_string()` writes it.
pub fn decimal_string(n: u64) -> (s: String)
    ensures
        s@ == decimal(n as nat),
{
    let mut s = String::new();
    push_decimal(&mut s, n);
    assert(s@ =~= decimal(n as nat));
    s
}

/// Appends all characters of `text` to `out`.
pub fn push_str(out: &mut String, text: &str)
    ensures
        final(out)@ == old(out)@ + text@,
{
    let ghost start = out@;
    for c in it: text.chars()
        invariant
            out@ == start + it.seq().take(it.index() as int),
    {
        out.push(c);
        assert(out@ =~= start + it.seq().take(it.index() + 1));
    }
}

} // verus!
