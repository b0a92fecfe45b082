//! Small verified helpers on byte strings: prefix tests, substring search,
//! splitting on a separator byte, and decimal formatting and parsing.
//!
//! All the text the library handles (pointer files, protocol lines, the
//! mapping document) is ASCII, so it is modelled as plain bytes.

use vstd::prelude::*;

verus! {

/// True when `p` is a prefix of `s`.
pub open spec fn is_prefix_of(p: Seq<u8>, s: Seq<u8>) -> bool {
    p.len() <= s.len() && s.subrange(0, p.len() as int) == p
}

/// Byte-string prefix test.
pub fn starts_with(s: &Vec<u8>, p: &Vec<u8>) -> (r: bool)
    ensures
        r == is_prefix_of(p@, s@),
{
    if p.len() > s.len() {
        return false;
    }
    let mut i: usize = 0;
    while i < p.len()
        invariant
            i <= p@.len() <= s@.len(),
            forall|j: int| 0 <= j < i ==> s@[j] == p@[j],
        decreases p@.len() - i,
    {
        if s[i] != p[i] {
            assert(s@.subrange(0, p@.len() as int)[i as int] != p@[i as int]);
            return false;
        }
        i += 1;
    }
    assert(s@.subrange(0, p@.len() as int) =~= p@);
    true
}

/// Byte-string equality.
pub fn bytes_eq(a: &Vec<u8>, b: &Vec<u8>) -> (r: bool)
    ensures
        r == (a@ == b@),
{
    if a.len() != b.len() {
        assert(a@ != b@);
        return false;
    }
    let mut i: usize = 0;
    while i < a.len()
        invariant
            i <= a@.len() == b@.len(),
            forall|j: int| 0 <= j < i ==> a@[j] == b@[j],
        decreases a@.len() - i,
    {
        if a[i] != b[i] {
            return false;
        }
        i += 1;
    }
    assert(a@ =~= b@);
    true
}

/// Copy of a whole byte vector.
pub fn copy_bytes(v: &Vec<u8>) -> (r: Vec<u8>)
    ensures
        r@ == v@,
{
    let r = sub_vec(v, 0, v.len());
    proof {
        assert(r@ =~= v@);
    }
    r
}

/// Copy of `s[from..to]` as a fresh vector.
pub fn sub_vec(s: &Vec<u8>, from: usize, to: usize) -> (r: Vec<u8>)
    requires
        from <= to <= s@.len(),
    ensures
        r@ == s@.subrange(from as int, to as int),
{
    let sl = vstd::slice::slice_subrange(s.as_slice(), from, to);
    vstd::slice::slice_to_vec(sl)
}

/// Index of the first occurrence of `b` in `s`, or `s.len()` when absent.
pub open spec fn first_index_of(s: Seq<u8>, b: u8) -> int
    decreases s.len(),
{
    if s.len() == 0 {
        0
    } else if s[0] == b {
        0
    } else {
        1 + first_index_of(s.drop_first(), b)
    }
}

pub proof fn lemma_first_index_of(s: Seq<u8>, b: u8)
    ensures
        0 <= first_index_of(s, b) <= s.len(),
        first_index_of(s, b) < s.len() ==> s[first_index_of(s, b)] == b,
        forall|j: int| 0 <= j < first_index_of(s, b) ==> s[j] != b,
    decreases s.len(),
{
    if s.len() > 0 && s[0] != b {
        lemma_first_index_of(s.drop_first(), b);
        assert forall|j: int| 0 <= j < first_index_of(s, b) implies s[j] != b by {
            if j > 0 {
                assert(s.drop_first()[j - 1] != b);
            }
        }
    }
}

/// The first index is determined by any witness position `i` with no earlier hit.
pub proof fn lemma_first_index_of_witness(s: Seq<u8>, b: u8, i: int)
    requires
        0 <= i <= s.len(),
        i < s.len() ==> s[i] == b,
        forall|j: int| 0 <= j < i ==> s[j] != b,
        i == s.len() ==> forall|j: int| 0 <= j < s.len() ==> s[j] != b,
    ensures
        first_index_of(s, b) == i,
    decreases s.len(),
{
    if s.len() > 0 && s[0] != b {
        lemma_first_index_of_witness(s.drop_first(), b, i - 1);
    }
}

/// Position of the first occurrence of `b`, as executable code.
pub fn find_byte(s: &Vec<u8>, b: u8) -> (r: usize)
    ensures
        r == first_index_of(s@, b),
        r <= s@.len(),
        r < s@.len() ==> s@[r as int] == b,
        forall|j: int| 0 <= j < r ==> s@[j] != b,
{
    let mut i: usize = 0;
    while i < s.len()
        invariant
            i <= s@.len(),
            forall|j: int| 0 <= j < i ==> s@[j] != b,
        decreases s@.len() - i,
    {
        if s[i] == b {
            proof {
                lemma_first_index_of_witness(s@, b, i as int);
            }
            return i;
        }
        i += 1;
    }
    proof {
        lemma_first_index_of_witness(s@, b, s@.len() as int);
    }
    i
}

/// Line feed.
pub const NL: u8 = 10;

/// Space.
pub const SP: u8 = 32;

/// `#`, the comment marker of the pointer format.
pub const COMMENT_MARK: u8 = 35;

/// The lines of `s`, split on line feeds. A trailing line feed does not
/// produce a final empty line, matching how text files are usually read.
pub open spec fn spec_lines(s: Seq<u8>) -> Seq<Seq<u8>>
    decreases s.len(),
    via spec_lines_decreases
{
    if s.len() == 0 {
        seq![]
    } else {
        let i = first_index_of(s, NL);
        if i == s.len() {
            seq![s]
        } else {
            seq![s.subrange(0, i)] + spec_lines(s.subrange(i + 1, s.len() as int))
        }
    }
}

#[via_fn]
proof fn spec_lines_decreases(s: Seq<u8>) {
    lemma_first_index_of(s, NL);
}

/// A byte string without line feeds is its own single line.
pub proof fn lemma_spec_lines_single(s: Seq<u8>)
    requires
        s.len() > 0,
        forall|j: int| 0 <= j < s.len() ==> s[j] != NL,
    ensures
        spec_lines(s) == seq![s],
{
    lemma_first_index_of_witness(s, NL, s.len() as int);
}

/// Splitting off the first line: `s` up to its first line feed, then the rest.
pub proof fn lemma_spec_lines_step(s: Seq<u8>, i: int)
    requires
        0 <= i < s.len(),
        s[i] == NL,
        forall|j: int| 0 <= j < i ==> s[j] != NL,
    ensures
        spec_lines(s) == seq![s.subrange(0, i)] + spec_lines(s.subrange(i + 1, s.len() as int)),
{
    lemma_first_index_of_witness(s, NL, i);
}

/// Position of the first occurrence of `b` at or after `from`.
pub fn find_byte_from(s: &Vec<u8>, b: u8, from: usize) -> (r: usize)
    requires
        from <= s@.len(),
    ensures
        from <= r <= s@.len(),
        r < s@.len() ==> s@[r as int] == b,
        forall|j: int| from <= j < r ==> s@[j] != b,
{
    let mut i: usize = from;
    while i < s.len()
        invariant
            from <= i <= s@.len(),
            forall|j: int| from <= j < i ==> s@[j] != b,
        decreases s@.len() - i,
    {
        if s[i] == b {
            return i;
        }
        i += 1;
    }
    i
}

/// Split `s` into lines, as [`spec_lines`] describes.
pub fn split_lines(s: &Vec<u8>) -> (r: Vec<Vec<u8>>)
    ensures
        r.deep_view() == spec_lines(s@),
{
    let mut r: Vec<Vec<u8>> = Vec::new();
    let mut start: usize = 0;
    proof {
        assert(s@.skip(0) =~= s@);
        assert(r.deep_view() + spec_lines(s@) =~~= spec_lines(s@));
    }
    while start < s.len()
        invariant
            start <= s@.len(),
            spec_lines(s@) == r.deep_view() + spec_lines(s@.skip(start as int)),
        decreases s@.len() - start,
    {
        let ghost prev = r.deep_view();
        let ghost rest = s@.skip(start as int);
        let idx = find_byte_from(s, NL, start);
        if idx < s.len() {
            let line = sub_vec(s, start, idx);
            r.push(line);
            proof {
                assert(rest[idx - start] == NL);
                assert(forall|j: int| 0 <= j < idx - start ==> rest[j] != NL);
                lemma_spec_lines_step(rest, idx - start);
                assert(rest.subrange(0, idx - start) =~= line@);
                assert(rest.subrange(idx - start + 1, rest.len() as int) =~= s@.skip(
                    idx + 1,
                ));
                assert(r.deep_view() =~~= prev + seq![line@]);
                assert(prev + (seq![line@] + spec_lines(s@.skip(idx + 1))) =~~= (prev
                    + seq![line@]) + spec_lines(s@.skip(idx + 1)));
            }
            start = idx + 1;
        } else {
            let line = sub_vec(s, start, s.len());
            r.push(line);
            proof {
                assert(forall|j: int| 0 <= j < rest.len() ==> rest[j] != NL);
                lemma_spec_lines_single(rest);
                assert(rest =~= line@);
                assert(r.deep_view() =~~= prev + seq![line@]);
                assert(s@.skip(s@.len() as int) =~= Seq::<u8>::empty());
                assert(prev + (seq![line@] + spec_lines(s@.skip(s@.len() as int))) =~~= (prev
                    + seq![line@]) + spec_lines(s@.skip(s@.len() as int)));
                assert(seq![line@] + Seq::<Seq<u8>>::empty() =~~= seq![line@]);
            }
            start = s.len();
        }
    }
    proof {
        assert(s@.skip(start as int) =~= Seq::<u8>::empty());
        assert(r.deep_view() =~~= r.deep_view() + spec_lines(s@.skip(start as int)));
    }
    r
}

/// `n` occurs as a contiguous run inside `h` starting at `i`.
pub open spec fn matches_at(h: Seq<u8>, n: Seq<u8>, i: int) -> bool {
    0 <= i && i + n.len() <= h.len() && h.subrange(i, i + n.len() as int) == n
}

/// `n` occurs somewhere inside `h`.
pub open spec fn contains_seq(h: Seq<u8>, n: Seq<u8>) -> bool {
    exists|i: int| matches_at(h, n, i)
}

/// Does `n` occur at position `i` of `h`?
pub fn match_at(h: &Vec<u8>, n: &Vec<u8>, i: usize) -> (r: bool)
    requires
        i + n@.len() <= h@.len(),
    ensures
        r == matches_at(h@, n@, i as int),
{
    let hlen = h.len();
    let mut k: usize = 0;
    while k < n.len()
        invariant
            k <= n@.len(),
            i + n@.len() <= h@.len(),
            hlen == h@.len(),
            forall|j: int| 0 <= j < k ==> h@[i + j] == n@[j],
        decreases n@.len() - k,
    {
        if h[i + k] != n[k] {
            assert(h@.subrange(i as int, i + n@.len() as int)[k as int] != n@[k as int]);
            return false;
        }
        k += 1;
    }
    assert(h@.subrange(i as int, i + n@.len() as int) =~= n@);
    true
}

/// Substring search, as [`contains_seq`] describes.
pub fn contains_bytes(h: &Vec<u8>, n: &Vec<u8>) -> (r: bool)
    ensures
        r == contains_seq(h@, n@),
{
    if n.len() > h.len() {
        assert(!contains_seq(h@, n@));
        return false;
    }
    if n.len() == 0 {
        assert(h@.subrange(0, 0) =~= n@);
        assert(matches_at(h@, n@, 0));
        return true;
    }
    let last = h.len() - n.len();
    let mut i: usize = 0;
    while i <= last
        invariant
            i <= last + 1,
            last < usize::MAX,
            last + n@.len() == h@.len(),
            n@.len() >= 1,
            forall|j: int| 0 <= j < i ==> !matches_at(h@, n@, j),
        decreases last - i + 1,
    {
        if match_at(h, n, i) {
            return true;
        }
        i += 1;
    }
    assert forall|j: int| !matches_at(h@, n@, j) by {
        if 0 <= j && j + n@.len() <= h@.len() {
            assert(!matches_at(h@, n@, j));
        }
    }
    false
}

/// Digits `0` through `9`.
pub open spec fn is_digit(b: u8) -> bool {
    48 <= b <= 57
}

pub open spec fn all_digits(s: Seq<u8>) -> bool {
    forall|i: int| 0 <= i < s.len() ==> is_digit(#[trigger] s[i])
}

/// The decimal rendering of `n`, most significant digit first.
pub open spec fn dec_digits(n: nat) -> Seq<u8>
    decreases n,
{
    if n < 10 {
        seq![(48 + n) as u8]
    } else {
        dec_digits(n / 10).push((48 + n % 10) as u8)
    }
}

/// The value of a digit string (zero for the empty string).
pub open spec fn dec_value(s: Seq<u8>) -> nat
    decreases s.len(),
{
    if s.len() == 0 {
        0
    } else {
        dec_value(s.drop_last()) * 10 + (s.last() - 48) as nat
    }
}

/// `dec_digits` renders only digits and is read back by `dec_value`.
pub proof fn lemma_dec_digits(n: nat)
    ensures
        dec_digits(n).len() >= 1,
        all_digits(dec_digits(n)),
        dec_value(dec_digits(n)) == n,
        forall|j: int| 0 <= j < dec_digits(n).len() ==> dec_digits(n)[j] != NL,
        forall|j: int| 0 <= j < dec_digits(n).len() ==> dec_digits(n)[j] != SP,
    decreases n,
{
    if n < 10 {
        let s0 = dec_digits(n);
        assert(s0 =~= seq![(48 + n) as u8]);
        assert(s0.drop_last() =~= Seq::<u8>::empty());
        assert(dec_value(s0) == dec_value(s0.drop_last()) * 10 + (s0.last() - 48) as nat);
    } else {
        lemma_dec_digits(n / 10);
        let d = dec_digits(n / 10);
        let whole = d.push((48 + n % 10) as u8);
        assert(whole.drop_last() =~= d);
        assert(dec_value(whole) == dec_value(d) * 10 + (n % 10));
        assert((n / 10) * 10 + n % 10 == n) by {
            vstd::arithmetic::div_mod::lemma_fundamental_div_mod(n as int, 10);
        }
    }
}

/// Longer digit strings never decrease in value.
pub proof fn lemma_dec_value_prefix(s: Seq<u8>, i: int)
    requires
        0 <= i <= s.len(),
    ensures
        dec_value(s.subrange(0, i)) <= dec_value(s),
    decreases s.len() - i,
{
    if i < s.len() {
        let t = s.subrange(0, i + 1);
        assert(t.drop_last() =~= s.subrange(0, i));
        assert(dec_value(s.subrange(0, i)) <= dec_value(t));
        lemma_dec_value_prefix(s, i + 1);
        assert(s.subrange(0, s.len() as int) =~= s);
    } else {
        assert(s.subrange(0, i) =~= s);
    }
}

/// Parse an unsigned decimal number. Returns `None` exactly when the text is
/// empty, holds a non-digit, or does not fit in a `u64`.
pub fn parse_dec(s: &Vec<u8>) -> (r: Option<u64>)
    ensures
        match r {
            Some(v) => s@.len() > 0 && all_digits(s@) && v == dec_value(s@),
            None => s@.len() == 0 || !all_digits(s@) || dec_value(s@) > u64::MAX,
        },
{
    if s.len() == 0 {
        return None;
    }
    let mut acc: u64 = 0;
    let mut i: usize = 0;
    while i < s.len()
        invariant
            i <= s@.len(),
            s@.len() > 0,
            all_digits(s@.subrange(0, i as int)),
            acc == dec_value(s@.subrange(0, i as int)),
        decreases s@.len() - i,
    {
        let ghost prefix = s@.subrange(0, i as int);
        let b = s[i];
        if b < 48 || b > 57 {
            return None;
        }
        let d = (b - 48) as u64;
        proof {
            assert(s@.subrange(0, i + 1).drop_last() =~= prefix);
            assert(dec_value(s@.subrange(0, i + 1)) == dec_value(prefix) * 10 + d);
        }
        if acc > (u64::MAX - d) / 10 {
            proof {
                lemma_dec_value_prefix(s@, i + 1);
                assert((u64::MAX - d) / 10 * 10 + 10 > u64::MAX - d) by {
                    vstd::arithmetic::div_mod::lemma_fundamental_div_mod(
                        (u64::MAX - d) as int,
                        10,
                    );
                }
            }
            return None;
        }
        acc = acc * 10 + d;
        i += 1;
    }
    proof {
        assert(s@.subrange(0, s@.len() as int) =~= s@);
    }
    Some(acc)
}

/// Render `n` in decimal.
pub fn u64_to_dec(n: u64) -> (r: Vec<u8>)
    ensures
        r@ == dec_digits(n as nat),
    decreases n,
{
    if n < 10 {
        let mut v: Vec<u8> = Vec::new();
        v.push(48 + (n as u8));
        proof {
            assert(v@ =~= dec_digits(n as nat));
        }
        v
    } else {
        let mut v = u64_to_dec(n / 10);
        v.push(48 + ((n % 10) as u8));
        proof {
            assert(v@ =~= dec_digits(n as nat));
        }
        v
    }
}

/// Whitespace for trimming: space, tab, carriage return, line feed.
pub open spec fn is_space(b: u8) -> bool {
    b == 32 || b == 9 || b == 13 || b == 10
}

/// `s` without leading whitespace.
pub open spec fn trim_left(s: Seq<u8>) -> Seq<u8>
    decreases s.len(),
{
    if s.len() > 0 && is_space(s[0]) {
        trim_left(s.drop_first())
    } else {
        s
    }
}

/// `s` without trailing whitespace.
pub open spec fn trim_right(s: Seq<u8>) -> Seq<u8>
    decreases s.len(),
{
    if s.len() > 0 && is_space(s.last()) {
        trim_right(s.drop_last())
    } else {
        s
    }
}

/// `s` without leading and trailing whitespace.
pub open spec fn trimmed(s: Seq<u8>) -> Seq<u8> {
    trim_right(trim_left(s))
}

pub proof fn lemma_trim_left_range(s: Seq<u8>, lo: int)
    requires
        0 <= lo <= s.len(),
        forall|j: int| 0 <= j < lo ==> is_space(s[j]),
        lo < s.len() ==> !is_space(s[lo]),
    ensures
        trim_left(s) == s.skip(lo),
    decreases s.len(),
{
    if lo == 0 {
        assert(s.skip(0) =~= s);
    } else {
        lemma_trim_left_range(s.drop_first(), lo - 1);
        assert(s.drop_first().skip(lo - 1) =~= s.skip(lo));
    }
}

pub proof fn lemma_trim_right_range(s: Seq<u8>, hi: int)
    requires
        0 <= hi <= s.len(),
        forall|j: int| hi <= j < s.len() ==> is_space(s[j]),
        hi > 0 ==> !is_space(s[hi - 1]),
    ensures
        trim_right(s) == s.take(hi),
    decreases s.len(),
{
    if hi == s.len() {
        assert(s.take(hi) =~= s);
    } else {
        lemma_trim_right_range(s.drop_last(), hi);
        assert(s.drop_last().take(hi) =~= s.take(hi));
    }
}

/// Trim whitespace from both ends, as [`trimmed`] describes.
pub fn trim(s: &Vec<u8>) -> (r: Vec<u8>)
    ensures
        r@ == trimmed(s@),
{
    let mut lo: usize = 0;
    while lo < s.len() && (s[lo] == 32 || s[lo] == 9 || s[lo] == 13 || s[lo] == 10)
        invariant
            lo <= s@.len(),
            forall|j: int| 0 <= j < lo ==> is_space(s@[j]),
        decreases s@.len() - lo,
    {
        lo += 1;
    }
    let mut hi: usize = s.len();
    while hi > lo && (s[hi - 1] == 32 || s[hi - 1] == 9 || s[hi - 1] == 13 || s[hi - 1] == 10)
        invariant
            lo <= hi <= s@.len(),
            forall|j: int| 0 <= j < lo ==> is_space(s@[j]),
            forall|j: int| hi <= j < s@.len() ==> is_space(s@[j]),
        decreases hi,
    {
        hi -= 1;
    }
    proof {
        lemma_trim_left_range(s@, lo as int);
        if hi == lo {
            lemma_trim_right_range(s@.skip(lo as int), 0);
        } else {
            lemma_trim_right_range(s@.skip(lo as int), hi - lo);
        }
        assert(s@.skip(lo as int).take(hi - lo) =~= s@.subrange(lo as int, hi as int));
    }
    sub_vec(s, lo, hi)
}

} // verus!

