//! A sliding-offset fuzzy matcher used to suggest corrections for mistyped
//! choices.
//!
//! The pattern is laid over the item at every offset at which the two
//! overlap. Each overlapping pair of characters scores 3 when it matches
//! (ignoring ASCII case) and -1 when it does not; the sum at offset `o` is
//! weighted by `1 - o / (2 * len(item))`, so that earlier alignments count
//! more. The score is the best weighted sum over all offsets (negative when
//! every offset scores below zero); an empty pattern or item scores zero.
//!
//! Scores are exact rationals: the weighted sum at offset `o` is
//! `raw(o) * (2 * len(item) - o) / (2 * len(item))`, so that all offsets of
//! one item share the denominator `2 * len(item)`.
use vstd::prelude::*;
use vstd::string::*;

verus! {

/// The longest pattern or item, in characters, that the matcher scores.
pub const MAX_MATCH_LEN: usize = 4294967295;

/// The code of `c` after ASCII lowercasing (other characters keep their code).
pub open spec fn ascii_lower_code(c: char) -> int {
    if 65 <= (c as u32) && (c as u32) <= 90 {
        (c as u32) + 32
    } else {
        c as u32 as int
    }
}

/// Equality of two characters ignoring ASCII case.
pub open spec fn chars_match(a: char, b: char) -> bool {
    ascii_lower_code(a) == ascii_lower_code(b)
}

/// Equality of two strings ignoring ASCII case.
pub open spec fn seqs_match(a: Seq<char>, b: Seq<char>) -> bool {
    a.len() == b.len() && forall|i: int| 0 <= i < a.len() ==> chars_match(#[trigger] a[i], b[i])
}

/// First item position covered when the pattern starts at offset `o`.
pub open spec fn window_lo(o: int) -> int {
    if o > 0 {
        o
    } else {
        0
    }
}

/// One past the last item position covered when the pattern starts at `o`.
pub open spec fn window_hi(p: Seq<char>, t: Seq<char>, o: int) -> int {
    if o + p.len() < t.len() {
        o + p.len()
    } else {
        t.len() as int
    }
}

/// Score of item position `j` against the pattern character laid over it.
pub open spec fn pair_score(p: Seq<char>, t: Seq<char>, o: int, j: int) -> int {
    if chars_match(t[j], p[j - o]) {
        3
    } else {
        -1
    }
}

/// Sum of the pair scores of item positions `window_lo(o) .. j`.
pub open spec fn raw_sum(p: Seq<char>, t: Seq<char>, o: int, j: int) -> int
    decreases j - window_lo(o),
{
    if j <= window_lo(o) {
        0
    } else {
        raw_sum(p, t, o, j - 1) + pair_score(p, t, o, j - 1)
    }
}

/// Unweighted score of the alignment at offset `o`.
pub open spec fn raw_score(p: Seq<char>, t: Seq<char>, o: int) -> int {
    raw_sum(p, t, o, window_hi(p, t, o))
}

/// Weighted score of the alignment at offset `o`, times `2 * len(t)`.
pub open spec fn weighted(p: Seq<char>, t: Seq<char>, o: int) -> int {
    raw_score(p, t, o) * (2 * t.len() - o)
}

/// The first offset considered: the pattern's last character over the
/// item's first.
pub open spec fn first_offset(p: Seq<char>) -> int {
    1 - p.len()
}

/// Best weighted score over the first `k` offsets (`k >= 1`).
pub open spec fn best_upto(p: Seq<char>, t: Seq<char>, k: int) -> int
    decreases k,
{
    let w = weighted(p, t, first_offset(p) + k - 1);
    if k <= 1 {
        w
    } else {
        let prev = best_upto(p, t, k - 1);
        if w > prev {
            w
        } else {
            prev
        }
    }
}

/// Numerator of the score of `t` for pattern `p`: the best weighted score
/// over the offsets `1 - len(p) ..= len(t) - 1`, or zero when the pattern or
/// the item is empty.
pub open spec fn score_numerator(p: Seq<char>, t: Seq<char>) -> int {
    if p.len() == 0 || t.len() == 0 {
        0
    } else {
        best_upto(p, t, p.len() + t.len() - 1)
    }
}

/// Denominator of the score of `t`.
pub open spec fn score_denominator(t: Seq<char>) -> int {
    if t.len() == 0 {
        1
    } else {
        2 * t.len() as int
    }
}

/// The score of `a` is below the score of `b`, for pattern `p`.
pub open spec fn score_less(p: Seq<char>, a: Seq<char>, b: Seq<char>) -> bool {
    score_numerator(p, a) * score_denominator(b) < score_numerator(p, b) * score_denominator(a)
}

/// A score as an exact fraction.
#[derive(Clone, Copy, Debug, PartialEq, Eq)]
pub struct FuzzyScore {
    pub numerator: i128,
    pub denominator: i128,
}

impl FuzzyScore {
    /// Whether this score is strictly greater than `other`.
    pub fn is_greater_than(&self, other: &FuzzyScore) -> (r: bool)
        requires
            -(u64::MAX as int * 16) <= self.numerator <= u64::MAX as int * 16,
            -(u64::MAX as int * 16) <= other.numerator <= u64::MAX as int * 16,
            0 <= self.denominator <= 2 * MAX_MATCH_LEN as int,
            0 <= other.denominator <= 2 * MAX_MATCH_LEN as int,
        ensures
            r == (self.numerator * other.denominator > other.numerator * self.denominator),
    {
        let ghost x: int = u64::MAX as int * 16;
        let ghost d: int = 2 * MAX_MATCH_LEN as int;
        assert(-(x * d) <= self.numerator * other.denominator <= x * d) by (nonlinear_arith)
            requires
                -x <= self.numerator <= x,
                0 <= other.denominator <= d,
        ;
        assert(-(x * d) <= other.numerator * self.denominator <= x * d) by (nonlinear_arith)
            requires
                -x <= other.numerator <= x,
                0 <= self.denominator <= d,
        ;
        assert(x * d < 0x7fff_ffff_ffff_ffff_ffff_ffff_ffff_ffff) by (nonlinear_arith)
            requires
                x == u64::MAX as int * 16,
                d == 2 * MAX_MATCH_LEN as int,
        ;
        self.numerator * other.denominator > other.numerator * self.denominator
    }
}

/// The characters of `s`, in order.
pub fn chars_of(s: &str) -> (r: Vec<char>)
    ensures
        r@ == s@,
{
    let n = s.unicode_len();
    let mut r: Vec<char> = Vec::new();
    let mut i: usize = 0;
    while i < n
        invariant
            n == s@.len(),
            i <= n,
            r@ == s@.subrange(0, i as int),
        decreases n - i,
    {
        r.push(s.get_char(i));
        i = i + 1;
    }
    assert(r@ =~= s@);
    r
}

/// Compares two characters ignoring ASCII case.
pub fn eq_ignore_ascii_case_char(a: char, b: char) -> (r: bool)
    ensures
        r == chars_match(a, b),
{
    let x: u32 = a as u32;
    let y: u32 = b as u32;
    let lx: u32 = if 65 <= x && x <= 90 {
        x + 32
    } else {
        x
    };
    let ly: u32 = if 65 <= y && y <= 90 {
        y + 32
    } else {
        y
    };
    lx == ly
}

/// Compares two strings ignoring ASCII case.
pub fn eq_ignore_ascii_case_chars(a: &Vec<char>, b: &Vec<char>) -> (r: bool)
    ensures
        r == seqs_match(a@, b@),
{
    if a.len() != b.len() {
        return false;
    }
    let mut i: usize = 0;
    while i < a.len()
        invariant
            a@.len() == b@.len(),
            i <= a@.len(),
            forall|k: int| 0 <= k < i ==> chars_match(#[trigger] a@[k], b@[k]),
        decreases a@.len() - i,
    {
        if !eq_ignore_ascii_case_char(a[i], b[i]) {
            return false;
        }
        i = i + 1;
    }
    true
}

proof fn lemma_raw_sum_bounds(p: Seq<char>, t: Seq<char>, o: int, j: int)
    ensures
        j <= window_lo(o) ==> raw_sum(p, t, o, j) == 0,
        j > window_lo(o) ==> -(j - window_lo(o)) <= raw_sum(p, t, o, j) <= 3 * (j - window_lo(o)),
    decreases j - window_lo(o),
{
    if j > window_lo(o) {
        lemma_raw_sum_bounds(p, t, o, j - 1);
    }
}

/// The weighted score of the alignment at offset `o`, times `2 * len(t)`.
fn weighted_at(p: &Vec<char>, t: &Vec<char>, o: i128) -> (r: i128)
    requires
        p@.len() <= MAX_MATCH_LEN,
        t@.len() <= MAX_MATCH_LEN,
        first_offset(p@) <= o < t@.len(),
    ensures
        r == weighted(p@, t@, o as int),
        -(p@.len() as int) * (3 * MAX_MATCH_LEN) <= r <= 3 * p@.len() * (3 * MAX_MATCH_LEN),
{
    let pl = p.len() as i128;
    let tl = t.len() as i128;
    let lo: i128 = if o > 0 {
        o
    } else {
        0
    };
    let hi: i128 = if o + pl < tl {
        o + pl
    } else {
        tl
    };
    let mut sum: i128 = 0;
    let mut j: i128 = lo;
    while j < hi
        invariant
            pl == p@.len(),
            tl == t@.len(),
            pl <= MAX_MATCH_LEN,
            tl <= MAX_MATCH_LEN,
            first_offset(p@) <= o < tl,
            lo == window_lo(o as int),
            hi == window_hi(p@, t@, o as int),
            lo <= j <= hi,
            sum == raw_sum(p@, t@, o as int, j as int),
            -(j - lo) <= sum <= 3 * (j - lo),
        decreases hi - j,
    {
        let c = t[j as usize];
        let d = p[(j - o) as usize];
        if eq_ignore_ascii_case_char(c, d) {
            sum = sum + 3;
        } else {
            sum = sum - 1;
        }
        j = j + 1;
    }
    proof {
        lemma_raw_sum_bounds(p@, t@, o as int, hi as int);
    }
    let weight: i128 = 2 * tl - o;
    let ghost m = 3 * MAX_MATCH_LEN as int;
    assert(0 < weight <= m);
    assert(hi - lo <= pl);
    assert(-pl <= sum <= 3 * pl);
    assert(-pl * m <= sum * weight <= 3 * pl * m) by (nonlinear_arith)
        requires
            0 < weight <= m,
            -pl <= sum <= 3 * pl,
            0 <= pl,
    ;
    sum * weight
}

proof fn lemma_best_upto_bounds(p: Seq<char>, t: Seq<char>, k: int)
    requires
        p.len() <= MAX_MATCH_LEN,
        t.len() <= MAX_MATCH_LEN,
        1 <= k <= p.len() + t.len() - 1,
    ensures
        -(p.len() * (3 * MAX_MATCH_LEN)) <= best_upto(p, t, k) <= 3 * p.len() * (3 * MAX_MATCH_LEN),
    decreases k,
{
    lemma_weighted_bound(p, t, first_offset(p) + k - 1);
    if k > 1 {
        lemma_best_upto_bounds(p, t, k - 1);
    }
}

proof fn lemma_weighted_bound(p: Seq<char>, t: Seq<char>, o: int)
    requires
        p.len() <= MAX_MATCH_LEN,
        t.len() <= MAX_MATCH_LEN,
        first_offset(p) <= o < t.len(),
    ensures
        -(p.len() * (3 * MAX_MATCH_LEN)) <= weighted(p, t, o) <= 3 * p.len() * (3 * MAX_MATCH_LEN),
{
    let hi = window_hi(p, t, o);
    lemma_raw_sum_bounds(p, t, o, hi);
    let s = raw_score(p, t, o);
    let w = 2 * t.len() - o;
    let m = 3 * MAX_MATCH_LEN as int;
    let pl = p.len() as int;
    assert(window_hi(p, t, o) - window_lo(o) <= pl);
    assert(-pl <= s <= 3 * pl);
    assert(0 < w <= m);
    assert(-(pl * m) <= s * w <= 3 * pl * m) by (nonlinear_arith)
        requires
            0 < w <= m,
            -pl <= s <= 3 * pl,
            0 <= pl,
    ;
}

/// Scores how well `item` matches `pattern`: the score is
/// `numerator / denominator`.
pub fn custom_fuzzy_match_chars(pattern: &Vec<char>, item: &Vec<char>) -> (r: FuzzyScore)
    requires
        pattern@.len() <= MAX_MATCH_LEN,
        item@.len() <= MAX_MATCH_LEN,
    ensures
        r.numerator == score_numerator(pattern@, item@),
        r.denominator == score_denominator(item@),
        -(u64::MAX as int * 16) <= r.numerator <= u64::MAX as int * 16,
        0 < r.denominator <= 2 * MAX_MATCH_LEN as int,
{
    let pl = pattern.len() as i128;
    let tl = item.len() as i128;
    let denominator: i128 = if tl == 0 {
        1
    } else {
        2 * tl
    };
    if pl == 0 || tl == 0 {
        return FuzzyScore { numerator: 0, denominator };
    }
    let n: i128 = pl + tl - 1;
    let mut best: i128 = weighted_at(pattern, item, 1 - pl);
    let mut k: i128 = 1;
    while k < n
        invariant
            pl == pattern@.len(),
            tl == item@.len(),
            1 <= pl <= MAX_MATCH_LEN,
            1 <= tl <= MAX_MATCH_LEN,
            n == pl + tl - 1,
            1 <= k <= n,
            best == best_upto(pattern@, item@, k as int),
        decreases n - k,
    {
        proof {
            lemma_best_upto_bounds(pattern@, item@, k as int);
        }
        let w = weighted_at(pattern, item, 1 - pl + k);
        if w > best {
            best = w;
        }
        k = k + 1;
    }
    proof {
        lemma_best_upto_bounds(pattern@, item@, k as int);
        assert(3 * pl * (3 * MAX_MATCH_LEN) <= u64::MAX as int * 16) by (nonlinear_arith)
            requires
                pl <= MAX_MATCH_LEN,
        ;
    }
    FuzzyScore { numerator: best, denominator }
}

/// Scores how well `item` matches `pattern`.
pub fn custom_fuzzy_match(pattern: &str, item: &str) -> (r: FuzzyScore)
    requires
        pattern@.len() <= MAX_MATCH_LEN,
        item@.len() <= MAX_MATCH_LEN,
    ensures
        r.numerator == score_numerator(pattern@, item@),
        r.denominator == score_denominator(item@),
{
    let p = chars_of(pattern);
    let t = chars_of(item);
    custom_fuzzy_match_chars(&p, &t)
}

/// The views of a sequence of string slices.
pub open spec fn str_views(items: Seq<&str>) -> Seq<Seq<char>> {
    items.map_values(|s: &str| s@)
}

/// The views of a sequence of character vectors.
pub open spec fn char_vec_views(items: Seq<Vec<char>>) -> Seq<Seq<char>> {
    items.map_values(|v: Vec<char>| v@)
}

/// `r` is the suggestion for `p` among `items`: the first item of greatest
/// score, provided that score is above zero; `None` when no score is above
/// zero.
pub open spec fn is_fuzzy_pick(p: Seq<char>, items: Seq<Seq<char>>, r: Option<int>) -> bool {
    match r {
        Some(b) => {
            &&& 0 <= b < items.len()
            &&& score_numerator(p, items[b]) > 0
            &&& forall|j: int| 0 <= j < b ==> score_less(p, #[trigger] items[j], items[b])
            &&& forall|j: int| b < j < items.len() ==> !score_less(p, items[b], #[trigger] items[j])
        },
        None => forall|j: int| 0 <= j < items.len() ==> score_numerator(p, #[trigger] items[j]) <= 0,
    }
}

/// The suggestion for `p` among `items`, as `is_fuzzy_pick` describes it.
pub open spec fn fuzzy_pick(p: Seq<char>, items: Seq<Seq<char>>) -> Option<int> {
    if exists|b: int| is_fuzzy_pick(p, items, Some(b)) {
        Some(choose|b: int| is_fuzzy_pick(p, items, Some(b)))
    } else {
        None
    }
}

/// An optional index as an optional integer.
pub open spec fn opt_int(r: Option<usize>) -> Option<int> {
    match r {
        Some(b) => Some(b as int),
        None => None,
    }
}

/// At most one answer meets `is_fuzzy_pick`, and `fuzzy_pick` is that answer.
pub proof fn lemma_fuzzy_pick_unique(p: Seq<char>, items: Seq<Seq<char>>, r: Option<int>)
    requires
        is_fuzzy_pick(p, items, r),
    ensures
        r == fuzzy_pick(p, items),
{
    match r {
        Some(b) => {
            let c = choose|c: int| is_fuzzy_pick(p, items, Some(c));
            if c < b {
                assert(score_less(p, items[c], items[b]));
            } else if b < c {
                assert(score_less(p, items[b], items[c]));
            }
        },
        None => {
            if exists|b: int| is_fuzzy_pick(p, items, Some(b)) {
                let c = choose|c: int| is_fuzzy_pick(p, items, Some(c));
                assert(score_numerator(p, items[c]) <= 0);
            }
        },
    }
}

/// Every item and the pattern are short enough to be scored.
pub open spec fn all_scorable(p: Seq<char>, items: Seq<Seq<char>>) -> bool {
    &&& p.len() <= MAX_MATCH_LEN
    &&& forall|j: int| 0 <= j < items.len() ==> (#[trigger] items[j]).len() <= MAX_MATCH_LEN
}

proof fn lemma_fraction_order(a: int, x: int, b: int, y: int, c: int, z: int)
    requires
        x > 0,
        y > 0,
        z > 0,
        a * y <= b * x,
        b * z < c * y,
    ensures
        a * z < c * x,
{
    assert(a * y * z <= b * x * z) by (nonlinear_arith)
        requires
            a * y <= b * x,
            z > 0,
    ;
    assert(b * z * x < c * y * x) by (nonlinear_arith)
        requires
            b * z < c * y,
            x > 0,
    ;
    assert(a * z * y < c * x * y) by (nonlinear_arith)
        requires
            a * y * z <= b * x * z,
            b * z * x < c * y * x,
    ;
    assert(a * z < c * x) by (nonlinear_arith)
        requires
            a * z * y < c * x * y,
            y > 0,
    ;
}

/// Picks the item that best matches `pattern`, as `is_fuzzy_pick` says.
pub fn fuzzy_search_chars(pattern: &Vec<char>, items: &Vec<Vec<char>>) -> (r: Option<usize>)
    requires
        all_scorable(pattern@, char_vec_views(items@)),
    ensures
        is_fuzzy_pick(pattern@, char_vec_views(items@), opt_int(r)),
        opt_int(r) == fuzzy_pick(pattern@, char_vec_views(items@)),
{
    let r = fuzzy_search_scan(pattern, items);
    proof {
        lemma_fuzzy_pick_unique(pattern@, char_vec_views(items@), opt_int(r));
    }
    r
}

fn fuzzy_search_scan(pattern: &Vec<char>, items: &Vec<Vec<char>>) -> (r: Option<usize>)
    requires
        all_scorable(pattern@, char_vec_views(items@)),
    ensures
        is_fuzzy_pick(pattern@, char_vec_views(items@), opt_int(r)),
{
    let ghost p = pattern@;
    let ghost views = char_vec_views(items@);
    if items.len() == 0 {
        return None;
    }
    assert(views[0] == items@[0]@);
    let mut best = custom_fuzzy_match_chars(pattern, &items[0]);
    let mut b: usize = 0;
    let mut i: usize = 1;
    while i < items.len()
        invariant
            p == pattern@,
            views == char_vec_views(items@),
            all_scorable(p, views),
            1 <= i <= items@.len(),
            b < i,
            best.numerator == score_numerator(p, views[b as int]),
            best.denominator == score_denominator(views[b as int]),
            -(u64::MAX as int * 16) <= best.numerator <= u64::MAX as int * 16,
            0 < best.denominator <= 2 * MAX_MATCH_LEN as int,
            forall|j: int| 0 <= j < b ==> score_less(p, #[trigger] views[j], views[b as int]),
            forall|j: int| b < j < i ==> !score_less(p, views[b as int], #[trigger] views[j]),
        decreases items@.len() - i,
    {
        assert(views[i as int] == items@[i as int]@);
        let score = custom_fuzzy_match_chars(pattern, &items[i]);
        if score.is_greater_than(&best) {
            proof {
                let nb = score_numerator(p, views[b as int]);
                let db = score_denominator(views[b as int]);
                let ni = score_numerator(p, views[i as int]);
                let di = score_denominator(views[i as int]);
                assert forall|j: int| 0 <= j < i implies score_less(p, #[trigger] views[j], views[i as int]) by {
                    let nj = score_numerator(p, views[j]);
                    let dj = score_denominator(views[j]);
                    lemma_fraction_order(nj, dj, nb, db, ni, di);
                }
            }
            best = score;
            b = i;
        }
        i = i + 1;
    }
    if best.numerator > 0 {
        Some(b)
    } else {
        proof {
            let nb = score_numerator(p, views[b as int]);
            let db = score_denominator(views[b as int]);
            assert forall|j: int| 0 <= j < views.len() implies score_numerator(p, #[trigger] views[j]) <= 0 by {
                if j != b {
                    let nj = score_numerator(p, views[j]);
                    let dj = score_denominator(views[j]);
                    if j < b {
                        assert(score_less(p, views[j], views[b as int]));
                    } else {
                        assert(!score_less(p, views[b as int], views[j]));
                    }
                    assert(nj <= 0) by (nonlinear_arith)
                        requires
                            nj * db <= nb * dj,
                            nb <= 0,
                            db > 0,
                            dj > 0,
                    ;
                }
            }
        }
        None
    }
}

/// Picks the item of `items` that best matches `pattern`: the first item of
/// greatest score, or `None` when no item scores above zero.
pub fn custom_fuzzy_search(pattern: &str, items: &[&str]) -> (r: Option<usize>)
    requires
        all_scorable(pattern@, str_views(items@)),
    ensures
        is_fuzzy_pick(pattern@, str_views(items@), opt_int(r)),
        opt_int(r) == fuzzy_pick(pattern@, str_views(items@)),
{
    let p = chars_of(pattern);
    let mut cs: Vec<Vec<char>> = Vec::new();
    let mut i: usize = 0;
    while i < items.len()
        invariant
            i <= items@.len(),
            cs@.len() == i,
            forall|k: int| 0 <= k < i ==> (#[trigger] cs@[k])@ == items@[k]@,
        decreases items@.len() - i,
    {
        let c = chars_of(items[i]);
        cs.push(c);
        i = i + 1;
    }
    assert(char_vec_views(cs@) =~= str_views(items@));
    fuzzy_search_chars(&p, &cs)
}

proof fn lemma_best_upto_covers(p: Seq<char>, t: Seq<char>, k: int, m: int)
    requires
        0 < m <= k,
    ensures
        best_upto(p, t, k) >= weighted(p, t, first_offset(p) + m - 1),
    decreases k,
{
    if m < k {
        lemma_best_upto_covers(p, t, k - 1, m);
    }
}

proof fn lemma_best_upto_at_most(p: Seq<char>, t: Seq<char>, k: int, bound: int)
    requires
        forall|m: int| 0 < m <= k ==> #[trigger] weighted(p, t, first_offset(p) + m - 1) <= bound,
        k >= 1,
    ensures
        best_upto(p, t, k) <= bound,
    decreases k,
{
    assert(weighted(p, t, first_offset(p) + k - 1) <= bound);
    if k > 1 {
        lemma_best_upto_at_most(p, t, k - 1, bound);
    }
}

/// Where the item holds the pattern at position `i`, the alignment at
/// offset `i` matches throughout.
proof fn lemma_raw_sum_block_match(p: Seq<char>, t: Seq<char>, i: int, j: int)
    requires
        0 <= i <= j <= i + p.len(),
        j <= t.len(),
        forall|k: int| 0 <= k < p.len() && i + k < t.len() ==> chars_match(#[trigger] t[i + k], p[k]),
    ensures
        raw_sum(p, t, i, j) == 3 * (j - i),
    decreases j,
{
    if j > i {
        lemma_raw_sum_block_match(p, t, i, j - 1);
        assert(chars_match(t[i + (j - 1 - i)], p[j - 1 - i]));
    }
}

proof fn lemma_raw_sum_no_match(p: Seq<char>, t: Seq<char>, o: int, j: int)
    requires
        first_offset(p) <= o,
        j <= window_hi(p, t, o),
        forall|a: int, b: int|
            0 <= a < t.len() && 0 <= b < p.len() ==> !chars_match(#[trigger] t[a], #[trigger] p[b]),
    ensures
        raw_sum(p, t, o, j) <= 0,
    decreases j - window_lo(o),
{
    if j > window_lo(o) {
        lemma_raw_sum_no_match(p, t, o, j - 1);
        assert(!chars_match(t[j - 1], p[j - 1 - o]));
    }
}

/// Scoring an empty pattern, or an empty item, gives zero.
pub proof fn lemma_empty_scores_zero(p: Seq<char>, t: Seq<char>)
    requires
        p.len() == 0 || t.len() == 0,
    ensures
        score_numerator(p, t) == 0,
{
}

/// A non-empty pattern scores higher against itself than against any item
/// of the same length that shares no character with it (ignoring ASCII case).
pub proof fn lemma_self_beats_disjoint(p: Seq<char>, u: Seq<char>)
    requires
        0 < p.len() <= MAX_MATCH_LEN,
        u.len() == p.len(),
        forall|a: int, b: int|
            0 <= a < u.len() && 0 <= b < p.len() ==> !chars_match(#[trigger] u[a], #[trigger] p[b]),
    ensures
        score_numerator(p, u) <= 0,
        score_numerator(p, p) == 6 * p.len() * p.len(),
        score_less(p, u, p),
{
    let n = p.len() as int;
    let k = 2 * n - 1;
    // against itself: offset 0 matches everywhere
    lemma_raw_sum_block_match(p, p, 0, n);
    assert(window_hi(p, p, 0) == n);
    assert(weighted(p, p, 0) == 3 * n * (2 * n));
    assert(first_offset(p) + n - 1 == 0);
    lemma_best_upto_covers(p, p, k, n);
    lemma_prefix_bound(p, p);
    lemma_best_upto_at_most(p, p, k, 6 * n * n);
    assert(3 * n * (2 * n) == 6 * n * n) by (nonlinear_arith);
    // against a disjoint item: no offset scores above zero
    assert forall|m: int| 0 < m <= k implies #[trigger] weighted(p, u, first_offset(p) + m - 1) <= 0 by {
        let o = first_offset(p) + m - 1;
        lemma_raw_sum_no_match(p, u, o, window_hi(p, u, o));
        let r = raw_score(p, u, o);
        let w = 2 * n - o;
        assert(r * w <= 0) by (nonlinear_arith)
            requires
                r <= 0,
                w > 0,
        ;
    }
    lemma_best_upto_at_most(p, u, k, 0);
    let nu = score_numerator(p, u);
    assert(nu * (2 * n) < (6 * n * n) * (2 * n)) by (nonlinear_arith)
        requires
            n > 0,
            nu <= 0,
    ;
}

/// No offset of an item at least as long as the pattern weighs more than a
/// full match at offset 0.
proof fn lemma_prefix_bound(p: Seq<char>, t: Seq<char>)
    requires
        p.len() <= t.len(),
    ensures
        forall|m: int|
            0 < m <= p.len() + t.len() - 1 ==> #[trigger] weighted(p, t, first_offset(p) + m - 1) <= 6
                * p.len() * t.len(),
{
    let n = p.len() as int;
    let l = t.len() as int;
    assert forall|m: int| 0 < m <= n + l - 1 implies #[trigger] weighted(p, t, first_offset(p) + m - 1)
        <= 6 * n * l by {
        let o = first_offset(p) + m - 1;
        let hi = window_hi(p, t, o);
        lemma_raw_sum_bounds(p, t, o, hi);
        let r = raw_score(p, t, o);
        let w = 2 * l - o;
        if o >= 0 {
            assert(r <= 3 * n);
            assert(r * w <= 6 * n * l) by (nonlinear_arith)
                requires
                    r <= 3 * n,
                    0 < w <= 2 * l,
                    n >= 0,
            ;
        } else {
            let d = -o;
            assert(r <= 3 * (n - d));
            assert(w == 2 * l + d);
            assert(r * w <= 3 * (n - d) * w) by (nonlinear_arith)
                requires
                    r <= 3 * (n - d),
                    w > 0,
            ;
            assert(3 * (n - d) * w == 6 * n * l + 3 * d * (n - 2 * l - d)) by (nonlinear_arith)
                requires
                    w == 2 * l + d,
            ;
            assert(3 * d * (n - 2 * l - d) <= 0) by (nonlinear_arith)
                requires
                    0 < d,
                    n <= l,
                    0 <= n,
            ;
        }
    }
}

/// An item that starts with the pattern (ignoring ASCII case) scores at
/// least as high as any other item of the same length: earlier matches are
/// favoured, and a match at the very start is the best there is.
pub proof fn lemma_prefix_match_scores_highest(p: Seq<char>, t1: Seq<char>, t2: Seq<char>)
    requires
        p.len() <= t1.len(),
        t1.len() == t2.len(),
        forall|i: int| 0 <= i < p.len() ==> chars_match(#[trigger] t1[i], p[i]),
    ensures
        !score_less(p, t1, t2),
        score_numerator(p, t1) == 6 * p.len() * t1.len(),
{
    let n = p.len() as int;
    let l = t1.len() as int;
    let k = n + l - 1;
    if n > 0 {
        lemma_prefix_bound(p, t2);
        lemma_best_upto_at_most(p, t2, k, 6 * n * l);
        lemma_prefix_bound(p, t1);
        lemma_best_upto_at_most(p, t1, k, 6 * n * l);
        lemma_raw_sum_block_match(p, t1, 0, n);
        assert(window_hi(p, t1, 0) == n);
        assert(weighted(p, t1, 0) == 3 * n * (2 * l));
        assert(3 * n * (2 * l) == 6 * n * l) by (nonlinear_arith);
        assert(first_offset(p) + n - 1 == 0);
        lemma_best_upto_covers(p, t1, k, n);
        assert(score_numerator(p, t1) == 6 * n * l);
    } else {
        lemma_empty_scores_zero(p, t1);
        lemma_empty_scores_zero(p, t2);
        assert(6 * n * l == 0) by (nonlinear_arith)
            requires
                n == 0,
        ;
    }
    let a = score_numerator(p, t1);
    let b = score_numerator(p, t2);
    let d = score_denominator(t1);
    assert(d == score_denominator(t2));
    assert(b * d <= a * d) by (nonlinear_arith)
        requires
            b <= a,
            d > 0,
    ;
}

/// Item positions `lo .. jj` that fall in the block `s .. s + n`.
spec fn block_count(lo: int, jj: int, s: int, n: int) -> int {
    let a = if lo > s {
        lo
    } else {
        s
    };
    let b = if jj < s + n {
        jj
    } else {
        s + n
    };
    if b > a {
        b - a
    } else {
        0
    }
}

/// Outside the block `s .. s + n` no character of `t` matches the pattern,
/// so each such position of a window costs 1, and each block position gains
/// at most 3.
proof fn lemma_raw_sum_block_bound(p: Seq<char>, t: Seq<char>, o: int, jj: int, s: int)
    requires
        first_offset(p) <= o,
        window_lo(o) <= jj <= window_hi(p, t, o),
        forall|a: int, b: int|
            0 <= a < t.len() && !(s <= a < s + p.len()) && 0 <= b < p.len() ==> !chars_match(
                #[trigger] t[a],
                #[trigger] p[b],
            ),
    ensures
        raw_sum(p, t, o, jj) <= 4 * block_count(window_lo(o), jj, s, p.len() as int) - (jj - window_lo(o)),
    decreases jj - window_lo(o),
{
    if jj > window_lo(o) {
        lemma_raw_sum_block_bound(p, t, o, jj - 1, s);
        let k = jj - 1;
        if !(s <= k < s + p.len()) {
            assert(!chars_match(t[k], p[k - o]));
        }
    }
}

/// An item holding the pattern (ignoring ASCII case) at position `i` scores
/// at least as high as an item of the same length that holds it no earlier,
/// at position `j`, and elsewhere has no character of the pattern: earlier
/// matches are favoured.
pub proof fn lemma_earlier_match_scores_higher(p: Seq<char>, a: Seq<char>, b: Seq<char>, i: int, j: int)
    requires
        0 < p.len(),
        a.len() == b.len(),
        0 <= i <= j,
        j + p.len() <= b.len(),
        forall|k: int| 0 <= k < p.len() ==> chars_match(#[trigger] a[i + k], p[k]),
        forall|x: int, y: int|
            0 <= x < b.len() && !(j <= x < j + p.len()) && 0 <= y < p.len() ==> !chars_match(
                #[trigger] b[x],
                #[trigger] p[y],
            ),
    ensures
        !score_less(p, a, b),
{
    let n = p.len() as int;
    let l = a.len() as int;
    let k = n + l - 1;
    let big = 3 * n * (2 * l - i);
    // the earlier item: a full match at offset `i`
    lemma_raw_sum_block_match(p, a, i, i + n);
    assert(window_hi(p, a, i) == i + n);
    assert(first_offset(p) + (i + n) - 1 == i);
    lemma_best_upto_covers(p, a, k, i + n);
    // the later item: no offset weighs more
    assert forall|m: int| 0 < m <= k implies #[trigger] weighted(p, b, first_offset(p) + m - 1) <= big by {
        let o = first_offset(p) + m - 1;
        let lo = window_lo(o);
        let hi = window_hi(p, b, o);
        lemma_raw_sum_bounds(p, b, o, hi);
        let r = raw_score(p, b, o);
        let w = 2 * l - o;
        let ww = 2 * l - i;
        assert(ww >= n);
        if o >= i {
            assert(r <= 3 * n);
            assert(r * w <= big) by (nonlinear_arith)
                requires
                    r <= 3 * n,
                    0 < w <= ww,
                    n > 0,
                    big == 3 * n * ww,
            ;
        } else {
            lemma_raw_sum_block_bound(p, b, o, hi, j);
            let bc = block_count(lo, hi, j, n);
            let c = i - o;
            let e = j - o;
            assert(w == ww + c);
            if bc == 0 {
                assert(r <= 0);
                assert(r * w <= 0) by (nonlinear_arith)
                    requires
                        r <= 0,
                        w > 0,
                ;
                assert(big >= 0) by (nonlinear_arith)
                    requires
                        n > 0,
                        ww >= n,
                        big == 3 * n * ww,
                ;
            } else {
                assert(bc <= n - e);
                assert(bc <= hi - lo);
                assert(r <= 3 * (n - e));
                assert(r * w <= big) by (nonlinear_arith)
                    requires
                        r <= 3 * (n - e),
                        n - e > 0,
                        w == ww + c,
                        e >= c,
                        c > 0,
                        ww >= n,
                        big == 3 * n * ww,
                ;
            }
        }
    }
    lemma_best_upto_at_most(p, b, k, big);
    let d = score_denominator(a);
    let na = score_numerator(p, a);
    let nb = score_numerator(p, b);
    assert(nb * d <= na * d) by (nonlinear_arith)
        requires
            nb <= na,
            d > 0,
    ;
}

} // verus!
