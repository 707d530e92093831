//! Verified text utilities: literal substring search, line splitting,
//! separator trimming and decimal rendering, all specified over `Seq<char>`.

use vstd::prelude::*;

verus! {

/// The pattern `pat` occurs in `hay` starting at index `i`.
pub open spec fn match_at(hay: Seq<char>, pat: Seq<char>, i: int) -> bool {
    0 <= i && i + pat.len() <= hay.len() && hay.subrange(i, i + pat.len() as int) == pat
}

/// `hay` contains `pat` as a contiguous subsequence.
pub open spec fn contains_seq(hay: Seq<char>, pat: Seq<char>) -> bool {
    exists|i: int| match_at(hay, pat, i)
}

/// The least index `i >= from` at which `pat` occurs in `hay`, if any.
pub open spec fn first_occ_from(hay: Seq<char>, pat: Seq<char>, from: int) -> Option<int>
    decreases hay.len() - from + 1,
{
    if from < 0 {
        None
    } else if from + pat.len() > hay.len() {
        None
    } else if match_at(hay, pat, from) {
        Some(from)
    } else {
        first_occ_from(hay, pat, from + 1)
    }
}

/// The first occurrence is a genuine occurrence and nothing matches before
/// it; no first occurrence means nothing matches at all.
pub proof fn lemma_first_occ_facts(hay: Seq<char>, pat: Seq<char>, from: int)
    requires
        from >= 0,
    ensures
        first_occ_from(hay, pat, from) matches Some(i) ==> from <= i && match_at(hay, pat, i)
            && forall|j: int| from <= j < i ==> !match_at(hay, pat, j),
        first_occ_from(hay, pat, from) is None ==> forall|j: int|
            j >= from ==> !match_at(hay, pat, j),
    decreases hay.len() - from + 1,
{
    if from + pat.len() > hay.len() {
        assert(forall|j: int| j >= from ==> !match_at(hay, pat, j));
    } else if match_at(hay, pat, from) {
    } else {
        lemma_first_occ_facts(hay, pat, from + 1);
    }
}

/// `pat` occurs in `hay` exactly when a first occurrence exists.
pub proof fn lemma_contains_first_occ(hay: Seq<char>, pat: Seq<char>)
    ensures
        contains_seq(hay, pat) <==> first_occ_from(hay, pat, 0) is Some,
{
    lemma_first_occ_facts(hay, pat, 0);
    if contains_seq(hay, pat) {
        let i = choose|i: int| match_at(hay, pat, i);
        if first_occ_from(hay, pat, 0) is None {
            assert(!match_at(hay, pat, i));
        }
    }
}

/// Collects the characters of `s` into a vector.
pub fn chars_of(s: &str) -> (v: Vec<char>)
    ensures
        v@ == s@,
{
    let n = s.unicode_len();
    let mut v: Vec<char> = Vec::new();
    let mut i: usize = 0;
    while i < n
        invariant
            i <= n,
            n == s@.len(),
            v@ == s@.take(i as int),
        decreases n - i,
    {
        let c = s.get_char(i);
        v.push(c);
        i = i + 1;
        proof {
            assert(v@ =~= s@.take(i as int));
        }
    }
    proof {
        assert(s@.take(n as int) =~= s@);
    }
    v
}

/// Relies on `String`'s `FromIterator<char>` impl: collecting an iterator of
/// characters yields the string with exactly those characters in order.
#[verifier::external_body]
pub fn string_of(v: &Vec<char>) -> (s: String)
    ensures
        s@ == v@,
{
    v.iter().collect()
}

/// True when `hay[at .. at + pat.len()]` equals `pat`.
pub fn match_at_exec(hay: &Vec<char>, pat: &Vec<char>, at: usize) -> (r: bool)
    requires
        at + pat@.len() <= hay@.len(),
    ensures
        r == match_at(hay@, pat@, at as int),
{
    let hay_len: usize = hay.len();
    let mut k: usize = 0;
    while k < pat.len()
        invariant
            k <= pat@.len(),
            hay_len == hay@.len(),
            at + pat@.len() <= hay_len,
            forall|j: int| 0 <= j < k ==> hay@[at + j] == pat@[j],
        decreases pat@.len() - k,
    {
        if hay[at + k] != pat[k] {
            proof {
                assert(hay@.subrange(at as int, at + pat@.len()) != pat@) by {
                    assert(hay@.subrange(at as int, at + pat@.len())[k as int] != pat@[k as int]);
                }
            }
            return false;
        }
        k = k + 1;
    }
    proof {
        assert(hay@.subrange(at as int, at + pat@.len()) =~= pat@);
    }
    true
}

/// The least occurrence of `pat` in `hay` at or after `from`.
pub fn find_from(hay: &Vec<char>, pat: &Vec<char>, from: usize) -> (r: Option<usize>)
    requires
        pat@.len() >= 1,
    ensures
        r matches Some(i) ==> from <= i && match_at(hay@, pat@, i as int)
            && first_occ_from(hay@, pat@, from as int) == Some(i as int),
        r is None ==> first_occ_from(hay@, pat@, from as int) is None,
{
    if hay.len() < pat.len() {
        return None;
    }
    if from > hay.len() - pat.len() {
        return None;
    }
    let mut i: usize = from;
    loop
        invariant
            from <= i,
            pat@.len() >= 1,
            i + pat@.len() <= hay@.len(),
            first_occ_from(hay@, pat@, from as int) == first_occ_from(hay@, pat@, i as int),
        decreases hay@.len() - i,
    {
        if match_at_exec(hay, pat, i) {
            return Some(i);
        }
        if i == hay.len() - pat.len() {
            proof {
                assert(first_occ_from(hay@, pat@, i + 1) is None);
            }
            return None;
        }
        i = i + 1;
    }
}

/// True when `hay` contains `pat`.
pub fn contains_exec(hay: &Vec<char>, pat: &Vec<char>) -> (r: bool)
    requires
        pat@.len() >= 1,
    ensures
        r == contains_seq(hay@, pat@),
{
    proof {
        lemma_contains_first_occ(hay@, pat@);
        lemma_first_occ_facts(hay@, pat@, 0);
    }
    match find_from(hay, pat, 0) {
        Some(_) => true,
        None => false,
    }
}

/// The greatest index at or below `end` at which `pat` occurs in `hay`, if any.
pub open spec fn last_occ_upto(hay: Seq<char>, pat: Seq<char>, end: int) -> Option<int>
    decreases end + 1,
{
    if end < 0 {
        None
    } else if match_at(hay, pat, end) {
        Some(end)
    } else {
        last_occ_upto(hay, pat, end - 1)
    }
}

/// The rightmost occurrence of `pat` in `hay`.
pub open spec fn last_occ(hay: Seq<char>, pat: Seq<char>) -> Option<int> {
    last_occ_upto(hay, pat, hay.len() - pat.len())
}

/// The rightmost occurrence of `pat` in `hay`, if any.
pub fn rfind(hay: &Vec<char>, pat: &Vec<char>) -> (r: Option<usize>)
    requires
        pat@.len() >= 1,
    ensures
        r matches Some(i) ==> match_at(hay@, pat@, i as int) && last_occ(hay@, pat@) == Some(
            i as int,
        ),
        r is None ==> last_occ(hay@, pat@) is None,
{
    if pat.len() > hay.len() {
        return None;
    }
    let mut i: usize = hay.len() - pat.len();
    loop
        invariant
            pat@.len() >= 1,
            i + pat@.len() <= hay@.len(),
            last_occ(hay@, pat@) == last_occ_upto(hay@, pat@, i as int),
        decreases i,
    {
        if match_at_exec(hay, pat, i) {
            return Some(i);
        }
        if i == 0 {
            proof {
                assert(last_occ_upto(hay@, pat@, -1) is None);
            }
            return None;
        }
        i = i - 1;
    }
}

/// Appends all characters of `s` to `v`.
pub fn push_all(v: &mut Vec<char>, s: &Vec<char>)
    ensures
        final(v)@ == old(v)@ + s@,
{
    let mut i: usize = 0;
    while i < s.len()
        invariant
            i <= s@.len(),
            v@ == old(v)@ + s@.take(i as int),
        decreases s@.len() - i,
    {
        v.push(s[i]);
        i = i + 1;
        proof {
            assert(old(v)@ + s@.take(i as int) =~= (old(v)@ + s@.take(i - 1)).push(s@[i - 1]));
        }
    }
    proof {
        assert(old(v)@ + s@.take(s@.len() as int) =~= old(v)@ + s@);
    }
}

/// Copies `v[a..b]` into a fresh vector.
pub fn subvec(v: &Vec<char>, a: usize, b: usize) -> (r: Vec<char>)
    requires
        a <= b <= v@.len(),
    ensures
        r@ == v@.subrange(a as int, b as int),
{
    let mut r: Vec<char> = Vec::new();
    let mut i: usize = a;
    while i < b
        invariant
            a <= i <= b <= v@.len(),
            r@ == v@.subrange(a as int, i as int),
        decreases b - i,
    {
        r.push(v[i]);
        i = i + 1;
        proof {
            assert(r@ =~= v@.subrange(a as int, i as int));
        }
    }
    r
}

/// Strips one trailing carriage return, if present.
pub open spec fn strip_cr(l: Seq<char>) -> Seq<char> {
    if l.len() > 0 && l.last() == '\r' {
        l.drop_last()
    } else {
        l
    }
}

/// The lines of `s[start..]`, scanning from `cur`: pieces between newline
/// characters, each stripped of one trailing carriage return. A final empty
/// piece (text ending in a newline, or empty text) yields no line.
pub open spec fn lines_from(s: Seq<char>, start: int, cur: int) -> Seq<Seq<char>>
    decreases s.len() - cur + 1,
{
    if cur < start || cur > s.len() || start < 0 {
        Seq::empty()
    } else if cur == s.len() {
        if start == cur {
            Seq::empty()
        } else {
            seq![strip_cr(s.subrange(start, cur))]
        }
    } else if s[cur] == '\n' {
        seq![strip_cr(s.subrange(start, cur))] + lines_from(s, cur + 1, cur + 1)
    } else {
        lines_from(s, start, cur + 1)
    }
}

/// The lines of a text.
pub open spec fn lines_of(s: Seq<char>) -> Seq<Seq<char>> {
    lines_from(s, 0, 0)
}

/// Splits `text` into lines.
pub fn split_lines(text: &Vec<char>) -> (lines: Vec<Vec<char>>)
    ensures
        lines.deep_view() == lines_of(text@),
{
    let n: usize = text.len();
    let mut lines: Vec<Vec<char>> = Vec::new();
    let mut piece: Vec<char> = Vec::new();
    let mut start: usize = 0;
    let mut cur: usize = 0;
    let ghost mut done: Seq<Seq<char>> = Seq::empty();
    while cur < n
        invariant
            start <= cur <= n,
            n == text@.len(),
            piece@ == text@.subrange(start as int, cur as int),
            done.len() == lines@.len(),
            forall|i: int| 0 <= i < done.len() ==> done[i] == #[trigger] lines@[i]@,
            lines_of(text@) == done + lines_from(text@, start as int, cur as int),
        decreases n - cur,
    {
        let c = text[cur];
        if c == '\n' {
            let finished = strip_cr_exec(piece);
            proof {
                let x = strip_cr(text@.subrange(start as int, cur as int));
                assert(done.push(x) + lines_from(text@, cur + 1, cur + 1) =~= done + (seq![x]
                    + lines_from(text@, cur + 1, cur + 1)));
                done = done.push(x);
            }
            lines.push(finished);
            piece = Vec::new();
            start = cur + 1;
            cur = cur + 1;
            proof {
                assert(piece@ =~= text@.subrange(start as int, cur as int));
            }
        } else {
            piece.push(c);
            cur = cur + 1;
            proof {
                assert(piece@ =~= text@.subrange(start as int, cur as int));
            }
        }
    }
    if start < n {
        let finished = strip_cr_exec(piece);
        proof {
            let x = strip_cr(text@.subrange(start as int, cur as int));
            assert(done.push(x) =~= done + seq![x]);
            done = done.push(x);
        }
        lines.push(finished);
    } else {
        proof {
            assert(done + Seq::<Seq<char>>::empty() =~= done);
        }
    }
    proof {
        assert(lines.deep_view() =~~= done);
    }
    lines
}

/// Strips one trailing carriage return from `piece`.
fn strip_cr_exec(piece: Vec<char>) -> (r: Vec<char>)
    ensures
        r@ == strip_cr(piece@),
{
    let mut piece = piece;
    if piece.len() > 0 && piece[piece.len() - 1] == '\r' {
        piece.pop();
        proof {
            assert(piece@ =~= strip_cr(piece@.push('\r')));
        }
    }
    piece
}

/// The pieces of `s[start..]` between occurrences of `sep`, scanning from
/// `cur`: splitting on every separator, with one piece more than there are
/// separators.
pub open spec fn split_from(s: Seq<char>, sep: char, start: int, cur: int) -> Seq<Seq<char>>
    decreases s.len() - cur + 1,
{
    if cur < start || cur > s.len() || start < 0 {
        Seq::empty()
    } else if cur == s.len() {
        seq![s.subrange(start, cur)]
    } else if s[cur] == sep {
        seq![s.subrange(start, cur)] + split_from(s, sep, cur + 1, cur + 1)
    } else {
        split_from(s, sep, start, cur + 1)
    }
}

/// The pieces of `s` between occurrences of `sep`.
pub open spec fn split_by(s: Seq<char>, sep: char) -> Seq<Seq<char>> {
    split_from(s, sep, 0, 0)
}

/// A scan that meets no further separator yields the one remaining piece.
pub proof fn lemma_split_tail(s: Seq<char>, sep: char, start: int, cur: int)
    requires
        0 <= start <= cur <= s.len(),
        forall|k: int| cur <= k < s.len() ==> s[k] != sep,
    ensures
        split_from(s, sep, start, cur) == seq![s.subrange(start, s.len() as int)],
    decreases s.len() - cur,
{
    if cur < s.len() {
        lemma_split_tail(s, sep, start, cur + 1);
    }
}

/// A scan whose next separator stands at `m` yields the piece up to `m` and
/// then the pieces after it.
pub proof fn lemma_split_seg(s: Seq<char>, sep: char, start: int, cur: int, m: int)
    requires
        0 <= start <= cur <= m < s.len(),
        forall|k: int| cur <= k < m ==> s[k] != sep,
        s[m] == sep,
    ensures
        split_from(s, sep, start, cur) == seq![s.subrange(start, m)] + split_from(
            s,
            sep,
            m + 1,
            m + 1,
        ),
    decreases m - cur,
{
    if cur < m {
        lemma_split_seg(s, sep, start, cur + 1, m);
    }
}

/// A path-separator character.
pub open spec fn is_sep(c: char) -> bool {
    c == '/' || c == '\\'
}

/// Drops leading path separators.
pub open spec fn trim_lead(s: Seq<char>) -> Seq<char>
    decreases s.len(),
{
    if s.len() > 0 && is_sep(s[0]) {
        trim_lead(s.drop_first())
    } else {
        s
    }
}

/// Drops trailing path separators.
pub open spec fn trim_trail(s: Seq<char>) -> Seq<char>
    decreases s.len(),
{
    if s.len() > 0 && is_sep(s.last()) {
        trim_trail(s.drop_last())
    } else {
        s
    }
}

/// Drops leading and trailing path separators.
pub open spec fn trim_seps(s: Seq<char>) -> Seq<char> {
    trim_trail(trim_lead(s))
}

proof fn lemma_trim_lead_skip(s: Seq<char>, k: int)
    requires
        0 <= k <= s.len(),
        forall|i: int| 0 <= i < k ==> is_sep(s[i]),
        k == s.len() || !is_sep(s[k]),
    ensures
        trim_lead(s) == s.skip(k),
    decreases s.len(),
{
    if s.len() > 0 && is_sep(s[0]) {
        assert(k >= 1);
        let t = s.drop_first();
        assert(forall|i: int| 0 <= i < k - 1 ==> is_sep(t[i]));
        lemma_trim_lead_skip(t, k - 1);
        assert(t.skip(k - 1) =~= s.skip(k));
    } else {
        assert(k == 0);
        assert(s.skip(0) =~= s);
    }
}

proof fn lemma_trim_trail_take(s: Seq<char>, k: int)
    requires
        0 <= k <= s.len(),
        forall|i: int| k <= i < s.len() ==> is_sep(s[i]),
        k == 0 || !is_sep(s[k - 1]),
    ensures
        trim_trail(s) == s.take(k),
    decreases s.len(),
{
    if s.len() > 0 && is_sep(s.last()) {
        assert(k < s.len());
        let t = s.drop_last();
        lemma_trim_trail_take(t, k);
        assert(t.take(k) =~= s.take(k));
    } else {
        assert(k == s.len());
        assert(s.take(k) =~= s);
    }
}

/// True when `c` is `/` or `\`.
fn is_sep_exec(c: char) -> (r: bool)
    ensures
        r == is_sep(c),
{
    c == '/' || c == '\\'
}

/// Trims leading and trailing path separators from `s`.
pub fn trim_seps_exec(s: &Vec<char>) -> (r: Vec<char>)
    ensures
        r@ == trim_seps(s@),
{
    let n: usize = s.len();
    let mut lo: usize = 0;
    while lo < n && is_sep_exec(s[lo])
        invariant
            lo <= n,
            n == s@.len(),
            forall|i: int| 0 <= i < lo ==> is_sep(s@[i]),
        decreases n - lo,
    {
        lo = lo + 1;
    }
    proof {
        lemma_trim_lead_skip(s@, lo as int);
    }
    let mut hi: usize = n;
    while hi > lo && is_sep_exec(s[hi - 1])
        invariant
            lo <= hi <= n,
            n == s@.len(),
            forall|i: int| hi <= i < n ==> is_sep(s@[i]),
        decreases hi,
    {
        hi = hi - 1;
    }
    proof {
        let t = s@.skip(lo as int);
        assert(forall|i: int| hi - lo <= i < t.len() ==> is_sep(t[i]));
        if hi > lo {
            assert(t[hi - lo - 1] == s@[hi - 1]);
        }
        lemma_trim_trail_take(t, hi - lo);
    }
    let mut r: Vec<char> = Vec::new();
    let mut i: usize = lo;
    while i < hi
        invariant
            lo <= i <= hi <= n,
            n == s@.len(),
            r@ == s@.subrange(lo as int, i as int),
        decreases hi - i,
    {
        r.push(s[i]);
        i = i + 1;
        proof {
            assert(r@ =~= s@.subrange(lo as int, i as int));
        }
    }
    proof {
        assert(s@.subrange(lo as int, hi as int) =~= s@.skip(lo as int).take(hi - lo));
    }
    r
}

/// The decimal digit character for `d`.
pub open spec fn dec_digit(d: int) -> char {
    if d == 0 {
        '0'
    } else if d == 1 {
        '1'
    } else if d == 2 {
        '2'
    } else if d == 3 {
        '3'
    } else if d == 4 {
        '4'
    } else if d == 5 {
        '5'
    } else if d == 6 {
        '6'
    } else if d == 7 {
        '7'
    } else if d == 8 {
        '8'
    } else {
        '9'
    }
}

/// The decimal rendering of a non-negative integer, most significant digit
/// first, without leading zeros (but `0` for zero).
pub open spec fn dec_str(n: int) -> Seq<char>
    decreases n,
{
    if n < 0 {
        Seq::empty()
    } else if n < 10 {
        seq![dec_digit(n)]
    } else {
        dec_str(n / 10) + seq![dec_digit(n % 10)]
    }
}

/// The decimal digit character for `d`.
pub fn dec_digit_exec(d: u64) -> (c: char)
    requires
        d < 10,
    ensures
        c == dec_digit(d as int),
{
    if d == 0 {
        '0'
    } else if d == 1 {
        '1'
    } else if d == 2 {
        '2'
    } else if d == 3 {
        '3'
    } else if d == 4 {
        '4'
    } else if d == 5 {
        '5'
    } else if d == 6 {
        '6'
    } else if d == 7 {
        '7'
    } else if d == 8 {
        '8'
    } else {
        '9'
    }
}

/// Renders `n` in decimal.
pub fn u64_to_dec(n: u64) -> (v: Vec<char>)
    ensures
        v@ == dec_str(n as int),
    decreases n,
{
    if n < 10 {
        let mut v: Vec<char> = Vec::new();
        v.push(dec_digit_exec(n));
        proof {
            assert(v@ =~= dec_str(n as int));
        }
        v
    } else {
        let mut v = u64_to_dec(n / 10);
        v.push(dec_digit_exec(n % 10));
        proof {
            assert(v@ =~= dec_str(n as int));
        }
        v
    }
}

/// True when `c` is a decimal digit.
pub open spec fn is_digit(c: char) -> bool {
    c == '0' || c == '1' || c == '2' || c == '3' || c == '4' || c == '5' || c == '6' || c == '7'
        || c == '8' || c == '9'
}

/// The numeric value of a digit character (zero for anything else).
pub open spec fn digit_val(c: char) -> int {
    if c == '1' {
        1
    } else if c == '2' {
        2
    } else if c == '3' {
        3
    } else if c == '4' {
        4
    } else if c == '5' {
        5
    } else if c == '6' {
        6
    } else if c == '7' {
        7
    } else if c == '8' {
        8
    } else if c == '9' {
        9
    } else {
        0
    }
}

/// The value of a decimal digit string, read left to right.
pub open spec fn dec_val(s: Seq<char>) -> int
    decreases s.len(),
{
    if s.len() == 0 {
        0
    } else {
        dec_val(s.drop_last()) * 10 + digit_val(s.last())
    }
}

/// All characters of `s` are decimal digits.
pub open spec fn all_digits(s: Seq<char>) -> bool {
    forall|i: int| 0 <= i < s.len() ==> is_digit(#[trigger] s[i])
}

/// Rendering a number and reading the digits back yields the number.
pub proof fn lemma_dec_round_trip(n: int)
    requires
        n >= 0,
    ensures
        dec_val(dec_str(n)) == n,
        all_digits(dec_str(n)),
        dec_str(n).len() >= 1,
    decreases n,
{
    if n < 10 {
        let s = seq![dec_digit(n)];
        assert(s.drop_last() =~= Seq::<char>::empty());
        assert(dec_val(s.drop_last()) == 0);
        assert(digit_val(dec_digit(n)) == n);
        assert(dec_val(dec_str(n)) == n);
    } else {
        lemma_dec_round_trip(n / 10);
        let a = dec_str(n / 10);
        let w = a + seq![dec_digit(n % 10)];
        assert(w.drop_last() =~= a);
        assert(w.last() == dec_digit(n % 10));
        assert(digit_val(dec_digit(n % 10)) == n % 10);
        assert(dec_val(w) == dec_val(a) * 10 + n % 10);
        assert(n / 10 * 10 + n % 10 == n) by {
            vstd::arithmetic::div_mod::lemma_fundamental_div_mod(n, 10);
        }
        assert(forall|i: int| 0 <= i < w.len() ==> is_digit(#[trigger] w[i]));
    }
}

} // verus!
