//! Character-level text primitives: substring search, whitespace trimming,
//! first occurrence of a character, line splitting and decimal rendering.
use vstd::prelude::*;

verus! {

/// Whether `k` occurs in `s` as a contiguous run of characters.
pub open spec fn has_sub(s: Seq<char>, k: Seq<char>) -> bool {
    exists|i: int| 0 <= i <= s.len() - k.len() && #[trigger] s.subrange(i, i + k.len()) == k
}

/// Unicode `White_Space`, the set that `char::is_whitespace` tests.
pub open spec fn is_space(c: char) -> bool {
    let u = c as u32;
    (0x9 <= u <= 0xd) || u == 0x20 || u == 0x85 || u == 0xa0 || u == 0x1680 || (0x2000 <= u
        <= 0x200a) || u == 0x2028 || u == 0x2029 || u == 0x202f || u == 0x205f || u == 0x3000
}

/// `s` without its leading whitespace.
pub open spec fn trim_start(s: Seq<char>) -> Seq<char>
    decreases s.len(),
{
    if s.len() > 0 && is_space(s[0]) {
        trim_start(s.drop_first())
    } else {
        s
    }
}

/// `s` without its trailing whitespace.
pub open spec fn trim_end(s: Seq<char>) -> Seq<char>
    decreases s.len(),
{
    if s.len() > 0 && is_space(s.last()) {
        trim_end(s.drop_last())
    } else {
        s
    }
}

/// `s` without leading and trailing whitespace.
pub open spec fn trim(s: Seq<char>) -> Seq<char> {
    trim_end(trim_start(s))
}

/// `i` is the position of the first `c` in `s`.
pub open spec fn is_first(s: Seq<char>, c: char, i: int) -> bool {
    0 <= i < s.len() && s[i] == c && forall|j: int| 0 <= j < i ==> s[j] != c
}

/// The position of the first `c` in `s` (meaningful when `s` holds a `c`).
pub open spec fn first(s: Seq<char>, c: char) -> int {
    choose|i: int| is_first(s, c, i)
}

/// What precedes the first `c` in `s`.
pub open spec fn before_first(s: Seq<char>, c: char) -> Seq<char> {
    s.take(first(s, c))
}

/// What follows the first `c` in `s`.
pub open spec fn after_first(s: Seq<char>, c: char) -> Seq<char> {
    s.skip(first(s, c) + 1)
}

/// The leading run of non-whitespace characters of `s`.
pub open spec fn first_word(s: Seq<char>) -> Seq<char>
    decreases s.len(),
{
    if s.len() == 0 || is_space(s[0]) {
        seq![]
    } else {
        seq![s[0]] + first_word(s.drop_first())
    }
}

/// The pieces of `s` between line feeds; there is always at least one.
pub open spec fn pieces(s: Seq<char>) -> Seq<Seq<char>>
    decreases s.len(),
{
    if s.len() == 0 {
        seq![seq![]]
    } else {
        let p = pieces(s.drop_last());
        if s.last() == '\n' {
            p.push(seq![])
        } else {
            p.update(p.len() - 1, p.last().push(s.last()))
        }
    }
}

/// A line that was ended by a line feed loses one trailing carriage return.
pub open spec fn strip_cr(l: Seq<char>) -> Seq<char> {
    if l.len() > 0 && l.last() == '\r' {
        l.drop_last()
    } else {
        l
    }
}

/// Each of `ls` without a trailing carriage return.
pub open spec fn stripped(ls: Seq<Seq<char>>) -> Seq<Seq<char>> {
    ls.map_values(|l: Seq<char>| strip_cr(l))
}

/// The lines of `s`: every terminated piece without its `\r\n` or `\n`, then
/// the unterminated tail when it is not empty.
pub open spec fn lines_of(s: Seq<char>) -> Seq<Seq<char>> {
    let p = pieces(s);
    let body = stripped(p.drop_last());
    if p.last().len() == 0 {
        body
    } else {
        body.push(p.last())
    }
}

/// The character of a decimal digit.
pub open spec fn digit_char(d: nat) -> char {
    if d == 0 {
        '0'
    } else if d == 1 {
        '1'
    } else if d == 2 {
        '2'
    } else if d == 3 {
        '3'
    } else if d == 4 {
        '4'
    } else if d == 5 {
        '5'
    } else if d == 6 {
        '6'
    } else if d == 7 {
        '7'
    } else if d == 8 {
        '8'
    } else {
        '9'
    }
}

/// The decimal rendering of `n`, without leading zeros.
pub open spec fn decimal(n: nat) -> Seq<char>
    decreases n,
{
    if n < 10 {
        seq![digit_char(n)]
    } else {
        decimal(n / 10).push(digit_char(n % 10))
    }
}

/// An occurrence in a part of `s` is an occurrence in `s`.
pub proof fn lemma_sub_of_part(s: Seq<char>, a: int, b: int, k: Seq<char>)
    requires
        0 <= a <= b <= s.len(),
        has_sub(s.subrange(a, b), k),
    ensures
        has_sub(s, k),
{
    let t = s.subrange(a, b);
    let i = choose|i: int| 0 <= i <= t.len() - k.len() && #[trigger] t.subrange(i, i + k.len()) == k;
    assert(s.subrange(a + i, a + i + k.len()) =~= t.subrange(i, i + k.len()));
}

/// The last piece of `s` is a suffix of `s`.
pub proof fn lemma_last_piece_suffix(s: Seq<char>)
    ensures
        pieces(s).len() >= 1,
        pieces(s).last().len() <= s.len(),
        pieces(s).last() == s.subrange(s.len() - pieces(s).last().len(), s.len() as int),
    decreases s.len(),
{
    if s.len() > 0 {
        let d = s.drop_last();
        lemma_last_piece_suffix(d);
        let p = pieces(s).last();
        assert(p =~= s.subrange(s.len() - p.len(), s.len() as int));
    } else {
        assert(pieces(s).last() =~= s.subrange(0, 0));
    }
}

/// A tail of `s` free of line feeds lies within the last piece.
pub proof fn lemma_last_piece_covers(s: Seq<char>, t: int)
    requires
        0 <= t <= s.len(),
        forall|j: int| s.len() - t <= j < s.len() ==> s[j] != '\n',
    ensures
        pieces(s).last().len() >= t,
    decreases s.len(),
{
    lemma_last_piece_suffix(s);
    if t > 0 {
        let d = s.drop_last();
        assert forall|j: int| d.len() - (t - 1) <= j < d.len() implies d[j] != '\n' by {
            assert(d[j] == s[j]);
        }
        lemma_last_piece_covers(d, t - 1);
        lemma_last_piece_suffix(d);
    }
}

/// A run of characters that a piece holds, `s` holds.
pub proof fn lemma_piece_in_text(s: Seq<char>, j: int, k: Seq<char>)
    requires
        0 <= j < pieces(s).len(),
        has_sub(pieces(s)[j], k),
    ensures
        has_sub(s, k),
    decreases s.len(),
{
    lemma_last_piece_suffix(s);
    if s.len() == 0 {
        assert(pieces(s)[j] == s.subrange(0, 0));
        lemma_sub_of_part(s, 0, 0, k);
    } else {
        let d = s.drop_last();
        lemma_last_piece_suffix(d);
        if j == pieces(s).len() - 1 {
            lemma_sub_of_part(s, s.len() - pieces(s).last().len(), s.len() as int, k);
        } else {
            assert(pieces(s)[j] == pieces(d)[j]);
            lemma_piece_in_text(d, j, k);
            lemma_sub_of_part(s, 0, d.len() as int, k);
            assert(s.subrange(0, d.len() as int) =~= d);
        }
    }
}

/// A run of characters free of line feeds that `s` holds, some piece holds.
pub proof fn lemma_text_in_piece(s: Seq<char>, k: Seq<char>) -> (j: int)
    requires
        has_sub(s, k),
        forall|m: int| 0 <= m < k.len() ==> k[m] != '\n',
    ensures
        0 <= j < pieces(s).len(),
        has_sub(pieces(s)[j], k),
    decreases s.len(),
{
    lemma_last_piece_suffix(s);
    let i = choose|i: int| 0 <= i <= s.len() - k.len() && #[trigger] s.subrange(i, i + k.len()) == k;
    if i + k.len() == s.len() {
        assert forall|m: int| s.len() - k.len() <= m < s.len() implies s[m] != '\n' by {
            assert(s[m] == s.subrange(i, i + k.len())[m - i]);
        }
        lemma_last_piece_covers(s, k.len() as int);
        let p = pieces(s).last();
        let o = s.len() - p.len();
        assert(p.subrange(i - o, i - o + k.len()) =~= s.subrange(i, i + k.len()));
        pieces(s).len() - 1
    } else {
        let d = s.drop_last();
        assert(d.subrange(i, i + k.len()) =~= s.subrange(i, i + k.len()));
        let j0 = lemma_text_in_piece(d, k);
        let q = pieces(d)[j0];
        let w = choose|w: int| 0 <= w <= q.len() - k.len() && #[trigger] q.subrange(w, w + k.len()) == k;
        if s.last() != '\n' && j0 == pieces(d).len() - 1 {
            assert(pieces(s)[j0].subrange(w, w + k.len()) =~= q.subrange(w, w + k.len()));
        } else {
            assert(pieces(s)[j0] == q);
        }
        j0
    }
}

/// For a keyword free of line feeds and carriage returns, some line of `s`
/// holds it exactly when `s` does.
pub proof fn lemma_keyword_in_lines(s: Seq<char>, k: Seq<char>)
    requires
        k.len() > 0,
        forall|m: int| 0 <= m < k.len() ==> k[m] != '\n' && k[m] != '\r',
    ensures
        has_sub(s, k) <==> exists|j: int|
            0 <= j < lines_of(s).len() && has_sub(#[trigger] lines_of(s)[j], k),
{
    let p = pieces(s);
    lemma_last_piece_suffix(s);
    if has_sub(s, k) {
        let j = lemma_text_in_piece(s, k);
        let q = p[j];
        let w = choose|w: int| 0 <= w <= q.len() - k.len() && #[trigger] q.subrange(w, w + k.len()) == k;
        if j == p.len() - 1 {
            assert(q.len() > 0);
            assert(lines_of(s)[j] == q);
        } else {
            assert(lines_of(s)[j] == strip_cr(q));
            if q.len() > 0 && q.last() == '\r' {
                if w + k.len() == q.len() {
                    assert(k[k.len() - 1] == q.subrange(w, w + k.len())[k.len() - 1]);
                }
                assert(strip_cr(q).subrange(w, w + k.len()) =~= q.subrange(w, w + k.len()));
            }
        }
        assert(has_sub(lines_of(s)[j], k));
    }
    if exists|j: int| 0 <= j < lines_of(s).len() && has_sub(#[trigger] lines_of(s)[j], k) {
        let j = choose|j: int| 0 <= j < lines_of(s).len() && has_sub(#[trigger] lines_of(s)[j], k);
        let l = lines_of(s)[j];
        let q = p[j];
        if j < p.len() - 1 {
            assert(l == strip_cr(q));
            if q.len() > 0 && q.last() == '\r' {
                assert(l == q.subrange(0, q.len() - 1));
                lemma_sub_of_part(q, 0, q.len() - 1, k);
            }
        }
        lemma_piece_in_text(s, j, k);
    }
}

/// The characters of `s`.
pub fn chars_of(s: &str) -> (r: Vec<char>)
    ensures
        r@ == s@,
{
    let mut out: Vec<char> = Vec::new();
    for c in it: s.chars()
        invariant
            it.seq() == s@,
            out@ == it.seq().take(it.index() as int),
    {
        out.push(c);
    }
    out
}

/// Relies on `String`'s `FromIterator<&char>`: the string holds the characters in order.
#[verifier::external_body]
pub(crate) fn string_of(v: &[char]) -> (r: String)
    ensures
        r@ == v@,
{
    v.iter().collect()
}

/// The characters `s[lo..hi]`.
pub fn slice(s: &Vec<char>, lo: usize, hi: usize) -> (r: Vec<char>)
    requires
        lo <= hi <= s.len(),
    ensures
        r@ == s@.subrange(lo as int, hi as int),
{
    let mut out: Vec<char> = Vec::new();
    let mut i: usize = lo;
    while i < hi
        invariant
            lo <= i <= hi <= s.len(),
            out@ == s@.subrange(lo as int, i as int),
        decreases hi - i,
    {
        out.push(s[i]);
        i = i + 1;
    }
    out
}

/// Whether `c` is whitespace.
pub fn is_space_char(c: char) -> (r: bool)
    ensures
        r == is_space(c),
{
    let u = c as u32;
    (0x9 <= u && u <= 0xd) || u == 0x20 || u == 0x85 || u == 0xa0 || u == 0x1680 || (0x2000 <= u
        && u <= 0x200a) || u == 0x2028 || u == 0x2029 || u == 0x202f || u == 0x205f || u == 0x3000
}

/// Whether `k` occurs in `s` at position `i`.
fn matches_at(s: &Vec<char>, k: &Vec<char>, i: usize) -> (r: bool)
    requires
        i + k.len() <= s.len(),
    ensures
        r == (s@.subrange(i as int, i + k.len()) == k@),
{
    let mut j: usize = 0;
    while j < k.len()
        invariant
            i + k.len() <= s.len(),
            j <= k.len(),
            forall|m: int| 0 <= m < j ==> s@[i + m] == k@[m],
        decreases k.len() - j,
    {
        if s[i + j] != k[j] {
            assert(s@.subrange(i as int, i + k.len())[j as int] != k@[j as int]);
            return false;
        }
        j = j + 1;
    }
    assert(s@.subrange(i as int, i + k.len()) =~= k@);
    true
}

/// Whether `k` occurs in `s`.
pub fn contains(s: &Vec<char>, k: &Vec<char>) -> (r: bool)
    ensures
        r == has_sub(s@, k@),
{
    if k.len() > s.len() {
        return false;
    }
    let last = s.len() - k.len();
    let mut i: usize = 0;
    loop
        invariant
            last == s.len() - k.len(),
            i <= last,
            forall|m: int| 0 <= m < i ==> #[trigger] s@.subrange(m, m + k.len()) != k@,
        decreases last - i,
    {
        if matches_at(s, k, i) {
            return true;
        }
        if i == last {
            return false;
        }
        i = i + 1;
    }
}

/// The position of the first `c` in `s`, if any.
pub fn find_char(s: &Vec<char>, c: char) -> (r: Option<usize>)
    ensures
        r is None <==> !s@.contains(c),
        r matches Some(i) ==> is_first(s@, c, i as int) && first(s@, c) == i,
{
    let mut i: usize = 0;
    while i < s.len()
        invariant
            i <= s.len(),
            forall|j: int| 0 <= j < i ==> s@[j] != c,
        decreases s.len() - i,
    {
        if s[i] == c {
            assert(is_first(s@, c, i as int));
            let ghost k = first(s@, c);
            assert(k == i) by {
                if k < i {
                    assert(s@[k] != c);
                } else if k > i {
                    assert(s@[i as int] != c);
                }
            }
            return Some(i);
        }
        i = i + 1;
    }
    None
}

/// `s[lo..hi]` without leading and trailing whitespace.
pub fn trim_range(s: &Vec<char>, lo: usize, hi: usize) -> (r: Vec<char>)
    requires
        lo <= hi <= s.len(),
    ensures
        r@ == trim(s@.subrange(lo as int, hi as int)),
{
    let ghost whole = s@.subrange(lo as int, hi as int);
    let mut a: usize = lo;
    while a < hi && is_space_char(s[a])
        invariant
            lo <= a <= hi <= s.len(),
            trim_start(whole) == trim_start(s@.subrange(a as int, hi as int)),
        decreases hi - a,
    {
        assert(s@.subrange(a as int, hi as int).drop_first() =~= s@.subrange(a + 1, hi as int));
        a = a + 1;
    }
    assert(trim_start(whole) == s@.subrange(a as int, hi as int));
    let mut b: usize = hi;
    while b > a && is_space_char(s[b - 1])
        invariant
            lo <= a <= b <= hi <= s.len(),
            trim(whole) == trim_end(s@.subrange(a as int, b as int)),
        decreases b - a,
    {
        assert(s@.subrange(a as int, b as int).drop_last() =~= s@.subrange(a as int, b - 1));
        b = b - 1;
    }
    slice(s, a, b)
}

/// The whole of `s` without leading and trailing whitespace.
pub fn trim_all(s: &Vec<char>) -> (r: Vec<char>)
    ensures
        r@ == trim(s@),
{
    assert(s@.subrange(0, s.len() as int) =~= s@);
    trim_range(s, 0, s.len())
}

/// The leading run of non-whitespace characters of `s`.
pub fn leading_word(s: &Vec<char>) -> (r: Vec<char>)
    ensures
        r@ == first_word(s@),
{
    let mut out: Vec<char> = Vec::new();
    let mut i: usize = 0;
    assert(s@.skip(0) =~= s@);
    assert(out@ + first_word(s@) =~= first_word(s@));
    while i < s.len() && !is_space_char(s[i])
        invariant
            i <= s.len(),
            out@ == s@.take(i as int),
            first_word(s@) == out@ + first_word(s@.skip(i as int)),
        decreases s.len() - i,
    {
        assert(s@.skip(i as int).drop_first() =~= s@.skip(i + 1));
        assert(s@.take(i + 1) =~= s@.take(i as int).push(s[i as int]));
        out.push(s[i]);
        i = i + 1;
    }
    assert(out@ + seq![] =~= out@);
    out
}

/// The character of the digit `d`.
pub fn digit(d: u64) -> (r: char)
    requires
        d < 10,
    ensures
        r == digit_char(d as nat),
{
    if d == 0 {
        '0'
    } else if d == 1 {
        '1'
    } else if d == 2 {
        '2'
    } else if d == 3 {
        '3'
    } else if d == 4 {
        '4'
    } else if d == 5 {
        '5'
    } else if d == 6 {
        '6'
    } else if d == 7 {
        '7'
    } else if d == 8 {
        '8'
    } else {
        '9'
    }
}

/// Appends the decimal rendering of `n` to `out`.
pub fn push_decimal(out: &mut Vec<char>, n: u64)
    ensures
        final(out)@ == old(out)@ + decimal(n as nat),
    decreases n,
{
    if n >= 10 {
        push_decimal(out, n / 10);
    }
    out.push(digit(n % 10));
    assert(old(out)@ + decimal(n as nat) =~= final(out)@);
}

/// Appends the characters of `s` to `out`.
pub fn push_str(out: &mut Vec<char>, s: &str)
    ensures
        final(out)@ == old(out)@ + s@,
{
    let cs = chars_of(s);
    let mut i: usize = 0;
    while i < cs.len()
        invariant
            i <= cs.len(),
            cs@ == s@,
            out@ == old(out)@ + cs@.take(i as int),
        decreases cs.len() - i,
    {
        out.push(cs[i]);
        i = i + 1;
        assert(out@ =~= old(out)@ + cs@.take(i as int));
    }
    assert(cs@.take(i as int) =~= cs@);
}

/// The character sequences that a vector of lines holds.
pub open spec fn views(v: Seq<Vec<char>>) -> Seq<Seq<char>> {
    v.map_values(|l: Vec<char>| l@)
}

/// The character sequences that a vector of strings holds.
pub open spec fn string_views(v: Seq<String>) -> Seq<Seq<char>> {
    v.map_values(|l: String| l@)
}

/// The lines of `s`, as `str::lines` and `BufRead::lines` cut them.
pub fn split_lines(s: &Vec<char>) -> (r: Vec<Vec<char>>)
    ensures
        views(r@) == lines_of(s@),
{
    let mut done: Vec<Vec<char>> = Vec::new();
    let mut cur: Vec<char> = Vec::new();
    let ghost mut raw: Seq<Seq<char>> = seq![];
    let mut i: usize = 0;
    assert(s@.take(0) =~= seq![]);
    assert(pieces(s@.take(0)) =~= raw.push(cur@));
    while i < s.len()
        invariant
            i <= s.len(),
            pieces(s@.take(i as int)) == raw.push(cur@),
            views(done@) == stripped(raw),
        decreases s.len() - i,
    {
        let c = s[i];
        assert(s@.take(i + 1).drop_last() =~= s@.take(i as int));
        if c == '\n' {
            let ghost prev = views(done@);
            proof {
                raw = raw.push(cur@);
            }
            if cur.len() > 0 && cur[cur.len() - 1] == '\r' {
                cur.pop();
            }
            done.push(cur);
            cur = Vec::new();
            assert(views(done@) =~= prev.push(strip_cr(raw.last())));
            assert(views(done@) =~= stripped(raw));
            assert(pieces(s@.take(i + 1)) =~= raw.push(cur@));
        } else {
            cur.push(c);
            assert(pieces(s@.take(i + 1)) =~= raw.push(cur@));
        }
        i = i + 1;
    }
    assert(s@.take(i as int) =~= s@);
    assert(pieces(s@).drop_last() =~= raw);
    if cur.len() > 0 {
        done.push(cur);
        assert(views(done@) =~= lines_of(s@));
    } else {
        assert(views(done@) =~= lines_of(s@));
    }
    done
}

/// Appends the characters of `v` to `out`.
pub fn push_all(out: &mut Vec<char>, v: &Vec<char>)
    ensures
        final(out)@ == old(out)@ + v@,
{
    let mut i: usize = 0;
    while i < v.len()
        invariant
            i <= v.len(),
            out@ == old(out)@ + v@.take(i as int),
        decreases v.len() - i,
    {
        out.push(v[i]);
        i = i + 1;
        assert(out@ =~= old(out)@ + v@.take(i as int));
    }
    assert(v@.take(i as int) =~= v@);
}

/// The characters of `s` followed by those of `v`.
pub fn text_then(s: &str, v: &Vec<char>) -> (r: Vec<char>)
    ensures
        r@ == s@ + v@,
{
    let mut out = chars_of(s);
    push_all(&mut out, v);
    out
}

/// Each line as a `String`.
pub fn to_strings(v: &Vec<Vec<char>>) -> (r: Vec<String>)
    ensures
        string_views(r@) == views(v@),
{
    let mut out: Vec<String> = Vec::new();
    let mut i: usize = 0;
    while i < v.len()
        invariant
            i <= v.len(),
            string_views(out@) == views(v@).take(i as int),
        decreases v.len() - i,
    {
        let ghost prev = string_views(out@);
        out.push(string_of(v[i].as_slice()));
        assert(string_views(out@) =~= prev.push(views(v@)[i as int]));
        i = i + 1;
    }
    assert(views(v@).take(i as int) =~= views(v@));
    out
}

} // verus!
