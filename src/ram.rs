//! The memory report: each memory and swap total, converted from kilobytes
//! to megabytes with two decimals.
use vstd::prelude::*;
use crate::extract::{matching_lines, selected};
use crate::text::{
    after_first, before_first, chars_of, slice, decimal, digit, digit_char, find_char, first_word,
    leading_word, lines_of, push_all, push_decimal, push_str, split_lines, string_of,
    string_views, to_strings, trim, trim_range, views,
};

verus! {

/// The keywords that pick the memory lines.
pub open spec fn ram_keywords() -> Seq<Seq<char>> {
    seq!["MemTotal"@, "MemFree"@, "MemAvailable"@, "SwapTotal"@, "SwapFree"@]
}

/// The lines of a memory information text that the report reads.
pub open spec fn ram_lines(text: Seq<char>) -> Seq<Seq<char>> {
    selected(lines_of(text), ram_keywords())
}

/// `c` is a decimal digit.
pub open spec fn is_digit(c: char) -> bool {
    '0' <= c <= '9'
}

/// Every character of `s` is a decimal digit.
pub open spec fn all_digits(s: Seq<char>) -> bool {
    forall|i: int| 0 <= i < s.len() ==> is_digit(#[trigger] s[i])
}

/// The number that the decimal digits `s` write.
pub open spec fn digits_value(s: Seq<char>) -> nat
    decreases s.len(),
{
    if s.len() == 0 {
        0
    } else {
        digits_value(s.drop_last()) * 10 + (s.last() as nat - 48) as nat
    }
}

/// `v`, capped at the largest 64-bit value.
pub open spec fn capped(v: nat) -> nat {
    if v <= u64::MAX {
        v
    } else {
        u64::MAX as nat
    }
}

pub open spec fn pow10(n: nat) -> nat
    decreases n,
{
    if n == 0 {
        1
    } else {
        10 * pow10((n - 1) as nat)
    }
}

/// `n` zero digits.
pub open spec fn zeros(n: nat) -> Seq<char> {
    Seq::new(n, |i: int| '0')
}

/// The first six digits of `f`, padded with zeros to six.
pub open spec fn six_digits(f: Seq<char>) -> Seq<char> {
    if f.len() >= 6 {
        f.take(6)
    } else {
        f + zeros((6 - f.len()) as nat)
    }
}

/// The digits of a token before its decimal point.
pub open spec fn whole_digits(tok: Seq<char>) -> Seq<char> {
    if tok.contains('.') {
        before_first(tok, '.')
    } else {
        tok
    }
}

/// The digits of a token after its decimal point.
pub open spec fn fraction_digits(tok: Seq<char>) -> Seq<char> {
    if tok.contains('.') {
        after_first(tok, '.')
    } else {
        seq![]
    }
}

/// The kilobytes that a value token gives, in millionths: a token of decimal
/// digits with at most one decimal point (`16384`, `1024.5`, `.5`, `7.`) is
/// read exactly, except that its whole part is capped at `u64::MAX` and its
/// fraction digits after the sixth are dropped. Any other token (a sign, an
/// exponent, `inf`, no digits at all) gives zero.
pub open spec fn kb_millionths(tok: Seq<char>) -> nat {
    let w = whole_digits(tok);
    let f = fraction_digits(tok);
    if w.len() + f.len() > 0 && all_digits(w) && all_digits(f) {
        capped(digits_value(w)) * 1_000_000 + digits_value(six_digits(f))
    } else {
        0
    }
}

/// The kilobytes of the value part of a memory line, in millionths: its first
/// word, trimmed.
pub open spec fn kb_of_value(v: Seq<char>) -> nat {
    kb_millionths(first_word(trim(v)))
}

/// The largest number of millionths of a kilobyte that a token gives.
pub open spec fn max_millionths() -> nat {
    u64::MAX as nat * 1_000_000 + 999_999
}

/// `m` millionths of a kilobyte in hundredths of a megabyte, to the nearest,
/// a tie going to the even neighbour.
pub open spec fn hundredths(m: nat) -> nat {
    let n = m * 25;
    let q = n / 256_000_000;
    let r = n % 256_000_000;
    if r > 128_000_000 || (r == 128_000_000 && q % 2 == 1) {
        q + 1
    } else {
        q
    }
}

/// `m` millionths of a kilobyte as megabytes with two decimals.
pub open spec fn mb_text(m: nat) -> Seq<char> {
    let h = hundredths(m);
    decimal(h / 100) + seq!['.', digit_char((h % 100) / 10), digit_char(h % 10)]
}

/// The printed form of a memory line that has a colon.
pub open spec fn ram_line(l: Seq<char>) -> Seq<char> {
    "  "@ + trim(before_first(l, ':')) + ": "@ + mb_text(kb_of_value(after_first(l, ':'))) + " MB"@
}

/// Line `l` has a colon.
pub open spec fn has_colon(l: Seq<char>) -> bool {
    l.contains(':')
}

/// The printed lines for the selected lines `ls`; a line without a colon prints nothing.
pub open spec fn ram_body(ls: Seq<Seq<char>>) -> Seq<Seq<char>> {
    ls.filter(|l: Seq<char>| has_colon(l)).map_values(|l: Seq<char>| ram_line(l))
}

/// The memory report for the selected lines `ls`: a header, the body, a blank line.
pub open spec fn ram_report_of(ls: Seq<Seq<char>>) -> Seq<Seq<char>> {
    seq!["RAM Information:"@] + ram_body(ls) + seq![seq![]]
}

/// Six digits write a number below a million.
pub proof fn lemma_six_digits_bound(s: Seq<char>)
    requires
        all_digits(s),
    ensures
        digits_value(s) < pow10(s.len()),
    decreases s.len(),
{
    if s.len() > 0 {
        let d = s.drop_last();
        assert(all_digits(d)) by {
            assert forall|i: int| 0 <= i < d.len() implies is_digit(#[trigger] d[i]) by {
                assert(d[i] == s[i]);
            }
        }
        lemma_six_digits_bound(d);
        let v = digits_value(d);
        let p = pow10(d.len());
        let c = (s.last() as nat - 48) as nat;
        assert(is_digit(s[s.len() - 1]));
        assert(v * 10 + c < 10 * p) by (nonlinear_arith)
            requires
                v < p,
                c <= 9,
        ;
    }
}

/// The digits `s` as a number capped at `u64::MAX`, or `None` when `s` holds
/// anything but digits.
pub fn parse_digits_capped(s: &Vec<char>) -> (r: Option<u64>)
    ensures
        r is None <==> !all_digits(s@),
        r matches Some(v) ==> v == capped(digits_value(s@)),
{
    let mut acc: u64 = 0;
    let mut i: usize = 0;
    assert(s@.take(0) =~= seq![]);
    while i < s.len()
        invariant
            i <= s.len(),
            acc == capped(digits_value(s@.take(i as int))),
            all_digits(s@.take(i as int)),
        decreases s.len() - i,
    {
        let c = s[i];
        assert(s@.take(i + 1).drop_last() =~= s@.take(i as int));
        if !('0' <= c && c <= '9') {
            assert(!is_digit(s@[i as int]));
            return None;
        }
        let d = (c as u32 - 48) as u64;
        let ghost v = digits_value(s@.take(i as int));
        if acc > (u64::MAX - d) / 10 {
            assert(v * 10 + d > u64::MAX) by (nonlinear_arith)
                requires
                    acc > (u64::MAX - d) / 10,
                    d <= 9,
                    acc == capped(v),
            ;
            acc = u64::MAX;
        } else {
            assert(acc * 10 + d <= u64::MAX) by (nonlinear_arith)
                requires
                    acc <= (u64::MAX - d) / 10,
                    d <= 9,
            ;
            assert(v <= u64::MAX);
            acc = acc * 10 + d;
        }
        i = i + 1;
        assert(all_digits(s@.take(i as int)));
    }
    assert(s@.take(i as int) =~= s@);
    Some(acc)
}

/// The first six characters of `f`, padded with zeros to six.
fn pad_six(f: &Vec<char>) -> (r: Vec<char>)
    ensures
        r@ == six_digits(f@),
{
    let mut out: Vec<char> = Vec::new();
    let mut i: usize = 0;
    while i < f.len() && i < 6
        invariant
            i <= f.len(),
            i <= 6,
            out@ == f@.take(i as int),
        decreases 6 - i,
    {
        out.push(f[i]);
        i = i + 1;
        assert(out@ =~= f@.take(i as int));
    }
    if f.len() >= 6 {
        return out;
    }
    assert(out@ =~= f@);
    while out.len() < 6
        invariant
            f.len() <= out.len() <= 6,
            out@ == f@ + zeros((out.len() - f.len()) as nat),
        decreases 6 - out.len(),
    {
        out.push('0');
        assert(out@ =~= f@ + zeros((out.len() - f.len()) as nat));
    }
    out
}

/// The kilobytes that the value token `tok` gives, in millionths.
pub fn parse_kb_millionths(tok: &Vec<char>) -> (r: u128)
    ensures
        r == kb_millionths(tok@),
        r <= max_millionths(),
{
    let (w, f) = match find_char(tok, '.') {
        Some(p) => {
            assert(p < tok.len());
            assert(tok@.subrange(0, p as int) =~= before_first(tok@, '.'));
            assert(tok@.subrange(p + 1, tok@.len() as int) =~= after_first(tok@, '.'));
            (slice(tok, 0, p), slice(tok, p + 1, tok.len()))
        },
        None => (tok.clone(), Vec::new()),
    };
    assert(w@ == whole_digits(tok@));
    assert(f@ =~= fraction_digits(tok@));
    if w.len() == 0 && f.len() == 0 {
        return 0;
    }
    let wv = match parse_digits_capped(&w) {
        Some(v) => v,
        None => return 0,
    };
    if parse_digits_capped(&f).is_none() {
        return 0;
    }
    let six = pad_six(&f);
    proof {
        assert(all_digits(six@)) by {
            assert forall|i: int| 0 <= i < six@.len() implies is_digit(#[trigger] six@[i]) by {
                if i < f@.len() {
                    assert(six@[i] == f@[i]);
                }
            }
        }
        lemma_six_digits_bound(six@);
        reveal_with_fuel(pow10, 7);
    }
    let fv = match parse_digits_capped(&six) {
        Some(v) => v,
        None => return 0,
    };
    assert(fv < 1_000_000);
    wv as u128 * 1_000_000 + fv as u128
}

/// Appends `m` millionths of a kilobyte as megabytes with two decimals to `out`.
pub fn push_mb(out: &mut Vec<char>, m: u128)
    requires
        m <= max_millionths(),
    ensures
        final(out)@ == old(out)@ + mb_text(m as nat),
{
    let n: u128 = m * 25;
    let q: u128 = n / 256_000_000;
    let r: u128 = n % 256_000_000;
    let h: u128 = if r > 128_000_000 || (r == 128_000_000 && q % 2 == 1) {
        q + 1
    } else {
        q
    };
    assert(h == hundredths(m as nat));
    assert(h / 100 <= u64::MAX) by (nonlinear_arith)
        requires
            h <= q + 1,
            q == n / 256_000_000,
            n == m * 25,
            m <= u64::MAX * 1_000_000 + 999_999,
    ;
    push_decimal(out, (h / 100) as u64);
    out.push('.');
    out.push(digit(((h % 100) / 10) as u64));
    out.push(digit((h % 10) as u64));
    assert(final(out)@ =~= old(out)@ + mb_text(m as nat));
}

/// `m` millionths of a kilobyte as megabytes with two decimals
/// (`16_384_000_000` gives `16.00`).
pub fn format_mb(m: u128) -> (r: String)
    requires
        m <= max_millionths(),
    ensures
        r@ == mb_text(m as nat),
{
    let mut out: Vec<char> = Vec::new();
    push_mb(&mut out, m);
    assert(out@ =~= mb_text(m as nat));
    string_of(out.as_slice())
}

/// A memory line taken apart: its label and its kilobytes.
#[derive(Clone, Debug, PartialEq, Eq)]
pub struct MemEntry {
    pub label: String,
    /// The kilobytes, in millionths.
    pub kb_millionths: u128,
}

/// The label and kilobytes of a memory line, or `None` when it has no colon.
pub fn parse_mem_line(line: &str) -> (r: Option<MemEntry>)
    ensures
        r is None <==> !line@.contains(':'),
        r matches Some(e) ==> e.label@ == trim(before_first(line@, ':')) && e.kb_millionths == kb_of_value(
            after_first(line@, ':'),
        ),
{
    let l = chars_of(line);
    match find_char(&l, ':') {
        None => None,
        Some(p) => {
            let (label, kb) = split_mem_line(&l, p);
            Some(MemEntry { label: string_of(label.as_slice()), kb_millionths: kb })
        },
    }
}

/// The trimmed label and the kilobytes of `l`, whose first colon is at `p`.
fn split_mem_line(l: &Vec<char>, p: usize) -> (r: (Vec<char>, u128))
    requires
        crate::text::is_first(l@, ':', p as int),
        crate::text::first(l@, ':') == p,
    ensures
        r.0@ == trim(before_first(l@, ':')),
        r.1 == kb_of_value(after_first(l@, ':')),
        r.1 <= max_millionths(),
{
    assert(p < l.len());
    let label = trim_range(l, 0, p);
    let value = trim_range(l, p + 1, l.len());
    assert(l@.subrange(0, p as int) =~= before_first(l@, ':'));
    assert(l@.subrange(p + 1, l@.len() as int) =~= after_first(l@, ':'));
    let kb = parse_kb_millionths(&leading_word(&value));
    (label, kb)
}

/// The memory report of a memory information text (`/proc/meminfo`).
pub fn ram_report(meminfo: &str) -> (r: Vec<String>)
    ensures
        string_views(r@) == ram_report_of(ram_lines(meminfo@)),
{
    let kws = vec![
        chars_of("MemTotal"),
        chars_of("MemFree"),
        chars_of("MemAvailable"),
        chars_of("SwapTotal"),
        chars_of("SwapFree"),
    ];
    assert(views(kws@) =~= ram_keywords());
    let ls = matching_lines(&split_lines(&chars_of(meminfo)), &kws);
    let ghost gl = views(ls@);
    let mut out: Vec<Vec<char>> = vec![chars_of("RAM Information:")];
    let mut i: usize = 0;
    proof {
        reveal(Seq::filter);
        assert(gl.take(0) =~= seq![]);
    }
    assert(views(out@) =~= seq!["RAM Information:"@] + ram_body(gl.take(0)));
    while i < ls.len()
        invariant
            i <= ls.len(),
            gl == views(ls@),
            views(out@) == seq!["RAM Information:"@] + ram_body(gl.take(i as int)),
        decreases ls.len() - i,
    {
        let l = &ls[i];
        assert(l@ == gl[i as int]);
        proof {
            reveal(Seq::filter);
            assert(gl.take(i + 1).drop_last() =~= gl.take(i as int));
        }
        let ghost prev = views(out@);
        match find_char(l, ':') {
            None => {
                assert(ram_body(gl.take(i + 1)) =~= ram_body(gl.take(i as int)));
            },
            Some(p) => {
                let (label, kb) = split_mem_line(l, p);
                let mut line = chars_of("  ");
                push_all(&mut line, &label);
                push_str(&mut line, ": ");
                push_mb(&mut line, kb);
                push_str(&mut line, " MB");
                assert(line@ =~= ram_line(gl[i as int]));
                out.push(line);
                assert(ram_body(gl.take(i + 1)) =~= ram_body(gl.take(i as int)).push(
                    ram_line(gl[i as int]),
                ));
                assert(views(out@) =~= prev.push(ram_line(gl[i as int])));
            },
        }
        assert(views(out@) =~= seq!["RAM Information:"@] + ram_body(gl.take(i + 1)));
        i = i + 1;
    }
    out.push(Vec::new());
    assert(gl.take(i as int) =~= gl);
    assert(views(out@) =~= ram_report_of(gl));
    to_strings(&out)
}

/// Zero digits write zero.
pub proof fn lemma_zeros_value(n: nat)
    ensures
        digits_value(zeros(n)) == 0,
        all_digits(zeros(n)),
    decreases n,
{
    if n > 0 {
        assert(zeros(n).drop_last() =~= zeros((n - 1) as nat));
        lemma_zeros_value((n - 1) as nat);
    }
}

/// A memory line whose value is a decimal number of kilobytes `kb` prints its
/// trimmed label and `kb / 1024` megabytes rounded to two decimals: the
/// printed hundredths lie within half a hundredth of the exact quotient, and
/// zero kilobytes print as `0.00`.
pub proof fn law_megabytes(l: Seq<char>, kb: nat)
    requires
        l.contains(':'),
        first_word(trim(after_first(l, ':'))).len() > 0,
        all_digits(first_word(trim(after_first(l, ':')))),
        digits_value(first_word(trim(after_first(l, ':')))) == kb,
        kb <= u64::MAX,
    ensures
        ram_line(l) == "  "@ + trim(before_first(l, ':')) + ": "@ + mb_text(kb * 1_000_000)
            + " MB"@,
        mb_text(kb * 1_000_000) == decimal(hundredths(kb * 1_000_000) / 100) + seq![
            '.',
            digit_char((hundredths(kb * 1_000_000) % 100) / 10),
            digit_char(hundredths(kb * 1_000_000) % 10),
        ],
        -512 <= 1024 * hundredths(kb * 1_000_000) - 100 * kb <= 512,
        mb_text(0) == "0.00"@,
{
    let tok = first_word(trim(after_first(l, ':')));
    if tok.contains('.') {
        let i = choose|i: int| 0 <= i < tok.len() && tok[i] == '.';
        assert(is_digit(tok[i]));
    }
    lemma_zeros_value(6);
    assert(six_digits(seq![]) =~= zeros(6));
    assert(kb_millionths(tok) == kb * 1_000_000);
    let m = kb * 1_000_000;
    let n = m * 25;
    let q0 = (kb * 25) / 256;
    let r0 = (kb * 25) % 256;
    assert(kb * 25 == q0 * 256 + r0 && 0 <= r0 < 256) by (nonlinear_arith)
        requires
            q0 == (kb * 25) / 256,
            r0 == (kb * 25) % 256,
    ;
    assert(n == q0 * 256_000_000 + r0 * 1_000_000) by (nonlinear_arith)
        requires
            kb * 25 == q0 * 256 + r0,
            n == kb * 1_000_000 * 25,
    ;
    vstd::arithmetic::div_mod::lemma_fundamental_div_mod_converse_div(
        n as int,
        256_000_000,
        q0 as int,
        (r0 * 1_000_000) as int,
    );
    vstd::arithmetic::div_mod::lemma_fundamental_div_mod_converse_mod(
        n as int,
        256_000_000,
        q0 as int,
        (r0 * 1_000_000) as int,
    );
    let h = hundredths(m);
    assert(h == q0 || h == q0 + 1);
    assert(h == q0 ==> r0 <= 128);
    assert(h == q0 + 1 ==> r0 >= 128);
    assert(100 * kb == 1024 * q0 + 4 * r0);
    assert(-512 <= 1024 * h - 100 * kb <= 512);
    assert(hundredths(0) == 0);
    assert(decimal(0) == seq!['0']);
    reveal_strlit("0.00");
    assert(mb_text(0) =~= "0.00"@);
}

/// More kilobytes never print fewer megabytes.
pub proof fn law_megabytes_monotone(a: nat, b: nat)
    requires
        a <= b,
    ensures
        hundredths(a) <= hundredths(b),
        capped(a) <= capped(b),
{
    let d: int = 256_000_000;
    let na: int = (a * 25) as int;
    let nb: int = (b * 25) as int;
    let qa: int = na / d;
    let qb: int = nb / d;
    let ra: int = na % d;
    let rb: int = nb % d;
    vstd::arithmetic::div_mod::lemma_div_is_ordered(na, nb, d);
    assert(na == qa * d + ra && nb == qb * d + rb && 0 <= ra < d && 0 <= rb < d)
        by (nonlinear_arith)
        requires
            d == 256_000_000,
            qa == na / d,
            qb == nb / d,
            ra == na % d,
            rb == nb % d,
    ;
    if qa == qb {
        assert(ra <= rb) by (nonlinear_arith)
            requires
                na <= nb,
                na == qa * d + ra,
                nb == qb * d + rb,
                qa == qb,
        ;
    }
}

} // verus!
