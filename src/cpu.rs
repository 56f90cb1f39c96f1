//! The processor report: the model name once, then the clock of every core.
use vstd::prelude::*;
use crate::extract::{matching_lines, selected};
use crate::text::{
    after_first, chars_of, contains, decimal, find_char, has_sub, lines_of, push_all,
    push_decimal, push_str, split_lines, text_then, to_strings, trim, trim_range, string_views,
    views,
};
use crate::ReportError;

verus! {

/// The keywords that pick the processor lines.
pub open spec fn cpu_keywords() -> Seq<Seq<char>> {
    seq!["model name"@, "cpu MHz"@]
}

/// The lines of a processor information text that the report reads.
pub open spec fn cpu_lines(text: Seq<char>) -> Seq<Seq<char>> {
    selected(lines_of(text), cpu_keywords())
}

/// Line `l` names the processor model.
pub open spec fn is_model(l: Seq<char>) -> bool {
    has_sub(l, "model name"@)
}

/// Line `l` gives a core clock.
pub open spec fn is_mhz(l: Seq<char>) -> bool {
    has_sub(l, "cpu MHz"@)
}

/// Some line of `ls` names the model.
pub open spec fn any_model(ls: Seq<Seq<char>>) -> bool {
    exists|j: int| 0 <= j < ls.len() && #[trigger] is_model(ls[j])
}

/// Line `i` of `ls` is the first that names the model: it gives the processor name.
pub open spec fn names_cpu(ls: Seq<Seq<char>>, i: int) -> bool {
    is_model(ls[i]) && !any_model(ls.take(i))
}

/// Line `i` of `ls` gives the clock of a core: a model line never does.
pub open spec fn counts_core(ls: Seq<Seq<char>>, i: int) -> bool {
    !is_model(ls[i]) && is_mhz(ls[i])
}

/// Line `i` of `ls` is printed in some form.
pub open spec fn is_used(ls: Seq<Seq<char>>, i: int) -> bool {
    names_cpu(ls, i) || counts_core(ls, i)
}

/// Every printed line has a colon that separates its label from its value.
pub open spec fn cpu_well_formed(ls: Seq<Seq<char>>) -> bool {
    forall|i: int| 0 <= i < ls.len() && #[trigger] is_used(ls, i) ==> ls[i].contains(':')
}

/// The number of core lines among the first `n` lines of `ls`.
pub open spec fn core_count(ls: Seq<Seq<char>>, n: int) -> nat
    decreases n,
{
    if n <= 0 {
        0
    } else {
        core_count(ls, n - 1) + if counts_core(ls, n - 1) {
            1nat
        } else {
            0nat
        }
    }
}

/// The value of a `label: value` line, trimmed.
pub open spec fn field(l: Seq<char>) -> Seq<char> {
    trim(after_first(l, ':'))
}

/// The printed processor name.
pub open spec fn name_line(v: Seq<char>) -> Seq<char> {
    "  Cpu: "@ + v
}

/// The printed clock of core `k`.
pub open spec fn core_line(k: nat, v: Seq<char>) -> Seq<char> {
    "  Core "@ + decimal(k) + ": "@ + v + " MHz"@
}

/// The printed lines for the first `n` lines of `ls`.
pub open spec fn cpu_body(ls: Seq<Seq<char>>, n: int) -> Seq<Seq<char>>
    decreases n,
{
    if n <= 0 {
        seq![]
    } else {
        let prev = cpu_body(ls, n - 1);
        if names_cpu(ls, n - 1) {
            prev.push(name_line(field(ls[n - 1])))
        } else if counts_core(ls, n - 1) {
            prev.push(core_line(core_count(ls, n - 1) + 1, field(ls[n - 1])))
        } else {
            prev
        }
    }
}

/// The processor report for the selected lines `ls`: a header, the body, a blank line.
pub open spec fn cpu_report_of(ls: Seq<Seq<char>>) -> Seq<Seq<char>> {
    seq!["CPU Information:"@] + cpu_body(ls, ls.len() as int) + seq![seq![]]
}

/// Line `i` is the first printed line of `ls` that lacks a colon.
pub open spec fn first_malformed(ls: Seq<Seq<char>>, i: int) -> bool {
    0 <= i < ls.len() && is_used(ls, i) && !ls[i].contains(':') && forall|j: int|
        0 <= j < i && #[trigger] is_used(ls, j) ==> ls[j].contains(':')
}

/// The processor report of a processor information text (`/proc/cpuinfo`).
/// It fails on the first printed line that has no colon.
pub fn cpu_report(cpuinfo: &str) -> (r: Result<Vec<String>, ReportError>)
    ensures
        r matches Ok(v) ==> cpu_well_formed(cpu_lines(cpuinfo@)) && string_views(v@)
            == cpu_report_of(cpu_lines(cpuinfo@)),
        r matches Err(e) ==> !cpu_well_formed(cpu_lines(cpuinfo@)) && exists|i: int|
            first_malformed(cpu_lines(cpuinfo@), i) && e.line_view()
                == cpu_lines(cpuinfo@)[i],
        r is Ok <==> cpu_well_formed(cpu_lines(cpuinfo@)),
{
    let model = chars_of("model name");
    let mhz = chars_of("cpu MHz");
    let kws = vec![chars_of("model name"), chars_of("cpu MHz")];
    assert(views(kws@) =~= cpu_keywords());
    let ls = matching_lines(&split_lines(&chars_of(cpuinfo)), &kws);
    let ghost gl = views(ls@);
    assert(gl == cpu_lines(cpuinfo@));
    let mut out: Vec<Vec<char>> = vec![chars_of("CPU Information:")];
    let mut named = false;
    let mut cores: u64 = 0;
    let mut i: usize = 0;
    assert(views(out@) =~= seq!["CPU Information:"@] + cpu_body(gl, 0));
    while i < ls.len()
        invariant
            i <= ls.len(),
            gl == views(ls@),
            gl == cpu_lines(cpuinfo@),
            model@ == "model name"@,
            mhz@ == "cpu MHz"@,
            named == any_model(gl.take(i as int)),
            cores == core_count(gl, i as int),
            cores <= i,
            views(out@) == seq!["CPU Information:"@] + cpu_body(gl, i as int),
            forall|j: int| 0 <= j < i && #[trigger] is_used(gl, j) ==> gl[j].contains(':'),
        decreases ls.len() - i,
    {
        let l = &ls[i];
        assert(l@ == gl[i as int]);
        assert(gl.take(i + 1) =~= gl.take(i as int).push(gl[i as int]));
        let m = contains(l, &model);
        proof {
            if any_model(gl.take(i + 1)) && !any_model(gl.take(i as int)) {
                let j = choose|j: int| 0 <= j < i + 1 && #[trigger] is_model(gl.take(i + 1)[j]);
                assert(j == i) by {
                    if j < i {
                        assert(is_model(gl.take(i as int)[j]));
                    }
                }
            }
            if any_model(gl.take(i as int)) {
                let j = choose|j: int| 0 <= j < i && #[trigger] is_model(gl.take(i as int)[j]);
                assert(is_model(gl.take(i + 1)[j]));
            }
            if m {
                assert(is_model(gl.take(i + 1)[i as int]));
            }
        }
        let ghost prev = views(out@);
        if m && !named {
            match find_char(l, ':') {
                None => {
                    assert(first_malformed(gl, i as int));
                    return Err(ReportError::MalformedLine(crate::text::string_of(l.as_slice())));
                },
                Some(p) => {
                    assert(p < l.len());
                    let v = trim_range(l, p + 1, l.len());
                    assert(l@.subrange(p + 1, l@.len() as int) =~= after_first(l@, ':'));
                    let line = text_then("  Cpu: ", &v);
                    assert(line@ == name_line(field(gl[i as int])));
                    out.push(line);
                    assert(names_cpu(gl, i as int));
                    assert(views(out@) =~= prev.push(name_line(field(gl[i as int]))));
                    named = true;
                },
            }
        } else if !m && contains(l, &mhz) {
            assert(counts_core(gl, i as int));
            assert(is_used(gl, i as int));
            match find_char(l, ':') {
                None => {
                    assert(first_malformed(gl, i as int));
                    return Err(ReportError::MalformedLine(crate::text::string_of(l.as_slice())));
                },
                Some(p) => {
                    assert(p < l.len());
                    let v = trim_range(l, p + 1, l.len());
                    assert(l@.subrange(p + 1, l@.len() as int) =~= after_first(l@, ':'));
                    let mut line = chars_of("  Core ");
                    push_decimal(&mut line, cores + 1);
                    push_str(&mut line, ": ");
                    push_all(&mut line, &v);
                    push_str(&mut line, " MHz");
                    assert(line@ =~= core_line(core_count(gl, i as int) + 1, field(gl[i as int])));
                    out.push(line);
                    assert(views(out@) =~= prev.push(
                        core_line(core_count(gl, i as int) + 1, field(gl[i as int])),
                    ));
                    cores = cores + 1;
                },
            }
        } else {
            assert(!is_used(gl, i as int));
        }
        assert(views(out@) =~= seq!["CPU Information:"@] + cpu_body(gl, i + 1));
        i = i + 1;
    }
    out.push(Vec::new());
    assert(gl.take(i as int) =~= gl);
    assert(views(out@) =~= cpu_report_of(gl));
    Ok(to_strings(&out))
}

/// The clock lines of the first `j` blocks of `ls`.
pub open spec fn block_cores(ls: Seq<Seq<char>>, j: nat) -> Seq<Seq<char>> {
    Seq::new(j, |k: int| core_line((k + 1) as nat, field(ls[2 * k + 1])))
}

/// `ls` is `n` blocks, each a model line then a clock line, all with colons.
pub open spec fn in_blocks(ls: Seq<Seq<char>>, n: nat) -> bool {
    &&& ls.len() == 2 * n
    &&& forall|k: int|
        0 <= k < n ==> is_model(#[trigger] ls[2 * k]) && ls[2 * k].contains(':')
    &&& forall|k: int|
        0 <= k < n ==> is_mhz(#[trigger] ls[2 * k + 1]) && !is_model(ls[2 * k + 1]) && ls[2 * k
            + 1].contains(':')
}

proof fn lemma_blocks_prefix(ls: Seq<Seq<char>>, n: nat, j: nat)
    requires
        in_blocks(ls, n),
        1 <= j <= n,
    ensures
        any_model(ls.take(2 * (j as int))),
        core_count(ls, 2 * (j as int)) == j,
        cpu_body(ls, 2 * (j as int)) == seq![name_line(field(ls[0]))] + block_cores(ls, j),
        forall|i: int| 0 <= i < 2 * j && #[trigger] is_used(ls, i) ==> ls[i].contains(':'),
    decreases j,
{
    if j == 1 {
        assert(ls[0] == ls[2 * (0 as int)]);
        assert(ls[1] == ls[2 * (0 as int) + 1]);
        assert(ls.take(0) =~= seq![]);
        assert(names_cpu(ls, 0));
        assert(is_model(ls.take(1)[0]));
        assert(is_model(ls.take(2)[0]));
        assert(!names_cpu(ls, 1));
        assert(counts_core(ls, 1));
        assert(cpu_body(ls, 0) == Seq::<Seq<char>>::empty());
        assert(core_count(ls, 0) == 0);
        assert(core_count(ls, 1) == 0);
        assert(core_count(ls, 2) == 1);
        assert(cpu_body(ls, 1) =~= seq![name_line(field(ls[0]))]);
        assert(cpu_body(ls, 2) == cpu_body(ls, 1).push(core_line(1, field(ls[1]))));
        assert(block_cores(ls, 1)[0] == core_line(1, field(ls[1])));
        assert(cpu_body(ls, 2) =~= seq![name_line(field(ls[0]))] + block_cores(ls, 1));
    } else {
        let p = (j - 1) as nat;
        lemma_blocks_prefix(ls, n, p);
        let a: int = 2 * (p as int);
        assert(ls[a] == ls[2 * (p as int)]);
        assert(ls[a + 1] == ls[2 * (p as int) + 1]);
        let w = choose|w: int| 0 <= w < a && #[trigger] is_model(ls.take(a)[w]);
        assert(is_model(ls.take(a + 1)[w]));
        assert(is_model(ls.take(a + 2)[w]));
        assert(!names_cpu(ls, a));
        assert(!counts_core(ls, a));
        assert(!names_cpu(ls, a + 1));
        assert(counts_core(ls, a + 1));
        assert(core_count(ls, a + 1) == p);
        assert(core_count(ls, a + 2) == j);
        assert(cpu_body(ls, a + 1) == cpu_body(ls, a));
        assert(cpu_body(ls, a + 2) == cpu_body(ls, a).push(core_line(j, field(ls[a + 1]))));
        assert(block_cores(ls, j) =~= block_cores(ls, p).push(core_line(j, field(ls[a + 1]))));
        assert(cpu_body(ls, a + 2) =~= seq![name_line(field(ls[0]))] + block_cores(ls, j));
    }
}

/// A processor text whose selected lines are `n >= 1` blocks, each a model
/// line then a clock line, all with colons, prints the model name once and
/// then `n` clock lines labelled `Core 1` to `Core n` in text order.
pub proof fn law_cpu_blocks(text: Seq<char>, n: nat)
    requires
        n >= 1,
        in_blocks(cpu_lines(text), n),
    ensures
        cpu_well_formed(cpu_lines(text)),
        cpu_report_of(cpu_lines(text)) == seq![
            "CPU Information:"@,
            name_line(field(cpu_lines(text)[0])),
        ] + block_cores(cpu_lines(text), n) + seq![seq![]],
{
    let ls = cpu_lines(text);
    lemma_blocks_prefix(ls, n, n);
    assert(cpu_report_of(ls) =~= seq!["CPU Information:"@, name_line(field(ls[0]))]
        + block_cores(ls, n) + seq![seq![]]);
}

} // verus!
