//! Command-line selection of the reports, and the whole output of a run.
use vstd::prelude::*;
use crate::cpu::{cpu_lines, cpu_report, cpu_report_of, cpu_well_formed};
use crate::gpu::{gpu_report, gpu_report_of, utf8_lossy};
use crate::ram::{ram_lines, ram_report, ram_report_of};
use crate::text::{chars_of, string_views, to_strings, views};
use crate::ReportError;

verus! {

/// Which reports a run makes, from its first argument.
#[derive(Clone, Copy, Debug, PartialEq, Eq, Structural)]
pub enum Selection {
    All,
    CpuOnly,
    RamOnly,
    GpuOnly,
    Invalid,
}

/// One report.
#[derive(Clone, Copy, Debug, PartialEq, Eq, Structural)]
pub enum Section {
    Cpu,
    Ram,
    Gpu,
}

/// The selection that the arguments after the program name make; only the
/// first is read.
pub open spec fn selection_of(args: Seq<Seq<char>>) -> Selection {
    if args.len() == 0 {
        Selection::All
    } else if args[0] == "-cpu"@ {
        Selection::CpuOnly
    } else if args[0] == "-ram"@ {
        Selection::RamOnly
    } else if args[0] == "-gpu"@ {
        Selection::GpuOnly
    } else {
        Selection::Invalid
    }
}

/// The reports of a selection, in the order they are made.
pub open spec fn sections_of(sel: Selection) -> Seq<Section> {
    match sel {
        Selection::All => seq![Section::Cpu, Section::Ram, Section::Gpu],
        Selection::CpuOnly => seq![Section::Cpu],
        Selection::RamOnly => seq![Section::Ram],
        Selection::GpuOnly => seq![Section::Gpu],
        Selection::Invalid => seq![],
    }
}

/// The lines printed before a run of every report.
pub open spec fn usage_hint() -> Seq<Seq<char>> {
    seq![
        "No argument provided, displaying all system information."@,
        "If you wanna, use: sysinfo [-cpu | -ram | -gpu]"@,
        seq![],
    ]
}

/// The line printed for an unknown option.
pub open spec fn invalid_message() -> Seq<char> {
    "Invalid option. Usage: sysinfo [-cpu | -ram | -gpu]"@
}

/// The lines printed before any report.
pub open spec fn banner_of(sel: Selection) -> Seq<Seq<char>> {
    match sel {
        Selection::All => usage_hint(),
        Selection::Invalid => seq![invalid_message()],
        _ => seq![],
    }
}

/// The output of one report on the given sources, or `None` where it fails.
pub open spec fn section_of(
    s: Section,
    cpuinfo: Seq<char>,
    meminfo: Seq<char>,
    lspci: Seq<u8>,
) -> Option<Seq<Seq<char>>> {
    match s {
        Section::Cpu => if cpu_well_formed(cpu_lines(cpuinfo)) {
            Some(cpu_report_of(cpu_lines(cpuinfo)))
        } else {
            None
        },
        Section::Ram => Some(ram_report_of(ram_lines(meminfo))),
        Section::Gpu => Some(gpu_report_of(utf8_lossy(lspci))),
    }
}

/// The outcome of a report as a value: its lines, or `None` where it failed.
pub open spec fn outcome_view(r: Result<Vec<String>, ReportError>) -> Option<Seq<Seq<char>>> {
    match r {
        Ok(v) => Some(string_views(v@)),
        Err(_) => None,
    }
}

/// The outcomes of a list of reports as values.
pub open spec fn outcome_views(v: Seq<Result<Vec<String>, ReportError>>) -> Seq<
    Option<Seq<Seq<char>>>,
> {
    v.map_values(|r: Result<Vec<String>, ReportError>| outcome_view(r))
}

/// The outcome of each report of `sel` on the given sources, in the order
/// the reports are made; a failing report leaves the others as they are.
pub open spec fn report_of(
    sel: Selection,
    cpuinfo: Seq<char>,
    meminfo: Seq<char>,
    lspci: Seq<u8>,
) -> Seq<Option<Seq<Seq<char>>>> {
    sections_of(sel).map_values(|s: Section| section_of(s, cpuinfo, meminfo, lspci))
}

/// Whether `a` and `b` hold the same characters.
fn same_chars(a: &Vec<char>, b: &Vec<char>) -> (r: bool)
    ensures
        r == (a@ == b@),
{
    if a.len() != b.len() {
        return false;
    }
    let mut i: usize = 0;
    while i < a.len()
        invariant
            i <= a.len() == b.len(),
            forall|j: int| 0 <= j < i ==> a@[j] == b@[j],
        decreases a.len() - i,
    {
        if a[i] != b[i] {
            return false;
        }
        i = i + 1;
    }
    assert(a@ =~= b@);
    true
}

/// The selection that `args`, the arguments after the program name, make.
pub fn parse_selection(args: &[String]) -> (r: Selection)
    ensures
        r == selection_of(args@.map_values(|a: String| a@)),
{
    let ghost av = args@.map_values(|a: String| a@);
    if args.len() == 0 {
        return Selection::All;
    }
    let first = chars_of(args[0].as_str());
    assert(first@ == av[0]);
    if same_chars(&first, &chars_of("-cpu")) {
        Selection::CpuOnly
    } else if same_chars(&first, &chars_of("-ram")) {
        Selection::RamOnly
    } else if same_chars(&first, &chars_of("-gpu")) {
        Selection::GpuOnly
    } else {
        Selection::Invalid
    }
}

/// The reports of `sel`, in the order they are made.
pub fn sections(sel: Selection) -> (r: Vec<Section>)
    ensures
        r@ == sections_of(sel),
{
    let r = match sel {
        Selection::All => vec![Section::Cpu, Section::Ram, Section::Gpu],
        Selection::CpuOnly => vec![Section::Cpu],
        Selection::RamOnly => vec![Section::Ram],
        Selection::GpuOnly => vec![Section::Gpu],
        Selection::Invalid => Vec::new(),
    };
    assert(r@ =~= sections_of(sel));
    r
}

/// The lines printed before any report of `sel`.
pub fn banner(sel: Selection) -> (r: Vec<String>)
    ensures
        string_views(r@) == banner_of(sel),
{
    let v: Vec<Vec<char>> = match sel {
        Selection::All => vec![
            chars_of("No argument provided, displaying all system information."),
            chars_of("If you wanna, use: sysinfo [-cpu | -ram | -gpu]"),
            Vec::new(),
        ],
        Selection::Invalid => vec![
            chars_of("Invalid option. Usage: sysinfo [-cpu | -ram | -gpu]"),
        ],
        _ => Vec::new(),
    };
    assert(views(v@) =~= banner_of(sel));
    to_strings(&v)
}

/// The output of report `s` on the given sources.
pub fn section_report(s: Section, cpuinfo: &str, meminfo: &str, lspci: &[u8]) -> (r: Result<
    Vec<String>,
    ReportError,
>)
    ensures
        r matches Ok(v) ==> section_of(s, cpuinfo@, meminfo@, lspci@) == Some(string_views(v@)),
        r is Err <==> section_of(s, cpuinfo@, meminfo@, lspci@) is None,
{
    match s {
        Section::Cpu => cpu_report(cpuinfo),
        Section::Ram => Ok(ram_report(meminfo)),
        Section::Gpu => Ok(gpu_report(lspci)),
    }
}

/// The outcome of each report of `sel` on the given sources, in order. A
/// report that fails gives its error in its place, and the reports after it
/// are still made.
pub fn report(sel: Selection, cpuinfo: &str, meminfo: &str, lspci: &[u8]) -> (r: Vec<
    Result<Vec<String>, ReportError>,
>)
    ensures
        outcome_views(r@) == report_of(sel, cpuinfo@, meminfo@, lspci@),
{
    let secs = sections(sel);
    let mut out: Vec<Result<Vec<String>, ReportError>> = Vec::new();
    let mut i: usize = 0;
    while i < secs.len()
        invariant
            i <= secs.len(),
            secs@ == sections_of(sel),
            outcome_views(out@) == report_of(sel, cpuinfo@, meminfo@, lspci@).take(i as int),
        decreases secs.len() - i,
    {
        let ghost prev = outcome_views(out@);
        let part = section_report(secs[i], cpuinfo, meminfo, lspci);
        assert(outcome_view(part) == section_of(secs@[i as int], cpuinfo@, meminfo@, lspci@));
        out.push(part);
        assert(outcome_views(out@) =~= prev.push(outcome_view(part)));
        i = i + 1;
        assert(outcome_views(out@) =~= report_of(sel, cpuinfo@, meminfo@, lspci@).take(i as int));
    }
    assert(report_of(sel, cpuinfo@, meminfo@, lspci@).take(i as int) =~= report_of(
        sel,
        cpuinfo@,
        meminfo@,
        lspci@,
    ));
    out
}

/// Without arguments a run prints the usage hint, then makes exactly the
/// reports of the three single-report runs, processor, memory, adapters, in
/// that order, each with the same outcome; a single-report run prints no hint.
pub proof fn law_all_is_each_in_turn(cpuinfo: Seq<char>, meminfo: Seq<char>, lspci: Seq<u8>)
    ensures
        selection_of(seq![]) == Selection::All,
        banner_of(Selection::All) == usage_hint(),
        banner_of(Selection::CpuOnly) == Seq::<Seq<char>>::empty(),
        banner_of(Selection::RamOnly) == Seq::<Seq<char>>::empty(),
        banner_of(Selection::GpuOnly) == Seq::<Seq<char>>::empty(),
        report_of(Selection::All, cpuinfo, meminfo, lspci) == report_of(
            Selection::CpuOnly,
            cpuinfo,
            meminfo,
            lspci,
        ) + report_of(Selection::RamOnly, cpuinfo, meminfo, lspci) + report_of(
            Selection::GpuOnly,
            cpuinfo,
            meminfo,
            lspci,
        ),
{
    assert(report_of(Selection::All, cpuinfo, meminfo, lspci) =~= report_of(
        Selection::CpuOnly,
        cpuinfo,
        meminfo,
        lspci,
    ) + report_of(Selection::RamOnly, cpuinfo, meminfo, lspci) + report_of(
        Selection::GpuOnly,
        cpuinfo,
        meminfo,
        lspci,
    ));
}

/// A run whose first argument is none of the three options prints the
/// invalid-option message only and makes no report, whatever the sources hold.
pub proof fn law_invalid_option(
    args: Seq<Seq<char>>,
    cpuinfo: Seq<char>,
    meminfo: Seq<char>,
    lspci: Seq<u8>,
)
    requires
        args.len() > 0,
        args[0] != "-cpu"@,
        args[0] != "-ram"@,
        args[0] != "-gpu"@,
    ensures
        selection_of(args) == Selection::Invalid,
        banner_of(selection_of(args)) == seq![invalid_message()],
        report_of(selection_of(args), cpuinfo, meminfo, lspci).len() == 0,
{
}

} // verus!
