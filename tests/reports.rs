use sysinfo::cpu::cpu_report;
use sysinfo::dispatch::{banner, parse_selection, report, section_report, sections, Section, Selection};
use sysinfo::extract::select_lines;
use sysinfo::gpu::{gpu_report, gpu_report_text};
use sysinfo::ram::{format_mb, parse_kb_millionths, parse_mem_line, ram_report, MemEntry};
use sysinfo::ReportError;

const CPUINFO: &str = "processor\t: 0\n\
vendor_id\t: GenuineIntel\n\
model name\t: Intel(R) Core(TM) i7-8550U CPU @ 1.80GHz\n\
cpu MHz\t\t: 1992.000\n\
cache size\t: 8192 KB\n\
\n\
processor\t: 1\n\
vendor_id\t: GenuineIntel\n\
model name\t: Intel(R) Core(TM) i7-8550U CPU @ 1.80GHz\n\
cpu MHz\t\t: 2100.512\n\
\n\
processor\t: 2\n\
model name\t: Intel(R) Core(TM) i7-8550U CPU @ 1.80GHz\n\
cpu MHz\t\t: 800.000\n";

const MEMINFO: &str = "MemTotal:       16384 kB\n\
MemFree:         1000 kB\n\
MemAvailable:    8000 kB\n\
Buffers:          300 kB\n\
Cached:          4000 kB\n\
SwapCached:         0 kB\n\
SwapTotal:      2048000 kB\n\
SwapFree:           0 kB\n";

const LSPCI: &str = "00:00.0 Host bridge: Intel Corporation Device 5914 (rev 08)\n\
\tSubsystem: Dell Device 07e6\n\
00:02.0 VGA compatible controller: Intel Corporation UHD Graphics 620 (rev 07) (prog-if 00 [VGA controller])\n\
\tFlags: bus master, fast devsel, latency 0, IRQ 127\n\
01:00.0 3D controller: NVIDIA Corporation GP108M [GeForce MX150] (rev a1)   \n\
\tKernel driver in use: nouveau\n";

fn strings(v: &[&str]) -> Vec<String> {
    v.iter().map(|s| s.to_string()).collect()
}

#[test]
fn cpu_report_names_model_once_and_numbers_cores() {
    let r = cpu_report(CPUINFO).unwrap();
    assert_eq!(
        r,
        strings(&[
            "CPU Information:",
            "  Cpu: Intel(R) Core(TM) i7-8550U CPU @ 1.80GHz",
            "  Core 1: 1992.000 MHz",
            "  Core 2: 2100.512 MHz",
            "  Core 3: 800.000 MHz",
            "",
        ])
    );
}

#[test]
fn cpu_report_of_empty_text_has_header_and_blank_line() {
    assert_eq!(cpu_report("").unwrap(), strings(&["CPU Information:", ""]));
}

#[test]
fn cpu_report_counts_ten_cores() {
    let mut text = String::new();
    for i in 0..10 {
        text.push_str("model name : X\n");
        text.push_str(&format!("cpu MHz : {}\n", 1000 + i));
    }
    let r = cpu_report(&text).unwrap();
    assert_eq!(r.len(), 13);
    assert_eq!(r[1], "  Cpu: X");
    assert_eq!(r[11], "  Core 10: 1009 MHz");
    assert_eq!(r.iter().filter(|l| l.starts_with("  Cpu:")).count(), 1);
}

#[test]
fn cpu_report_fails_on_model_line_without_colon() {
    let r = cpu_report("model name Intel\ncpu MHz : 1.0\n");
    assert_eq!(r, Err(ReportError::MalformedLine("model name Intel".to_string())));
}

#[test]
fn cpu_report_fails_on_clock_line_without_colon() {
    let r = cpu_report("model name : A\ncpu MHz 1.0\n");
    assert_eq!(r, Err(ReportError::MalformedLine("cpu MHz 1.0".to_string())));
}

#[test]
fn cpu_report_ignores_later_model_lines_even_without_colon() {
    let r = cpu_report("model name : A\ncpu MHz : 5\nmodel name B\n").unwrap();
    assert_eq!(r, strings(&["CPU Information:", "  Cpu: A", "  Core 1: 5 MHz", ""]));
}

#[test]
fn cpu_report_never_counts_a_model_line_as_a_core() {
    let r = cpu_report("model name : A\ncpu MHz : 1\nmodel name cpu MHz : B\ncpu MHz : 2\n").unwrap();
    assert_eq!(r, strings(&["CPU Information:", "  Cpu: A", "  Core 1: 1 MHz", "  Core 2: 2 MHz", ""]));
    let first = cpu_report("model name cpu MHz : A\ncpu MHz : 3\n").unwrap();
    assert_eq!(first, strings(&["CPU Information:", "  Cpu: A", "  Core 1: 3 MHz", ""]));
}

#[test]
fn cpu_report_value_keeps_later_colons() {
    let r = cpu_report("model name : A: B \r\n").unwrap();
    assert_eq!(r, strings(&["CPU Information:", "  Cpu: A: B", ""]));
}

#[test]
fn ram_report_converts_each_total() {
    let r = ram_report(MEMINFO);
    assert_eq!(
        r,
        strings(&[
            "RAM Information:",
            "  MemTotal: 16.00 MB",
            "  MemFree: 0.98 MB",
            "  MemAvailable: 7.81 MB",
            "  SwapTotal: 2000.00 MB",
            "  SwapFree: 0.00 MB",
            "",
        ])
    );
}

#[test]
fn ram_report_treats_bad_values_as_zero_and_skips_lines_without_colon() {
    let r = ram_report("MemTotal: abc kB\nMemFree:\nSwapTotal 12 kB\nMemAvailable: 1024x kB\n");
    assert_eq!(
        r,
        strings(&["RAM Information:", "  MemTotal: 0.00 MB", "  MemFree: 0.00 MB", "  MemAvailable: 0.00 MB", ""])
    );
}

#[test]
fn ram_report_keeps_file_order() {
    let r = ram_report("SwapFree: 1024 kB\nMemTotal: 2048 kB\n");
    assert_eq!(r, strings(&["RAM Information:", "  SwapFree: 1.00 MB", "  MemTotal: 2.00 MB", ""]));
}

#[test]
fn mem_line_round_trip() {
    let e = parse_mem_line("MemTotal:      16384 kB").unwrap();
    assert_eq!(e, MemEntry { label: "MemTotal".to_string(), kb_millionths: 16_384_000_000 });
    assert_eq!(format!("{} MB", format_mb(e.kb_millionths)), "16.00 MB");
}

#[test]
fn mem_line_without_colon_is_none() {
    assert_eq!(parse_mem_line("MemTotal 5 kB"), None);
}

#[test]
fn zero_kilobytes_is_zero_megabytes() {
    assert_eq!(format_mb(0), "0.00");
    assert_eq!(ram_report("MemFree: 0 kB\n")[1], "  MemFree: 0.00 MB");
}

#[test]
fn megabytes_match_float_formatting() {
    let mut kbs: Vec<u64> = (0..20000).collect();
    kbs.extend([128, 384, 640, 1_000_000, 16_777_216, 123_456_789, 9_007_199_254_740_991]);
    for kb in kbs {
        assert_eq!(format_mb(kb as u128 * 1_000_000), format!("{:.2}", kb as f64 / 1024.0), "kb = {}", kb);
    }
}

#[test]
fn megabytes_of_largest_value() {
    assert_eq!(format_mb(u64::MAX as u128 * 1_000_000), "18014398509481984.00");
}

#[test]
fn kilobyte_tokens() {
    let c = |s: &str| s.chars().collect::<Vec<char>>();
    let max = u64::MAX as u128 * 1_000_000;
    assert_eq!(parse_kb_millionths(&c("16384")), 16_384_000_000);
    assert_eq!(parse_kb_millionths(&c("")), 0);
    assert_eq!(parse_kb_millionths(&c("12a")), 0);
    assert_eq!(parse_kb_millionths(&c("18446744073709551615")), max);
    assert_eq!(parse_kb_millionths(&c("18446744073709551616")), max);
    assert_eq!(parse_kb_millionths(&c("99999999999999999999999.5")), max + 500_000);
    assert_eq!(parse_kb_millionths(&c("1024.5")), 1_024_500_000);
    assert_eq!(parse_kb_millionths(&c(".5")), 500_000);
    assert_eq!(parse_kb_millionths(&c("7.")), 7_000_000);
    assert_eq!(parse_kb_millionths(&c("0.1234567")), 123_456);
    assert_eq!(parse_kb_millionths(&c(".")), 0);
    assert_eq!(parse_kb_millionths(&c("1.2.3")), 0);
    assert_eq!(parse_kb_millionths(&c("+5")), 0);
    assert_eq!(parse_kb_millionths(&c("1e3")), 0);
}

#[test]
fn fractional_kilobytes_match_float_formatting() {
    for tok in ["1024.5", "0.5", "1.25", "5119.875", "2047.75", "12.0625", "7.", ".5", "1536.25"] {
        let c: Vec<char> = tok.chars().collect();
        let f: f64 = tok.parse().unwrap();
        assert_eq!(format_mb(parse_kb_millionths(&c)), format!("{:.2}", f / 1024.0), "tok = {}", tok);
    }
}

#[test]
fn ram_report_reads_fractions_and_caps_huge_values() {
    let r = ram_report("MemTotal: 1024.5 kB\nSwapTotal: 99999999999999999999999 kB\n");
    assert_eq!(r[1], "  MemTotal: 1.00 MB");
    assert_eq!(r[2], format!("  SwapTotal: {} MB", format_mb(u64::MAX as u128 * 1_000_000)));
}

#[test]
fn larger_values_never_print_less() {
    let mut last = 0.0f64;
    for kb in ["1000", "18446744073709551615", "18446744073709551616", "99999999999999999999999"] {
        let line = ram_report(&format!("MemTotal: {} kB\n", kb))[1].clone();
        let v: f64 = line.trim_start_matches("  MemTotal: ").trim_end_matches(" MB").parse().unwrap();
        assert!(v >= last, "{}", line);
        last = v;
    }
}

#[test]
fn gpu_report_lists_adapters_trimmed_in_order() {
    let r = gpu_report_text(LSPCI);
    assert_eq!(
        r,
        strings(&[
            "GPU Information:",
            "  00:02.0 VGA compatible controller: Intel Corporation UHD Graphics 620 (rev 07) (prog-if 00 [VGA controller])",
            "  01:00.0 3D controller: NVIDIA Corporation GP108M [GeForce MX150] (rev a1)",
            "",
        ])
    );
}

#[test]
fn gpu_report_without_adapters_prints_notice_only() {
    let r = gpu_report_text("00:00.0 Host bridge: Intel\n");
    assert_eq!(r, strings(&["  No GPU Information found using lspci.", ""]));
    assert_eq!(gpu_report_text(""), strings(&["  No GPU Information found using lspci.", ""]));
}

#[test]
fn gpu_report_decodes_bytes_lossily() {
    let mut bytes = b"01:00.0 VGA \xff card\n".to_vec();
    bytes.extend_from_slice("02:00.0 3D caf\u{e9}\n".as_bytes());
    let r = gpu_report(&bytes);
    assert_eq!(
        r,
        strings(&["GPU Information:", "  01:00.0 VGA \u{fffd} card", "  02:00.0 3D caf\u{e9}", ""])
    );
}

#[test]
fn select_lines_keeps_matching_lines_verbatim() {
    let r = select_lines("  a key x\r\nnone\nkey2 \nlast key", &["key", "zzz"]);
    assert_eq!(r, strings(&["  a key x", "key2 ", "last key"]));
    assert_eq!(select_lines("abc\n", &[""]), strings(&["abc"]));
    assert_eq!(select_lines("abc\n\n", &["q"]), Vec::<String>::new());
}

#[test]
fn selection_from_arguments() {
    assert_eq!(parse_selection(&[]), Selection::All);
    assert_eq!(parse_selection(&strings(&["-cpu"])), Selection::CpuOnly);
    assert_eq!(parse_selection(&strings(&["-ram"])), Selection::RamOnly);
    assert_eq!(parse_selection(&strings(&["-gpu"])), Selection::GpuOnly);
    assert_eq!(parse_selection(&strings(&["-xyz"])), Selection::Invalid);
    assert_eq!(parse_selection(&strings(&["-gpu", "-cpu"])), Selection::GpuOnly);
    assert_eq!(parse_selection(&strings(&["cpu"])), Selection::Invalid);
}

#[test]
fn sections_in_fixed_order() {
    assert_eq!(sections(Selection::All), vec![Section::Cpu, Section::Ram, Section::Gpu]);
    assert_eq!(sections(Selection::RamOnly), vec![Section::Ram]);
    assert_eq!(sections(Selection::Invalid), Vec::<Section>::new());
}

#[test]
fn invalid_option_prints_message_only() {
    let sel = parse_selection(&strings(&["-xyz"]));
    assert_eq!(sel, Selection::Invalid);
    assert_eq!(banner(sel), strings(&["Invalid option. Usage: sysinfo [-cpu | -ram | -gpu]"]));
    assert!(report(sel, CPUINFO, MEMINFO, LSPCI.as_bytes()).is_empty());
}

#[test]
fn no_arguments_concatenates_the_three_reports() {
    assert_eq!(
        banner(Selection::All),
        strings(&[
            "No argument provided, displaying all system information.",
            "If you wanna, use: sysinfo [-cpu | -ram | -gpu]",
            "",
        ])
    );
    let all = report(Selection::All, CPUINFO, MEMINFO, LSPCI.as_bytes());
    let mut expected = Vec::new();
    for sel in [Selection::CpuOnly, Selection::RamOnly, Selection::GpuOnly] {
        assert!(banner(sel).is_empty());
        expected.extend(report(sel, CPUINFO, MEMINFO, LSPCI.as_bytes()));
    }
    assert_eq!(all, expected);
    assert_eq!(all[0], cpu_report(CPUINFO));
    assert_eq!(all[1], Ok(ram_report(MEMINFO)));
    assert_eq!(all[2], Ok(gpu_report(LSPCI.as_bytes())));
}

#[test]
fn a_failing_report_leaves_the_others() {
    let r = report(Selection::All, "model name X\n", MEMINFO, LSPCI.as_bytes());
    assert_eq!(r.len(), 3);
    assert_eq!(r[0], Err(ReportError::MalformedLine("model name X".to_string())));
    assert_eq!(r[1], Ok(ram_report(MEMINFO)));
    assert_eq!(r[2], Ok(gpu_report(LSPCI.as_bytes())));
    assert!(section_report(Section::Cpu, "model name X\n", "", b"").is_err());
}
