//! The display adapter report: the lines of a PCI listing that mention a
//! VGA or 3D controller.
use vstd::prelude::*;
use vstd::utf8::{decode_utf8, valid_utf8};
use crate::extract::{lemma_filter_positions, matching_lines, mentions, selected};
use crate::text::{
    chars_of, has_sub, lemma_keyword_in_lines, lines_of, split_lines, string_views, text_then, to_strings, trim, trim_all, views,
};

verus! {

/// The text that lossy UTF-8 decoding makes of `b`.
pub uninterp spec fn utf8_lossy(b: Seq<u8>) -> Seq<char>;

/// Relies on `String::from_utf8_lossy`: the text depends on the bytes alone,
/// and bytes that are valid UTF-8 decode to exactly their characters.
#[verifier::external_body]
fn decode_lossy(b: &[u8]) -> (r: String)
    ensures
        r@ == utf8_lossy(b@),
        valid_utf8(b@) ==> r@ == decode_utf8(b@),
{
    String::from_utf8_lossy(b).into_owned()
}

/// The keywords that mark a display adapter.
pub open spec fn gpu_keywords() -> Seq<Seq<char>> {
    seq!["VGA"@, "3D"@]
}

/// The lines of a PCI listing that name a display adapter, in order.
pub open spec fn adapter_lines(text: Seq<char>) -> Seq<Seq<char>> {
    selected(lines_of(text), gpu_keywords())
}

/// The printed form of an adapter line.
pub open spec fn adapter_line(l: Seq<char>) -> Seq<char> {
    "  "@ + trim(l)
}

/// The printed lines for the adapters `a`.
pub open spec fn adapter_body(a: Seq<Seq<char>>) -> Seq<Seq<char>> {
    a.map_values(|l: Seq<char>| adapter_line(l))
}

/// The notice printed when no adapter is listed.
pub open spec fn no_gpu_notice() -> Seq<char> {
    "  No GPU Information found using lspci."@
}

/// The adapter report of the listing `text`.
pub open spec fn gpu_report_of(text: Seq<char>) -> Seq<Seq<char>> {
    let a = adapter_lines(text);
    if a.len() == 0 {
        seq![no_gpu_notice(), seq![]]
    } else {
        seq!["GPU Information:"@] + adapter_body(a) + seq![seq![]]
    }
}

/// The adapter report of a PCI listing given as text.
pub fn gpu_report_text(listing: &str) -> (r: Vec<String>)
    ensures
        string_views(r@) == gpu_report_of(listing@),
{
    let kws = vec![chars_of("VGA"), chars_of("3D")];
    assert(views(kws@) =~= gpu_keywords());
    let ls = matching_lines(&split_lines(&chars_of(listing)), &kws);
    let ghost gl = views(ls@);
    if ls.len() == 0 {
        let out = vec![chars_of("  No GPU Information found using lspci."), Vec::new()];
        assert(views(out@) =~= gpu_report_of(listing@));
        return to_strings(&out);
    }
    let mut out: Vec<Vec<char>> = vec![chars_of("GPU Information:")];
    let mut i: usize = 0;
    assert(views(out@) =~= seq!["GPU Information:"@] + adapter_body(gl.take(0)));
    while i < ls.len()
        invariant
            i <= ls.len(),
            gl == views(ls@),
            views(out@) == seq!["GPU Information:"@] + adapter_body(gl.take(i as int)),
        decreases ls.len() - i,
    {
        let ghost prev = views(out@);
        let line = text_then("  ", &trim_all(&ls[i]));
        out.push(line);
        assert(views(out@) =~= prev.push(adapter_line(gl[i as int])));
        assert(adapter_body(gl.take(i + 1)) =~= adapter_body(gl.take(i as int)).push(
            adapter_line(gl[i as int]),
        ));
        i = i + 1;
    }
    out.push(Vec::new());
    assert(gl.take(i as int) =~= gl);
    assert(views(out@) =~= gpu_report_of(listing@));
    to_strings(&out)
}

/// The adapter report of the raw output of `lspci -v`, decoded lossily.
pub fn gpu_report(lspci_output: &[u8]) -> (r: Vec<String>)
    ensures
        string_views(r@) == gpu_report_of(utf8_lossy(lspci_output@)),
        valid_utf8(lspci_output@) ==> string_views(r@) == gpu_report_of(
            decode_utf8(lspci_output@),
        ),
{
    let text = decode_lossy(lspci_output);
    gpu_report_text(text.as_str())
}

/// Line `l` names a display adapter.
pub open spec fn is_adapter(l: Seq<char>) -> bool {
    has_sub(l, "VGA"@) || has_sub(l, "3D"@)
}

proof fn lemma_adapter_test(l: Seq<char>)
    ensures
        mentions(gpu_keywords())(l) == is_adapter(l),
{
    if is_adapter(l) {
        if has_sub(l, "VGA"@) {
            assert(has_sub(l, gpu_keywords()[0]));
        } else {
            assert(has_sub(l, gpu_keywords()[1]));
        }
    }
}

/// A listing with no adapter line prints the notice and a blank line only,
/// and no header.
pub proof fn law_no_adapters(text: Seq<char>)
    requires
        forall|i: int| 0 <= i < lines_of(text).len() ==> !is_adapter(#[trigger] lines_of(text)[i]),
    ensures
        gpu_report_of(text) == seq![no_gpu_notice(), seq![]],
{
    let ls = lines_of(text);
    let idx = lemma_filter_positions(ls, mentions(gpu_keywords()));
    if adapter_lines(text).len() > 0 {
        lemma_adapter_test(ls[idx[0]]);
        assert(!is_adapter(ls[idx[0]]));
    }
}

/// A listing with adapter lines prints a header, then for each adapter line of
/// the listing, in order and once, that line trimmed, then a blank line: the
/// positions `idx` of the printed lines in the listing increase, each names an
/// adapter, and every adapter line is among them.
pub proof fn law_adapters_listed(text: Seq<char>) -> (idx: Seq<int>)
    requires
        adapter_lines(text).len() > 0,
    ensures
        gpu_report_of(text).len() == idx.len() + 2,
        gpu_report_of(text)[0] == "GPU Information:"@,
        gpu_report_of(text)[idx.len() as int + 1] == Seq::<char>::empty(),
        forall|k: int|
            0 <= k < idx.len() ==> 0 <= #[trigger] idx[k] < lines_of(text).len() && is_adapter(
                lines_of(text)[idx[k]],
            ) && gpu_report_of(text)[k + 1] == "  "@ + trim(lines_of(text)[idx[k]]),
        forall|k1: int, k2: int| 0 <= k1 < k2 < idx.len() ==> idx[k1] < idx[k2],
        forall|i: int|
            0 <= i < lines_of(text).len() && is_adapter(#[trigger] lines_of(text)[i]) ==> exists|
                k: int,
            |
                0 <= k < idx.len() && idx[k] == i,
{
    let ls = lines_of(text);
    let idx = lemma_filter_positions(ls, mentions(gpu_keywords()));
    let out = gpu_report_of(text);
    assert forall|k: int| 0 <= k < idx.len() implies 0 <= #[trigger] idx[k] < ls.len()
        && is_adapter(ls[idx[k]]) && out[k + 1] == "  "@ + trim(ls[idx[k]]) by {
        lemma_adapter_test(ls[idx[k]]);
    }
    assert forall|i: int| 0 <= i < ls.len() && is_adapter(#[trigger] ls[i]) implies exists|k: int|
        0 <= k < idx.len() && idx[k] == i by {
        lemma_adapter_test(ls[i]);
    }
    idx
}

/// The report lists adapters exactly when the listing mentions "VGA" or
/// "3D" anywhere, and prints the notice otherwise.
pub proof fn law_header_iff_mentioned(text: Seq<char>)
    ensures
        adapter_lines(text).len() > 0 <==> (has_sub(text, "VGA"@) || has_sub(text, "3D"@)),
        !(has_sub(text, "VGA"@) || has_sub(text, "3D"@)) ==> gpu_report_of(text) == seq![
            no_gpu_notice(),
            seq![],
        ],
{
    reveal_strlit("VGA");
    reveal_strlit("3D");
    lemma_keyword_in_lines(text, "VGA"@);
    lemma_keyword_in_lines(text, "3D"@);
    let ls = lines_of(text);
    let idx = lemma_filter_positions(ls, mentions(gpu_keywords()));
    if adapter_lines(text).len() > 0 {
        lemma_adapter_test(ls[idx[0]]);
        assert(has_sub(ls[idx[0]], "VGA"@) || has_sub(ls[idx[0]], "3D"@));
    }
    if has_sub(text, "VGA"@) || has_sub(text, "3D"@) {
        let j = choose|j: int|
            0 <= j < ls.len() && (has_sub(#[trigger] ls[j], "VGA"@) || has_sub(ls[j], "3D"@));
        lemma_adapter_test(ls[j]);
        assert(mentions(gpu_keywords())(ls[j]));
    }
}

} // verus!
