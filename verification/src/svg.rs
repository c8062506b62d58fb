//! The read-rate graph as an SVG document.

use vstd::prelude::*;

use crate::clock;
use crate::device;
use crate::escape;
use crate::human;
use crate::path;
use crate::path::UnixPath;
use crate::report::{Report, SummaryStats};
use crate::sampling::{ALIGNMENT, END_RUNWAY_BYTES, READ_CHUNK_BYTES};
use crate::text;

verus! {

/// The left edge of the plot, in tenths of a user unit, as all positions here.
pub const LEFT: u64 = 780;

/// The right edge of the plot.
pub const RIGHT: u64 = 11720;

/// The upper edge of the plot.
pub const TOP: u64 = 740;

/// The lower edge of the plot.
pub const BOTTOM: u64 = 4480;

/// The height of the document.
pub const HEIGHT: u64 = 5200;

/// How many steps the rate axis has.
pub const RATE_STEPS: u64 = 5;

/// How many steps the position axis has.
pub const POSITION_STEPS: u64 = 4;

/// The bar of one sample: its geometry in user units, as decimal texts with two decimals.
#[derive(Debug)]
pub struct Bar {
    pub x: String,
    pub y: String,
    pub width: String,
    pub height: String,
}

/// The parts of the graph that follow from the measured rates.
#[derive(Debug)]
pub struct Chart {
    /// The rates at the ticks of the rate axis, from the lowest, as texts without decimals.
    pub tick_rates: Vec<String>,
    /// The bars of the samples.
    pub bars: Vec<Bar>,
    /// How far down the line of the average lies, with one decimal.
    pub average_y: String,
    /// How far down its label lies, with one decimal.
    pub average_label_y: String,
}

impl Chart {
    /// Whether the chart has a rate for each tick and a bar for each of `samples` samples.
    pub open spec fn fits(self, samples: nat) -> bool {
        &&& self.tick_rates.len() == RATE_STEPS + 1
        &&& self.bars.len() == samples
    }
}

/// How far down a tick of the rate axis lies: a fifth of the plot per step.
pub open spec fn y_tick(tick: nat) -> nat {
    (BOTTOM - 748 * tick) as nat
}

/// How far right a tick of the position axis lies: a quarter of the plot per step.
pub open spec fn x_tick(tick: nat) -> nat {
    LEFT as nat + 2735 * tick
}

/// The ticks divide each axis evenly, from one edge of the plot to the other.
pub proof fn law_ticks_divide_the_plot_evenly(tick: nat)
    ensures
        tick <= RATE_STEPS ==> RATE_STEPS * (BOTTOM - y_tick(tick)) == tick * (BOTTOM - TOP),
        POSITION_STEPS * (x_tick(tick) - LEFT) == tick * (RIGHT - LEFT),
{
}

/// The attribute for the link that the device is named after, if there is one.
pub open spec fn by_id_attribute(link: Option<Seq<u8>>) -> Seq<char> {
    match link {
        Some(bytes) => " by-id-path=\""@ + escape::xml_text(path::lossy_text(bytes)) + "\""@,
        None => seq![],
    }
}

/// The metadata element of the document.
pub open spec fn metadata_element(report: Report) -> Seq<char> {
    "<metadata>\n  <block-benchie device-label=\""@
        + escape::xml_text(report.device.label@)
        + "\" input-path=\""@
        + escape::xml_text(path::lossy_text(report.device.input_path@))
        + "\" canonical-path=\""@
        + escape::xml_text(path::lossy_text(report.device.canonical_path@))
        + "\""@
        + by_id_attribute(device::path_view(report.device.by_id_path))
        + " output-path=\""@
        + escape::xml_text(path::lossy_text(report.svg_output@))
        + "\" io=\"direct\" open-flag=\"O_DIRECT\" device-size-bytes=\""@
        + text::decimal(report.device_size as nat)
        + "\" sample-duration-ms=\""@
        + text::decimal(report.duration.millis as nat)
        + "\" samples=\""@
        + text::decimal(report.samples.len() as nat)
        + "\" end-runway-bytes=\""@
        + text::decimal(END_RUNWAY_BYTES as nat)
        + "\" read-chunk-bytes=\""@
        + text::decimal(READ_CHUNK_BYTES as nat)
        + "\" alignment-bytes=\""@
        + text::decimal(ALIGNMENT as nat)
        + "\" generated-unix-seconds=\""@
        + text::decimal(report.run.generated_unix_seconds as nat)
        + "\" generated-utc=\""@
        + escape::xml_text(report.run.generated_utc@)
        + "\" />\n</metadata>\n"@
}

/// The title, the description and the captions above the plot.
pub open spec fn captions(report: Report, duration: Seq<char>) -> Seq<char> {
    "<title id=\"title\">Read benchmark for "@
        + escape::xml_text(report.device.label@)
        + "</title>\n"@
        + "<desc id=\"desc\">Read-only transfer-rate samples across "@
        + escape::xml_text(human::human_bytes_text(report.device_size as nat))
        + ", generated at "@
        + escape::xml_text(report.run.generated_utc@)
        + ", maximum "@
        + report.summary.max_rate@
        + " MiB/s, average "@
        + report.summary.average_rate@
        + " MiB/s.</desc>\n"@
        + "<rect width=\"1200\" height=\"520\" fill=\"#f8fafc\"/>\n"@
        + "<text x=\""@
        + text::decimal((LEFT / 10) as nat)
        + "\" y=\"30\" font-family=\"sans-serif\" font-size=\"20\" fill=\"#111827\">Read rate across "@
        + escape::xml_text(report.device.label@)
        + "</text>\n"@
        + "<text x=\""@
        + text::decimal((LEFT / 10) as nat)
        + "\" y=\"50\" font-family=\"sans-serif\" font-size=\"12\" fill=\"#475569\">"@
        + text::decimal(report.samples.len() as nat)
        + " samples, up to "@
        + escape::xml_text(duration)
        + " per sample, device size "@
        + escape::xml_text(human::human_bytes_text(report.device_size as nat))
        + "</text>\n"@
        + "<text x=\""@
        + text::decimal((LEFT / 10) as nat)
        + "\" y=\"66\" font-family=\"sans-serif\" font-size=\"12\" fill=\"#475569\">Generated "@
        + escape::xml_text(report.run.generated_utc@)
        + "</text>\n"@
}

/// A grid line of the rate axis and its label.
pub open spec fn rate_tick(tick: nat, rate: Seq<char>) -> Seq<char> {
    "<line x1=\""@
        + text::tenths(LEFT as nat)
        + "\" y1=\""@
        + text::tenths(y_tick(tick))
        + "\" x2=\""@
        + text::tenths(RIGHT as nat)
        + "\" y2=\""@
        + text::tenths(y_tick(tick))
        + "\" stroke=\"#e2e8f0\"/>\n"@
        + "<text x=\""@
        + text::tenths((LEFT - 80) as nat)
        + "\" y=\""@
        + text::tenths(y_tick(tick) + 40)
        + "\" text-anchor=\"end\" font-family=\"sans-serif\" font-size=\"11\" fill=\"#475569\">"@
        + rate
        + "</text>\n"@
}

/// A grid line of the position axis and its label.
pub open spec fn position_tick(tick: nat) -> Seq<char> {
    "<line x1=\""@
        + text::tenths(x_tick(tick))
        + "\" y1=\""@
        + text::tenths(TOP as nat)
        + "\" x2=\""@
        + text::tenths(x_tick(tick))
        + "\" y2=\""@
        + text::tenths(BOTTOM as nat)
        + "\" stroke=\"#e2e8f0\"/>\n"@
        + "<text x=\""@
        + text::tenths(x_tick(tick))
        + "\" y=\""@
        + text::tenths((BOTTOM + 220) as nat)
        + "\" text-anchor=\"middle\" font-family=\"sans-serif\" font-size=\"11\" fill=\"#475569\">"@
        + text::decimal(25 * tick)
        + "%</text>\n"@
}

/// The lines of the two axes.
pub open spec fn axes() -> Seq<char> {
    "<line x1=\""@
        + text::tenths(LEFT as nat)
        + "\" y1=\""@
        + text::tenths(BOTTOM as nat)
        + "\" x2=\""@
        + text::tenths(RIGHT as nat)
        + "\" y2=\""@
        + text::tenths(BOTTOM as nat)
        + "\" stroke=\"#334155\"/>\n"@
        + "<line x1=\""@
        + text::tenths(LEFT as nat)
        + "\" y1=\""@
        + text::tenths(TOP as nat)
        + "\" x2=\""@
        + text::tenths(LEFT as nat)
        + "\" y2=\""@
        + text::tenths(BOTTOM as nat)
        + "\" stroke=\"#334155\"/>\n"@
}

/// The bar of one sample.
pub open spec fn bar_element(bar: Bar) -> Seq<char> {
    "<rect x=\""@
        + bar.x@
        + "\" y=\""@
        + bar.y@
        + "\" width=\""@
        + bar.width@
        + "\" height=\""@
        + bar.height@
        + "\" fill=\"#2563eb\" opacity=\"0.85\"/>\n"@
}

/// The line and label of the average, the names of the axes and the end of the document.
pub open spec fn closing(chart: Chart, summary: SummaryStats) -> Seq<char> {
    "<line x1=\""@
        + text::tenths(LEFT as nat)
        + "\" y1=\""@
        + chart.average_y@
        + "\" x2=\""@
        + text::tenths(RIGHT as nat)
        + "\" y2=\""@
        + chart.average_y@
        + "\" stroke=\"#dc2626\" stroke-width=\"2\" stroke-dasharray=\"6 5\"/>\n"@
        + "<text x=\""@
        + text::tenths(RIGHT as nat)
        + "\" y=\""@
        + chart.average_label_y@
        + "\" text-anchor=\"end\" font-family=\"sans-serif\" font-size=\"12\" fill=\"#dc2626\">avg "@
        + summary.average_rate@
        + " MiB/s</text>\n"@
        + "<text x=\""@
        + text::tenths(((LEFT + RIGHT) / 2) as nat)
        + "\" y=\""@
        + text::tenths((HEIGHT - 220) as nat)
        + "\" text-anchor=\"middle\" font-family=\"sans-serif\" font-size=\"13\" fill=\"#334155\">Position across device</text>\n"@
        + "<text x=\"22\" y=\""@
        + text::tenths(((TOP + BOTTOM) / 2) as nat)
        + "\" transform=\"rotate(-90 22 "@
        + text::tenths(((TOP + BOTTOM) / 2) as nat)
        + ")\" text-anchor=\"middle\" font-family=\"sans-serif\" font-size=\"13\" fill=\"#334155\">MiB/s</text>\n"@
        + "</svg>\n"@
}

/// The first `count` grid lines of the rate axis.
pub open spec fn rate_ticks(rates: Seq<String>, count: nat) -> Seq<char>
    decreases count,
{
    if count == 0 {
        seq![]
    } else {
        rate_ticks(rates, (count - 1) as nat) + rate_tick((count - 1) as nat, rates[count - 1]@)
    }
}

/// The first `count` grid lines of the position axis.
pub open spec fn position_ticks(count: nat) -> Seq<char>
    decreases count,
{
    if count == 0 {
        seq![]
    } else {
        position_ticks((count - 1) as nat) + position_tick((count - 1) as nat)
    }
}

/// The bars of the samples, from the start of the device on.
pub open spec fn bar_elements(bars: Seq<Bar>) -> Seq<char>
    decreases bars.len(),
{
    if bars.len() == 0 {
        seq![]
    } else {
        bar_elements(bars.drop_last()) + bar_element(bars.last())
    }
}

/// The whole document, with the budget of a sample as text.
pub open spec fn document(report: Report, chart: Chart, duration: Seq<char>) -> Seq<char> {
    "<?xml version=\"1.0\" encoding=\"UTF-8\"?>\n<svg xmlns=\"http://www.w3.org/2000/svg\" viewBox=\"0 0 1200 520\" role=\"img\" aria-labelledby=\"title desc\">\n"@
        + metadata_element(report)
        + captions(report, duration)
        + rate_ticks(chart.tick_rates@, (RATE_STEPS + 1) as nat)
        + position_ticks((POSITION_STEPS + 1) as nat)
        + axes()
        + bar_elements(chart.bars@)
        + closing(chart, report.summary)
}

fn by_id_text(link: &Option<UnixPath>) -> (part: String)
    ensures
        part@ == by_id_attribute(device::path_view(*link)),
{
    match link {
        Some(link) => {
            let mut part = " by-id-path=\"".to_owned();
            part.append(escape::escape_xml_attr(link.display().as_str()).as_str());
            part.append("\"");
            part
        },
        None => String::new(),
    }
}

/// Appends the metadata element of the document.
pub fn write_svg_metadata(svg: &mut String, report: &Report)
    ensures
        final(svg)@ == old(svg)@ + metadata_element(*report),
{
    let mut part = "<metadata>\n  <block-benchie device-label=\"".to_owned();
    part.append(escape::escape_xml_attr(report.device.label.as_str()).as_str());
    part.append("\" input-path=\"");
    part.append(escape::escape_xml_attr(report.device.input_path.display().as_str()).as_str());
    part.append("\" canonical-path=\"");
    part.append(escape::escape_xml_attr(report.device.canonical_path.display().as_str()).as_str());
    part.append("\"");
    part.append(by_id_text(&report.device.by_id_path).as_str());
    part.append(" output-path=\"");
    part.append(escape::escape_xml_attr(report.svg_output.display().as_str()).as_str());
    part.append("\" io=\"direct\" open-flag=\"O_DIRECT\" device-size-bytes=\"");
    part.append(text::decimal_text(report.device_size).as_str());
    part.append("\" sample-duration-ms=\"");
    part.append(text::decimal_text(report.duration.millis).as_str());
    part.append("\" samples=\"");
    part.append(text::decimal_text(report.samples.len() as u64).as_str());
    part.append("\" end-runway-bytes=\"");
    part.append(text::decimal_text(END_RUNWAY_BYTES).as_str());
    part.append("\" read-chunk-bytes=\"");
    part.append(text::decimal_text(READ_CHUNK_BYTES).as_str());
    part.append("\" alignment-bytes=\"");
    part.append(text::decimal_text(ALIGNMENT).as_str());
    part.append("\" generated-unix-seconds=\"");
    part.append(text::decimal_text(report.run.generated_unix_seconds).as_str());
    part.append("\" generated-utc=\"");
    part.append(escape::escape_xml_attr(report.run.generated_utc.as_str()).as_str());
    part.append("\" />\n</metadata>\n");
    svg.append(part.as_str());
}

fn captions_text(report: &Report, duration: &str) -> (part: String)
    ensures
        part@ == captions(*report, duration@),
{
    let mut part = "<title id=\"title\">Read benchmark for ".to_owned();
    part.append(escape::escape_xml(report.device.label.as_str()).as_str());
    part.append("</title>\n");
    part.append("<desc id=\"desc\">Read-only transfer-rate samples across ");
    part.append(escape::escape_xml(human::human_bytes(report.device_size).as_str()).as_str());
    part.append(", generated at ");
    part.append(escape::escape_xml(report.run.generated_utc.as_str()).as_str());
    part.append(", maximum ");
    part.append(report.summary.max_rate.as_str());
    part.append(" MiB/s, average ");
    part.append(report.summary.average_rate.as_str());
    part.append(" MiB/s.</desc>\n");
    part.append("<rect width=\"1200\" height=\"520\" fill=\"#f8fafc\"/>\n");
    part.append("<text x=\"");
    part.append(text::decimal_text(LEFT / 10).as_str());
    part.append("\" y=\"30\" font-family=\"sans-serif\" font-size=\"20\" fill=\"#111827\">Read rate across ");
    part.append(escape::escape_xml(report.device.label.as_str()).as_str());
    part.append("</text>\n");
    part.append("<text x=\"");
    part.append(text::decimal_text(LEFT / 10).as_str());
    part.append("\" y=\"50\" font-family=\"sans-serif\" font-size=\"12\" fill=\"#475569\">");
    part.append(text::decimal_text(report.samples.len() as u64).as_str());
    part.append(" samples, up to ");
    part.append(escape::escape_xml(duration).as_str());
    part.append(" per sample, device size ");
    part.append(escape::escape_xml(human::human_bytes(report.device_size).as_str()).as_str());
    part.append("</text>\n");
    part.append("<text x=\"");
    part.append(text::decimal_text(LEFT / 10).as_str());
    part.append("\" y=\"66\" font-family=\"sans-serif\" font-size=\"12\" fill=\"#475569\">Generated ");
    part.append(escape::escape_xml(report.run.generated_utc.as_str()).as_str());
    part.append("</text>\n");
    part
}

fn rate_tick_text(tick: u64, rate: &str) -> (part: String)
    requires
        tick <= RATE_STEPS,
    ensures
        part@ == rate_tick(tick as nat, rate@),
{
    let y: u64 = BOTTOM - 748 * tick;
    let mut part = "<line x1=\"".to_owned();
    part.append(text::tenths_text(LEFT).as_str());
    part.append("\" y1=\"");
    part.append(text::tenths_text(y).as_str());
    part.append("\" x2=\"");
    part.append(text::tenths_text(RIGHT).as_str());
    part.append("\" y2=\"");
    part.append(text::tenths_text(y).as_str());
    part.append("\" stroke=\"#e2e8f0\"/>\n");
    part.append("<text x=\"");
    part.append(text::tenths_text(LEFT - 80).as_str());
    part.append("\" y=\"");
    part.append(text::tenths_text(y + 40).as_str());
    part.append("\" text-anchor=\"end\" font-family=\"sans-serif\" font-size=\"11\" fill=\"#475569\">");
    part.append(rate);
    part.append("</text>\n");
    part
}

fn position_tick_text(tick: u64) -> (part: String)
    requires
        tick <= POSITION_STEPS,
    ensures
        part@ == position_tick(tick as nat),
{
    let x: u64 = LEFT + 2735 * tick;
    let mut part = "<line x1=\"".to_owned();
    part.append(text::tenths_text(x).as_str());
    part.append("\" y1=\"");
    part.append(text::tenths_text(TOP).as_str());
    part.append("\" x2=\"");
    part.append(text::tenths_text(x).as_str());
    part.append("\" y2=\"");
    part.append(text::tenths_text(BOTTOM).as_str());
    part.append("\" stroke=\"#e2e8f0\"/>\n");
    part.append("<text x=\"");
    part.append(text::tenths_text(x).as_str());
    part.append("\" y=\"");
    part.append(text::tenths_text(BOTTOM + 220).as_str());
    part.append("\" text-anchor=\"middle\" font-family=\"sans-serif\" font-size=\"11\" fill=\"#475569\">");
    part.append(text::decimal_text(25 * tick).as_str());
    part.append("%</text>\n");
    part
}

fn axes_text() -> (part: String)
    ensures
        part@ == axes(),
{
    let mut part = "<line x1=\"".to_owned();
    part.append(text::tenths_text(LEFT).as_str());
    part.append("\" y1=\"");
    part.append(text::tenths_text(BOTTOM).as_str());
    part.append("\" x2=\"");
    part.append(text::tenths_text(RIGHT).as_str());
    part.append("\" y2=\"");
    part.append(text::tenths_text(BOTTOM).as_str());
    part.append("\" stroke=\"#334155\"/>\n");
    part.append("<line x1=\"");
    part.append(text::tenths_text(LEFT).as_str());
    part.append("\" y1=\"");
    part.append(text::tenths_text(TOP).as_str());
    part.append("\" x2=\"");
    part.append(text::tenths_text(LEFT).as_str());
    part.append("\" y2=\"");
    part.append(text::tenths_text(BOTTOM).as_str());
    part.append("\" stroke=\"#334155\"/>\n");
    part
}

fn bar_text(bar: &Bar) -> (part: String)
    ensures
        part@ == bar_element(*bar),
{
    let mut part = "<rect x=\"".to_owned();
    part.append(bar.x.as_str());
    part.append("\" y=\"");
    part.append(bar.y.as_str());
    part.append("\" width=\"");
    part.append(bar.width.as_str());
    part.append("\" height=\"");
    part.append(bar.height.as_str());
    part.append("\" fill=\"#2563eb\" opacity=\"0.85\"/>\n");
    part
}

fn closing_text(chart: &Chart, summary: &SummaryStats) -> (part: String)
    ensures
        part@ == closing(*chart, *summary),
{
    let mut part = "<line x1=\"".to_owned();
    part.append(text::tenths_text(LEFT).as_str());
    part.append("\" y1=\"");
    part.append(chart.average_y.as_str());
    part.append("\" x2=\"");
    part.append(text::tenths_text(RIGHT).as_str());
    part.append("\" y2=\"");
    part.append(chart.average_y.as_str());
    part.append("\" stroke=\"#dc2626\" stroke-width=\"2\" stroke-dasharray=\"6 5\"/>\n");
    part.append("<text x=\"");
    part.append(text::tenths_text(RIGHT).as_str());
    part.append("\" y=\"");
    part.append(chart.average_label_y.as_str());
    part.append("\" text-anchor=\"end\" font-family=\"sans-serif\" font-size=\"12\" fill=\"#dc2626\">avg ");
    part.append(summary.average_rate.as_str());
    part.append(" MiB/s</text>\n");
    part.append("<text x=\"");
    part.append(text::tenths_text((LEFT + RIGHT) / 2).as_str());
    part.append("\" y=\"");
    part.append(text::tenths_text(HEIGHT - 220).as_str());
    part.append("\" text-anchor=\"middle\" font-family=\"sans-serif\" font-size=\"13\" fill=\"#334155\">Position across device</text>\n");
    part.append("<text x=\"22\" y=\"");
    part.append(text::tenths_text((TOP + BOTTOM) / 2).as_str());
    part.append("\" transform=\"rotate(-90 22 ");
    part.append(text::tenths_text((TOP + BOTTOM) / 2).as_str());
    part.append(")\" text-anchor=\"middle\" font-family=\"sans-serif\" font-size=\"13\" fill=\"#334155\">MiB/s</text>\n");
    part.append("</svg>\n");
    part
}

fn rate_ticks_text(rates: &Vec<String>) -> (part: String)
    requires
        rates.len() == RATE_STEPS + 1,
    ensures
        part@ == rate_ticks(rates@, (RATE_STEPS + 1) as nat),
{
    let mut part = String::new();
    let mut tick: u64 = 0;
    while tick < RATE_STEPS + 1
        invariant
            tick <= RATE_STEPS + 1 == rates.len(),
            part@ == rate_ticks(rates@, tick as nat),
        decreases RATE_STEPS + 1 - tick,
    {
        part.append(rate_tick_text(tick, rates[tick as usize].as_str()).as_str());
        tick = tick + 1;
    }
    part
}

fn position_ticks_text() -> (part: String)
    ensures
        part@ == position_ticks((POSITION_STEPS + 1) as nat),
{
    let mut part = String::new();
    let mut tick: u64 = 0;
    while tick < POSITION_STEPS + 1
        invariant
            tick <= POSITION_STEPS + 1,
            part@ == position_ticks(tick as nat),
        decreases POSITION_STEPS + 1 - tick,
    {
        part.append(position_tick_text(tick).as_str());
        tick = tick + 1;
    }
    part
}

fn bars_text(bars: &Vec<Bar>) -> (part: String)
    ensures
        part@ == bar_elements(bars@),
{
    let mut part = String::new();
    let mut i: usize = 0;
    while i < bars.len()
        invariant
            i <= bars@.len(),
            part@ == bar_elements(bars@.take(i as int)),
        decreases bars@.len() - i,
    {
        part.append(bar_text(&bars[i]).as_str());
        i = i + 1;
        assert(bars@.take(i as int).drop_last() =~= bars@.take(i - 1));
    }
    assert(bars@.take(i as int) =~= bars@);
    part
}

/// The whole document, with the budget of a sample as text.
pub fn svg_document_with_duration(report: &Report, chart: &Chart, duration: &str) -> (svg: String)
    requires
        chart.fits(report.samples@.len()),
    ensures
        svg@ == document(*report, *chart, duration@),
{
    let mut svg = "<?xml version=\"1.0\" encoding=\"UTF-8\"?>\n<svg xmlns=\"http://www.w3.org/2000/svg\" viewBox=\"0 0 1200 520\" role=\"img\" aria-labelledby=\"title desc\">\n".to_owned();
    write_svg_metadata(&mut svg, report);
    svg.append(captions_text(report, duration).as_str());
    svg.append(rate_ticks_text(&chart.tick_rates).as_str());
    svg.append(position_ticks_text().as_str());
    svg.append(axes_text().as_str());
    svg.append(bars_text(&chart.bars).as_str());
    svg.append(closing_text(chart, &report.summary).as_str());
    svg
}

/// The whole document.
pub fn svg_document(report: &Report, chart: &Chart) -> (svg: String)
    requires
        chart.fits(report.samples@.len()),
    ensures
        svg@ == document(*report, *chart, clock::human_duration(report.duration.millis)),
{
    svg_document_with_duration(report, chart, report.duration.text().as_str())
}

/// The document embeds what is known of the device and of the run: its label, the path as given,
/// the resolved path, the link it is named after, the direct I/O settings, the size, the sample
/// configuration and the time.
pub proof fn law_svg_embeds_metadata(report: Report, chart: Chart, duration: Seq<char>)
    ensures
        ({
            let svg = document(report, chart, duration);
            let element = metadata_element(report);
            &&& text::holds(svg, element)
            &&& text::holds(element, escape::xml_text(report.device.label@))
            &&& text::holds(
                element,
                escape::xml_text(path::lossy_text(report.device.input_path@)),
            )
            &&& text::holds(
                element,
                escape::xml_text(path::lossy_text(report.device.canonical_path@)),
            )
            &&& text::holds(
                element,
                by_id_attribute(device::path_view(report.device.by_id_path)),
            )
            &&& text::holds(
                element,
                "\" io=\"direct\" open-flag=\"O_DIRECT\" device-size-bytes=\""@,
            )
            &&& text::holds(element, text::decimal(report.device_size as nat))
            &&& text::holds(element, text::decimal(report.duration.millis as nat))
            &&& text::holds(element, text::decimal(report.samples.len() as nat))
            &&& text::holds(element, text::decimal(report.run.generated_unix_seconds as nat))
            &&& text::holds(element, escape::xml_text(report.run.generated_utc@))
        }),
{
    broadcast use {text::lemma_holds_end, text::lemma_holds_before};

}

/// The document shows a bar for each sample.
pub proof fn law_svg_shows_every_bar(report: Report, chart: Chart, duration: Seq<char>, i: int)
    requires
        0 <= i < chart.bars@.len(),
    ensures
        text::holds(document(report, chart, duration), bar_element(chart.bars@[i])),
{
    broadcast use {text::lemma_holds_end, text::lemma_holds_before};

    lemma_bar_held(chart.bars@, i);
    text::lemma_holds_within(
        document(report, chart, duration),
        bar_elements(chart.bars@),
        bar_element(chart.bars@[i]),
    );
}

proof fn lemma_bar_held(bars: Seq<Bar>, i: int)
    requires
        0 <= i < bars.len(),
    ensures
        text::holds(bar_elements(bars), bar_element(bars[i])),
    decreases bars.len(),
{
    broadcast use {text::lemma_holds_end, text::lemma_holds_before};

    if i < bars.len() - 1 {
        lemma_bar_held(bars.drop_last(), i);
    }
}

proof fn lemma_window(before: Seq<char>, left: Seq<char>, value: Seq<char>, right: Seq<char>)
    ensures
        text::holds(before + left + value + right, left + value + right),
{
    assert(before + left + value + right =~= before + (left + value + right));
    text::lemma_holds_end(before, left + value + right);
}

proof fn lemma_window_first(left: Seq<char>, value: Seq<char>, right: Seq<char>)
    ensures
        text::holds(left + value + right, left + value + right),
{
    let none = Seq::<char>::empty();
    assert(none + (left + value + right) =~= left + value + right);
    text::lemma_holds_end(none, left + value + right);
}

broadcast proof fn lemma_escaped_unquoted(value: Seq<char>)
    ensures
        #![trigger escape::xml_text(value)]
        forall|i: int| 0 <= i < escape::xml_text(value).len() ==> escape::xml_text(value)[i] != '"',
{
    escape::law_escaped_xml_holds_no_markup(value);
}

broadcast proof fn lemma_decimal_unquoted(n: nat)
    ensures
        #![trigger text::decimal(n)]
        forall|i: int| 0 <= i < text::decimal(n).len() ==> text::decimal(n)[i] != '"',
{
    text::lemma_decimal_is_digits(n);
}

/// A value of an attribute and the name of the next attribute.
proof fn lemma_attribute(
    whole: Seq<char>,
    parts: Seq<Seq<char>>,
    value: Seq<char>,
    between: Seq<char>,
    name: Seq<char>,
)
    requires
        text::split(whole, '"') == parts.push(seq![]),
        forall|i: int| 0 <= i < value.len() ==> value[i] != '"',
        forall|i: int| 0 <= i < name.len() ==> name[i] != '"',
        between =~= seq!['"'] + name + seq!['"'],
    ensures
        text::split(whole + value + between, '"') == parts.push(value).push(name).push(seq![]),
{
    text::lemma_split_value(whole, parts, value, between, name, '"');
}

/// The metadata up to the attribute before the path of the graph.
#[verifier::rlimit(50)]
proof fn lemma_first_attributes(report: Report) -> (parts: Seq<Seq<char>>)
    ensures
        ({
            let whole = "<metadata>\n  <block-benchie device-label=\""@
                + escape::xml_text(report.device.label@)
                + "\" input-path=\""@
                + escape::xml_text(path::lossy_text(report.device.input_path@))
                + "\" canonical-path=\""@
                + escape::xml_text(path::lossy_text(report.device.canonical_path@))
                + "\""@
                + by_id_attribute(device::path_view(report.device.by_id_path))
                + " output-path=\""@;
            let shift: int = if report.device.by_id_path is Some {
                2
            } else {
                0
            };
            &&& text::split(whole, '"') == parts.push(seq![])
            &&& parts.len() == 7 + shift
            &&& parts[0] == "<metadata>\n  <block-benchie device-label="@
            &&& parts[1] == escape::xml_text(report.device.label@)
            &&& parts[2] == " input-path="@
            &&& parts[3] == escape::xml_text(path::lossy_text(report.device.input_path@))
            &&& parts[4] == " canonical-path="@
            &&& parts[5] == escape::xml_text(path::lossy_text(report.device.canonical_path@))
            &&& report.device.by_id_path matches Some(link) ==> parts[6] == " by-id-path="@
                && parts[7] == escape::xml_text(path::lossy_text(link@))
            &&& parts[6 + shift] == " output-path="@
        }),
{
    broadcast use {lemma_escaped_unquoted, lemma_decimal_unquoted};

    let label = escape::xml_text(report.device.label@);
    let input = escape::xml_text(path::lossy_text(report.device.input_path@));
    let canonical = escape::xml_text(path::lossy_text(report.device.canonical_path@));
    let none = Seq::<char>::empty();
    reveal_strlit("<metadata>\n  <block-benchie device-label=\"");
    reveal_strlit("<metadata>\n  <block-benchie device-label=");
    reveal_strlit("\" input-path=\"");
    reveal_strlit(" input-path=");
    reveal_strlit("\" canonical-path=\"");
    reveal_strlit(" canonical-path=");
    reveal_strlit("\"");
    reveal_strlit(" output-path=\"");
    reveal_strlit(" output-path=");
    let t0 = "<metadata>\n  <block-benchie device-label=\""@;
    let head = "<metadata>\n  <block-benchie device-label="@;
    assert(t0.drop_last() =~= head);
    text::lemma_split_absent(head, '"');
    let p0 = seq![head];
    assert(text::split(t0, '"') == p0.push(none));
    lemma_attribute(t0, p0, label, "\" input-path=\""@, " input-path="@);
    let t1 = t0 + label + "\" input-path=\""@;
    let p1 = p0.push(label).push(" input-path="@);
    lemma_attribute(t1, p1, input, "\" canonical-path=\""@, " canonical-path="@);
    let t2 = t1 + input + "\" canonical-path=\""@;
    let p2 = p1.push(input).push(" canonical-path="@);
    let output = seq!['"'] + " output-path="@ + seq!['"'];
    match report.device.by_id_path {
        None => {
            lemma_attribute(t2, p2, canonical, output, " output-path="@);
            assert(t2 + canonical + "\""@ + by_id_attribute(None) + " output-path=\""@ =~= t2
                + canonical + output);
            p2.push(canonical).push(" output-path="@)
        },
        Some(link) => {
            reveal_strlit(" by-id-path=\"");
            reveal_strlit(" by-id-path=");
            let by_id = escape::xml_text(path::lossy_text(link@));
            let linked = seq!['"'] + " by-id-path="@ + seq!['"'];
            lemma_attribute(t2, p2, canonical, linked, " by-id-path="@);
            let t3 = t2 + canonical + linked;
            let p3 = p2.push(canonical).push(" by-id-path="@);
            lemma_attribute(t3, p3, by_id, output, " output-path="@);
            assert(" by-id-path=\""@ =~= " by-id-path="@ + seq!['"']);
            assert(" output-path=\""@ =~= " output-path="@ + seq!['"']);
            assert("\""@ =~= seq!['"']);
            assert(t2 + canonical + "\""@ + by_id_attribute(Some(link@)) + " output-path=\""@ =~= t3
                + by_id + output);
            p3.push(by_id).push(" output-path="@)
        },
    }
}

/// Split at its quotation marks, the metadata element is made of the names of its attributes and
/// their values, and a strict reader of XML gets each value back: the label, the paths, the link
/// if there is one, the direct I/O settings, the size, the sample configuration and the time.
#[verifier::rlimit(50)]
pub proof fn law_metadata_attributes_read_back(report: Report)
    ensures
        ({
            let parts = text::split(metadata_element(report), '"');
            let device = report.device;
            let shift: int = if device.by_id_path is Some {
                2
            } else {
                0
            };
            &&& parts.len() == 29 + shift
            &&& parts[0] == "<metadata>\n  <block-benchie device-label="@
            &&& escape::xml_value(parts[1]) == Some(device.label@)
            &&& parts[2] == " input-path="@
            &&& escape::xml_value(parts[3]) == Some(path::lossy_text(device.input_path@))
            &&& parts[4] == " canonical-path="@
            &&& escape::xml_value(parts[5]) == Some(path::lossy_text(device.canonical_path@))
            &&& device.by_id_path matches Some(link) ==> parts[6] == " by-id-path="@
                && escape::xml_value(parts[7]) == Some(path::lossy_text(link@))
            &&& parts[6 + shift] == " output-path="@
            &&& escape::xml_value(parts[7 + shift]) == Some(path::lossy_text(report.svg_output@))
            &&& parts[8 + shift] == " io="@
            &&& parts[9 + shift] == "direct"@
            &&& parts[10 + shift] == " open-flag="@
            &&& parts[11 + shift] == "O_DIRECT"@
            &&& parts[12 + shift] == " device-size-bytes="@
            &&& parts[13 + shift] == text::decimal(report.device_size as nat)
            &&& parts[14 + shift] == " sample-duration-ms="@
            &&& parts[15 + shift] == text::decimal(report.duration.millis as nat)
            &&& parts[16 + shift] == " samples="@
            &&& parts[17 + shift] == text::decimal(report.samples@.len())
            &&& parts[18 + shift] == " end-runway-bytes="@
            &&& parts[19 + shift] == text::decimal(0x4000_0000)
            &&& parts[20 + shift] == " read-chunk-bytes="@
            &&& parts[21 + shift] == text::decimal(0x40_0000)
            &&& parts[22 + shift] == " alignment-bytes="@
            &&& parts[23 + shift] == text::decimal(4096)
            &&& parts[24 + shift] == " generated-unix-seconds="@
            &&& parts[25 + shift] == text::decimal(report.run.generated_unix_seconds as nat)
            &&& parts[26 + shift] == " generated-utc="@
            &&& escape::xml_value(parts[27 + shift]) == Some(report.run.generated_utc@)
            &&& parts[28 + shift] == " />\n</metadata>\n"@
        }),
{
    broadcast use {lemma_escaped_unquoted, lemma_decimal_unquoted};

    escape::law_xml_reads_back_strictly(report.device.label@);
    escape::law_xml_reads_back_strictly(path::lossy_text(report.device.input_path@));
    escape::law_xml_reads_back_strictly(path::lossy_text(report.device.canonical_path@));
    escape::law_xml_reads_back_strictly(path::lossy_text(report.svg_output@));
    escape::law_xml_reads_back_strictly(report.run.generated_utc@);
    match report.device.by_id_path {
        Some(link) => {
            escape::law_xml_reads_back_strictly(path::lossy_text(link@));
        },
        None => {},
    }
    let q0 = lemma_first_attributes(report);
    let s0 = "<metadata>\n  <block-benchie device-label=\""@
        + escape::xml_text(report.device.label@)
        + "\" input-path=\""@
        + escape::xml_text(path::lossy_text(report.device.input_path@))
        + "\" canonical-path=\""@
        + escape::xml_text(path::lossy_text(report.device.canonical_path@))
        + "\""@
        + by_id_attribute(device::path_view(report.device.by_id_path))
        + " output-path=\""@;
    let output = escape::xml_text(path::lossy_text(report.svg_output@));
    let direct = "\" io=\"direct\" open-flag=\"O_DIRECT\" device-size-bytes=\""@;
    let utc = escape::xml_text(report.run.generated_utc@);
    lemma_direct_attributes(s0, q0, output);
    let s1 = s0 + output + direct;
    let q1 = q0 + seq![
        output,
        " io="@,
        "direct"@,
        " open-flag="@,
        "O_DIRECT"@,
        " device-size-bytes="@,
    ];
    let q2 = lemma_number_attributes(s1, q1, report);
    let s2 = s1
        + text::decimal(report.device_size as nat)
        + "\" sample-duration-ms=\""@
        + text::decimal(report.duration.millis as nat)
        + "\" samples=\""@
        + text::decimal(report.samples.len() as nat)
        + "\" end-runway-bytes=\""@
        + text::decimal(END_RUNWAY_BYTES as nat)
        + "\" read-chunk-bytes=\""@
        + text::decimal(READ_CHUNK_BYTES as nat)
        + "\" alignment-bytes=\""@
        + text::decimal(ALIGNMENT as nat)
        + "\" generated-unix-seconds=\""@
        + text::decimal(report.run.generated_unix_seconds as nat)
        + "\" generated-utc=\""@;
    lemma_last_attribute(s2, q2, utc);
    assert(metadata_element(report) == s2 + utc + "\" />\n</metadata>\n"@);
    assert forall|i: int| 0 <= i < q0.len() implies q2[i] == q0[i] by {
        assert(q2[i] == q1[i]);
    }
    assert forall|i: int| 0 <= i < 6 implies #[trigger] q2[q0.len() + i] == q1[q0.len() + i] by {}
}

/// The attributes of the direct I/O settings, behind a value.
proof fn lemma_direct_attributes(whole: Seq<char>, parts: Seq<Seq<char>>, output: Seq<char>)
    requires
        text::split(whole, '"') == parts.push(seq![]),
        forall|i: int| 0 <= i < output.len() ==> output[i] != '"',
    ensures
        text::split(
            whole + output + "\" io=\"direct\" open-flag=\"O_DIRECT\" device-size-bytes=\""@,
            '"',
        ) == (parts + seq![
            output,
            " io="@,
            "direct"@,
            " open-flag="@,
            "O_DIRECT"@,
            " device-size-bytes="@,
        ]).push(seq![]),
{
    let direct = "\" io=\"direct\" open-flag=\"O_DIRECT\" device-size-bytes=\""@;
    reveal_strlit("\" io=\"direct\" open-flag=\"O_DIRECT\" device-size-bytes=\"");
    reveal_strlit(" io=");
    reveal_strlit("direct");
    reveal_strlit(" open-flag=");
    reveal_strlit("O_DIRECT");
    reveal_strlit(" device-size-bytes=");
    let io = seq!['"'] + " io="@ + seq!['"'];
    let flag = seq!['"'] + " open-flag="@ + seq!['"'];
    let size = seq!['"'] + " device-size-bytes="@ + seq!['"'];
    lemma_attribute(whole, parts, output, io, " io="@);
    let s1 = whole + output + io;
    let q1 = parts.push(output).push(" io="@);
    lemma_attribute(s1, q1, "direct"@, flag, " open-flag="@);
    let s2 = s1 + "direct"@ + flag;
    let q2 = q1.push("direct"@).push(" open-flag="@);
    lemma_attribute(s2, q2, "O_DIRECT"@, size, " device-size-bytes="@);
    let s3 = s2 + "O_DIRECT"@ + size;
    let q3 = q2.push("O_DIRECT"@).push(" device-size-bytes="@);
    assert(direct =~= io + "direct"@ + flag + "O_DIRECT"@ + size);
    assert(s3 =~= whole + output + direct);
    assert(q3 =~= parts + seq![
        output,
        " io="@,
        "direct"@,
        " open-flag="@,
        "O_DIRECT"@,
        " device-size-bytes="@,
    ]);
}

/// The attributes whose values are numbers, behind the name of the first of them.
#[verifier::rlimit(50)]
proof fn lemma_number_attributes(whole: Seq<char>, parts: Seq<Seq<char>>, report: Report) -> (more:
    Seq<Seq<char>>)
    requires
        text::split(whole, '"') == parts.push(seq![]),
    ensures
        text::split(
            whole
                + text::decimal(report.device_size as nat)
                + "\" sample-duration-ms=\""@
                + text::decimal(report.duration.millis as nat)
                + "\" samples=\""@
                + text::decimal(report.samples.len() as nat)
                + "\" end-runway-bytes=\""@
                + text::decimal(END_RUNWAY_BYTES as nat)
                + "\" read-chunk-bytes=\""@
                + text::decimal(READ_CHUNK_BYTES as nat)
                + "\" alignment-bytes=\""@
                + text::decimal(ALIGNMENT as nat)
                + "\" generated-unix-seconds=\""@
                + text::decimal(report.run.generated_unix_seconds as nat)
                + "\" generated-utc=\""@,
            '"',
        ) == more.push(seq![]),
        more.len() == parts.len() + 14,
        forall|i: int| 0 <= i < parts.len() ==> more[i] == parts[i],
        more[parts.len() as int] == text::decimal(report.device_size as nat),
        more[parts.len() as int + 1] == " sample-duration-ms="@,
        more[parts.len() as int + 2] == text::decimal(report.duration.millis as nat),
        more[parts.len() as int + 3] == " samples="@,
        more[parts.len() as int + 4] == text::decimal(report.samples.len() as nat),
        more[parts.len() as int + 5] == " end-runway-bytes="@,
        more[parts.len() as int + 6] == text::decimal(END_RUNWAY_BYTES as nat),
        more[parts.len() as int + 7] == " read-chunk-bytes="@,
        more[parts.len() as int + 8] == text::decimal(READ_CHUNK_BYTES as nat),
        more[parts.len() as int + 9] == " alignment-bytes="@,
        more[parts.len() as int + 10] == text::decimal(ALIGNMENT as nat),
        more[parts.len() as int + 11] == " generated-unix-seconds="@,
        more[parts.len() as int + 12] == text::decimal(report.run.generated_unix_seconds as nat),
        more[parts.len() as int + 13] == " generated-utc="@,
{
    broadcast use lemma_decimal_unquoted;

    let s0 = whole;
    let q0 = parts;
    reveal_strlit("\" sample-duration-ms=\"");
    reveal_strlit(" sample-duration-ms=");
    let v0 = text::decimal(report.device_size as nat);
    lemma_attribute(s0, q0, v0, "\" sample-duration-ms=\""@, " sample-duration-ms="@);
    let s1 = s0 + v0 + "\" sample-duration-ms=\""@;
    let q1 = q0.push(v0).push(" sample-duration-ms="@);
    reveal_strlit("\" samples=\"");
    reveal_strlit(" samples=");
    let v1 = text::decimal(report.duration.millis as nat);
    lemma_attribute(s1, q1, v1, "\" samples=\""@, " samples="@);
    let s2 = s1 + v1 + "\" samples=\""@;
    let q2 = q1.push(v1).push(" samples="@);
    reveal_strlit("\" end-runway-bytes=\"");
    reveal_strlit(" end-runway-bytes=");
    let v2 = text::decimal(report.samples.len() as nat);
    lemma_attribute(s2, q2, v2, "\" end-runway-bytes=\""@, " end-runway-bytes="@);
    let s3 = s2 + v2 + "\" end-runway-bytes=\""@;
    let q3 = q2.push(v2).push(" end-runway-bytes="@);
    reveal_strlit("\" read-chunk-bytes=\"");
    reveal_strlit(" read-chunk-bytes=");
    let v3 = text::decimal(END_RUNWAY_BYTES as nat);
    lemma_attribute(s3, q3, v3, "\" read-chunk-bytes=\""@, " read-chunk-bytes="@);
    let s4 = s3 + v3 + "\" read-chunk-bytes=\""@;
    let q4 = q3.push(v3).push(" read-chunk-bytes="@);
    reveal_strlit("\" alignment-bytes=\"");
    reveal_strlit(" alignment-bytes=");
    let v4 = text::decimal(READ_CHUNK_BYTES as nat);
    lemma_attribute(s4, q4, v4, "\" alignment-bytes=\""@, " alignment-bytes="@);
    let s5 = s4 + v4 + "\" alignment-bytes=\""@;
    let q5 = q4.push(v4).push(" alignment-bytes="@);
    reveal_strlit("\" generated-unix-seconds=\"");
    reveal_strlit(" generated-unix-seconds=");
    let v5 = text::decimal(ALIGNMENT as nat);
    lemma_attribute(s5, q5, v5, "\" generated-unix-seconds=\""@, " generated-unix-seconds="@);
    let s6 = s5 + v5 + "\" generated-unix-seconds=\""@;
    let q6 = q5.push(v5).push(" generated-unix-seconds="@);
    reveal_strlit("\" generated-utc=\"");
    reveal_strlit(" generated-utc=");
    let v6 = text::decimal(report.run.generated_unix_seconds as nat);
    lemma_attribute(s6, q6, v6, "\" generated-utc=\""@, " generated-utc="@);
    let s7 = s6 + v6 + "\" generated-utc=\""@;
    let q7 = q6.push(v6).push(" generated-utc="@);
    q7
}

/// The last value and the end of the element.
proof fn lemma_last_attribute(whole: Seq<char>, parts: Seq<Seq<char>>, value: Seq<char>)
    requires
        text::split(whole, '"') == parts.push(seq![]),
        forall|i: int| 0 <= i < value.len() ==> value[i] != '"',
    ensures
        text::split(whole + value + "\" />\n</metadata>\n"@, '"') == parts.push(value).push(
            " />\n</metadata>\n"@,
        ),
{
    let last = " />\n</metadata>\n"@;
    reveal_strlit("\" />\n</metadata>\n");
    reveal_strlit(" />\n</metadata>\n");
    text::lemma_split_more(whole, value, '"');
    assert(Seq::<char>::empty() + value =~= value);
    assert(text::split(whole, '"').drop_last() =~= parts);
    let closed = whole + value + seq!['"'];
    assert(closed.drop_last() =~= whole + value);
    text::lemma_split_more(closed, last, '"');
    assert(Seq::<char>::empty() + last =~= last);
    assert(text::split(closed, '"').drop_last() =~= parts.push(value));
    assert("\" />\n</metadata>\n"@ =~= seq!['"'] + last);
    assert(closed + last =~= whole + value + "\" />\n</metadata>\n"@);
}

/// The title, the description and the captions each show their own values: the label, the size of
/// the device, the time, the rates, the number of samples and their budget.
#[verifier::rlimit(50)]
pub proof fn law_captions_show_their_values(report: Report, duration: Seq<char>)
    ensures
        text::holds(captions(report, duration), "<title id=\"title\">Read benchmark for "@ + escape::xml_text(report.device.label@) + "</title>\n"@),
        text::holds(captions(report, duration), "<desc id=\"desc\">Read-only transfer-rate samples across "@ + escape::xml_text(human::human_bytes_text(report.device_size as nat)) + ", generated at "@),
        text::holds(captions(report, duration), ", generated at "@ + escape::xml_text(report.run.generated_utc@) + ", maximum "@),
        text::holds(captions(report, duration), ", maximum "@ + report.summary.max_rate@ + " MiB/s, average "@),
        text::holds(captions(report, duration), " MiB/s, average "@ + report.summary.average_rate@ + " MiB/s.</desc>\n"@),
        text::holds(captions(report, duration), "<text x=\""@ + text::decimal(78) + "\" y=\"30\" font-family=\"sans-serif\" font-size=\"20\" fill=\"#111827\">Read rate across "@),
        text::holds(captions(report, duration), "\" y=\"30\" font-family=\"sans-serif\" font-size=\"20\" fill=\"#111827\">Read rate across "@ + escape::xml_text(report.device.label@) + "</text>\n"@),
        text::holds(captions(report, duration), "<text x=\""@ + text::decimal(78) + "\" y=\"50\" font-family=\"sans-serif\" font-size=\"12\" fill=\"#475569\">"@),
        text::holds(captions(report, duration), "\" y=\"50\" font-family=\"sans-serif\" font-size=\"12\" fill=\"#475569\">"@ + text::decimal(report.samples.len() as nat) + " samples, up to "@),
        text::holds(captions(report, duration), " samples, up to "@ + escape::xml_text(duration) + " per sample, device size "@),
        text::holds(captions(report, duration), " per sample, device size "@ + escape::xml_text(human::human_bytes_text(report.device_size as nat)) + "</text>\n"@),
        text::holds(captions(report, duration), "<text x=\""@ + text::decimal(78) + "\" y=\"66\" font-family=\"sans-serif\" font-size=\"12\" fill=\"#475569\">Generated "@),
        text::holds(captions(report, duration), "\" y=\"66\" font-family=\"sans-serif\" font-size=\"12\" fill=\"#475569\">Generated "@ + escape::xml_text(report.run.generated_utc@) + "</text>\n"@),
{
    broadcast use {text::lemma_holds_end, text::lemma_holds_before};

    let part0 = "<title id=\"title\">Read benchmark for "@;
    let part1 = part0 + escape::xml_text(report.device.label@);
    let part2 = part1 + "</title>\n"@;
    let part3 = part2 + "<desc id=\"desc\">Read-only transfer-rate samples across "@;
    let part4 = part3 + escape::xml_text(human::human_bytes_text(report.device_size as nat));
    let part5 = part4 + ", generated at "@;
    let part6 = part5 + escape::xml_text(report.run.generated_utc@);
    let part7 = part6 + ", maximum "@;
    let part8 = part7 + report.summary.max_rate@;
    let part9 = part8 + " MiB/s, average "@;
    let part10 = part9 + report.summary.average_rate@;
    let part11 = part10 + " MiB/s.</desc>\n"@;
    let part12 = part11 + "<rect width=\"1200\" height=\"520\" fill=\"#f8fafc\"/>\n"@;
    let part13 = part12 + "<text x=\""@;
    let part14 = part13 + text::decimal((LEFT / 10) as nat);
    let part15 = part14 + "\" y=\"30\" font-family=\"sans-serif\" font-size=\"20\" fill=\"#111827\">Read rate across "@;
    let part16 = part15 + escape::xml_text(report.device.label@);
    let part17 = part16 + "</text>\n"@;
    let part18 = part17 + "<text x=\""@;
    let part19 = part18 + text::decimal((LEFT / 10) as nat);
    let part20 = part19 + "\" y=\"50\" font-family=\"sans-serif\" font-size=\"12\" fill=\"#475569\">"@;
    let part21 = part20 + text::decimal(report.samples.len() as nat);
    let part22 = part21 + " samples, up to "@;
    let part23 = part22 + escape::xml_text(duration);
    let part24 = part23 + " per sample, device size "@;
    let part25 = part24 + escape::xml_text(human::human_bytes_text(report.device_size as nat));
    let part26 = part25 + "</text>\n"@;
    let part27 = part26 + "<text x=\""@;
    let part28 = part27 + text::decimal((LEFT / 10) as nat);
    let part29 = part28 + "\" y=\"66\" font-family=\"sans-serif\" font-size=\"12\" fill=\"#475569\">Generated "@;
    let part30 = part29 + escape::xml_text(report.run.generated_utc@);
    let part31 = part30 + "</text>\n"@;
    lemma_window_first("<title id=\"title\">Read benchmark for "@, escape::xml_text(report.device.label@), "</title>\n"@);
    lemma_window(part2, "<desc id=\"desc\">Read-only transfer-rate samples across "@, escape::xml_text(human::human_bytes_text(report.device_size as nat)), ", generated at "@);
    lemma_window(part4, ", generated at "@, escape::xml_text(report.run.generated_utc@), ", maximum "@);
    lemma_window(part6, ", maximum "@, report.summary.max_rate@, " MiB/s, average "@);
    lemma_window(part8, " MiB/s, average "@, report.summary.average_rate@, " MiB/s.</desc>\n"@);
    lemma_window(part12, "<text x=\""@, text::decimal((LEFT / 10) as nat), "\" y=\"30\" font-family=\"sans-serif\" font-size=\"20\" fill=\"#111827\">Read rate across "@);
    lemma_window(part14, "\" y=\"30\" font-family=\"sans-serif\" font-size=\"20\" fill=\"#111827\">Read rate across "@, escape::xml_text(report.device.label@), "</text>\n"@);
    lemma_window(part17, "<text x=\""@, text::decimal((LEFT / 10) as nat), "\" y=\"50\" font-family=\"sans-serif\" font-size=\"12\" fill=\"#475569\">"@);
    lemma_window(part19, "\" y=\"50\" font-family=\"sans-serif\" font-size=\"12\" fill=\"#475569\">"@, text::decimal(report.samples.len() as nat), " samples, up to "@);
    lemma_window(part21, " samples, up to "@, escape::xml_text(duration), " per sample, device size "@);
    lemma_window(part23, " per sample, device size "@, escape::xml_text(human::human_bytes_text(report.device_size as nat)), "</text>\n"@);
    lemma_window(part26, "<text x=\""@, text::decimal((LEFT / 10) as nat), "\" y=\"66\" font-family=\"sans-serif\" font-size=\"12\" fill=\"#475569\">Generated "@);
    lemma_window(part28, "\" y=\"66\" font-family=\"sans-serif\" font-size=\"12\" fill=\"#475569\">Generated "@, escape::xml_text(report.run.generated_utc@), "</text>\n"@);
    assert(part31 == captions(report, duration));
}

/// A tick of the rate axis is a line across the plot at the height of the tick, and its rate.
pub proof fn law_rate_ticks_show_their_rate(tick: nat, rate: Seq<char>)
    requires
        tick <= 5,
    ensures
        text::holds(rate_tick(tick, rate), "<line x1=\""@ + text::tenths(780) + "\" y1=\""@),
        text::holds(rate_tick(tick, rate), "\" y1=\""@ + text::tenths((4480 - 748 * tick) as nat) + "\" x2=\""@),
        text::holds(rate_tick(tick, rate), "\" x2=\""@ + text::tenths(11720) + "\" y2=\""@),
        text::holds(rate_tick(tick, rate), "\" y2=\""@ + text::tenths((4480 - 748 * tick) as nat) + "\" stroke=\"#e2e8f0\"/>\n"@),
        text::holds(rate_tick(tick, rate), "<text x=\""@ + text::tenths(700) + "\" y=\""@),
        text::holds(rate_tick(tick, rate), "\" y=\""@ + text::tenths((4520 - 748 * tick) as nat) + "\" text-anchor=\"end\" font-family=\"sans-serif\" font-size=\"11\" fill=\"#475569\">"@),
        text::holds(rate_tick(tick, rate), "\" text-anchor=\"end\" font-family=\"sans-serif\" font-size=\"11\" fill=\"#475569\">"@ + rate + "</text>\n"@),
{
    broadcast use {text::lemma_holds_end, text::lemma_holds_before};

    let part0 = "<line x1=\""@;
    let part1 = part0 + text::tenths(LEFT as nat);
    let part2 = part1 + "\" y1=\""@;
    let part3 = part2 + text::tenths(y_tick(tick));
    let part4 = part3 + "\" x2=\""@;
    let part5 = part4 + text::tenths(RIGHT as nat);
    let part6 = part5 + "\" y2=\""@;
    let part7 = part6 + text::tenths(y_tick(tick));
    let part8 = part7 + "\" stroke=\"#e2e8f0\"/>\n"@;
    let part9 = part8 + "<text x=\""@;
    let part10 = part9 + text::tenths((LEFT - 80) as nat);
    let part11 = part10 + "\" y=\""@;
    let part12 = part11 + text::tenths(y_tick(tick) + 40);
    let part13 = part12 + "\" text-anchor=\"end\" font-family=\"sans-serif\" font-size=\"11\" fill=\"#475569\">"@;
    let part14 = part13 + rate;
    let part15 = part14 + "</text>\n"@;
    lemma_window_first("<line x1=\""@, text::tenths(LEFT as nat), "\" y1=\""@);
    lemma_window(part1, "\" y1=\""@, text::tenths(y_tick(tick)), "\" x2=\""@);
    lemma_window(part3, "\" x2=\""@, text::tenths(RIGHT as nat), "\" y2=\""@);
    lemma_window(part5, "\" y2=\""@, text::tenths(y_tick(tick)), "\" stroke=\"#e2e8f0\"/>\n"@);
    lemma_window(part8, "<text x=\""@, text::tenths((LEFT - 80) as nat), "\" y=\""@);
    lemma_window(part10, "\" y=\""@, text::tenths(y_tick(tick) + 40), "\" text-anchor=\"end\" font-family=\"sans-serif\" font-size=\"11\" fill=\"#475569\">"@);
    lemma_window(part12, "\" text-anchor=\"end\" font-family=\"sans-serif\" font-size=\"11\" fill=\"#475569\">"@, rate, "</text>\n"@);
    assert(part15 == rate_tick(tick, rate));
}

/// A tick of the position axis is a line up the plot a quarter of its width further right than the
/// one before, and its percentage.
pub proof fn law_position_ticks_show_their_percentage(tick: nat)
    ensures
        text::holds(position_tick(tick), "<line x1=\""@ + text::tenths(780 + 2735 * tick) + "\" y1=\""@),
        text::holds(position_tick(tick), "\" y1=\""@ + text::tenths(740) + "\" x2=\""@),
        text::holds(position_tick(tick), "\" x2=\""@ + text::tenths(780 + 2735 * tick) + "\" y2=\""@),
        text::holds(position_tick(tick), "\" y2=\""@ + text::tenths(4480) + "\" stroke=\"#e2e8f0\"/>\n"@),
        text::holds(position_tick(tick), "<text x=\""@ + text::tenths(780 + 2735 * tick) + "\" y=\""@),
        text::holds(position_tick(tick), "\" y=\""@ + text::tenths(4700) + "\" text-anchor=\"middle\" font-family=\"sans-serif\" font-size=\"11\" fill=\"#475569\">"@),
        text::holds(position_tick(tick), "\" text-anchor=\"middle\" font-family=\"sans-serif\" font-size=\"11\" fill=\"#475569\">"@ + text::decimal(25 * tick) + "%</text>\n"@),
{
    broadcast use {text::lemma_holds_end, text::lemma_holds_before};

    let part0 = "<line x1=\""@;
    let part1 = part0 + text::tenths(x_tick(tick));
    let part2 = part1 + "\" y1=\""@;
    let part3 = part2 + text::tenths(TOP as nat);
    let part4 = part3 + "\" x2=\""@;
    let part5 = part4 + text::tenths(x_tick(tick));
    let part6 = part5 + "\" y2=\""@;
    let part7 = part6 + text::tenths(BOTTOM as nat);
    let part8 = part7 + "\" stroke=\"#e2e8f0\"/>\n"@;
    let part9 = part8 + "<text x=\""@;
    let part10 = part9 + text::tenths(x_tick(tick));
    let part11 = part10 + "\" y=\""@;
    let part12 = part11 + text::tenths((BOTTOM + 220) as nat);
    let part13 = part12 + "\" text-anchor=\"middle\" font-family=\"sans-serif\" font-size=\"11\" fill=\"#475569\">"@;
    let part14 = part13 + text::decimal(25 * tick);
    let part15 = part14 + "%</text>\n"@;
    lemma_window_first("<line x1=\""@, text::tenths(x_tick(tick)), "\" y1=\""@);
    lemma_window(part1, "\" y1=\""@, text::tenths(TOP as nat), "\" x2=\""@);
    lemma_window(part3, "\" x2=\""@, text::tenths(x_tick(tick)), "\" y2=\""@);
    lemma_window(part5, "\" y2=\""@, text::tenths(BOTTOM as nat), "\" stroke=\"#e2e8f0\"/>\n"@);
    lemma_window(part8, "<text x=\""@, text::tenths(x_tick(tick)), "\" y=\""@);
    lemma_window(part10, "\" y=\""@, text::tenths((BOTTOM + 220) as nat), "\" text-anchor=\"middle\" font-family=\"sans-serif\" font-size=\"11\" fill=\"#475569\">"@);
    lemma_window(part12, "\" text-anchor=\"middle\" font-family=\"sans-serif\" font-size=\"11\" fill=\"#475569\">"@, text::decimal(25 * tick), "%</text>\n"@);
    assert(part15 == position_tick(tick));
}

/// The axes run along the lower and the left edge of the plot.
pub proof fn law_axes_frame_the_plot()
    ensures
        text::holds(axes(), "<line x1=\""@ + text::tenths(780) + "\" y1=\""@),
        text::holds(axes(), "\" y1=\""@ + text::tenths(4480) + "\" x2=\""@),
        text::holds(axes(), "\" x2=\""@ + text::tenths(11720) + "\" y2=\""@),
        text::holds(axes(), "\" y2=\""@ + text::tenths(4480) + "\" stroke=\"#334155\"/>\n"@),
        text::holds(axes(), "\" y1=\""@ + text::tenths(740) + "\" x2=\""@),
        text::holds(axes(), "\" x2=\""@ + text::tenths(780) + "\" y2=\""@),
{
    broadcast use {text::lemma_holds_end, text::lemma_holds_before};

    let part0 = "<line x1=\""@;
    let part1 = part0 + text::tenths(LEFT as nat);
    let part2 = part1 + "\" y1=\""@;
    let part3 = part2 + text::tenths(BOTTOM as nat);
    let part4 = part3 + "\" x2=\""@;
    let part5 = part4 + text::tenths(RIGHT as nat);
    let part6 = part5 + "\" y2=\""@;
    let part7 = part6 + text::tenths(BOTTOM as nat);
    let part8 = part7 + "\" stroke=\"#334155\"/>\n"@;
    let part9 = part8 + "<line x1=\""@;
    let part10 = part9 + text::tenths(LEFT as nat);
    let part11 = part10 + "\" y1=\""@;
    let part12 = part11 + text::tenths(TOP as nat);
    let part13 = part12 + "\" x2=\""@;
    let part14 = part13 + text::tenths(LEFT as nat);
    let part15 = part14 + "\" y2=\""@;
    let part16 = part15 + text::tenths(BOTTOM as nat);
    let part17 = part16 + "\" stroke=\"#334155\"/>\n"@;
    lemma_window_first("<line x1=\""@, text::tenths(LEFT as nat), "\" y1=\""@);
    lemma_window(part1, "\" y1=\""@, text::tenths(BOTTOM as nat), "\" x2=\""@);
    lemma_window(part3, "\" x2=\""@, text::tenths(RIGHT as nat), "\" y2=\""@);
    lemma_window(part5, "\" y2=\""@, text::tenths(BOTTOM as nat), "\" stroke=\"#334155\"/>\n"@);
    lemma_window(part8, "<line x1=\""@, text::tenths(LEFT as nat), "\" y1=\""@);
    lemma_window(part10, "\" y1=\""@, text::tenths(TOP as nat), "\" x2=\""@);
    lemma_window(part12, "\" x2=\""@, text::tenths(LEFT as nat), "\" y2=\""@);
    lemma_window(part14, "\" y2=\""@, text::tenths(BOTTOM as nat), "\" stroke=\"#334155\"/>\n"@);
    assert(part17 == axes());
}

/// The line of the average lies level at its own height, with the average rate as its label.
#[verifier::rlimit(50)]
pub proof fn law_closing_shows_the_average(chart: Chart, summary: SummaryStats)
    ensures
        text::holds(closing(chart, summary), "<line x1=\""@ + text::tenths(780) + "\" y1=\""@),
        text::holds(closing(chart, summary), "\" y1=\""@ + chart.average_y@ + "\" x2=\""@),
        text::holds(closing(chart, summary), "\" x2=\""@ + text::tenths(11720) + "\" y2=\""@),
        text::holds(closing(chart, summary), "\" y2=\""@ + chart.average_y@ + "\" stroke=\"#dc2626\" stroke-width=\"2\" stroke-dasharray=\"6 5\"/>\n"@),
        text::holds(closing(chart, summary), "<text x=\""@ + text::tenths(11720) + "\" y=\""@),
        text::holds(closing(chart, summary), "\" y=\""@ + chart.average_label_y@ + "\" text-anchor=\"end\" font-family=\"sans-serif\" font-size=\"12\" fill=\"#dc2626\">avg "@),
        text::holds(closing(chart, summary), "\" text-anchor=\"end\" font-family=\"sans-serif\" font-size=\"12\" fill=\"#dc2626\">avg "@ + summary.average_rate@ + " MiB/s</text>\n"@),
        text::holds(closing(chart, summary), "<text x=\""@ + text::tenths(6250) + "\" y=\""@),
        text::holds(closing(chart, summary), "\" y=\""@ + text::tenths(4980) + "\" text-anchor=\"middle\" font-family=\"sans-serif\" font-size=\"13\" fill=\"#334155\">Position across device</text>\n"@),
        text::holds(closing(chart, summary), "<text x=\"22\" y=\""@ + text::tenths(2610) + "\" transform=\"rotate(-90 22 "@),
        text::holds(closing(chart, summary), "\" transform=\"rotate(-90 22 "@ + text::tenths(2610) + ")\" text-anchor=\"middle\" font-family=\"sans-serif\" font-size=\"13\" fill=\"#334155\">MiB/s</text>\n"@),
{
    broadcast use {text::lemma_holds_end, text::lemma_holds_before};

    let part0 = "<line x1=\""@;
    let part1 = part0 + text::tenths(LEFT as nat);
    let part2 = part1 + "\" y1=\""@;
    let part3 = part2 + chart.average_y@;
    let part4 = part3 + "\" x2=\""@;
    let part5 = part4 + text::tenths(RIGHT as nat);
    let part6 = part5 + "\" y2=\""@;
    let part7 = part6 + chart.average_y@;
    let part8 = part7 + "\" stroke=\"#dc2626\" stroke-width=\"2\" stroke-dasharray=\"6 5\"/>\n"@;
    let part9 = part8 + "<text x=\""@;
    let part10 = part9 + text::tenths(RIGHT as nat);
    let part11 = part10 + "\" y=\""@;
    let part12 = part11 + chart.average_label_y@;
    let part13 = part12 + "\" text-anchor=\"end\" font-family=\"sans-serif\" font-size=\"12\" fill=\"#dc2626\">avg "@;
    let part14 = part13 + summary.average_rate@;
    let part15 = part14 + " MiB/s</text>\n"@;
    let part16 = part15 + "<text x=\""@;
    let part17 = part16 + text::tenths(((LEFT + RIGHT) / 2) as nat);
    let part18 = part17 + "\" y=\""@;
    let part19 = part18 + text::tenths((HEIGHT - 220) as nat);
    let part20 = part19 + "\" text-anchor=\"middle\" font-family=\"sans-serif\" font-size=\"13\" fill=\"#334155\">Position across device</text>\n"@;
    let part21 = part20 + "<text x=\"22\" y=\""@;
    let part22 = part21 + text::tenths(((TOP + BOTTOM) / 2) as nat);
    let part23 = part22 + "\" transform=\"rotate(-90 22 "@;
    let part24 = part23 + text::tenths(((TOP + BOTTOM) / 2) as nat);
    let part25 = part24 + ")\" text-anchor=\"middle\" font-family=\"sans-serif\" font-size=\"13\" fill=\"#334155\">MiB/s</text>\n"@;
    let part26 = part25 + "</svg>\n"@;
    lemma_window_first("<line x1=\""@, text::tenths(LEFT as nat), "\" y1=\""@);
    lemma_window(part1, "\" y1=\""@, chart.average_y@, "\" x2=\""@);
    lemma_window(part3, "\" x2=\""@, text::tenths(RIGHT as nat), "\" y2=\""@);
    lemma_window(part5, "\" y2=\""@, chart.average_y@, "\" stroke=\"#dc2626\" stroke-width=\"2\" stroke-dasharray=\"6 5\"/>\n"@);
    lemma_window(part8, "<text x=\""@, text::tenths(RIGHT as nat), "\" y=\""@);
    lemma_window(part10, "\" y=\""@, chart.average_label_y@, "\" text-anchor=\"end\" font-family=\"sans-serif\" font-size=\"12\" fill=\"#dc2626\">avg "@);
    lemma_window(part12, "\" text-anchor=\"end\" font-family=\"sans-serif\" font-size=\"12\" fill=\"#dc2626\">avg "@, summary.average_rate@, " MiB/s</text>\n"@);
    lemma_window(part15, "<text x=\""@, text::tenths(((LEFT + RIGHT) / 2) as nat), "\" y=\""@);
    lemma_window(part17, "\" y=\""@, text::tenths((HEIGHT - 220) as nat), "\" text-anchor=\"middle\" font-family=\"sans-serif\" font-size=\"13\" fill=\"#334155\">Position across device</text>\n"@);
    lemma_window(part20, "<text x=\"22\" y=\""@, text::tenths(((TOP + BOTTOM) / 2) as nat), "\" transform=\"rotate(-90 22 "@);
    lemma_window(part22, "\" transform=\"rotate(-90 22 "@, text::tenths(((TOP + BOTTOM) / 2) as nat), ")\" text-anchor=\"middle\" font-family=\"sans-serif\" font-size=\"13\" fill=\"#334155\">MiB/s</text>\n"@);
    assert(part26 == closing(chart, summary));
}

/// The document shows each bar with the whole of its geometry: how far right it stands, how far
/// down its upper end, how wide and how high it is. The bar of the next sample follows at once.
pub proof fn law_svg_shows_the_geometry_of_every_bar(
    report: Report,
    chart: Chart,
    duration: Seq<char>,
    i: int,
)
    requires
        0 <= i < chart.bars@.len(),
    ensures
        ({
            let svg = document(report, chart, duration);
            let bar = chart.bars@[i];
            let shown = "<rect x=\""@ + bar.x@ + "\" y=\""@ + bar.y@ + "\" width=\""@ + bar.width@
                    + "\" height=\""@ + bar.height@
                    + "\" fill=\"#2563eb\" opacity=\"0.85\"/>\n"@;
            &&& text::holds(svg, shown)
            &&& i + 1 < chart.bars@.len() ==> {
                let next = chart.bars@[i + 1];
                text::holds(
                    svg,
                    shown + ("<rect x=\""@ + next.x@ + "\" y=\""@ + next.y@ + "\" width=\""@ + next.width@
                    + "\" height=\""@ + next.height@
                    + "\" fill=\"#2563eb\" opacity=\"0.85\"/>\n"@),
                )
            }
        }),
{
    broadcast use {text::lemma_holds_end, text::lemma_holds_before};

    law_svg_shows_every_bar(report, chart, duration, i);
    if i + 1 < chart.bars@.len() {
        lemma_bars_in_order(chart.bars@, i);
        text::lemma_holds_within(
            document(report, chart, duration),
            bar_elements(chart.bars@),
            bar_element(chart.bars@[i]) + bar_element(chart.bars@[i + 1]),
        );
    }
}

proof fn lemma_bars_in_order(bars: Seq<Bar>, i: int)
    requires
        0 <= i < bars.len() - 1,
    ensures
        text::holds(bar_elements(bars), bar_element(bars[i]) + bar_element(bars[i + 1])),
    decreases bars.len(),
{
    broadcast use {text::lemma_holds_end, text::lemma_holds_before};

    let init = bars.drop_last();
    if i < bars.len() - 2 {
        lemma_bars_in_order(init, i);
    } else {
        let before = bar_elements(init.drop_last());
        let two = bar_element(bars[i]) + bar_element(bars[i + 1]);
        assert(init.last() == bars[i] && bars.last() == bars[i + 1]);
        assert(bar_elements(init) == before + bar_element(bars[i]));
        assert(bar_elements(bars) == bar_elements(init) + bar_element(bars[i + 1]));
        assert(bar_elements(bars) =~= before + two);
    }
}

/// The document holds its metadata, its captions, a line and a label for each tick of the two axes,
/// the axes and the average.
pub proof fn law_svg_has_all_its_parts(
    report: Report,
    chart: Chart,
    duration: Seq<char>,
    tick: nat,
)
    requires
        tick <= 5,
    ensures
        ({
            let svg = document(report, chart, duration);
            &&& text::holds(svg, metadata_element(report))
            &&& text::holds(svg, captions(report, duration))
            &&& text::holds(svg, rate_tick(tick, chart.tick_rates@[tick as int]@))
            &&& tick <= 4 ==> text::holds(svg, position_tick(tick))
            &&& text::holds(svg, axes())
            &&& text::holds(svg, closing(chart, report.summary))
        }),
{
    broadcast use {text::lemma_holds_end, text::lemma_holds_before};

    let ticks = rate_ticks(chart.tick_rates@, (RATE_STEPS + 1) as nat);
    lemma_rate_tick_held(chart.tick_rates@, 6, tick);
    text::lemma_holds_within(
        document(report, chart, duration),
        ticks,
        rate_tick(tick, chart.tick_rates@[tick as int]@),
    );
    if tick <= 4 {
        let positions = position_ticks((POSITION_STEPS + 1) as nat);
        lemma_position_tick_held(5, tick);
        text::lemma_holds_within(
            document(report, chart, duration),
            positions,
            position_tick(tick),
        );
    }
}

proof fn lemma_position_tick_held(count: nat, tick: nat)
    requires
        tick < count,
    ensures
        text::holds(position_ticks(count), position_tick(tick)),
    decreases count,
{
    broadcast use {text::lemma_holds_end, text::lemma_holds_before};

    if tick < count - 1 {
        lemma_position_tick_held((count - 1) as nat, tick);
    }
}

proof fn lemma_rate_tick_held(rates: Seq<String>, count: nat, tick: nat)
    requires
        tick < count,
    ensures
        text::holds(rate_ticks(rates, count), rate_tick(tick, rates[tick as int]@)),
    decreases count,
{
    broadcast use {text::lemma_holds_end, text::lemma_holds_before};

    if tick < count - 1 {
        lemma_rate_tick_held(rates, (count - 1) as nat, tick);
    }
}

/// Whether a text that is put into the document as it is adds no tag to it: it holds no opening
/// bracket.
pub open spec fn is_untagged(text: Seq<char>) -> bool {
    forall|i: int| 0 <= i < text.len() ==> #[trigger] text[i] != '<'
}

proof fn lemma_literal_tags_1()
    ensures
        text::count("\""@, '<') == 0,
        text::count("\" y=\""@, '<') == 0,
        text::count("\" y1=\""@, '<') == 0,
        text::count("</svg>\n"@, '<') == 1,
        text::count("\" x2=\""@, '<') == 0,
        text::count("\" y2=\""@, '<') == 0,
        text::count("</text>\n"@, '<') == 1,
        text::count("</title>\n"@, '<') == 1,
        text::count(", maximum "@, '<') == 0,
        text::count("<rect x=\""@, '<') == 1,
        text::count("<text x=\""@, '<') == 1,
        text::count("%</text>\n"@, '<') == 1,
        text::count("\" width=\""@, '<') == 0,
        text::count("<line x1=\""@, '<') == 1,
        text::count("\" height=\""@, '<') == 0,
        text::count("\" samples=\""@, '<') == 0,
        text::count(" by-id-path=\""@, '<') == 0,
        text::count(", generated at "@, '<') == 0,
        text::count(" output-path=\""@, '<') == 0,
        text::count(" MiB/s</text>\n"@, '<') == 1,
        text::count(" MiB/s.</desc>\n"@, '<') == 1,
        text::count(" samples, up to "@, '<') == 0,
        text::count(" MiB/s, average "@, '<') == 0,
        text::count("\" input-path=\""@, '<') == 0,
        text::count("<text x=\"22\" y=\""@, '<') == 1,
        text::count("\" generated-utc=\""@, '<') == 0,
        text::count("\" canonical-path=\""@, '<') == 0,
        text::count("\" />\n</metadata>\n"@, '<') == 1,
        text::count("\" alignment-bytes=\""@, '<') == 0,
        text::count("\" end-runway-bytes=\""@, '<') == 0,
        text::count("\" read-chunk-bytes=\""@, '<') == 0,
        text::count("\" sample-duration-ms=\""@, '<') == 0,
        text::count("\" stroke=\"#e2e8f0\"/>\n"@, '<') == 0,
        text::count("\" stroke=\"#334155\"/>\n"@, '<') == 0,
{
    reveal_strlit("\"");
    reveal_strlit("\" y=\"");
    reveal_strlit("\" y1=\"");
    reveal_strlit("</svg>\n");
    reveal_strlit("\" x2=\"");
    reveal_strlit("\" y2=\"");
    reveal_strlit("</text>\n");
    reveal_strlit("</title>\n");
    reveal_strlit(", maximum ");
    reveal_strlit("<rect x=\"");
    reveal_strlit("<text x=\"");
    reveal_strlit("%</text>\n");
    reveal_strlit("\" width=\"");
    reveal_strlit("<line x1=\"");
    reveal_strlit("\" height=\"");
    reveal_strlit("\" samples=\"");
    reveal_strlit(" by-id-path=\"");
    reveal_strlit(", generated at ");
    reveal_strlit(" output-path=\"");
    reveal_strlit(" MiB/s</text>\n");
    reveal_strlit(" MiB/s.</desc>\n");
    reveal_strlit(" samples, up to ");
    reveal_strlit(" MiB/s, average ");
    reveal_strlit("\" input-path=\"");
    reveal_strlit("<text x=\"22\" y=\"");
    reveal_strlit("\" generated-utc=\"");
    reveal_strlit("\" canonical-path=\"");
    reveal_strlit("\" />\n</metadata>\n");
    reveal_strlit("\" alignment-bytes=\"");
    reveal_strlit("\" end-runway-bytes=\"");
    reveal_strlit("\" read-chunk-bytes=\"");
    reveal_strlit("\" sample-duration-ms=\"");
    reveal_strlit("\" stroke=\"#e2e8f0\"/>\n");
    reveal_strlit("\" stroke=\"#334155\"/>\n");
    text::lemma_count_absent("\""@, '<');
    text::lemma_count_absent("\" y=\""@, '<');
    text::lemma_count_absent("\" y1=\""@, '<');
    text::lemma_count_single("</svg>\n"@, '<', 0);
    text::lemma_count_absent("\" x2=\""@, '<');
    text::lemma_count_absent("\" y2=\""@, '<');
    text::lemma_count_single("</text>\n"@, '<', 0);
    text::lemma_count_single("</title>\n"@, '<', 0);
    text::lemma_count_absent(", maximum "@, '<');
    text::lemma_count_single("<rect x=\""@, '<', 0);
    text::lemma_count_single("<text x=\""@, '<', 0);
    text::lemma_count_single("%</text>\n"@, '<', 1);
    text::lemma_count_absent("\" width=\""@, '<');
    text::lemma_count_single("<line x1=\""@, '<', 0);
    text::lemma_count_absent("\" height=\""@, '<');
    text::lemma_count_absent("\" samples=\""@, '<');
    text::lemma_count_absent(" by-id-path=\""@, '<');
    text::lemma_count_absent(", generated at "@, '<');
    text::lemma_count_absent(" output-path=\""@, '<');
    text::lemma_count_single(" MiB/s</text>\n"@, '<', 6);
    text::lemma_count_single(" MiB/s.</desc>\n"@, '<', 7);
    text::lemma_count_absent(" samples, up to "@, '<');
    text::lemma_count_absent(" MiB/s, average "@, '<');
    text::lemma_count_absent("\" input-path=\""@, '<');
    text::lemma_count_single("<text x=\"22\" y=\""@, '<', 0);
    text::lemma_count_absent("\" generated-utc=\""@, '<');
    text::lemma_count_absent("\" canonical-path=\""@, '<');
    text::lemma_count_single("\" />\n</metadata>\n"@, '<', 5);
    text::lemma_count_absent("\" alignment-bytes=\""@, '<');
    text::lemma_count_absent("\" end-runway-bytes=\""@, '<');
    text::lemma_count_absent("\" read-chunk-bytes=\""@, '<');
    text::lemma_count_absent("\" sample-duration-ms=\""@, '<');
    text::lemma_count_absent("\" stroke=\"#e2e8f0\"/>\n"@, '<');
    text::lemma_count_absent("\" stroke=\"#334155\"/>\n"@, '<');
}

proof fn lemma_literal_tags_2()
    ensures
        text::count(" per sample, device size "@, '<') == 0,
        text::count("\" generated-unix-seconds=\""@, '<') == 0,
        text::count("\" transform=\"rotate(-90 22 "@, '<') == 0,
        text::count("<title id=\"title\">Read benchmark for "@, '<') == 1,
        text::count("\" fill=\"#2563eb\" opacity=\"0.85\"/>\n"@, '<') == 0,
        text::count("<metadata>\n  <block-benchie device-label=\""@, '<') == 2,
        text::count("<rect width=\"1200\" height=\"520\" fill=\"#f8fafc\"/>\n"@, '<') == 1,
        text::count("<desc id=\"desc\">Read-only transfer-rate samples across "@, '<') == 1,
        text::count("\" io=\"direct\" open-flag=\"O_DIRECT\" device-size-bytes=\""@, '<') == 0,
        text::count("\" stroke=\"#dc2626\" stroke-width=\"2\" stroke-dasharray=\"6 5\"/>\n"@, '<') == 0,
{
    reveal_strlit(" per sample, device size ");
    reveal_strlit("\" generated-unix-seconds=\"");
    reveal_strlit("\" transform=\"rotate(-90 22 ");
    reveal_strlit("<title id=\"title\">Read benchmark for ");
    reveal_strlit("\" fill=\"#2563eb\" opacity=\"0.85\"/>\n");
    reveal_strlit("<metadata>\n  <block-benchie device-label=\"");
    reveal_strlit("<rect width=\"1200\" height=\"520\" fill=\"#f8fafc\"/>\n");
    reveal_strlit("<desc id=\"desc\">Read-only transfer-rate samples across ");
    reveal_strlit("\" io=\"direct\" open-flag=\"O_DIRECT\" device-size-bytes=\"");
    reveal_strlit("\" stroke=\"#dc2626\" stroke-width=\"2\" stroke-dasharray=\"6 5\"/>\n");
    text::lemma_count_absent(" per sample, device size "@, '<');
    text::lemma_count_absent("\" generated-unix-seconds=\""@, '<');
    text::lemma_count_absent("\" transform=\"rotate(-90 22 "@, '<');
    text::lemma_count_single("<title id=\"title\">Read benchmark for "@, '<', 0);
    text::lemma_count_absent("\" fill=\"#2563eb\" opacity=\"0.85\"/>\n"@, '<');
    text::lemma_count_pair("<metadata>\n  <block-benchie device-label=\""@, '<', 0, 13);
    text::lemma_count_single("<rect width=\"1200\" height=\"520\" fill=\"#f8fafc\"/>\n"@, '<', 0);
    text::lemma_count_single("<desc id=\"desc\">Read-only transfer-rate samples across "@, '<', 0);
    text::lemma_count_absent("\" io=\"direct\" open-flag=\"O_DIRECT\" device-size-bytes=\""@, '<');
    text::lemma_count_absent("\" stroke=\"#dc2626\" stroke-width=\"2\" stroke-dasharray=\"6 5\"/>\n"@, '<');
}

proof fn lemma_literal_tags_3()
    ensures
        text::count("\" y=\"50\" font-family=\"sans-serif\" font-size=\"12\" fill=\"#475569\">"@, '<') == 0,
        text::count("\" y=\"66\" font-family=\"sans-serif\" font-size=\"12\" fill=\"#475569\">Generated "@, '<') == 0,
        text::count("\" text-anchor=\"end\" font-family=\"sans-serif\" font-size=\"11\" fill=\"#475569\">"@, '<') == 0,
        text::count("\" text-anchor=\"middle\" font-family=\"sans-serif\" font-size=\"11\" fill=\"#475569\">"@, '<') == 0,
        text::count("\" text-anchor=\"end\" font-family=\"sans-serif\" font-size=\"12\" fill=\"#dc2626\">avg "@, '<') == 0,
        text::count("\" y=\"30\" font-family=\"sans-serif\" font-size=\"20\" fill=\"#111827\">Read rate across "@, '<') == 0,
{
    reveal_strlit("\" y=\"50\" font-family=\"sans-serif\" font-size=\"12\" fill=\"#475569\">");
    reveal_strlit("\" y=\"66\" font-family=\"sans-serif\" font-size=\"12\" fill=\"#475569\">Generated ");
    reveal_strlit("\" text-anchor=\"end\" font-family=\"sans-serif\" font-size=\"11\" fill=\"#475569\">");
    reveal_strlit("\" text-anchor=\"middle\" font-family=\"sans-serif\" font-size=\"11\" fill=\"#475569\">");
    reveal_strlit("\" text-anchor=\"end\" font-family=\"sans-serif\" font-size=\"12\" fill=\"#dc2626\">avg ");
    reveal_strlit("\" y=\"30\" font-family=\"sans-serif\" font-size=\"20\" fill=\"#111827\">Read rate across ");
    text::lemma_count_absent("\" y=\"50\" font-family=\"sans-serif\" font-size=\"12\" fill=\"#475569\">"@, '<');
    text::lemma_count_absent("\" y=\"66\" font-family=\"sans-serif\" font-size=\"12\" fill=\"#475569\">Generated "@, '<');
    text::lemma_count_absent("\" text-anchor=\"end\" font-family=\"sans-serif\" font-size=\"11\" fill=\"#475569\">"@, '<');
    text::lemma_count_absent("\" text-anchor=\"middle\" font-family=\"sans-serif\" font-size=\"11\" fill=\"#475569\">"@, '<');
    text::lemma_count_absent("\" text-anchor=\"end\" font-family=\"sans-serif\" font-size=\"12\" fill=\"#dc2626\">avg "@, '<');
    text::lemma_count_absent("\" y=\"30\" font-family=\"sans-serif\" font-size=\"20\" fill=\"#111827\">Read rate across "@, '<');
}

proof fn lemma_literal_tags_4()
    ensures
        text::count(")\" text-anchor=\"middle\" font-family=\"sans-serif\" font-size=\"13\" fill=\"#334155\">MiB/s</text>\n"@, '<') == 1,
        text::count("\" text-anchor=\"middle\" font-family=\"sans-serif\" font-size=\"13\" fill=\"#334155\">Position across device</text>\n"@, '<') == 1,
        text::count("<?xml version=\"1.0\" encoding=\"UTF-8\"?>\n<svg xmlns=\"http://www.w3.org/2000/svg\" viewBox=\"0 0 1200 520\" role=\"img\" aria-labelledby=\"title desc\">\n"@, '<') == 2,
{
    reveal_strlit(")\" text-anchor=\"middle\" font-family=\"sans-serif\" font-size=\"13\" fill=\"#334155\">MiB/s</text>\n");
    reveal_strlit("\" text-anchor=\"middle\" font-family=\"sans-serif\" font-size=\"13\" fill=\"#334155\">Position across device</text>\n");
    reveal_strlit("<?xml version=\"1.0\" encoding=\"UTF-8\"?>\n<svg xmlns=\"http://www.w3.org/2000/svg\" viewBox=\"0 0 1200 520\" role=\"img\" aria-labelledby=\"title desc\">\n");
    text::lemma_count_single(")\" text-anchor=\"middle\" font-family=\"sans-serif\" font-size=\"13\" fill=\"#334155\">MiB/s</text>\n"@, '<', 84);
    text::lemma_count_single("\" text-anchor=\"middle\" font-family=\"sans-serif\" font-size=\"13\" fill=\"#334155\">Position across device</text>\n"@, '<', 100);
    text::lemma_count_pair("<?xml version=\"1.0\" encoding=\"UTF-8\"?>\n<svg xmlns=\"http://www.w3.org/2000/svg\" viewBox=\"0 0 1200 520\" role=\"img\" aria-labelledby=\"title desc\">\n"@, '<', 0, 39);
}

broadcast proof fn lemma_escaped_untagged(value: Seq<char>)
    ensures
        #[trigger] text::count(escape::xml_text(value), '<') == 0,
{
    escape::law_escaped_xml_holds_no_markup(value);
    text::lemma_count_absent(escape::xml_text(value), '<');
}

broadcast proof fn lemma_decimal_untagged(n: nat)
    ensures
        #[trigger] text::count(text::decimal(n), '<') == 0,
{
    text::lemma_decimal_is_digits(n);
    text::lemma_count_absent(text::decimal(n), '<');
}

broadcast proof fn lemma_tenths_untagged(t: nat)
    ensures
        #[trigger] text::count(text::tenths(t), '<') == 0,
{
    broadcast use {text::lemma_count_joined, lemma_decimal_untagged};

    reveal_strlit(".");
    text::lemma_count_absent("."@, '<');
}

proof fn lemma_metadata_tags(report: Report)
    ensures
        text::count(metadata_element(report), '<') == 3,
{
    broadcast use {
        text::lemma_count_joined,
        lemma_escaped_untagged,
        lemma_decimal_untagged,
        lemma_tenths_untagged,
    };

    lemma_literal_tags_1();
    lemma_literal_tags_2();
    lemma_literal_tags_3();
    lemma_literal_tags_4();
    text::lemma_count_absent(Seq::<char>::empty(), '<');
    assert(text::count(by_id_attribute(device::path_view(report.device.by_id_path)), '<') == 0);
}

proof fn lemma_caption_tags(report: Report, duration: Seq<char>)
    requires
        is_untagged(report.summary.max_rate@),
        is_untagged(report.summary.average_rate@),
    ensures
        text::count(captions(report, duration), '<') == 11,
{
    broadcast use {
        text::lemma_count_joined,
        lemma_escaped_untagged,
        lemma_decimal_untagged,
        lemma_tenths_untagged,
    };

    lemma_literal_tags_1();
    lemma_literal_tags_2();
    lemma_literal_tags_3();
    lemma_literal_tags_4();
    text::lemma_count_absent(report.summary.max_rate@, '<');
    text::lemma_count_absent(report.summary.average_rate@, '<');
}

proof fn lemma_rate_tick_tags(tick: nat, rate: Seq<char>)
    requires
        is_untagged(rate),
    ensures
        text::count(rate_tick(tick, rate), '<') == 3,
{
    broadcast use {
        text::lemma_count_joined,
        lemma_escaped_untagged,
        lemma_decimal_untagged,
        lemma_tenths_untagged,
    };

    lemma_literal_tags_1();
    lemma_literal_tags_2();
    lemma_literal_tags_3();
    lemma_literal_tags_4();
    text::lemma_count_absent(rate, '<');
}

proof fn lemma_position_tick_tags(tick: nat)
    ensures
        text::count(position_tick(tick), '<') == 3,
{
    broadcast use {
        text::lemma_count_joined,
        lemma_escaped_untagged,
        lemma_decimal_untagged,
        lemma_tenths_untagged,
    };

    lemma_literal_tags_1();
    lemma_literal_tags_2();
    lemma_literal_tags_3();
    lemma_literal_tags_4();
}

proof fn lemma_axes_tags()
    ensures
        text::count(axes(), '<') == 2,
{
    broadcast use {
        text::lemma_count_joined,
        lemma_escaped_untagged,
        lemma_decimal_untagged,
        lemma_tenths_untagged,
    };

    lemma_literal_tags_1();
    lemma_literal_tags_2();
    lemma_literal_tags_3();
    lemma_literal_tags_4();
}

proof fn lemma_bar_tags(bar: Bar)
    requires
        is_untagged(bar.x@),
        is_untagged(bar.y@),
        is_untagged(bar.width@),
        is_untagged(bar.height@),
    ensures
        text::count(bar_element(bar), '<') == 1,
{
    broadcast use {
        text::lemma_count_joined,
        lemma_escaped_untagged,
        lemma_decimal_untagged,
        lemma_tenths_untagged,
    };

    lemma_literal_tags_1();
    lemma_literal_tags_2();
    lemma_literal_tags_3();
    lemma_literal_tags_4();
    text::lemma_count_absent(bar.x@, '<');
    text::lemma_count_absent(bar.y@, '<');
    text::lemma_count_absent(bar.width@, '<');
    text::lemma_count_absent(bar.height@, '<');
}

proof fn lemma_closing_tags(chart: Chart, summary: SummaryStats)
    requires
        is_untagged(chart.average_y@),
        is_untagged(chart.average_label_y@),
        is_untagged(summary.average_rate@),
    ensures
        text::count(closing(chart, summary), '<') == 8,
{
    broadcast use {
        text::lemma_count_joined,
        lemma_escaped_untagged,
        lemma_decimal_untagged,
        lemma_tenths_untagged,
    };

    lemma_literal_tags_1();
    lemma_literal_tags_2();
    lemma_literal_tags_3();
    lemma_literal_tags_4();
    text::lemma_count_absent(chart.average_y@, '<');
    text::lemma_count_absent(chart.average_label_y@, '<');
    text::lemma_count_absent(summary.average_rate@, '<');
}

proof fn lemma_rate_ticks_tags(rates: Seq<String>, count: nat)
    requires
        forall|i: int| 0 <= i < count ==> is_untagged((#[trigger] rates[i])@),
    ensures
        text::count(rate_ticks(rates, count), '<') == 3 * count,
    decreases count,
{
    if count > 0 {
        let init = (count - 1) as nat;
        lemma_rate_ticks_tags(rates, init);
        lemma_rate_tick_tags(init, rates[count - 1]@);
        text::lemma_count_joined(
            rate_ticks(rates, init),
            rate_tick(init, rates[count - 1]@),
            '<',
        );
    }
}

proof fn lemma_position_ticks_tags(count: nat)
    ensures
        text::count(position_ticks(count), '<') == 3 * count,
    decreases count,
{
    if count > 0 {
        let init = (count - 1) as nat;
        lemma_position_ticks_tags(init);
        lemma_position_tick_tags(init);
        text::lemma_count_joined(position_ticks(init), position_tick(init), '<');
    }
}

proof fn lemma_bars_tags(bars: Seq<Bar>)
    requires
        forall|i: int| 0 <= i < bars.len() ==> (#[trigger] bars[i]).is_untagged(),
    ensures
        text::count(bar_elements(bars), '<') == bars.len(),
    decreases bars.len(),
{
    if bars.len() > 0 {
        lemma_bars_tags(bars.drop_last());
        lemma_bar_tags(bars.last());
        text::lemma_count_joined(bar_elements(bars.drop_last()), bar_element(bars.last()), '<');
    }
}

impl Bar {
    /// Whether the geometry of the bar adds no tag to the document, as numbers do not.
    pub open spec fn is_untagged(self) -> bool {
        &&& is_untagged(self.x@)
        &&& is_untagged(self.y@)
        &&& is_untagged(self.width@)
        &&& is_untagged(self.height@)
    }
}

/// No value can add a tag to the document: whatever the label, the paths, the time and the budget
/// hold, it has the tags of its fixed parts and one for the bar of each sample. The measured texts
/// are put into the document as they are, and so hold no opening bracket.
pub proof fn law_svg_has_a_tag_for_each_bar(report: Report, chart: Chart, duration: Seq<char>)
    requires
        chart.fits(report.samples@.len()),
        is_untagged(report.summary.max_rate@),
        is_untagged(report.summary.average_rate@),
        is_untagged(chart.average_y@),
        is_untagged(chart.average_label_y@),
        forall|i: int|
            0 <= i < chart.tick_rates@.len() ==> is_untagged((#[trigger] chart.tick_rates@[i])@),
        forall|i: int| 0 <= i < chart.bars@.len() ==> (#[trigger] chart.bars@[i]).is_untagged(),
    ensures
        text::count(document(report, chart, duration), '<') == 59 + report.samples@.len(),
{
    broadcast use text::lemma_count_joined;

    lemma_literal_tags_4();
    lemma_metadata_tags(report);
    lemma_caption_tags(report, duration);
    lemma_rate_ticks_tags(chart.tick_rates@, (RATE_STEPS + 1) as nat);
    lemma_position_ticks_tags((POSITION_STEPS + 1) as nat);
    lemma_axes_tags();
    lemma_bars_tags(chart.bars@);
    lemma_closing_tags(chart, report.summary);
}

} // verus!
