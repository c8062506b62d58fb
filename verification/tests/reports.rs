use block_benchie::clock::RunMetadata;
use block_benchie::config::SampleDuration;
use block_benchie::console::{banner, banner_with_duration, sample_line, summary_text};
use block_benchie::device::DeviceMetadata;
use block_benchie::human::human_bytes;
use block_benchie::markdown::{markdown_report, markdown_report_with_duration, push_markdown_row};
use block_benchie::path::UnixPath;
use block_benchie::report::{Report, Sample, SummaryStats};
use block_benchie::svg::{
    svg_document, svg_document_with_duration, write_svg_metadata, Bar, Chart,
};

const RATES: [f64; 3] = [1626.016, 1960.0, 0.5];

fn report(by_id: Option<&str>) -> Report {
    let samples: Vec<Sample> = RATES
        .iter()
        .enumerate()
        .map(|(index, rate)| Sample {
            index,
            offset: index as u64 * 976_562_500,
            bytes_read: 209_715_200,
            position: format!("{:.2}", index as f64 * 0.5),
            elapsed_secs: "0.123".to_string(),
            mib_per_sec: format!("{rate:.2}"),
        })
        .collect();
    Report {
        device: DeviceMetadata {
            input_path: UnixPath::from_text("/dev/a&b"),
            canonical_path: UnixPath::from_text("/dev/nvme0n1"),
            by_id_path: by_id.map(UnixPath::from_text),
            label: "Disk <1>|x".to_string(),
        },
        run: RunMetadata::new(1_518_568_087),
        svg_output: UnixPath::from_text("out.svg"),
        markdown_output: UnixPath::from_text("out.md"),
        device_size: 195_312_500_000,
        duration: SampleDuration { millis: 100 },
        samples,
        summary: SummaryStats {
            min_rate: "0.50".to_string(),
            average_rate: "1195.51".to_string(),
            max_rate: "1960.00".to_string(),
        },
    }
}

fn chart() -> Chart {
    let max_rate = 1960.0_f64;
    let bar_width = (1094.0_f64 / RATES.len() as f64).max(1.0);
    let average_y = 74.0 + 374.0 - (1195.505_333 / max_rate) * 374.0;
    Chart {
        tick_rates: (0..6).map(|tick| format!("{:.0}", tick as f64 / 5.0 * max_rate)).collect(),
        bars: RATES
            .iter()
            .enumerate()
            .map(|(i, rate)| {
                let height = (rate / max_rate).clamp(0.0, 1.0) * 374.0;
                Bar {
                    x: format!("{:.2}", 78.0 + i as f64 * bar_width),
                    y: format!("{:.2}", 74.0 + 374.0 - height),
                    width: format!("{:.2}", (bar_width - 0.25).max(0.75)),
                    height: format!("{height:.2}"),
                }
            })
            .collect(),
        average_y: format!("{average_y:.1}"),
        average_label_y: format!("{:.1}", average_y - 7.0),
    }
}

fn metadata_element(by_id: &str) -> String {
    format!(
        "<metadata>\n  <block-benchie device-label=\"Disk &lt;1&gt;|x\" input-path=\"/dev/a&amp;b\" canonical-path=\"/dev/nvme0n1\"{by_id} output-path=\"out.svg\" io=\"direct\" open-flag=\"O_DIRECT\" device-size-bytes=\"195312500000\" sample-duration-ms=\"100\" samples=\"3\" end-runway-bytes=\"1073741824\" read-chunk-bytes=\"4194304\" alignment-bytes=\"4096\" generated-unix-seconds=\"1518568087\" generated-utc=\"2018-02-14T00:28:07Z\" />\n</metadata>\n"
    )
}

/// The document with its frame laid out in floating point.
fn expected_svg() -> String {
    let width = 1200.0;
    let height = 520.0;
    let margin_left = 78.0;
    let margin_right = 28.0;
    let margin_top = 74.0;
    let margin_bottom = 72.0;
    let plot_width = width - margin_left - margin_right;
    let plot_height = height - margin_top - margin_bottom;
    let graph_max_rate = 1960.0_f64;
    let chart = chart();

    let mut svg = String::new();
    svg.push_str("<?xml version=\"1.0\" encoding=\"UTF-8\"?>\n");
    svg.push_str(&format!(
        "<svg xmlns=\"http://www.w3.org/2000/svg\" viewBox=\"0 0 {width:.0} {height:.0}\" role=\"img\" aria-labelledby=\"title desc\">\n"
    ));
    svg.push_str(&metadata_element(" by-id-path=\"/dev/disk/by-id/nvme-&apos;x&apos;\""));
    svg.push_str("<title id=\"title\">Read benchmark for Disk &lt;1&gt;|x</title>\n");
    svg.push_str("<desc id=\"desc\">Read-only transfer-rate samples across 181.90 GiB, generated at 2018-02-14T00:28:07Z, maximum 1960.00 MiB/s, average 1195.51 MiB/s.</desc>\n");
    svg.push_str("<rect width=\"1200\" height=\"520\" fill=\"#f8fafc\"/>\n");
    svg.push_str(&format!(
        "<text x=\"{margin_left}\" y=\"30\" font-family=\"sans-serif\" font-size=\"20\" fill=\"#111827\">Read rate across Disk &lt;1&gt;|x</text>\n"
    ));
    svg.push_str(&format!(
        "<text x=\"{margin_left}\" y=\"50\" font-family=\"sans-serif\" font-size=\"12\" fill=\"#475569\">3 samples, up to 100ms per sample, device size 181.90 GiB</text>\n"
    ));
    svg.push_str(&format!(
        "<text x=\"{margin_left}\" y=\"66\" font-family=\"sans-serif\" font-size=\"12\" fill=\"#475569\">Generated 2018-02-14T00:28:07Z</text>\n"
    ));
    for tick in 0..=5 {
        let ratio = tick as f64 / 5.0;
        let y = margin_top + plot_height - ratio * plot_height;
        let rate = ratio * graph_max_rate;
        svg.push_str(&format!(
            "<line x1=\"{margin_left:.1}\" y1=\"{y:.1}\" x2=\"{:.1}\" y2=\"{y:.1}\" stroke=\"#e2e8f0\"/>\n",
            width - margin_right
        ));
        svg.push_str(&format!(
            "<text x=\"{:.1}\" y=\"{:.1}\" text-anchor=\"end\" font-family=\"sans-serif\" font-size=\"11\" fill=\"#475569\">{rate:.0}</text>\n",
            margin_left - 8.0,
            y + 4.0
        ));
    }
    for tick in 0..=4 {
        let ratio = tick as f64 / 4.0;
        let x = margin_left + ratio * plot_width;
        svg.push_str(&format!(
            "<line x1=\"{x:.1}\" y1=\"{margin_top:.1}\" x2=\"{x:.1}\" y2=\"{:.1}\" stroke=\"#e2e8f0\"/>\n",
            margin_top + plot_height
        ));
        svg.push_str(&format!(
            "<text x=\"{x:.1}\" y=\"{:.1}\" text-anchor=\"middle\" font-family=\"sans-serif\" font-size=\"11\" fill=\"#475569\">{:.0}%</text>\n",
            margin_top + plot_height + 22.0,
            ratio * 100.0
        ));
    }
    svg.push_str(&format!(
        "<line x1=\"{margin_left:.1}\" y1=\"{:.1}\" x2=\"{:.1}\" y2=\"{:.1}\" stroke=\"#334155\"/>\n",
        margin_top + plot_height,
        width - margin_right,
        margin_top + plot_height
    ));
    svg.push_str(&format!(
        "<line x1=\"{margin_left:.1}\" y1=\"{margin_top:.1}\" x2=\"{margin_left:.1}\" y2=\"{:.1}\" stroke=\"#334155\"/>\n",
        margin_top + plot_height
    ));
    for bar in &chart.bars {
        svg.push_str(&format!(
            "<rect x=\"{}\" y=\"{}\" width=\"{}\" height=\"{}\" fill=\"#2563eb\" opacity=\"0.85\"/>\n",
            bar.x, bar.y, bar.width, bar.height
        ));
    }
    svg.push_str(&format!(
        "<line x1=\"{margin_left:.1}\" y1=\"{}\" x2=\"{:.1}\" y2=\"{}\" stroke=\"#dc2626\" stroke-width=\"2\" stroke-dasharray=\"6 5\"/>\n",
        chart.average_y,
        width - margin_right,
        chart.average_y
    ));
    svg.push_str(&format!(
        "<text x=\"{:.1}\" y=\"{}\" text-anchor=\"end\" font-family=\"sans-serif\" font-size=\"12\" fill=\"#dc2626\">avg 1195.51 MiB/s</text>\n",
        width - margin_right,
        chart.average_label_y
    ));
    svg.push_str(&format!(
        "<text x=\"{:.1}\" y=\"{:.1}\" text-anchor=\"middle\" font-family=\"sans-serif\" font-size=\"13\" fill=\"#334155\">Position across device</text>\n",
        margin_left + plot_width / 2.0,
        height - 22.0
    ));
    svg.push_str(&format!(
        "<text x=\"22\" y=\"{:.1}\" transform=\"rotate(-90 22 {:.1})\" text-anchor=\"middle\" font-family=\"sans-serif\" font-size=\"13\" fill=\"#334155\">MiB/s</text>\n",
        margin_top + plot_height / 2.0,
        margin_top + plot_height / 2.0
    ));
    svg.push_str("</svg>\n");
    svg
}

#[test]
fn svg_document_is_laid_out_exactly() {
    let report = report(Some("/dev/disk/by-id/nvme-'x'"));
    assert_eq!(svg_document(&report, &chart()), expected_svg());
    assert_eq!(svg_document_with_duration(&report, &chart(), "100ms"), expected_svg());
}

#[test]
fn svg_shows_the_duration_it_is_given() {
    let svg = svg_document_with_duration(&report(None), &chart(), "<1s>");
    assert!(svg.contains(">3 samples, up to &lt;1s&gt; per sample, device size 181.90 GiB<"));
}

#[test]
fn svg_metadata_leaves_out_a_missing_link() {
    let mut svg = "head ".to_string();
    write_svg_metadata(&mut svg, &report(None));
    assert_eq!(svg, format!("head {}", metadata_element("")));
}

#[test]
fn markdown_rows_are_escaped() {
    let mut markdown = "before\n".to_string();
    push_markdown_row(&mut markdown, "a|b", "c\nd");
    assert_eq!(markdown, "before\n| a\\|b | c d |\n");
}

#[test]
fn markdown_report_is_laid_out_exactly() {
    let mut expected = "# Block Benchie: Disk <1>\\|x\n\n## Metadata\n\n| Field | Value |\n| --- | --- |\n".to_string();
    for (field, value) in [
        ("Generated Unix seconds", "1518568087"),
        ("Generated UTC", "2018-02-14T00:28:07Z"),
        ("Input path", "/dev/a&b"),
        ("Canonical path", "/dev/nvme0n1"),
        ("By-id path", ""),
        ("SVG output", "out.svg"),
        ("Markdown output", "out.md"),
        ("I/O mode", "direct"),
        ("Open flag", "O_DIRECT"),
        ("Device size", "181.90 GiB (195312500000 bytes)"),
        ("Sample duration", "100ms"),
        ("Samples", "3"),
        ("End runway", "1.00 GiB (1073741824 bytes)"),
        ("Read chunk size", "4.00 MiB (4194304 bytes)"),
        ("Alignment", "4096 bytes"),
    ] {
        expected.push_str(&format!("| {field} | {value} |\n"));
    }
    expected.push_str("\n## Summary\n\n| Metric | Value |\n| --- | --- |\n");
    expected.push_str("| Minimum | 0.50 MiB/s |\n| Average | 1195.51 MiB/s |\n| Maximum | 1960.00 MiB/s |\n");
    expected.push_str("\n## Samples\n\n| Sample | Position | Offset | Bytes read | Elapsed seconds | MiB/s |\n");
    expected.push_str("| ---: | ---: | ---: | ---: | ---: | ---: |\n");
    expected.push_str("| 1 | 0.00% | 0 B | 200.00 MiB | 0.123 | 1626.02 |\n");
    expected.push_str("| 2 | 0.50% | 931.32 MiB | 200.00 MiB | 0.123 | 1960.00 |\n");
    expected.push_str("| 3 | 1.00% | 1.82 GiB | 200.00 MiB | 0.123 | 0.50 |\n");
    assert_eq!(markdown_report(&report(None)), expected);
    assert_eq!(markdown_report_with_duration(&report(None), "100ms"), expected);
}

#[test]
fn markdown_report_shows_the_link() {
    let markdown = markdown_report(&report(Some("/dev/disk/by-id/a|b")));
    assert!(markdown.contains("| By-id path | /dev/disk/by-id/a\\|b |\n"));
}

#[test]
fn sample_lines_stand_in_columns() {
    let first = Sample {
        index: 0,
        offset: 0,
        bytes_read: 209_715_200,
        position: "0.00".to_string(),
        elapsed_secs: "0.123".to_string(),
        mib_per_sec: "1626.02".to_string(),
    };
    assert_eq!(
        sample_line(&first),
        "    1   0.00% offset           0 B read    200.00 MiB in   0.123s   1626.02 MiB/s\n"
    );
    let second = Sample {
        index: 1,
        offset: 976_562_500,
        bytes_read: 205_520_896,
        position: "0.50".to_string(),
        elapsed_secs: "0.100".to_string(),
        mib_per_sec: "1960.00".to_string(),
    };
    assert_eq!(
        sample_line(&second),
        "    2   0.50% offset    931.32 MiB read    196.00 MiB in   0.100s   1960.00 MiB/s\n"
    );
}

#[test]
fn wide_values_widen_their_column() {
    let sample = Sample {
        index: 123_456,
        offset: 0,
        bytes_read: 0,
        position: "100.00".to_string(),
        elapsed_secs: "1234.567".to_string(),
        mib_per_sec: "1234567.89".to_string(),
    };
    assert_eq!(
        sample_line(&sample),
        "123457 100.00% offset           0 B read           0 B in 1234.567s 1234567.89 MiB/s\n"
    );
}

#[test]
fn the_banner_names_device_size_and_budget() {
    let device = UnixPath::from_text("/dev/nvme0n1");
    let expected = "benchmarking /dev/nvme0n1: size 1.00 GiB, 200 samples, up to 1s 500ms per sample\nread-only direct I/O benchmark; no writes will be issued and the Linux page cache is bypassed\n";
    assert_eq!(banner(&device, 1 << 30, 200, SampleDuration { millis: 1500 }), expected);
    assert_eq!(banner_with_duration(&device, 1 << 30, 200, "1s 500ms"), expected);
}

#[test]
fn the_summary_names_rates_and_files() {
    let report = report(None);
    assert_eq!(
        summary_text(&report.summary, &report.svg_output, &report.markdown_output),
        "summary: min 0.50 MiB/s, avg 1195.51 MiB/s, max 1960.00 MiB/s\nwrote out.svg\nwrote out.md\n"
    );
}

#[test]
fn durations_and_times_are_shown_by_humantime() {
    assert_eq!(SampleDuration { millis: 100 }.text(), "100ms");
    assert_eq!(SampleDuration { millis: 9_420_000 }.text(), "2h 37m");
    let epoch = RunMetadata::new(0);
    assert_eq!(epoch.generated_unix_seconds, 0);
    assert_eq!(epoch.generated_utc, "1970-01-01T00:00:00Z");
    assert_eq!(RunMetadata::new(253_402_300_799).generated_utc, "9999-12-31T23:59:59Z");
    assert_eq!(human_bytes(1 << 30), "1.00 GiB");
}

fn bare_bars(markdown: &str) -> usize {
    let mut bars = 0_usize;
    let mut escaped = false;
    for c in markdown.chars() {
        if escaped {
            escaped = false;
        } else if c == '\\' {
            escaped = true;
        } else if c == '|' {
            bars += 1;
        }
    }
    bars
}

#[test]
fn no_value_adds_a_line_or_a_column() {
    let mut hostile = report(Some("/dev/disk/by-id/a|b\nc\\"));
    hostile.device.label = "x\n| y | z |\n\\".to_string();
    hostile.device.input_path = UnixPath::from_text("a|\r\nb\\|");
    hostile.run.generated_utc = "now|\nthen".to_string();
    let markdown = markdown_report_with_duration(&hostile, "1\n|\\");
    assert_eq!(markdown.matches('\n').count(), 34 + 3);
    assert_eq!(bare_bars(&markdown), 80 + 7 * 3);
}

#[test]
fn no_measurement_adds_a_line_or_a_column() {
    let mut odd = report(None);
    odd.samples[0].position = format!("{:.2}", -1.0_f64);
    odd.samples[1].elapsed_secs = format!("{:.3}", f64::NAN);
    odd.samples[2].mib_per_sec = format!("{:.2}", f64::INFINITY);
    odd.summary.max_rate = format!("{:.2}", f64::INFINITY);
    let markdown = markdown_report(&odd);
    assert!(markdown.contains(" -1.00"));
    assert!(markdown.contains("| NaN |"));
    assert!(markdown.contains("| inf |"));
    assert_eq!(markdown.matches('\n').count(), 34 + 3);
    assert_eq!(bare_bars(&markdown), 80 + 7 * 3);
}
