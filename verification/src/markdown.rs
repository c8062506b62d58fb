//! The report as a Markdown document.

use vstd::prelude::*;

use crate::clock;
use crate::escape;
use crate::human;
use crate::path;
use crate::path::UnixPath;
use crate::report;
use crate::report::{Report, Sample, SummaryStats};
use crate::sampling::{ALIGNMENT, END_RUNWAY_BYTES, READ_CHUNK_BYTES};
use crate::text;

verus! {

/// A table row of two cells.
pub open spec fn row(field: Seq<char>, value: Seq<char>) -> Seq<char> {
    "| "@ + escape::cell_text(field) + " | "@ + escape::cell_text(value) + " |\n"@
}

/// A size for a reader, and in bytes.
pub open spec fn size_text(bytes: nat) -> Seq<char> {
    human::human_bytes_text(bytes) + " ("@ + text::decimal(bytes) + " bytes)"@
}

/// The link that the device is named after; empty if there is none.
pub open spec fn link_text(link: Option<UnixPath>) -> Seq<char> {
    match link {
        Some(path) => path::lossy_text(path@),
        None => seq![],
    }
}

/// The heading and the metadata table, with the budget of a sample as text.
pub open spec fn metadata_section(report: Report, duration: Seq<char>) -> Seq<char> {
    "# Block Benchie: "@
        + escape::cell_text(report.device.label@)
        + "\n\n"@
        + "## Metadata\n\n"@
        + "| Field | Value |\n"@
        + "| --- | --- |\n"@
        + row("Generated Unix seconds"@, text::decimal(report.run.generated_unix_seconds as nat))
        + row("Generated UTC"@, report.run.generated_utc@)
        + row("Input path"@, path::lossy_text(report.device.input_path@))
        + row("Canonical path"@, path::lossy_text(report.device.canonical_path@))
        + row("By-id path"@, link_text(report.device.by_id_path))
        + row("SVG output"@, path::lossy_text(report.svg_output@))
        + row("Markdown output"@, path::lossy_text(report.markdown_output@))
        + row("I/O mode"@, "direct"@)
        + row("Open flag"@, "O_DIRECT"@)
        + row("Device size"@, size_text(report.device_size as nat))
        + row("Sample duration"@, duration)
        + row("Samples"@, text::decimal(report.samples.len() as nat))
        + row("End runway"@, size_text(END_RUNWAY_BYTES as nat))
        + row("Read chunk size"@, size_text(READ_CHUNK_BYTES as nat))
        + row("Alignment"@, text::decimal(ALIGNMENT as nat) + " bytes"@)
}

/// The summary table.
pub open spec fn summary_section(summary: SummaryStats) -> Seq<char> {
    "\n## Summary\n\n"@
        + "| Metric | Value |\n"@
        + "| --- | --- |\n"@
        + row("Minimum"@, summary.min_rate@ + " MiB/s"@)
        + row("Average"@, summary.average_rate@ + " MiB/s"@)
        + row("Maximum"@, summary.max_rate@ + " MiB/s"@)
}

/// The table row of one sample.
pub open spec fn sample_row(sample: Sample) -> Seq<char> {
    "| "@
        + text::decimal((sample.index + 1) as nat)
        + " | "@
        + sample.position@
        + "% | "@
        + escape::cell_text(human::human_bytes_text(sample.offset as nat))
        + " | "@
        + escape::cell_text(human::human_bytes_text(sample.bytes_read as nat))
        + " | "@
        + sample.elapsed_secs@
        + " | "@
        + sample.mib_per_sec@
        + " |\n"@
}

/// The table rows of some samples.
pub open spec fn sample_rows(samples: Seq<Sample>) -> Seq<char>
    decreases samples.len(),
{
    if samples.len() == 0 {
        seq![]
    } else {
        sample_rows(samples.drop_last()) + sample_row(samples.last())
    }
}

/// The sample table.
pub open spec fn samples_section(samples: Seq<Sample>) -> Seq<char> {
    "\n## Samples\n\n"@
        + "| Sample | Position | Offset | Bytes read | Elapsed seconds | MiB/s |\n"@
        + "| ---: | ---: | ---: | ---: | ---: | ---: |\n"@
        + sample_rows(samples)
}

/// The whole document, with the budget of a sample as text.
pub open spec fn document(report: Report, duration: Seq<char>) -> Seq<char> {
    metadata_section(report, duration) + summary_section(report.summary) + samples_section(
        report.samples@,
    )
}

/// Appends a table row of two cells.
pub fn push_markdown_row(markdown: &mut String, field: &str, value: &str)
    ensures
        final(markdown)@ == old(markdown)@ + row(field@, value@),
{
    let mut row = "| ".to_owned();
    row.append(escape::markdown_cell(field).as_str());
    row.append(" | ");
    row.append(escape::markdown_cell(value).as_str());
    row.append(" |\n");
    markdown.append(row.as_str());
}

fn sized(bytes: u64) -> (shown: String)
    ensures
        shown@ == size_text(bytes as nat),
{
    let mut shown = human::human_bytes(bytes);
    shown.append(" (");
    shown.append(text::decimal_text(bytes).as_str());
    shown.append(" bytes)");
    shown
}

fn rate_text(rate: &str) -> (shown: String)
    ensures
        shown@ == rate@ + " MiB/s"@,
{
    let mut shown = rate.to_owned();
    shown.append(" MiB/s");
    shown
}

fn metadata_text(report: &Report, duration: &str) -> (markdown: String)
    ensures
        markdown@ == metadata_section(*report, duration@),
{
    let by_id_path = match &report.device.by_id_path {
        Some(path) => path.display(),
        None => String::new(),
    };
    let mut alignment = text::decimal_text(ALIGNMENT);
    alignment.append(" bytes");
    let mut markdown = "# Block Benchie: ".to_owned();
    markdown.append(escape::markdown_cell(report.device.label.as_str()).as_str());
    markdown.append("\n\n");
    markdown.append("## Metadata\n\n");
    markdown.append("| Field | Value |\n");
    markdown.append("| --- | --- |\n");
    push_markdown_row(&mut markdown, "Generated Unix seconds", text::decimal_text(report.run.generated_unix_seconds).as_str());
    push_markdown_row(&mut markdown, "Generated UTC", report.run.generated_utc.as_str());
    push_markdown_row(&mut markdown, "Input path", report.device.input_path.display().as_str());
    push_markdown_row(&mut markdown, "Canonical path", report.device.canonical_path.display().as_str());
    push_markdown_row(&mut markdown, "By-id path", by_id_path.as_str());
    push_markdown_row(&mut markdown, "SVG output", report.svg_output.display().as_str());
    push_markdown_row(&mut markdown, "Markdown output", report.markdown_output.display().as_str());
    push_markdown_row(&mut markdown, "I/O mode", "direct");
    push_markdown_row(&mut markdown, "Open flag", "O_DIRECT");
    push_markdown_row(&mut markdown, "Device size", sized(report.device_size).as_str());
    push_markdown_row(&mut markdown, "Sample duration", duration);
    push_markdown_row(&mut markdown, "Samples", text::decimal_text(report.samples.len() as u64).as_str());
    push_markdown_row(&mut markdown, "End runway", sized(END_RUNWAY_BYTES).as_str());
    push_markdown_row(&mut markdown, "Read chunk size", sized(READ_CHUNK_BYTES).as_str());
    push_markdown_row(&mut markdown, "Alignment", alignment.as_str());
    markdown
}

fn summary_text(summary: &SummaryStats) -> (markdown: String)
    ensures
        markdown@ == summary_section(*summary),
{
    let mut markdown = "\n## Summary\n\n".to_owned();
    markdown.append("| Metric | Value |\n");
    markdown.append("| --- | --- |\n");
    push_markdown_row(
        &mut markdown,
        "Minimum",
        rate_text(summary.min_rate.as_str()).as_str(),
    );
    push_markdown_row(
        &mut markdown,
        "Average",
        rate_text(summary.average_rate.as_str()).as_str(),
    );
    push_markdown_row(
        &mut markdown,
        "Maximum",
        rate_text(summary.max_rate.as_str()).as_str(),
    );
    markdown
}

fn sample_row_text(sample: &Sample) -> (row: String)
    requires
        sample.index < usize::MAX,
    ensures
        row@ == sample_row(*sample),
{
    let mut row = "| ".to_owned();
    row.append(text::decimal_text(sample.index as u64 + 1).as_str());
    row.append(" | ");
    row.append(sample.position.as_str());
    row.append("% | ");
    row.append(escape::markdown_cell(human::human_bytes(sample.offset).as_str()).as_str());
    row.append(" | ");
    row.append(escape::markdown_cell(human::human_bytes(sample.bytes_read).as_str()).as_str());
    row.append(" | ");
    row.append(sample.elapsed_secs.as_str());
    row.append(" | ");
    row.append(sample.mib_per_sec.as_str());
    row.append(" |\n");
    row
}

fn samples_text(samples: &Vec<Sample>) -> (markdown: String)
    requires
        forall|i: int| 0 <= i < samples@.len() ==> (#[trigger] samples@[i]).index < usize::MAX,
    ensures
        markdown@ == samples_section(samples@),
{
    let mut rows = String::new();
    let mut i: usize = 0;
    while i < samples.len()
        invariant
            i <= samples@.len(),
            forall|j: int| 0 <= j < samples@.len() ==> (#[trigger] samples@[j]).index < usize::MAX,
            rows@ == sample_rows(samples@.take(i as int)),
        decreases samples@.len() - i,
    {
        rows.append(sample_row_text(&samples[i]).as_str());
        i = i + 1;
        assert(samples@.take(i as int).drop_last() =~= samples@.take(i - 1));
    }
    assert(samples@.take(i as int) =~= samples@);
    let mut markdown = "\n## Samples\n\n".to_owned();
    markdown.append("| Sample | Position | Offset | Bytes read | Elapsed seconds | MiB/s |\n");
    markdown.append("| ---: | ---: | ---: | ---: | ---: | ---: |\n");
    markdown.append(rows.as_str());
    markdown
}

/// The whole document, with the budget of a sample as text.
pub fn markdown_report_with_duration(report: &Report, duration: &str) -> (markdown: String)
    requires
        report.is_numbered(),
    ensures
        markdown@ == document(*report, duration@),
{
    let mut markdown = metadata_text(report, duration);
    markdown.append(summary_text(&report.summary).as_str());
    markdown.append(samples_text(&report.samples).as_str());
    markdown
}

/// The whole document.
pub fn markdown_report(report: &Report) -> (markdown: String)
    requires
        report.is_numbered(),
    ensures
        markdown@ == document(*report, clock::human_duration(report.duration.millis)),
{
    markdown_report_with_duration(report, report.duration.text().as_str())
}

/// The report embeds what is known of the device and of the run: the time, the path as given, the
/// resolved path, the link it is named after, the direct I/O settings, the size and the sample
/// configuration.
pub proof fn law_markdown_embeds_metadata(report: Report, duration: Seq<char>)
    ensures
        ({
            let section = metadata_section(report, duration);
            &&& text::holds(document(report, duration), section)
            &&& text::holds(
                section,
                row(
                    "Generated Unix seconds"@,
                    text::decimal(report.run.generated_unix_seconds as nat),
                ),
            )
            &&& text::holds(section, row("Generated UTC"@, report.run.generated_utc@))
            &&& text::holds(
                section,
                row("Input path"@, path::lossy_text(report.device.input_path@)),
            )
            &&& text::holds(
                section,
                row("Canonical path"@, path::lossy_text(report.device.canonical_path@)),
            )
            &&& text::holds(section, row("By-id path"@, link_text(report.device.by_id_path)))
            &&& text::holds(section, row("I/O mode"@, "direct"@))
            &&& text::holds(section, row("Open flag"@, "O_DIRECT"@))
            &&& text::holds(section, row("Device size"@, size_text(report.device_size as nat)))
            &&& text::holds(section, row("Sample duration"@, duration))
            &&& text::holds(
                section,
                row("Samples"@, text::decimal(report.samples.len() as nat)),
            )
        }),
{
    broadcast use {text::lemma_holds_end, text::lemma_holds_before};

    let section = metadata_section(report, duration);
    assert(section.subrange(0, section.len() as int) =~= section);
    assert(text::stands_at(section, section, 0));
}

/// The report lists every sample.
pub proof fn law_markdown_lists_every_sample(report: Report, duration: Seq<char>, i: int)
    requires
        0 <= i < report.samples@.len(),
    ensures
        text::holds(document(report, duration), sample_row(report.samples@[i])),
{
    broadcast use {text::lemma_holds_end, text::lemma_holds_before};

    lemma_row_held(report.samples@, i);
    text::lemma_holds_within(
        samples_section(report.samples@),
        sample_rows(report.samples@),
        sample_row(report.samples@[i]),
    );
    text::lemma_holds_within(
        document(report, duration),
        samples_section(report.samples@),
        sample_row(report.samples@[i]),
    );
}

proof fn lemma_row_held(samples: Seq<Sample>, i: int)
    requires
        0 <= i < samples.len(),
    ensures
        text::holds(sample_rows(samples), sample_row(samples[i])),
    decreases samples.len(),
{
    broadcast use {text::lemma_holds_end, text::lemma_holds_before};

    if i < samples.len() - 1 {
        lemma_row_held(samples.drop_last(), i);
    }
}

/// Whether `markdown` holds this many line ends and bars between cells, and leaves what follows
/// unescaped.
pub open spec fn tallies(markdown: Seq<char>, lines: nat, bars: nat) -> bool {
    &&& text::count(markdown, '\n') == lines
    &&& escape::bare_bars(markdown) == bars
    &&& !escape::ends_open(markdown)
}

proof fn lemma_literals()
    ensures
        tallies("| "@, 0, 1),
        tallies(" | "@, 0, 1),
        tallies(" |\n"@, 1, 1),
        tallies("% | "@, 0, 1),
        tallies("# Block Benchie: "@, 0, 0),
        tallies("\n\n"@, 2, 0),
        tallies("## Metadata\n\n"@, 2, 0),
        tallies("| Field | Value |\n"@, 1, 3),
        tallies("| --- | --- |\n"@, 1, 3),
        tallies("\n## Summary\n\n"@, 3, 0),
        tallies("| Metric | Value |\n"@, 1, 3),
        tallies("\n## Samples\n\n"@, 3, 0),
        tallies("| Sample | Position | Offset | Bytes read | Elapsed seconds | MiB/s |\n"@, 1, 7),
        tallies("| ---: | ---: | ---: | ---: | ---: | ---: |\n"@, 1, 7),
{
    reveal_strlit("| ");
    reveal_strlit(" | ");
    reveal_strlit(" |\n");
    reveal_strlit("% | ");
    reveal_strlit("# Block Benchie: ");
    reveal_strlit("\n\n");
    reveal_strlit("## Metadata\n\n");
    reveal_strlit("| Field | Value |\n");
    reveal_strlit("| --- | --- |\n");
    reveal_strlit("\n## Summary\n\n");
    reveal_strlit("| Metric | Value |\n");
    reveal_strlit("\n## Samples\n\n");
    reveal_strlit("| Sample | Position | Offset | Bytes read | Elapsed seconds | MiB/s |\n");
    reveal_strlit("| ---: | ---: | ---: | ---: | ---: | ---: |\n");
    reveal_with_fuel(text::count_before, 72);
    escape::lemma_bars_without_backslash("| "@);
    escape::lemma_bars_without_backslash(" | "@);
    escape::lemma_bars_without_backslash(" |\n"@);
    escape::lemma_bars_without_backslash("% | "@);
    escape::lemma_bars_without_backslash("# Block Benchie: "@);
    escape::lemma_bars_without_backslash("\n\n"@);
    escape::lemma_bars_without_backslash("## Metadata\n\n"@);
    escape::lemma_bars_without_backslash("| Field | Value |\n"@);
    escape::lemma_bars_without_backslash("| --- | --- |\n"@);
    escape::lemma_bars_without_backslash("\n## Summary\n\n"@);
    escape::lemma_bars_without_backslash("| Metric | Value |\n"@);
    escape::lemma_bars_without_backslash("\n## Samples\n\n"@);
    escape::lemma_bars_without_backslash("| Sample | Position | Offset | Bytes read | Elapsed seconds | MiB/s |\n"@);
    escape::lemma_bars_without_backslash("| ---: | ---: | ---: | ---: | ---: | ---: |\n"@);
}

/// A text that stays in its cell adds no line and no bar.
proof fn lemma_stays_in_cell(shown: Seq<char>)
    requires
        report::stays_in_cell(shown),
    ensures
        tallies(shown, 0, 0),
{
    text::lemma_count_absent(shown, '\n');
    text::lemma_count_absent(shown, '|');
    escape::lemma_bars_without_backslash(shown);
}

/// A table row of two cells is one line with the bars of two columns, whatever the cells hold.
pub broadcast proof fn law_rows_have_two_columns(field: Seq<char>, value: Seq<char>)
    ensures
        tallies(#[trigger] row(field, value), 1, 3),
{
    broadcast use {
        text::lemma_count_joined,
        escape::lemma_bare_bars_joined,
        escape::lemma_ends_open_joined,
    };

    lemma_literals();
    escape::law_cells_add_no_line_and_no_column(field);
    escape::law_cells_add_no_line_and_no_column(value);
}

/// The table row of a sample is one line with the bars of six columns, whatever its measurements
/// are shown as, so long as they hold no line feed, no bar and no backslash.
pub proof fn law_sample_rows_have_six_columns(sample: Sample)
    requires
        sample.is_plain(),
    ensures
        tallies(sample_row(sample), 1, 7),
{
    broadcast use {
        text::lemma_count_joined,
        escape::lemma_bare_bars_joined,
        escape::lemma_ends_open_joined,
    };

    lemma_literals();
    text::lemma_decimal_is_digits((sample.index + 1) as nat);
    lemma_stays_in_cell(text::decimal((sample.index + 1) as nat));
    lemma_stays_in_cell(sample.position@);
    lemma_stays_in_cell(sample.elapsed_secs@);
    lemma_stays_in_cell(sample.mib_per_sec@);
    escape::law_cells_add_no_line_and_no_column(human::human_bytes_text(sample.offset as nat));
    escape::law_cells_add_no_line_and_no_column(human::human_bytes_text(sample.bytes_read as nat));
}

proof fn lemma_sample_rows(samples: Seq<Sample>)
    requires
        forall|i: int| 0 <= i < samples.len() ==> (#[trigger] samples[i]).is_plain(),
    ensures
        tallies(sample_rows(samples), samples.len(), 7 * samples.len()),
    decreases samples.len(),
{
    broadcast use {
        text::lemma_count_joined,
        escape::lemma_bare_bars_joined,
        escape::lemma_ends_open_joined,
    };

    if samples.len() > 0 {
        lemma_sample_rows(samples.drop_last());
        law_sample_rows_have_six_columns(samples.last());
    }
}

proof fn lemma_metadata_section(report: Report, duration: Seq<char>)
    ensures
        tallies(metadata_section(report, duration), 21, 51),
{
    broadcast use {
        text::lemma_count_joined,
        escape::lemma_bare_bars_joined,
        escape::lemma_ends_open_joined,
    };
    broadcast use law_rows_have_two_columns;

    lemma_literals();
    escape::law_cells_add_no_line_and_no_column(report.device.label@);
}

/// No value can add a line to the report or a column to one of its tables: whatever the label,
/// the paths, the time, the duration and the rates of the summary hold, the report has its fixed
/// lines and bars, and one line of seven bars for each sample. The measurements of the samples are
/// put into their cells as they are, and so hold no line feed, no bar and no backslash.
pub proof fn law_report_has_fixed_shape(report: Report, duration: Seq<char>)
    requires
        report.is_plain(),
    ensures
        text::count(document(report, duration), '\n') == 34 + report.samples@.len(),
        escape::bare_bars(document(report, duration)) == 80 + 7 * report.samples@.len(),
{
    broadcast use {
        text::lemma_count_joined,
        escape::lemma_bare_bars_joined,
        escape::lemma_ends_open_joined,
    };

    lemma_literals();
    lemma_metadata_section(report, duration);
    lemma_sample_rows(report.samples@);
    let summary = report.summary;
    law_rows_have_two_columns("Minimum"@, summary.min_rate@ + " MiB/s"@);
    law_rows_have_two_columns("Average"@, summary.average_rate@ + " MiB/s"@);
    law_rows_have_two_columns("Maximum"@, summary.max_rate@ + " MiB/s"@);
    assert(tallies(summary_section(summary), 8, 15));
    assert(tallies(
        samples_section(report.samples@),
        5 + report.samples@.len(),
        14 + 7 * report.samples@.len(),
    ));
}

/// Whether `part` is a cell between two bars that shows `value`, with a space on either side.
pub open spec fn shows_value(part: Seq<char>, value: Seq<char>) -> bool {
    &&& part.len() >= 2
    &&& part[0] == ' '
    &&& part.last() == ' '
    &&& escape::cell_shows(part.subrange(1, part.len() - 1), value)
}

/// Whether `line`, split at its bare bars, is a table row of two cells that show `field` and
/// `value`.
pub open spec fn shows_row(line: Seq<char>, field: Seq<char>, value: Seq<char>) -> bool {
    let parts = escape::between_bars(line);
    &&& parts.len() == 4
    &&& parts[0].len() == 0
    &&& shows_value(parts[1], field)
    &&& shows_value(parts[2], value)
    &&& parts[3].len() == 0
}

/// Whether `line`, split at its bare bars, is a table row of six cells: the number of the sample
/// counted from 1, its position in percent, its offset, the bytes it read, its time and its rate.
pub open spec fn shows_sample(line: Seq<char>, sample: Sample) -> bool {
    let parts = escape::between_bars(line);
    &&& parts.len() == 8
    &&& parts[0].len() == 0
    &&& parts[1] == " "@ + text::decimal((sample.index + 1) as nat) + " "@
    &&& parts[2] == " "@ + sample.position@ + "% "@
    &&& parts[3] == " "@ + human::human_bytes_text(sample.offset as nat) + " "@
    &&& parts[4] == " "@ + human::human_bytes_text(sample.bytes_read as nat) + " "@
    &&& parts[5] == " "@ + sample.elapsed_secs@ + " "@
    &&& parts[6] == " "@ + sample.mib_per_sec@ + " "@
    &&& parts[7].len() == 0
}

/// A cell with a space on either side is one piece of its row.
proof fn lemma_padded(cell: Seq<char>)
    requires
        tallies(cell, 0, 0),
    ensures
        tallies(" "@ + cell + " "@, 0, 0),
{
    reveal_strlit(" ");
    lemma_stays_in_cell(" "@);
    text::lemma_count_joined(" "@, cell, '\n');
    text::lemma_count_joined(" "@ + cell, " "@, '\n');
    escape::lemma_bare_bars_joined(" "@, cell);
    escape::lemma_ends_open_joined(" "@, cell);
    escape::lemma_bare_bars_joined(" "@ + cell, " "@);
    escape::lemma_ends_open_joined(" "@ + cell, " "@);
}

/// A table row shows its field and its value, whatever they are, and is one line.
pub proof fn law_rows_show_field_and_value(field: Seq<char>, value: Seq<char>)
    ensures
        row(field, value).len() > 0,
        row(field, value).last() == '\n',
        shows_row(row(field, value).drop_last(), field, value),
        text::is_lines(row(field, value), seq![row(field, value).drop_last()]),
{
    reveal_strlit("| ");
    reveal_strlit(" | ");
    reveal_strlit(" |\n");
    reveal_strlit(" ");
    let whole = row(field, value);
    let line = whole.drop_last();
    let first = " "@ + escape::cell_text(field) + " "@;
    let second = " "@ + escape::cell_text(value) + " "@;
    let none = Seq::<char>::empty();
    escape::law_cells_add_no_line_and_no_column(field);
    escape::law_cells_add_no_line_and_no_column(value);
    escape::law_cells_read_back_strictly(field);
    escape::law_cells_read_back_strictly(value);
    lemma_padded(escape::cell_text(field));
    lemma_padded(escape::cell_text(value));
    let third = second + seq!['|'] + none;
    let rest = first + seq!['|'] + third;
    assert(line =~= none + seq!['|'] + rest);
    assert(whole =~= line.push('\n'));
    escape::lemma_last_piece(none);
    escape::lemma_first_piece(second, none);
    escape::lemma_first_piece(first, third);
    escape::lemma_first_piece(none, rest);
    let parts = escape::between_bars(line);
    assert(parts =~= seq![none, first, second, none]);
    assert(first.subrange(1, first.len() - 1) =~= escape::cell_text(field));
    assert(second.subrange(1, second.len() - 1) =~= escape::cell_text(value));
    law_rows_have_two_columns(field, value);
    lemma_line_of(whole);
}

/// A text with one line feed, at its end, is one line.
proof fn lemma_line_of(whole: Seq<char>)
    requires
        whole.len() > 0,
        whole.last() == '\n',
        text::count(whole, '\n') == 1,
    ensures
        text::is_lines(whole, seq![whole.drop_last()]),
{
    let line = whole.drop_last();
    assert(whole =~= line + seq!['\n']);
    text::lemma_count_joined(line, seq!['\n'], '\n');
    assert(text::count(seq!['\n'], '\n') == 1) by {
        reveal_with_fuel(text::count_before, 2);
    }
    text::lemma_one_line(line);
    assert(line.push('\n') =~= whole);
}

/// The row of a sample shows, split at its bare bars, the number of the sample counted from 1, its
/// position, the size of its own offset, the size of what it read, its time and its rate, in this
/// order, and is one line. The measurements hold no line feed, no bar and no backslash.
#[verifier::rlimit(50)]
pub proof fn law_sample_rows_show_the_sample(sample: Sample)
    requires
        sample.is_plain(),
    ensures
        sample_row(sample).len() > 0,
        sample_row(sample).last() == '\n',
        shows_sample(sample_row(sample).drop_last(), sample),
        text::is_lines(sample_row(sample), seq![sample_row(sample).drop_last()]),
{
    reveal_strlit("| ");
    reveal_strlit("%");
    let number = text::decimal((sample.index + 1) as nat);
    let offset = human::human_bytes_text(sample.offset as nat);
    let read = human::human_bytes_text(sample.bytes_read as nat);
    text::lemma_decimal_is_digits((sample.index + 1) as nat);
    human::lemma_sizes_are_plain(sample.offset);
    human::lemma_sizes_are_plain(sample.bytes_read);
    escape::law_plain_cells_are_kept(offset);
    escape::law_plain_cells_are_kept(read);
    let position = sample.position@ + "%"@;
    lemma_stays_in_cell(number);
    lemma_stays_in_cell(position);
    lemma_stays_in_cell(offset);
    lemma_stays_in_cell(read);
    lemma_stays_in_cell(sample.elapsed_secs@);
    lemma_stays_in_cell(sample.mib_per_sec@);
    let c1 = " "@ + number + " "@;
    let c2 = " "@ + position + " "@;
    let c3 = " "@ + offset + " "@;
    let c4 = " "@ + read + " "@;
    let c5 = " "@ + sample.elapsed_secs@ + " "@;
    let c6 = " "@ + sample.mib_per_sec@ + " "@;
    let bar = seq!['|'];
    let p1 = bar + c1 + bar;
    let p2 = p1 + c2 + bar;
    let p3 = p2 + c3 + bar;
    let p4 = p3 + c4 + bar;
    let p5 = p4 + c5 + bar;
    let p6 = p5 + c6 + bar;
    let whole = sample_row(sample);
    assert("| "@ =~= bar + seq![' ']);
    lemma_cell_put(bar, number);
    lemma_percentage_put(p1, sample.position@);
    lemma_cell_put(p2, offset);
    lemma_cell_put(p3, read);
    lemma_cell_put(p4, sample.elapsed_secs@);
    lemma_last_cell_put(p5, sample.mib_per_sec@);
    assert(whole == p6 + seq!['\n']);
    assert(whole.drop_last() =~= p6);
    lemma_padded(number);
    lemma_padded(position);
    lemma_padded(offset);
    lemma_padded(read);
    lemma_padded(sample.elapsed_secs@);
    lemma_padded(sample.mib_per_sec@);
    lemma_six_cells(c1, c2, c3, c4, c5, c6);
    reveal_strlit("% ");
    reveal_strlit(" ");
    assert(c2 =~= " "@ + sample.position@ + "% "@);
    law_sample_rows_have_six_columns(sample);
    lemma_line_of(whole);
}

proof fn lemma_cell_put(before: Seq<char>, cell: Seq<char>)
    ensures
        before + seq![' '] + cell + " | "@ == before + (" "@ + cell + " "@) + seq!['|'] + seq![' '],
{
    reveal_strlit(" | ");
    reveal_strlit(" ");
    assert(before + seq![' '] + cell + " | "@ =~= before + (" "@ + cell + " "@) + seq!['|']
        + seq![' ']);
}

proof fn lemma_percentage_put(before: Seq<char>, cell: Seq<char>)
    ensures
        before + seq![' '] + cell + "% | "@ == before + (" "@ + (cell + "%"@) + " "@) + seq!['|']
            + seq![' '],
{
    reveal_strlit("% | ");
    reveal_strlit("%");
    reveal_strlit(" ");
    assert(before + seq![' '] + cell + "% | "@ =~= before + (" "@ + (cell + "%"@) + " "@) + seq![
        '|',
    ] + seq![' ']);
}

proof fn lemma_last_cell_put(before: Seq<char>, cell: Seq<char>)
    ensures
        before + seq![' '] + cell + " |\n"@ == before + (" "@ + cell + " "@) + seq!['|'] + seq!['\n'],
{
    reveal_strlit(" |\n");
    reveal_strlit(" ");
    assert(before + seq![' '] + cell + " |\n"@ =~= before + (" "@ + cell + " "@) + seq!['|'] + seq![
        '\n',
    ]);
}

/// Six cells between bars are what a row of them is split into.
proof fn lemma_six_cells(
    c1: Seq<char>,
    c2: Seq<char>,
    c3: Seq<char>,
    c4: Seq<char>,
    c5: Seq<char>,
    c6: Seq<char>,
)
    requires
        tallies(c1, 0, 0),
        tallies(c2, 0, 0),
        tallies(c3, 0, 0),
        tallies(c4, 0, 0),
        tallies(c5, 0, 0),
        tallies(c6, 0, 0),
    ensures
        ({
            let bar = seq!['|'];
            let none = Seq::<char>::empty();
            escape::between_bars(
                bar + c1 + bar + c2 + bar + c3 + bar + c4 + bar + c5 + bar + c6 + bar,
            ) == seq![none, c1, c2, c3, c4, c5, c6, none]
        }),
{
    let bar = seq!['|'];
    let none = Seq::<char>::empty();
    let p1 = bar + c1 + bar;
    let p2 = p1 + c2 + bar;
    let p3 = p2 + c3 + bar;
    let p4 = p3 + c4 + bar;
    let p5 = p4 + c5 + bar;
    let p6 = p5 + c6 + bar;
    let r6 = c6 + bar + none;
    let r5 = c5 + bar + r6;
    let r4 = c4 + bar + r5;
    let r3 = c3 + bar + r4;
    let r2 = c2 + bar + r3;
    let r1 = c1 + bar + r2;
    assert(p6 + none =~= p6);
    lemma_regrouped(p5, c6, none);
    lemma_regrouped(p4, c5, r6);
    lemma_regrouped(p3, c4, r5);
    lemma_regrouped(p2, c3, r4);
    lemma_regrouped(p1, c2, r3);
    lemma_regrouped(bar, c1, r2);
    assert(none + bar =~= bar);
    escape::lemma_last_piece(none);
    escape::lemma_first_piece(c6, none);
    escape::lemma_first_piece(c5, r6);
    escape::lemma_first_piece(c4, r5);
    escape::lemma_first_piece(c3, r4);
    escape::lemma_first_piece(c2, r3);
    escape::lemma_first_piece(c1, r2);
    escape::lemma_first_piece(none, r1);
    assert(escape::between_bars(p6) =~= seq![none, c1, c2, c3, c4, c5, c6, none]);
}

proof fn lemma_regrouped(before: Seq<char>, cell: Seq<char>, rest: Seq<char>)
    ensures
        before + (cell + seq!['|'] + rest) == before + cell + seq!['|'] + rest,
{
    assert(before + (cell + seq!['|'] + rest) =~= before + cell + seq!['|'] + rest);
}

/// The lines of the sample rows, in order.
proof fn lemma_sample_lines(samples: Seq<Sample>)
    requires
        forall|i: int| 0 <= i < samples.len() ==> (#[trigger] samples[i]).is_plain(),
    ensures
        text::is_lines(
            sample_rows(samples),
            Seq::new(samples.len(), |i: int| sample_row(samples[i]).drop_last()),
        ),
    decreases samples.len(),
{
    let lines = Seq::new(samples.len(), |i: int| sample_row(samples[i]).drop_last());
    if samples.len() == 0 {
        assert(lines.push(seq![]) =~= seq![seq![]]);
    } else {
        let init = samples.drop_last();
        let before = Seq::new(init.len(), |i: int| sample_row(init[i]).drop_last());
        let last = sample_row(samples.last());
        lemma_sample_lines(init);
        law_sample_rows_show_the_sample(samples.last());
        text::lemma_lines_joined(sample_rows(init), before, last, seq![last.drop_last()]);
        assert(before + seq![last.drop_last()] =~= lines);
    }
}

/// Some lines and one more.
proof fn lemma_line_added(whole: Seq<char>, lines: Seq<Seq<char>>, more: Seq<char>)
    requires
        text::is_lines(whole, lines),
        text::is_lines(more, seq![more.drop_last()]),
    ensures
        text::is_lines(whole + more, lines.push(more.drop_last())),
{
    text::lemma_lines_joined(whole, lines, more, seq![more.drop_last()]);
    assert(lines + seq![more.drop_last()] =~= lines.push(more.drop_last()));
}

/// A heading between empty lines.
proof fn lemma_heading(whole: Seq<char>, heading: Seq<char>)
    requires
        text::count(heading, '\n') == 0,
        whole == heading + seq!['\n', '\n'],
    ensures
        text::is_lines(whole, seq![heading, seq![]]),
{
    let none = Seq::<char>::empty();
    text::lemma_one_line(heading);
    text::lemma_one_line(none);
    text::lemma_lines_joined(heading.push('\n'), seq![heading], none.push('\n'), seq![none]);
    assert(heading.push('\n') + none.push('\n') =~= whole);
    assert(seq![heading] + seq![none] =~= seq![heading, none]);
}

#[verifier::rlimit(50)]
proof fn lemma_metadata_lines(report: Report, duration: Seq<char>) -> (lines: Seq<Seq<char>>)
    ensures
        text::is_lines(metadata_section(report, duration), lines),
        lines.len() == 21,
        lines[1].len() == 0 && lines[3].len() == 0,
        lines[0] == "# Block Benchie: "@ + escape::cell_text(report.device.label@),
        lines[2] == "## Metadata"@,
        lines[4] == "| Field | Value |"@,
        lines[5] == "| --- | --- |"@,
        lines[6] == row("Generated Unix seconds"@, text::decimal(report.run.generated_unix_seconds as nat)).drop_last(),
        lines[7] == row("Generated UTC"@, report.run.generated_utc@).drop_last(),
        lines[8] == row("Input path"@, path::lossy_text(report.device.input_path@)).drop_last(),
        lines[9] == row("Canonical path"@, path::lossy_text(report.device.canonical_path@)).drop_last(),
        lines[10] == row("By-id path"@, link_text(report.device.by_id_path)).drop_last(),
        lines[11] == row("SVG output"@, path::lossy_text(report.svg_output@)).drop_last(),
        lines[12] == row("Markdown output"@, path::lossy_text(report.markdown_output@)).drop_last(),
        lines[13] == row("I/O mode"@, "direct"@).drop_last(),
        lines[14] == row("Open flag"@, "O_DIRECT"@).drop_last(),
        lines[15] == row("Device size"@, size_text(report.device_size as nat)).drop_last(),
        lines[16] == row("Sample duration"@, duration).drop_last(),
        lines[17] == row("Samples"@, text::decimal(report.samples.len() as nat)).drop_last(),
        lines[18] == row("End runway"@, size_text(END_RUNWAY_BYTES as nat)).drop_last(),
        lines[19] == row("Read chunk size"@, size_text(READ_CHUNK_BYTES as nat)).drop_last(),
        lines[20] == row("Alignment"@, text::decimal(ALIGNMENT as nat) + " bytes"@).drop_last(),
{
    lemma_literals();
    reveal_strlit("\n\n");
    reveal_strlit("## Metadata\n\n");
    reveal_strlit("## Metadata");
    reveal_strlit("| Field | Value |\n");
    reveal_strlit("| Field | Value |");
    reveal_strlit("| --- | --- |\n");
    reveal_strlit("| --- | --- |");
    let title = "# Block Benchie: "@ + escape::cell_text(report.device.label@);
    escape::law_cells_add_no_line_and_no_column(report.device.label@);
    text::lemma_count_joined("# Block Benchie: "@, escape::cell_text(report.device.label@), '\n');
    let t0 = title + "\n\n"@;
    assert("\n\n"@ =~= seq!['\n', '\n']);
    lemma_heading(t0, title);
    let l0 = seq![title, Seq::<char>::empty()];
    let t1 = t0 + "## Metadata\n\n"@;
    text::lemma_count_absent("## Metadata"@, '\n');
    assert("## Metadata\n\n"@ =~= "## Metadata"@ + seq!['\n', '\n']);
    lemma_heading("## Metadata\n\n"@, "## Metadata"@);
    text::lemma_lines_joined(
        t0,
        l0,
        "## Metadata\n\n"@,
        seq!["## Metadata"@, Seq::<char>::empty()],
    );
    let l1 = l0 + seq!["## Metadata"@, Seq::<char>::empty()];
    lemma_line_of("| Field | Value |\n"@);
    lemma_line_of("| --- | --- |\n"@);
    assert("| Field | Value |\n"@.drop_last() =~= "| Field | Value |"@);
    assert("| --- | --- |\n"@.drop_last() =~= "| --- | --- |"@);
    lemma_line_added(t1, l1, "| Field | Value |\n"@);
    let t2 = t1 + "| Field | Value |\n"@;
    let l2 = l1.push("| Field | Value |"@);
    lemma_line_added(t2, l2, "| --- | --- |\n"@);
    let t3 = t2 + "| --- | --- |\n"@;
    let l3 = l2.push("| --- | --- |"@);
    let r0 = row("Generated Unix seconds"@, text::decimal(report.run.generated_unix_seconds as nat));
    law_rows_show_field_and_value("Generated Unix seconds"@, text::decimal(report.run.generated_unix_seconds as nat));
    lemma_line_added(t3, l3, r0);
    let t4 = t3 + r0;
    let l4 = l3.push(r0.drop_last());
    let r1 = row("Generated UTC"@, report.run.generated_utc@);
    law_rows_show_field_and_value("Generated UTC"@, report.run.generated_utc@);
    lemma_line_added(t4, l4, r1);
    let t5 = t4 + r1;
    let l5 = l4.push(r1.drop_last());
    let r2 = row("Input path"@, path::lossy_text(report.device.input_path@));
    law_rows_show_field_and_value("Input path"@, path::lossy_text(report.device.input_path@));
    lemma_line_added(t5, l5, r2);
    let t6 = t5 + r2;
    let l6 = l5.push(r2.drop_last());
    let r3 = row("Canonical path"@, path::lossy_text(report.device.canonical_path@));
    law_rows_show_field_and_value("Canonical path"@, path::lossy_text(report.device.canonical_path@));
    lemma_line_added(t6, l6, r3);
    let t7 = t6 + r3;
    let l7 = l6.push(r3.drop_last());
    let r4 = row("By-id path"@, link_text(report.device.by_id_path));
    law_rows_show_field_and_value("By-id path"@, link_text(report.device.by_id_path));
    lemma_line_added(t7, l7, r4);
    let t8 = t7 + r4;
    let l8 = l7.push(r4.drop_last());
    let r5 = row("SVG output"@, path::lossy_text(report.svg_output@));
    law_rows_show_field_and_value("SVG output"@, path::lossy_text(report.svg_output@));
    lemma_line_added(t8, l8, r5);
    let t9 = t8 + r5;
    let l9 = l8.push(r5.drop_last());
    let r6 = row("Markdown output"@, path::lossy_text(report.markdown_output@));
    law_rows_show_field_and_value("Markdown output"@, path::lossy_text(report.markdown_output@));
    lemma_line_added(t9, l9, r6);
    let t10 = t9 + r6;
    let l10 = l9.push(r6.drop_last());
    let r7 = row("I/O mode"@, "direct"@);
    law_rows_show_field_and_value("I/O mode"@, "direct"@);
    lemma_line_added(t10, l10, r7);
    let t11 = t10 + r7;
    let l11 = l10.push(r7.drop_last());
    let r8 = row("Open flag"@, "O_DIRECT"@);
    law_rows_show_field_and_value("Open flag"@, "O_DIRECT"@);
    lemma_line_added(t11, l11, r8);
    let t12 = t11 + r8;
    let l12 = l11.push(r8.drop_last());
    let r9 = row("Device size"@, size_text(report.device_size as nat));
    law_rows_show_field_and_value("Device size"@, size_text(report.device_size as nat));
    lemma_line_added(t12, l12, r9);
    let t13 = t12 + r9;
    let l13 = l12.push(r9.drop_last());
    let r10 = row("Sample duration"@, duration);
    law_rows_show_field_and_value("Sample duration"@, duration);
    lemma_line_added(t13, l13, r10);
    let t14 = t13 + r10;
    let l14 = l13.push(r10.drop_last());
    let r11 = row("Samples"@, text::decimal(report.samples.len() as nat));
    law_rows_show_field_and_value("Samples"@, text::decimal(report.samples.len() as nat));
    lemma_line_added(t14, l14, r11);
    let t15 = t14 + r11;
    let l15 = l14.push(r11.drop_last());
    let r12 = row("End runway"@, size_text(END_RUNWAY_BYTES as nat));
    law_rows_show_field_and_value("End runway"@, size_text(END_RUNWAY_BYTES as nat));
    lemma_line_added(t15, l15, r12);
    let t16 = t15 + r12;
    let l16 = l15.push(r12.drop_last());
    let r13 = row("Read chunk size"@, size_text(READ_CHUNK_BYTES as nat));
    law_rows_show_field_and_value("Read chunk size"@, size_text(READ_CHUNK_BYTES as nat));
    lemma_line_added(t16, l16, r13);
    let t17 = t16 + r13;
    let l17 = l16.push(r13.drop_last());
    let r14 = row("Alignment"@, text::decimal(ALIGNMENT as nat) + " bytes"@);
    law_rows_show_field_and_value("Alignment"@, text::decimal(ALIGNMENT as nat) + " bytes"@);
    lemma_line_added(t17, l17, r14);
    let t18 = t17 + r14;
    let l18 = l17.push(r14.drop_last());
    assert(t18 == metadata_section(report, duration));
    l18
}

proof fn lemma_summary_lines(summary: SummaryStats) -> (lines: Seq<Seq<char>>)
    ensures
        text::is_lines(summary_section(summary), lines),
        lines.len() == 8,
        lines[0].len() == 0,
        lines[1] == "## Summary"@,
        lines[2].len() == 0,
        lines[3] == "| Metric | Value |"@,
        lines[4] == "| --- | --- |"@,
        lines[5] == row("Minimum"@, summary.min_rate@ + " MiB/s"@).drop_last(),
        lines[6] == row("Average"@, summary.average_rate@ + " MiB/s"@).drop_last(),
        lines[7] == row("Maximum"@, summary.max_rate@ + " MiB/s"@).drop_last(),
{
    lemma_literals();
    reveal_strlit("\n## Summary\n\n");
    reveal_strlit("## Summary");
    reveal_strlit("| Metric | Value |\n");
    reveal_strlit("| Metric | Value |");
    reveal_strlit("| --- | --- |\n");
    reveal_strlit("| --- | --- |");
    let t0 = "\n## Summary\n\n"@;
    let l0 = lemma_section_title(t0, "## Summary"@);
    lemma_line_of("| Metric | Value |\n"@);
    lemma_line_of("| --- | --- |\n"@);
    assert("| Metric | Value |\n"@.drop_last() =~= "| Metric | Value |"@);
    assert("| --- | --- |\n"@.drop_last() =~= "| --- | --- |"@);
    lemma_line_added(t0, l0, "| Metric | Value |\n"@);
    let t1 = t0 + "| Metric | Value |\n"@;
    let l1 = l0.push("| Metric | Value |"@);
    lemma_line_added(t1, l1, "| --- | --- |\n"@);
    let t2 = t1 + "| --- | --- |\n"@;
    let l2 = l1.push("| --- | --- |"@);
    let r0 = row("Minimum"@, summary.min_rate@ + " MiB/s"@);
    law_rows_show_field_and_value("Minimum"@, summary.min_rate@ + " MiB/s"@);
    lemma_line_added(t2, l2, r0);
    let t3 = t2 + r0;
    let l3 = l2.push(r0.drop_last());
    let r1 = row("Average"@, summary.average_rate@ + " MiB/s"@);
    law_rows_show_field_and_value("Average"@, summary.average_rate@ + " MiB/s"@);
    lemma_line_added(t3, l3, r1);
    let t4 = t3 + r1;
    let l4 = l3.push(r1.drop_last());
    let r2 = row("Maximum"@, summary.max_rate@ + " MiB/s"@);
    law_rows_show_field_and_value("Maximum"@, summary.max_rate@ + " MiB/s"@);
    lemma_line_added(t4, l4, r2);
    let t5 = t4 + r2;
    let l5 = l4.push(r2.drop_last());
    assert(t5 == summary_section(summary));
    l5
}

/// A heading behind an empty line and before another.
proof fn lemma_section_title(whole: Seq<char>, heading: Seq<char>) -> (lines: Seq<Seq<char>>)
    requires
        forall|i: int| 0 <= i < heading.len() ==> heading[i] != '\n',
        whole =~= seq!['\n'] + heading + seq!['\n', '\n'],
    ensures
        text::is_lines(whole, lines),
        lines.len() == 3,
        lines[0].len() == 0,
        lines[1] == heading,
        lines[2].len() == 0,
{
    let none = Seq::<char>::empty();
    let rest = heading + seq!['\n', '\n'];
    text::lemma_count_absent(heading, '\n');
    lemma_heading(rest, heading);
    text::lemma_one_line(none);
    text::lemma_lines_joined(none.push('\n'), seq![none], rest, seq![heading, none]);
    assert(none.push('\n') + rest =~= whole);
    seq![none] + seq![heading, none]
}

/// The lines of the sample table.
proof fn lemma_samples_section_lines(samples: Seq<Sample>)
    requires
        forall|i: int| 0 <= i < samples.len() ==> (#[trigger] samples[i]).is_plain(),
    ensures
        ({
            let lines = text::split(samples_section(samples), '\n');
            &&& lines.len() == 6 + samples.len()
            &&& lines[0].len() == 0 && lines[2].len() == 0 && lines.last().len() == 0
            &&& lines[1] == "## Samples"@
            &&& lines[3]
                == "| Sample | Position | Offset | Bytes read | Elapsed seconds | MiB/s |"@
            &&& lines[4] == "| ---: | ---: | ---: | ---: | ---: | ---: |"@
            &&& forall|i: int|
                0 <= i < samples.len() ==> #[trigger] lines[5 + i] == sample_row(
                    samples[i],
                ).drop_last()
        }),
{
    lemma_literals();
    reveal_strlit("\n## Samples\n\n");
    reveal_strlit("## Samples");
    reveal_strlit("| Sample | Position | Offset | Bytes read | Elapsed seconds | MiB/s |\n");
    reveal_strlit("| Sample | Position | Offset | Bytes read | Elapsed seconds | MiB/s |");
    reveal_strlit("| ---: | ---: | ---: | ---: | ---: | ---: |\n");
    reveal_strlit("| ---: | ---: | ---: | ---: | ---: | ---: |");
    let head = "| Sample | Position | Offset | Bytes read | Elapsed seconds | MiB/s |\n"@;
    let rule = "| ---: | ---: | ---: | ---: | ---: | ---: |\n"@;
    let t0 = "\n## Samples\n\n"@;
    let l0 = lemma_section_title(t0, "## Samples"@);
    lemma_line_of(head);
    lemma_line_of(rule);
    assert(head.drop_last()
        =~= "| Sample | Position | Offset | Bytes read | Elapsed seconds | MiB/s |"@);
    assert(rule.drop_last() =~= "| ---: | ---: | ---: | ---: | ---: | ---: |"@);
    lemma_line_added(t0, l0, head);
    let t1 = t0 + head;
    let l1 = l0.push(head.drop_last());
    lemma_line_added(t1, l1, rule);
    let t2 = t1 + rule;
    let l2 = l1.push(rule.drop_last());
    lemma_sample_lines(samples);
    let rows = Seq::new(samples.len(), |i: int| sample_row(samples[i]).drop_last());
    text::lemma_lines_joined(t2, l2, sample_rows(samples), rows);
    let lines = (l2 + rows).push(seq![]);
    assert forall|i: int| 0 <= i < samples.len() implies #[trigger] lines[5 + i] == sample_row(
        samples[i],
    ).drop_last() by {
        assert((l2 + rows)[5 + i] == rows[i]);
    }
}

/// The lines of the report are those of its three parts.
#[verifier::rlimit(50)]
proof fn lemma_report_lines(report: Report, duration: Seq<char>)
    requires
        report.is_plain(),
    ensures
        ({
            let lines = text::split(document(report, duration), '\n');
            let table = text::split(samples_section(report.samples@), '\n');
            &&& lines.len() == 35 + report.samples@.len()
            &&& lines[1].len() == 0 && lines[3].len() == 0
            &&& lines[21].len() == 0 && lines[23].len() == 0
            &&& lines[29].len() == 0 && lines[31].len() == 0
            &&& lines.last().len() == 0
            &&& lines[0] == "# Block Benchie: "@ + escape::cell_text(report.device.label@)
            &&& lines[2] == "## Metadata"@
            &&& lines[4] == "| Field | Value |"@
            &&& lines[5] == "| --- | --- |"@
            &&& lines[6] == row("Generated Unix seconds"@, text::decimal(report.run.generated_unix_seconds as nat)).drop_last()
            &&& lines[7] == row("Generated UTC"@, report.run.generated_utc@).drop_last()
            &&& lines[8] == row("Input path"@, path::lossy_text(report.device.input_path@)).drop_last()
            &&& lines[9] == row("Canonical path"@, path::lossy_text(report.device.canonical_path@)).drop_last()
            &&& lines[10] == row("By-id path"@, link_text(report.device.by_id_path)).drop_last()
            &&& lines[11] == row("SVG output"@, path::lossy_text(report.svg_output@)).drop_last()
            &&& lines[12] == row("Markdown output"@, path::lossy_text(report.markdown_output@)).drop_last()
            &&& lines[13] == row("I/O mode"@, "direct"@).drop_last()
            &&& lines[14] == row("Open flag"@, "O_DIRECT"@).drop_last()
            &&& lines[15] == row("Device size"@, size_text(report.device_size as nat)).drop_last()
            &&& lines[16] == row("Sample duration"@, duration).drop_last()
            &&& lines[17] == row("Samples"@, text::decimal(report.samples.len() as nat)).drop_last()
            &&& lines[18] == row("End runway"@, size_text(END_RUNWAY_BYTES as nat)).drop_last()
            &&& lines[19] == row("Read chunk size"@, size_text(READ_CHUNK_BYTES as nat)).drop_last()
            &&& lines[20] == row("Alignment"@, text::decimal(ALIGNMENT as nat) + " bytes"@).drop_last()
            &&& lines[22] == "## Summary"@
            &&& lines[24] == "| Metric | Value |"@
            &&& lines[25] == "| --- | --- |"@
            &&& lines[26] == row("Minimum"@, report.summary.min_rate@ + " MiB/s"@).drop_last()
            &&& lines[27] == row("Average"@, report.summary.average_rate@ + " MiB/s"@).drop_last()
            &&& lines[28] == row("Maximum"@, report.summary.max_rate@ + " MiB/s"@).drop_last()
            &&& lines[30] == "## Samples"@
            &&& lines[32]
                == "| Sample | Position | Offset | Bytes read | Elapsed seconds | MiB/s |"@
            &&& lines[33] == "| ---: | ---: | ---: | ---: | ---: | ---: |"@
            &&& forall|k: int| 0 <= k < table.len() ==> #[trigger] lines[29 + k] == table[k]
        }),
{
    let metadata = lemma_metadata_lines(report, duration);
    let summary = lemma_summary_lines(report.summary);
    lemma_samples_section_lines(report.samples@);
    let before = metadata_section(report, duration) + summary_section(report.summary);
    let table = text::split(samples_section(report.samples@), '\n');
    text::lemma_lines_joined(
        metadata_section(report, duration),
        metadata,
        summary_section(report.summary),
        summary,
    );
    text::lemma_last_part(before, '\n');
    text::lemma_split_joined(before, samples_section(report.samples@), '\n');
    let head = metadata + summary;
    let lines = text::split(document(report, duration), '\n');
    assert(text::split(before, '\n').drop_last() =~= head);
    assert(lines =~= head + table);
    assert forall|k: int| 0 <= k < table.len() implies #[trigger] lines[29 + k] == table[k] by {
        assert((head + table)[29 + k] == table[k]);
    }
    assert(lines[29] == table[0] && lines[30] == table[1] && lines[31] == table[2]);
    assert(lines[32] == table[3] && lines[33] == table[4] && lines.last() == table.last());
}

/// Split at its line feeds, the report is a heading with the label, the metadata table, the
/// summary table and the sample table, and each row of the first two shows its field and its own
/// value.
#[verifier::rlimit(50)]
pub proof fn law_report_lines_show_metadata_and_summary(report: Report, duration: Seq<char>)
    requires
        report.is_plain(),
    ensures
        ({
            let lines = text::split(document(report, duration), '\n');
            let device = report.device;
            let summary = report.summary;
            &&& lines.len() == 35 + report.samples@.len()
            &&& lines[1].len() == 0 && lines[3].len() == 0
            &&& lines[21].len() == 0 && lines[23].len() == 0
            &&& lines[29].len() == 0 && lines[31].len() == 0
            &&& lines.last().len() == 0
            &&& lines[0].len() >= 17
            &&& lines[0].take(17) == "# Block Benchie: "@
            &&& escape::cell_shows(lines[0].skip(17), device.label@)
            &&& lines[2] == "## Metadata"@
            &&& lines[4] == "| Field | Value |"@
            &&& lines[5] == "| --- | --- |"@
            &&& shows_row(
                lines[6],
                "Generated Unix seconds"@,
                text::decimal(report.run.generated_unix_seconds as nat),
            )
            &&& shows_row(
                lines[7],
                "Generated UTC"@,
                report.run.generated_utc@,
            )
            &&& shows_row(
                lines[8],
                "Input path"@,
                path::lossy_text(device.input_path@),
            )
            &&& shows_row(
                lines[9],
                "Canonical path"@,
                path::lossy_text(device.canonical_path@),
            )
            &&& shows_row(
                lines[10],
                "By-id path"@,
                match device.by_id_path {
                    Some(link) => path::lossy_text(link@),
                    None => seq![],
                },
            )
            &&& shows_row(
                lines[11],
                "SVG output"@,
                path::lossy_text(report.svg_output@),
            )
            &&& shows_row(
                lines[12],
                "Markdown output"@,
                path::lossy_text(report.markdown_output@),
            )
            &&& shows_row(
                lines[13],
                "I/O mode"@,
                "direct"@,
            )
            &&& shows_row(
                lines[14],
                "Open flag"@,
                "O_DIRECT"@,
            )
            &&& shows_row(
                lines[15],
                "Device size"@,
                human::human_bytes_text(report.device_size as nat) + " ("@ + text::decimal(
                    report.device_size as nat,
                ) + " bytes)"@,
            )
            &&& shows_row(
                lines[16],
                "Sample duration"@,
                duration,
            )
            &&& shows_row(
                lines[17],
                "Samples"@,
                text::decimal(report.samples.len() as nat),
            )
            &&& shows_row(
                lines[18],
                "End runway"@,
                human::human_bytes_text(0x4000_0000) + " ("@ + text::decimal(0x4000_0000)
                    + " bytes)"@,
            )
            &&& shows_row(
                lines[19],
                "Read chunk size"@,
                human::human_bytes_text(0x40_0000) + " ("@ + text::decimal(0x40_0000)
                    + " bytes)"@,
            )
            &&& shows_row(
                lines[20],
                "Alignment"@,
                text::decimal(4096) + " bytes"@,
            )
            &&& lines[22] == "## Summary"@
            &&& lines[24] == "| Metric | Value |"@
            &&& lines[25] == "| --- | --- |"@
            &&& shows_row(lines[26], "Minimum"@, summary.min_rate@ + " MiB/s"@)
            &&& shows_row(lines[27], "Average"@, summary.average_rate@ + " MiB/s"@)
            &&& shows_row(lines[28], "Maximum"@, summary.max_rate@ + " MiB/s"@)
            &&& lines[30] == "## Samples"@
            &&& lines[32]
                == "| Sample | Position | Offset | Bytes read | Elapsed seconds | MiB/s |"@
            &&& lines[33] == "| ---: | ---: | ---: | ---: | ---: | ---: |"@
        }),
{
    reveal_strlit("# Block Benchie: ");
    lemma_report_lines(report, duration);
    let lines = text::split(document(report, duration), '\n');
    escape::law_cells_read_back_strictly(report.device.label@);
    assert(lines[0].take(17) =~= "# Block Benchie: "@);
    assert(lines[0].skip(17) =~= escape::cell_text(report.device.label@));
    law_rows_show_field_and_value("Generated Unix seconds"@, text::decimal(report.run.generated_unix_seconds as nat));
    law_rows_show_field_and_value("Generated UTC"@, report.run.generated_utc@);
    law_rows_show_field_and_value("Input path"@, path::lossy_text(report.device.input_path@));
    law_rows_show_field_and_value("Canonical path"@, path::lossy_text(report.device.canonical_path@));
    law_rows_show_field_and_value("By-id path"@, link_text(report.device.by_id_path));
    law_rows_show_field_and_value("SVG output"@, path::lossy_text(report.svg_output@));
    law_rows_show_field_and_value("Markdown output"@, path::lossy_text(report.markdown_output@));
    law_rows_show_field_and_value("I/O mode"@, "direct"@);
    law_rows_show_field_and_value("Open flag"@, "O_DIRECT"@);
    law_rows_show_field_and_value("Device size"@, size_text(report.device_size as nat));
    law_rows_show_field_and_value("Sample duration"@, duration);
    law_rows_show_field_and_value("Samples"@, text::decimal(report.samples.len() as nat));
    law_rows_show_field_and_value("End runway"@, size_text(END_RUNWAY_BYTES as nat));
    law_rows_show_field_and_value("Read chunk size"@, size_text(READ_CHUNK_BYTES as nat));
    law_rows_show_field_and_value("Alignment"@, text::decimal(ALIGNMENT as nat) + " bytes"@);
    law_rows_show_field_and_value("Minimum"@, report.summary.min_rate@ + " MiB/s"@);
    law_rows_show_field_and_value("Average"@, report.summary.average_rate@ + " MiB/s"@);
    law_rows_show_field_and_value("Maximum"@, report.summary.max_rate@ + " MiB/s"@);
}

/// Behind the lines of the tables before it, each line of the sample table shows its own sample,
/// in order.
pub proof fn law_report_lines_show_the_samples(report: Report, duration: Seq<char>, i: int)
    requires
        report.is_plain(),
        0 <= i < report.samples@.len(),
    ensures
        ({
            let lines = text::split(document(report, duration), '\n');
            &&& lines.len() == 35 + report.samples@.len()
            &&& shows_sample(lines[34 + i], report.samples@[i])
        }),
{
    lemma_report_lines(report, duration);
    law_sample_rows_show_the_sample(report.samples@[i]);
    let table = text::split(samples_section(report.samples@), '\n');
    lemma_samples_section_lines(report.samples@);
    assert(table[5 + i] == sample_row(report.samples@[i]).drop_last());
    let lines = text::split(document(report, duration), '\n');
    assert(lines[29 + (5 + i)] == table[5 + i]);
}

} // verus!
